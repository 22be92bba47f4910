//! Typed reading of dictionary fields: integers, sizes, byte strings and
//! UTF-8 text under a key.

use crate::ascii::string_from_utf8;
use crate::bencode::{entries_view, has_key, key_at, lookup, Bencode, BencodeValue, Entries};
use vstd::prelude::*;
use vstd::utf8::{decode_utf8, valid_utf8};

verus! {

/// The value under `key` in a dictionary; nothing in any other value.
pub open spec fn field(v: Bencode, key: Seq<u8>) -> Option<Bencode> {
    match v {
        Bencode::Dict(entries) => lookup(entries, key),
        _ => None,
    }
}

/// The integer under `key`.
pub open spec fn int_field(v: Bencode, key: Seq<u8>) -> Option<int> {
    match field(v, key) {
        Some(Bencode::Int(n)) => Some(n),
        _ => None,
    }
}

/// The integer under `key`, where it is a size that `usize` holds.
pub open spec fn size_field(v: Bencode, key: Seq<u8>) -> Option<usize> {
    match int_field(v, key) {
        Some(n) => if 0 <= n <= usize::MAX {
            Some(n as usize)
        } else {
            None
        },
        None => None,
    }
}

/// The byte string under `key`.
pub open spec fn bytes_field(v: Bencode, key: Seq<u8>) -> Option<Seq<u8>> {
    match field(v, key) {
        Some(Bencode::Bytes(bytes)) => Some(bytes),
        _ => None,
    }
}

/// The byte string under `key`, read as UTF-8 text.
pub open spec fn text_field(v: Bencode, key: Seq<u8>) -> Option<Seq<char>> {
    match bytes_field(v, key) {
        Some(bytes) => if valid_utf8(bytes) {
            Some(decode_utf8(bytes))
        } else {
            None
        },
        None => None,
    }
}

/// The first entry under a key is the one that `lookup` reads.
pub proof fn lemma_lookup(entries: Entries, key: Seq<u8>, i: int)
    requires
        key_at(entries, key, i),
    ensures
        has_key(entries, key),
        lookup(entries, key) == Some(entries[i].1),
{
    let j = choose|j: int| key_at(entries, key, j);
    assert(key_at(entries, key, j));
    if j < i {
        assert(entries[j].0 != key);
    } else if i < j {
        assert(entries[i].0 != key);
    }
}

/// The place of the first entry under `key`, if there is one.
pub fn dict_find(entries: &Vec<(Vec<u8>, BencodeValue)>, key: &[u8]) -> (found: Option<usize>)
    ensures
        match found {
            Some(i) => key_at(entries_view(entries@), key@, i as int),
            None => !has_key(entries_view(entries@), key@),
        },
{
    let ghost model = entries_view(entries@);
    let mut i: usize = 0;
    while i < entries.len()
        invariant
            i <= entries@.len(),
            model == entries_view(entries@),
            forall|j: int| 0 <= j < i ==> model[j].0 != key@,
        decreases entries@.len() - i,
    {
        if crate::wire::bytes_equal(entries[i].0.as_slice(), key) {
            return Some(i);
        }
        i += 1;
    }
    None
}

/// The value of the first entry under `key`, if there is one.
pub fn dict_get<'a>(entries: &'a Vec<(Vec<u8>, BencodeValue)>, key: &[u8]) -> (found: Option<
    &'a BencodeValue,
>)
    ensures
        match lookup(entries_view(entries@), key@) {
            Some(v) => found matches Some(value) && value@ == v,
            None => found is None,
        },
{
    match dict_find(entries, key) {
        Some(i) => {
            proof {
                lemma_lookup(entries_view(entries@), key@, i as int);
            }
            Some(&entries[i].1)
        },
        None => None,
    }
}

impl BencodeValue {
    /// The value under `key`, when this is a dictionary that holds one.
    pub fn get(&self, key: &[u8]) -> (found: Option<&BencodeValue>)
        ensures
            match field(self@, key@) {
                Some(v) => found matches Some(value) && value@ == v,
                None => found is None,
            },
    {
        match self {
            BencodeValue::Dictionary(entries) => {
                proof {
                    crate::bencode::lemma_view_of_collections(*self);
                }
                dict_get(entries, key)
            },
            _ => None,
        }
    }

    /// The integer under `key`.
    pub fn get_int(&self, key: &[u8]) -> (found: Option<i64>)
        ensures
            match int_field(self@, key@) {
                Some(n) => found == Some(n as i64) && i64::MIN <= n <= i64::MAX,
                None => found is None,
            },
    {
        match self.get(key) {
            Some(BencodeValue::Integer(n)) => Some(*n),
            _ => None,
        }
    }

    /// The integer under `key`, where it is a size that `usize` holds.
    pub fn get_size(&self, key: &[u8]) -> (found: Option<usize>)
        ensures
            found == size_field(self@, key@),
    {
        match self.get_int(key) {
            Some(n) => {
                if n < 0 {
                    None
                } else if n as u64 > usize::MAX as u64 {
                    None
                } else {
                    Some(n as usize)
                }
            },
            None => None,
        }
    }

    /// The byte string under `key`.
    pub fn get_bytes(&self, key: &[u8]) -> (found: Option<&Vec<u8>>)
        ensures
            match bytes_field(self@, key@) {
                Some(bytes) => found matches Some(b) && b@ == bytes,
                None => found is None,
            },
    {
        match self.get(key) {
            Some(BencodeValue::ByteString(bytes)) => Some(bytes),
            _ => None,
        }
    }

    /// The byte string under `key`, read as UTF-8 text.
    pub fn get_text(&self, key: &[u8]) -> (found: Option<String>)
        ensures
            match text_field(self@, key@) {
                Some(text) => found matches Some(s) && s@ == text,
                None => found is None,
            },
    {
        match self.get_bytes(key) {
            Some(bytes) => string_from_utf8(bytes.as_slice()),
            None => None,
        }
    }
}

} // verus!
