//! The bencode value grammar: byte strings, integers, lists and
//! dictionaries, with what each byte sequence decodes to and how each value
//! is written.

use crate::decimal::{
    all_digits, decimal_digits, digits_value, is_all_digits, is_digit, parse_digits, parse_i64,
    parse_signed, push_decimal, push_signed_decimal, signed_decimal,
};
use vstd::slice::{slice_subrange, slice_to_vec};
use crate::bencode_laws::lemma_decode_encode_whole;
use crate::wire::{append_bytes, bytes_equal};
use vstd::prelude::*;

verus! {

/// `:` between a byte string's length and its bytes.
pub const COLON: u8 = 0x3a;

/// `i`, which opens an integer.
pub const TAG_INT: u8 = 0x69;

/// `l`, which opens a list.
pub const TAG_LIST: u8 = 0x6c;

/// `d`, which opens a dictionary.
pub const TAG_DICT: u8 = 0x64;

/// `e`, which closes an integer, a list or a dictionary.
pub const TAG_END: u8 = 0x65;

/// Why a byte sequence is not a bencoded value.
#[derive(Clone, Copy, Debug, PartialEq, Eq, Structural)]
pub enum DecodeError {
    /// The input ended where a value, a delimiter or more bytes were due.
    UnexpectedEof,
    /// A value starts with a byte that opens none of the four kinds.
    UnrecognizedTag,
    /// A dictionary key is not a byte string.
    InvalidKeyType,
    /// The length before a `:` is not a run of digits.
    InvalidLength,
    /// The text between `i` and `e` is not a signed 64-bit decimal number.
    InvalidInteger,
}

/// A bencoded value. A dictionary keeps its entries in the order in which
/// they were first met.
#[derive(Debug, PartialEq, Eq)]
pub enum BencodeValue {
    ByteString(Vec<u8>),
    Integer(i64),
    List(Vec<BencodeValue>),
    Dictionary(Vec<(Vec<u8>, BencodeValue)>),
}

/// The mathematical value that a `BencodeValue` stands for.
pub enum Bencode {
    Bytes(Seq<u8>),
    Int(int),
    List(Seq<Bencode>),
    Dict(Seq<(Seq<u8>, Bencode)>),
}

/// The entries of a dictionary in the model.
pub type Entries = Seq<(Seq<u8>, Bencode)>;

/// The mathematical value of `value`, item by item and entry by entry.
pub open spec fn model_of(value: BencodeValue) -> Bencode
    decreases value,
{
    match value {
        BencodeValue::ByteString(bytes) => Bencode::Bytes(bytes@),
        BencodeValue::Integer(n) => Bencode::Int(n as int),
        BencodeValue::List(items) => Bencode::List(
            Seq::new(
                items@.len(),
                |i: int|
                    if 0 <= i < items@.len() {
                        model_of(items@[i])
                    } else {
                        Bencode::Int(0)
                    },
            ),
        ),
        BencodeValue::Dictionary(entries) => Bencode::Dict(
            Seq::new(
                entries@.len(),
                |i: int|
                    if 0 <= i < entries@.len() {
                        (entries@[i].0@, model_of(entries@[i].1))
                    } else {
                        (Seq::<u8>::empty(), Bencode::Int(0))
                    },
            ),
        ),
    }
}

impl View for BencodeValue {
    type V = Bencode;

    open spec fn view(&self) -> Bencode {
        model_of(*self)
    }
}

/// The model of a vector of values, item by item.
pub open spec fn list_view(items: Seq<BencodeValue>) -> Seq<Bencode> {
    Seq::new(items.len(), |i: int| items[i]@)
}

/// The model of a vector of dictionary entries, entry by entry.
pub open spec fn entries_view(entries: Seq<(Vec<u8>, BencodeValue)>) -> Entries {
    Seq::new(entries.len(), |i: int| (entries[i].0@, entries[i].1@))
}

/// `i` is the first place where `s` holds `b`.
pub open spec fn first_at(s: Seq<u8>, b: u8, i: int) -> bool {
    &&& 0 <= i < s.len()
    &&& s[i] == b
    &&& forall|j: int| 0 <= j < i ==> s[j] != b
}

/// The first place where `s` holds `b`, if it holds it at all.
pub open spec fn find_byte(s: Seq<u8>, b: u8) -> Option<int> {
    if exists|i: int| first_at(s, b, i) {
        Some(choose|i: int| first_at(s, b, i))
    } else {
        None
    }
}

/// `i` is the first entry of `entries` under `key`.
pub open spec fn key_at(entries: Entries, key: Seq<u8>, i: int) -> bool {
    &&& 0 <= i < entries.len()
    &&& entries[i].0 == key
    &&& forall|j: int| 0 <= j < i ==> entries[j].0 != key
}

/// Whether some entry stands under `key`.
pub open spec fn has_key(entries: Entries, key: Seq<u8>) -> bool {
    exists|i: int| key_at(entries, key, i)
}

/// The value of the first entry under `key`.
pub open spec fn lookup(entries: Entries, key: Seq<u8>) -> Option<Bencode> {
    if has_key(entries, key) {
        Some(entries[choose|i: int| key_at(entries, key, i)].1)
    } else {
        None
    }
}

/// No two entries share a key.
pub open spec fn keys_unique(entries: Entries) -> bool {
    forall|i: int, j: int|
        0 <= i < j < entries.len() ==> (#[trigger] entries[i]).0 != (#[trigger] entries[j]).0
}

/// `entries` with `value` under `key`: in the place of the entry that
/// stood under that key, or at the end when there was none.
pub open spec fn dict_insert(entries: Entries, key: Seq<u8>, value: Bencode) -> Entries {
    if has_key(entries, key) {
        entries.update(choose|i: int| key_at(entries, key, i), (key, value))
    } else {
        entries.push((key, value))
    }
}

/// What decoding yields: the value and the bytes behind it, or the reason
/// why there is no value.
pub type Decoded = Result<(Bencode, Seq<u8>), DecodeError>;

/// Decodes a byte string, `<length>:<bytes>`, at the start of `s`.
pub open spec fn decode_bytes(s: Seq<u8>) -> Decoded {
    match find_byte(s, COLON) {
        None => Err(DecodeError::UnexpectedEof),
        Some(colon) => {
            let rest = s.skip(colon + 1);
            let n = digits_value(s.take(colon));
            if !all_digits(s.take(colon)) {
                Err(DecodeError::InvalidLength)
            } else if n > rest.len() {
                Err(DecodeError::UnexpectedEof)
            } else {
                Ok((Bencode::Bytes(rest.take(n as int)), rest.skip(n as int)))
            }
        },
    }
}

/// Decodes an integer, `i<number>e`, at the start of `s`.
pub open spec fn decode_int(s: Seq<u8>) -> Decoded {
    match find_byte(s.skip(1), TAG_END) {
        None => Err(DecodeError::UnexpectedEof),
        Some(end) => match parse_signed(s.skip(1).take(end)) {
            None => Err(DecodeError::InvalidInteger),
            Some(v) => Ok((Bencode::Int(v), s.skip(1).skip(end + 1))),
        },
    }
}

/// Decodes the one value at the start of `s`, by its leading byte.
pub open spec fn decode_value(s: Seq<u8>) -> Decoded
    decreases s.len(), 0nat,
{
    if s.len() == 0 {
        Err(DecodeError::UnexpectedEof)
    } else if is_digit(s[0]) {
        decode_bytes(s)
    } else if s[0] == TAG_INT {
        decode_int(s)
    } else if s[0] == TAG_LIST {
        match decode_items(s.skip(1), Seq::empty()) {
            Ok((items, rest)) => Ok((Bencode::List(items), rest)),
            Err(e) => Err(e),
        }
    } else if s[0] == TAG_DICT {
        match decode_entries(s.skip(1), Seq::empty()) {
            Ok((entries, rest)) => Ok((Bencode::Dict(entries), rest)),
            Err(e) => Err(e),
        }
    } else {
        Err(DecodeError::UnrecognizedTag)
    }
}

/// Decodes the items of a list up to its closing `e`, behind the items
/// `acc` that were decoded before. Every item takes one byte at least
/// (`lemma_decode_value_sound`), so the case in which nothing was taken
/// never comes; it stands here for the termination of this definition.
pub open spec fn decode_items(s: Seq<u8>, acc: Seq<Bencode>) -> Result<
    (Seq<Bencode>, Seq<u8>),
    DecodeError,
>
    decreases s.len(), 1nat,
{
    if s.len() == 0 {
        Err(DecodeError::UnexpectedEof)
    } else if s[0] == TAG_END {
        Ok((acc, s.skip(1)))
    } else {
        match decode_value(s) {
            Err(e) => Err(e),
            Ok((item, rest)) => if rest.len() < s.len() {
                decode_items(rest, acc.push(item))
            } else {
                Err(DecodeError::UnexpectedEof)
            },
        }
    }
}

/// Decodes the entries of a dictionary up to its closing `e`, behind the
/// entries `acc` that were decoded before. A key has to be a byte string;
/// one that occurs again replaces the value of its entry. As for a list,
/// the cases in which nothing was taken never come.
pub open spec fn decode_entries(s: Seq<u8>, acc: Entries) -> Result<(Entries, Seq<u8>), DecodeError>
    decreases s.len(), 1nat,
{
    if s.len() == 0 {
        Err(DecodeError::UnexpectedEof)
    } else if s[0] == TAG_END {
        Ok((acc, s.skip(1)))
    } else {
        match decode_value(s) {
            Err(e) => Err(e),
            Ok((Bencode::Bytes(key), after_key)) => if after_key.len() < s.len() {
                match decode_value(after_key) {
                    Err(e) => Err(e),
                    Ok((value, rest)) => if rest.len() <= after_key.len() {
                        decode_entries(rest, dict_insert(acc, key, value))
                    } else {
                        Err(DecodeError::UnexpectedEof)
                    },
                }
            } else {
                Err(DecodeError::UnexpectedEof)
            },
            Ok(_) => Err(DecodeError::InvalidKeyType),
        }
    }
}

/// How a byte string is written: its length in decimal, `:`, its bytes.
pub open spec fn encode_bytes(bytes: Seq<u8>) -> Seq<u8> {
    decimal_digits(bytes.len()) + seq![COLON] + bytes
}

/// How a value is written.
pub open spec fn encode_value(v: Bencode) -> Seq<u8>
    decreases v, 0nat,
{
    match v {
        Bencode::Bytes(bytes) => encode_bytes(bytes),
        Bencode::Int(n) => seq![TAG_INT] + signed_decimal(n) + seq![TAG_END],
        Bencode::List(items) => seq![TAG_LIST] + encode_items(items, 0) + seq![TAG_END],
        Bencode::Dict(entries) => seq![TAG_DICT] + encode_entries(entries, 0) + seq![TAG_END],
    }
}

/// The items of a list from the `from`-th on, written one behind the other.
pub open spec fn encode_items(items: Seq<Bencode>, from: int) -> Seq<u8>
    decreases items, items.len() - from,
{
    if 0 <= from < items.len() {
        encode_value(items[from]) + encode_items(items, from + 1)
    } else {
        Seq::empty()
    }
}

/// The entries of a dictionary from the `from`-th on, each as its key
/// followed by its value, in the order in which the dictionary holds them.
pub open spec fn encode_entries(entries: Entries, from: int) -> Seq<u8>
    decreases entries, entries.len() - from,
{
    if 0 <= from < entries.len() {
        encode_bytes(entries[from].0) + encode_value(entries[from].1) + encode_entries(
            entries,
            from + 1,
        )
    } else {
        Seq::empty()
    }
}

/// A value that can be held and written: its integers fit in 64 bits and
/// no dictionary in it has two entries under one key.
pub open spec fn well_formed(v: Bencode) -> bool
    decreases v,
{
    match v {
        Bencode::Bytes(_) => true,
        Bencode::Int(n) => i64::MIN <= n <= i64::MAX,
        Bencode::List(items) => forall|i: int|
            0 <= i < items.len() ==> well_formed(#[trigger] items[i]),
        Bencode::Dict(entries) => keys_unique(entries) && forall|i: int|
            0 <= i < entries.len() ==> well_formed((#[trigger] entries[i]).1),
    }
}

/// The model of `BencodeValue::List(items)` is the list of the items'
/// models, and likewise for a dictionary.
pub proof fn lemma_view_of_collections(value: BencodeValue)
    ensures
        value matches BencodeValue::List(items) ==> value@ == Bencode::List(list_view(items@)),
        value matches BencodeValue::Dictionary(entries) ==> value@ == Bencode::Dict(
            entries_view(entries@),
        ),
{
    match value {
        BencodeValue::List(items) => {
            assert(value@->List_0 =~= list_view(items@));
        },
        BencodeValue::Dictionary(entries) => {
            assert(value@->Dict_0 =~= entries_view(entries@));
        },
        _ => {},
    }
}

/// An entry under `key` at place `j` means that some entry is the first
/// under that key.
pub proof fn lemma_has_key(entries: Entries, key: Seq<u8>, j: int)
    requires
        0 <= j < entries.len(),
        entries[j].0 == key,
    ensures
        has_key(entries, key),
    decreases j,
{
    if exists|k: int| 0 <= k < j && entries[k].0 == key {
        let k = choose|k: int| 0 <= k < j && entries[k].0 == key;
        lemma_has_key(entries, key, k);
    } else {
        assert(key_at(entries, key, j));
    }
}

/// Putting a value under a key keeps the keys of a dictionary distinct.
pub proof fn lemma_dict_insert_unique(entries: Entries, key: Seq<u8>, value: Bencode)
    requires
        keys_unique(entries),
    ensures
        keys_unique(dict_insert(entries, key, value)),
{
    let after = dict_insert(entries, key, value);
    if has_key(entries, key) {
        assert forall|i: int, j: int| 0 <= i < j < after.len() implies (#[trigger] after[i]).0 != (
        #[trigger] after[j]).0 by {
            assert(after[i].0 == entries[i].0);
            assert(after[j].0 == entries[j].0);
        }
    } else {
        assert forall|i: int, j: int| 0 <= i < j < after.len() implies (#[trigger] after[i]).0 != (
        #[trigger] after[j]).0 by {
            if j == entries.len() {
                if entries[i].0 == key {
                    lemma_has_key(entries, key, i);
                }
            } else {
                assert(after[i].0 == entries[i].0);
                assert(after[j].0 == entries[j].0);
            }
        }
    }
}

/// What `decode_at` owes for the value that starts at `pos`: the value
/// that the grammar gives with the place behind it, or the grammar's error.
spec fn decoded_at(
    input: Seq<u8>,
    pos: int,
    r: Result<(BencodeValue, usize), DecodeError>,
) -> bool {
    match decode_value(input.skip(pos)) {
        Ok((v, rest)) => {
            &&& r matches Ok((value, next))
            &&& value@ == v
            &&& well_formed(v)
            &&& pos < next <= input.len()
            &&& rest == input.skip(next as int)
        },
        Err(e) => r matches Err(err) && err == e,
    }
}

/// The first place at or behind `from` where `input` holds `b`.
fn find_from(input: &[u8], from: usize, b: u8) -> (found: Option<usize>)
    requires
        from <= input@.len(),
    ensures
        match found {
            Some(at) => from <= at < input@.len() && find_byte(input@.skip(from as int), b)
                == Some(at - from),
            None => find_byte(input@.skip(from as int), b) is None,
        },
{
    let ghost s = input@.skip(from as int);
    let mut i: usize = from;
    while i < input.len()
        invariant
            from <= i <= input@.len(),
            s == input@.skip(from as int),
            forall|j: int| 0 <= j < i - from ==> s[j] != b,
        decreases input@.len() - i,
    {
        if input[i] == b {
            assert(first_at(s, b, i - from));
            return Some(i);
        }
        i += 1;
    }
    None
}

/// Puts `value` under `key`: in the place of the first entry under that
/// key, or at the end when there is none.
fn dict_put(entries: &mut Vec<(Vec<u8>, BencodeValue)>, key: Vec<u8>, value: BencodeValue)
    ensures
        entries_view(final(entries)@) == dict_insert(entries_view(old(entries)@), key@, value@),
{
    let ghost before = entries_view(entries@);
    let mut i: usize = 0;
    while i < entries.len()
        invariant
            i <= entries@.len(),
            entries@ == old(entries)@,
            before == entries_view(entries@),
            forall|j: int| 0 <= j < i ==> before[j].0 != key@,
        decreases entries@.len() - i,
    {
        if bytes_equal(entries[i].0.as_slice(), key.as_slice()) {
            assert(key_at(before, key@, i as int));
            entries.set(i, (key, value));
            assert(entries_view(entries@) =~= before.update(i as int, (key@, value@)));
            return;
        }
        i += 1;
    }
    entries.push((key, value));
    assert(!has_key(before, key@));
    assert(entries_view(entries@) =~= before.push((key@, value@)));
}

/// Decodes the byte string that starts at `pos`.
fn decode_bytes_at(input: &[u8], pos: usize) -> (r: Result<(BencodeValue, usize), DecodeError>)
    requires
        pos < input@.len(),
        is_digit(input@[pos as int]),
    ensures
        decoded_at(input@, pos as int, r),
{
    let ghost s = input@.skip(pos as int);
    let total: usize = input.len();
    let colon: usize = match find_from(input, pos, COLON) {
        None => {
            return Err(DecodeError::UnexpectedEof);
        },
        Some(c) => c,
    };
    let from: usize = colon + 1;
    let length_text: &[u8] = slice_subrange(input, pos, colon);
    proof {
        assert(s.take(colon - pos) =~= length_text@);
        assert(s.skip(colon - pos + 1) =~= input@.skip(from as int));
    }
    if !is_all_digits(length_text) {
        return Err(DecodeError::InvalidLength);
    }
    let available: usize = total - from;
    match parse_digits(length_text) {
        None => Err(DecodeError::UnexpectedEof),
        Some(n) => {
            if n > available as u64 {
                Err(DecodeError::UnexpectedEof)
            } else {
                let len: usize = n as usize;
                let bytes = slice_to_vec(slice_subrange(input, from, from + len));
                proof {
                    assert(input@.skip(from as int).take(len as int) =~= input@.subrange(
                        from as int,
                        from + len,
                    ));
                    assert(input@.skip(from as int).skip(len as int) =~= input@.skip(from + len));
                }
                Ok((BencodeValue::ByteString(bytes), from + len))
            }
        },
    }
}

/// Decodes the integer that starts at `pos`.
fn decode_int_at(input: &[u8], pos: usize) -> (r: Result<(BencodeValue, usize), DecodeError>)
    requires
        pos < input@.len(),
        input@[pos as int] == TAG_INT,
    ensures
        decoded_at(input@, pos as int, r),
{
    let ghost s = input@.skip(pos as int);
    let total: usize = input.len();
    proof {
        assert(s.skip(1) =~= input@.skip(pos + 1));
    }
    let end: usize = match find_from(input, pos + 1, TAG_END) {
        None => {
            return Err(DecodeError::UnexpectedEof);
        },
        Some(e) => e,
    };
    let number: &[u8] = slice_subrange(input, pos + 1, end);
    proof {
        assert(s.skip(1).take(end - (pos + 1)) =~= number@);
        assert(s.skip(1).skip(end - (pos + 1) + 1) =~= input@.skip(end + 1));
    }
    match parse_i64(number) {
        None => Err(DecodeError::InvalidInteger),
        Some(v) => Ok((BencodeValue::Integer(v), end + 1)),
    }
}

/// Decodes the list that starts at `pos`.
fn decode_list_at(input: &[u8], pos: usize) -> (r: Result<(BencodeValue, usize), DecodeError>)
    requires
        pos < input@.len(),
        input@[pos as int] == TAG_LIST,
    ensures
        decoded_at(input@, pos as int, r),
    decreases input@.len() - pos, 0nat,
{
    let total: usize = input.len();
    let mut items: Vec<BencodeValue> = Vec::new();
    let mut cur: usize = pos + 1;
    proof {
        assert(input@.skip(pos as int).skip(1) =~= input@.skip(pos + 1));
        assert(list_view(items@) =~= Seq::<Bencode>::empty());
    }
    loop
        invariant
            pos < cur <= input@.len(),
            total == input@.len(),
            input@[pos as int] == TAG_LIST,
            decode_items(input@.skip(cur as int), list_view(items@)) == decode_items(
                input@.skip(pos as int).skip(1),
                Seq::empty(),
            ),
            forall|i: int| 0 <= i < items@.len() ==> well_formed(#[trigger] list_view(items@)[i]),
        decreases input@.len() - cur,
    {
        if cur >= total {
            return Err(DecodeError::UnexpectedEof);
        }
        if input[cur] == TAG_END {
            let value = BencodeValue::List(items);
            proof {
                lemma_view_of_collections(value);
                assert(input@.skip(cur as int).skip(1) =~= input@.skip(cur + 1));
            }
            return Ok((value, cur + 1));
        }
        match decode_at(input, cur) {
            Err(e) => {
                return Err(e);
            },
            Ok((item, next)) => {
                proof {
                    assert(list_view(items@.push(item)) =~= list_view(items@).push(item@));
                }
                items.push(item);
                cur = next;
            },
        }
    }
}

/// Decodes the dictionary that starts at `pos`.
fn decode_dict_at(input: &[u8], pos: usize) -> (r: Result<(BencodeValue, usize), DecodeError>)
    requires
        pos < input@.len(),
        input@[pos as int] == TAG_DICT,
    ensures
        decoded_at(input@, pos as int, r),
    decreases input@.len() - pos, 0nat,
{
    let total: usize = input.len();
    let mut entries: Vec<(Vec<u8>, BencodeValue)> = Vec::new();
    let mut cur: usize = pos + 1;
    proof {
        assert(input@.skip(pos as int).skip(1) =~= input@.skip(pos + 1));
        assert(entries_view(entries@) =~= Seq::<(Seq<u8>, Bencode)>::empty());
    }
    loop
        invariant
            pos < cur <= input@.len(),
            total == input@.len(),
            input@[pos as int] == TAG_DICT,
            decode_entries(input@.skip(cur as int), entries_view(entries@)) == decode_entries(
                input@.skip(pos as int).skip(1),
                Seq::empty(),
            ),
            keys_unique(entries_view(entries@)),
            forall|i: int|
                0 <= i < entries@.len() ==> well_formed((#[trigger] entries_view(entries@)[i]).1),
        decreases input@.len() - cur,
    {
        if cur >= total {
            return Err(DecodeError::UnexpectedEof);
        }
        if input[cur] == TAG_END {
            let value = BencodeValue::Dictionary(entries);
            proof {
                lemma_view_of_collections(value);
                assert(input@.skip(cur as int).skip(1) =~= input@.skip(cur + 1));
            }
            return Ok((value, cur + 1));
        }
        let (key_value, after_key) = match decode_at(input, cur) {
            Err(e) => {
                return Err(e);
            },
            Ok(decoded) => decoded,
        };
        let key: Vec<u8> = match key_value {
            BencodeValue::ByteString(bytes) => bytes,
            _ => {
                return Err(DecodeError::InvalidKeyType);
            },
        };
        assert(decode_value(input@.skip(cur as int)) matches Ok((Bencode::Bytes(k), _)) && k
            == key@);
        if after_key >= total {
            assert(decode_value(input@.skip(after_key as int)) == Err::<
                (Bencode, Seq<u8>),
                DecodeError,
            >(DecodeError::UnexpectedEof));
            return Err(DecodeError::UnexpectedEof);
        }
        let (value, next) = match decode_at(input, after_key) {
            Err(e) => {
                return Err(e);
            },
            Ok(decoded) => decoded,
        };
        proof {
            let before = entries_view(entries@);
            let after = dict_insert(before, key@, value@);
            lemma_dict_insert_unique(before, key@, value@);
            assert forall|i: int| 0 <= i < after.len() implies well_formed(
                (#[trigger] after[i]).1,
            ) by {
                if i < before.len() && after[i] == before[i] {
                    assert(well_formed(before[i].1));
                }
            }
        }
        dict_put(&mut entries, key, value);
        cur = next;
    }
}

/// Decodes the one value that starts at `pos` and says where the next byte
/// behind it stands.
fn decode_at(input: &[u8], pos: usize) -> (r: Result<(BencodeValue, usize), DecodeError>)
    requires
        pos <= input@.len(),
    ensures
        decoded_at(input@, pos as int, r),
    decreases input@.len() - pos, 1nat,
{
    if pos >= input.len() {
        return Err(DecodeError::UnexpectedEof);
    }
    let tag: u8 = input[pos];
    if 0x30 <= tag && tag <= 0x39 {
        decode_bytes_at(input, pos)
    } else if tag == TAG_INT {
        decode_int_at(input, pos)
    } else if tag == TAG_LIST {
        decode_list_at(input, pos)
    } else if tag == TAG_DICT {
        decode_dict_at(input, pos)
    } else {
        Err(DecodeError::UnrecognizedTag)
    }
}

/// Decodes the one value at the start of `encoded` and hands it back with
/// the bytes behind it.
pub fn decode_bencoded_value_rec(encoded: &[u8]) -> (r: Result<(BencodeValue, &[u8]), DecodeError>)
    ensures
        match decode_value(encoded@) {
            Ok((v, rest)) => {
                &&& r matches Ok((value, tail))
                &&& value@ == v
                &&& well_formed(v)
                &&& tail@ == rest
            },
            Err(e) => r matches Err(err) && err == e,
        },
{
    assert(encoded@.skip(0) =~= encoded@);
    match decode_at(encoded, 0) {
        Err(e) => Err(e),
        Ok((value, next)) => {
            let tail = slice_subrange(encoded, next, encoded.len());
            assert(tail@ =~= encoded@.skip(next as int));
            Ok((value, tail))
        },
    }
}

/// Decodes the one value at the start of `encoded`. Bytes behind it are
/// left unread.
pub fn decode_bencoded_value(encoded: &[u8]) -> (r: Result<BencodeValue, DecodeError>)
    ensures
        match decode_value(encoded@) {
            Ok((v, _)) => r matches Ok(value) && value@ == v && well_formed(v),
            Err(e) => r matches Err(err) && err == e,
        },
{
    match decode_bencoded_value_rec(encoded) {
        Err(e) => Err(e),
        Ok((value, _)) => Ok(value),
    }
}

/// Appends the byte string `bytes` as it is written: length, `:`, bytes.
pub fn append_byte_string(out: &mut Vec<u8>, bytes: &[u8])
    ensures
        final(out)@ == old(out)@ + encode_bytes(bytes@),
{
    push_decimal(out, bytes.len() as u64);
    out.push(COLON);
    append_bytes(out, bytes);
    assert(final(out)@ =~= old(out)@ + encode_bytes(bytes@));
}

impl BencodeValue {
    /// Appends this value, as it is written, to `out`.
    pub fn encode_into(&self, out: &mut Vec<u8>)
        ensures
            final(out)@ == old(out)@ + encode_value(self@),
        decreases self,
    {
        match self {
            BencodeValue::ByteString(bytes) => {
                append_byte_string(out, bytes.as_slice());
            },
            BencodeValue::Integer(n) => {
                out.push(TAG_INT);
                push_signed_decimal(out, *n);
                out.push(TAG_END);
                assert(final(out)@ =~= old(out)@ + encode_value(self@));
            },
            BencodeValue::List(items) => {
                let ghost model = list_view(items@);
                proof {
                    lemma_view_of_collections(*self);
                }
                out.push(TAG_LIST);
                let mut i: usize = 0;
                while i < items.len()
                    invariant
                        i <= items@.len(),
                        model == list_view(items@),
                        self == BencodeValue::List(*items),
                        out@ + encode_items(model, i as int) == old(out)@ + seq![TAG_LIST]
                            + encode_items(model, 0),
                    decreases items@.len() - i,
                {
                    let ghost before = out@;
                    assert(decreases_to!(self => self->List_0));
                    items[i].encode_into(out);
                    assert(out@ + encode_items(model, i + 1) =~= before + encode_items(
                        model,
                        i as int,
                    ));
                    i += 1;
                }
                out.push(TAG_END);
                assert(final(out)@ =~= old(out)@ + encode_value(self@));
            },
            BencodeValue::Dictionary(entries) => {
                let ghost model = entries_view(entries@);
                proof {
                    lemma_view_of_collections(*self);
                }
                out.push(TAG_DICT);
                let mut i: usize = 0;
                while i < entries.len()
                    invariant
                        i <= entries@.len(),
                        model == entries_view(entries@),
                        self == BencodeValue::Dictionary(*entries),
                        out@ + encode_entries(model, i as int) == old(out)@ + seq![TAG_DICT]
                            + encode_entries(model, 0),
                    decreases entries@.len() - i,
                {
                    let ghost before = out@;
                    append_byte_string(out, entries[i].0.as_slice());
                    assert(decreases_to!(self => self->Dictionary_0));
                    entries[i].1.encode_into(out);
                    assert(out@ + encode_entries(model, i + 1) =~= before + encode_entries(
                        model,
                        i as int,
                    ));
                    i += 1;
                }
                out.push(TAG_END);
                assert(final(out)@ =~= old(out)@ + encode_value(self@));
            },
        }
    }

    /// This value as it is written. Where no dictionary in it holds a key
    /// twice, decoding the bytes gives the value back and leaves nothing.
    pub fn encode(&self) -> (out: Vec<u8>)
        ensures
            out@ == encode_value(self@),
            well_formed(self@) ==> decode_value(out@) == Ok::<(Bencode, Seq<u8>), DecodeError>(
                (self@, Seq::empty()),
            ),
    {
        let mut out: Vec<u8> = Vec::new();
        self.encode_into(&mut out);
        proof {
            assert(out@ =~= encode_value(self@));
            if well_formed(self@) {
                lemma_decode_encode_whole(self@);
            }
        }
        out
    }
}

} // verus!
