//! Decoding undoes encoding: what `encode_value` writes for a well-formed
//! value, `decode_value` reads back as that value, whatever bytes follow.

use crate::bencode::{
    decode_bytes, decode_entries, decode_int, decode_items, decode_value, dict_insert,
    encode_bytes, encode_entries, encode_items, encode_value, find_byte, first_at, has_key,
    key_at, keys_unique, well_formed, Bencode, DecodeError, Entries, COLON, TAG_DICT, TAG_END,
    TAG_INT, TAG_LIST,
};
use crate::decimal::{
    all_digits, decimal_digits, digits_value, is_digit, lemma_decimal_digits,
    lemma_parse_signed_decimal, lemma_signed_decimal_avoids, signed_decimal,
};
use vstd::prelude::*;

verus! {

/// The first place that holds a byte is the one that `find_byte` names.
pub proof fn lemma_find_byte(s: Seq<u8>, b: u8, i: int)
    requires
        first_at(s, b, i),
    ensures
        find_byte(s, b) == Some(i),
{
    let j = choose|j: int| first_at(s, b, j);
    assert(first_at(s, b, j));
    if j < i {
        assert(s[j] != b);
    } else if i < j {
        assert(s[i] != b);
    }
}

/// A written byte string starts with a digit and reads back as itself.
pub proof fn lemma_decode_encode_bytes(bytes: Seq<u8>, rest: Seq<u8>)
    ensures
        encode_bytes(bytes).len() >= 1,
        is_digit(encode_bytes(bytes)[0]),
        decode_bytes(encode_bytes(bytes) + rest) == Ok::<(Bencode, Seq<u8>), DecodeError>(
            (Bencode::Bytes(bytes), rest),
        ),
{
    let digits = decimal_digits(bytes.len());
    let s = encode_bytes(bytes) + rest;
    let colon = digits.len() as int;
    lemma_decimal_digits(bytes.len());
    assert(is_digit(digits[0]));
    assert(encode_bytes(bytes)[0] == digits[0]);
    assert(s[colon] == COLON);
    assert forall|j: int| 0 <= j < colon implies s[j] != COLON by {
        assert(s[j] == digits[j]);
        assert(is_digit(digits[j]));
    }
    lemma_find_byte(s, COLON, colon);
    assert(s.take(colon) =~= digits);
    assert(s.skip(colon + 1) =~= bytes + rest);
    assert((bytes + rest).take(bytes.len() as int) =~= bytes);
    assert((bytes + rest).skip(bytes.len() as int) =~= rest);
}

/// A written integer reads back as itself.
pub proof fn lemma_decode_encode_int(n: int, rest: Seq<u8>)
    requires
        i64::MIN <= n <= i64::MAX,
    ensures
        decode_int(seq![TAG_INT] + signed_decimal(n) + seq![TAG_END] + rest) == Ok::<
            (Bencode, Seq<u8>),
            DecodeError,
        >((Bencode::Int(n), rest)),
{
    let text = signed_decimal(n);
    let s = seq![TAG_INT] + text + seq![TAG_END] + rest;
    let body = s.skip(1);
    let end = text.len() as int;
    lemma_parse_signed_decimal(n);
    lemma_signed_decimal_avoids(n, TAG_END);
    assert(body =~= text + seq![TAG_END] + rest);
    assert(body[end] == TAG_END);
    assert forall|j: int| 0 <= j < end implies body[j] != TAG_END by {
        assert(body[j] == text[j]);
    }
    lemma_find_byte(body, TAG_END, end);
    assert(body.take(end) =~= text);
    assert(body.skip(end + 1) =~= rest);
}

/// Every written value has a first byte, and it is not the closing `e`.
pub proof fn lemma_encode_starts(v: Bencode)
    ensures
        encode_value(v).len() >= 1,
        encode_value(v)[0] != TAG_END,
        v is Bytes ==> is_digit(encode_value(v)[0]),
        v is Int ==> encode_value(v)[0] == TAG_INT,
        v is List ==> encode_value(v)[0] == TAG_LIST,
        v is Dict ==> encode_value(v)[0] == TAG_DICT,
{
    match v {
        Bencode::Bytes(bytes) => {
            lemma_decode_encode_bytes(bytes, Seq::empty());
        },
        _ => {},
    }
}

/// Round trip: the bytes written for a well-formed value, followed by any
/// bytes `rest`, decode to that value and leave `rest`.
pub proof fn lemma_decode_encode(v: Bencode, rest: Seq<u8>)
    requires
        well_formed(v),
    ensures
        decode_value(encode_value(v) + rest) == Ok::<(Bencode, Seq<u8>), DecodeError>((v, rest)),
    decreases v, 0nat,
{
    let s = encode_value(v) + rest;
    lemma_encode_starts(v);
    assert(s[0] == encode_value(v)[0]);
    match v {
        Bencode::Bytes(bytes) => {
            lemma_decode_encode_bytes(bytes, rest);
        },
        Bencode::Int(n) => {
            lemma_decode_encode_int(n, rest);
        },
        Bencode::List(items) => {
            assert(s.skip(1) =~= encode_items(items, 0) + seq![TAG_END] + rest);
            assert(items.take(0) =~= Seq::<Bencode>::empty());
            lemma_decode_encode_items(items, 0, rest);
        },
        Bencode::Dict(entries) => {
            assert(s.skip(1) =~= encode_entries(entries, 0) + seq![TAG_END] + rest);
            assert(entries.take(0) =~= Seq::<(Seq<u8>, Bencode)>::empty());
            lemma_decode_encode_entries(entries, 0, rest);
        },
    }
}

/// The items of a list from the `from`-th on, as written and closed by
/// `e`, decode behind the items before them to the whole list.
pub proof fn lemma_decode_encode_items(items: Seq<Bencode>, from: int, rest: Seq<u8>)
    requires
        0 <= from <= items.len(),
        forall|i: int| 0 <= i < items.len() ==> well_formed(#[trigger] items[i]),
    ensures
        decode_items(encode_items(items, from) + seq![TAG_END] + rest, items.take(from)) == Ok::<
            (Seq<Bencode>, Seq<u8>),
            DecodeError,
        >((items, rest)),
    decreases items, items.len() - from,
{
    let s = encode_items(items, from) + seq![TAG_END] + rest;
    if from == items.len() {
        assert(s =~= seq![TAG_END] + rest);
        assert(s.skip(1) =~= rest);
        assert(items.take(from) =~= items);
    } else {
        let item = items[from];
        let tail = encode_items(items, from + 1) + seq![TAG_END] + rest;
        lemma_encode_starts(item);
        assert(s =~= encode_value(item) + tail);
        assert(s[0] == encode_value(item)[0]);
        lemma_decode_encode(item, tail);
        assert(items.take(from).push(item) =~= items.take(from + 1));
        lemma_decode_encode_items(items, from + 1, rest);
    }
}

/// One entry read: with a key and a value decoded at the start of `s`,
/// the entries of `s` are those behind the value, read behind `acc` with
/// the value put under the key.
pub proof fn lemma_decode_entries_step(
    s: Seq<u8>,
    acc: Entries,
    key: Seq<u8>,
    after_key: Seq<u8>,
    value: Bencode,
    tail: Seq<u8>,
)
    requires
        s.len() > 0,
        s[0] != TAG_END,
        decode_value(s) == Ok::<(Bencode, Seq<u8>), DecodeError>((Bencode::Bytes(key), after_key)),
        after_key.len() < s.len(),
        decode_value(after_key) == Ok::<(Bencode, Seq<u8>), DecodeError>((value, tail)),
        tail.len() <= after_key.len(),
    ensures
        decode_entries(s, acc) == decode_entries(tail, dict_insert(acc, key, value)),
{
}

/// In a dictionary with distinct keys, the key of an entry does not occur
/// among the entries before it, so putting the entry behind them appends it.
pub proof fn lemma_insert_next_entry(entries: Entries, from: int)
    requires
        0 <= from < entries.len(),
        keys_unique(entries),
    ensures
        dict_insert(entries.take(from), entries[from].0, entries[from].1) == entries.take(
            from + 1,
        ),
{
    let before = entries.take(from);
    let key = entries[from].0;
    if has_key(before, key) {
        let j = choose|j: int| key_at(before, key, j);
        assert(key_at(before, key, j));
        assert(before[j] == entries[j]);
        assert(entries[j].0 != entries[from].0);
    }
    assert(before.push(entries[from]) =~= entries.take(from + 1));
}

/// The entries of a dictionary from the `from`-th on, as written and
/// closed by `e`, decode behind the entries before them to the whole
/// dictionary.
pub proof fn lemma_decode_encode_entries(entries: Entries, from: int, rest: Seq<u8>)
    requires
        0 <= from <= entries.len(),
        keys_unique(entries),
        forall|i: int| 0 <= i < entries.len() ==> well_formed((#[trigger] entries[i]).1),
    ensures
        decode_entries(encode_entries(entries, from) + seq![TAG_END] + rest, entries.take(from))
            == Ok::<(Entries, Seq<u8>), DecodeError>((entries, rest)),
    decreases entries, entries.len() - from,
{
    let s = encode_entries(entries, from) + seq![TAG_END] + rest;
    if from == entries.len() {
        assert(s =~= seq![TAG_END] + rest);
        assert(s.skip(1) =~= rest);
        assert(entries.take(from) =~= entries);
    } else {
        let key = entries[from].0;
        let value = entries[from].1;
        let tail = encode_entries(entries, from + 1) + seq![TAG_END] + rest;
        let after_key = encode_value(value) + tail;
        let before = entries.take(from);
        assert(s == encode_bytes(key) + after_key) by {
            assert(s =~= encode_bytes(key) + after_key);
        }
        lemma_decode_encode_bytes(key, after_key);
        assert(s.len() > 0 && is_digit(s[0]) && after_key.len() < s.len());
        assert(well_formed(entries[from].1));
        lemma_decode_encode(value, tail);
        lemma_decode_entries_step(s, before, key, after_key, value, tail);
        lemma_insert_next_entry(entries, from);
        lemma_decode_encode_entries(entries, from + 1, rest);
    }
}

/// Whether `rest` is what is left of `s` behind one byte of it or more.
pub open spec fn proper_suffix(s: Seq<u8>, rest: Seq<u8>) -> bool {
    rest.len() < s.len() && rest == s.skip(s.len() - rest.len())
}

/// What is left behind what is left is left behind the whole.
pub proof fn lemma_suffix_of_suffix(s: Seq<u8>, mid: Seq<u8>, rest: Seq<u8>)
    requires
        mid.len() <= s.len(),
        mid == s.skip(s.len() - mid.len()),
        rest.len() <= mid.len(),
        rest == mid.skip(mid.len() - rest.len()),
    ensures
        rest == s.skip(s.len() - rest.len()),
{
    assert(s.skip(s.len() - mid.len()).skip(mid.len() - rest.len()) =~= s.skip(
        s.len() - rest.len(),
    ));
}

/// Every entry of a dictionary holds a well-formed value.
pub open spec fn values_well_formed(entries: Entries) -> bool {
    forall|i: int| 0 <= i < entries.len() ==> well_formed((#[trigger] entries[i]).1)
}

/// Every item of a list is well-formed.
pub open spec fn items_well_formed(items: Seq<Bencode>) -> bool {
    forall|i: int| 0 <= i < items.len() ==> well_formed(#[trigger] items[i])
}

/// Putting a well-formed value under a key keeps the values of a
/// dictionary well-formed.
pub proof fn lemma_dict_insert_values(entries: Entries, key: Seq<u8>, value: Bencode)
    requires
        values_well_formed(entries),
        well_formed(value),
    ensures
        values_well_formed(dict_insert(entries, key, value)),
{
    let after = dict_insert(entries, key, value);
    assert forall|i: int| 0 <= i < after.len() implies well_formed((#[trigger] after[i]).1) by {
        if i < entries.len() && after[i] == entries[i] {
            assert(well_formed(entries[i].1));
        }
    }
}

/// Decoding takes one byte at least and yields a well-formed value: what
/// it leaves is a proper suffix of what it was given.
pub proof fn lemma_decode_value_sound(s: Seq<u8>)
    ensures
        decode_value(s) matches Ok((v, rest)) ==> well_formed(v) && proper_suffix(s, rest),
    decreases s.len(), 0nat,
{
    if s.len() == 0 {
    } else if is_digit(s[0]) {
        match find_byte(s, COLON) {
            Some(colon) => {
                let rest = s.skip(colon + 1);
                let n = digits_value(s.take(colon)) as int;
                if all_digits(s.take(colon)) && n <= rest.len() {
                    assert(first_at(s, COLON, colon));
                    assert(rest.skip(n) =~= s.skip(s.len() - rest.skip(n).len()));
                }
            },
            None => {},
        }
    } else if s[0] == TAG_INT {
        match find_byte(s.skip(1), TAG_END) {
            Some(end) => {
                assert(first_at(s.skip(1), TAG_END, end));
                let rest = s.skip(1).skip(end + 1);
                assert(rest =~= s.skip(s.len() - rest.len()));
            },
            None => {},
        }
    } else if s[0] == TAG_LIST {
        lemma_decode_items_sound(s.skip(1), Seq::empty());
        match decode_items(s.skip(1), Seq::empty()) {
            Ok((items, rest)) => {
                lemma_suffix_of_suffix(s, s.skip(1), rest);
            },
            Err(_) => {},
        }
    } else if s[0] == TAG_DICT {
        lemma_decode_entries_sound(s.skip(1), Seq::empty());
        match decode_entries(s.skip(1), Seq::empty()) {
            Ok((entries, rest)) => {
                lemma_suffix_of_suffix(s, s.skip(1), rest);
            },
            Err(_) => {},
        }
    }
}

/// The items of a list are well-formed where those before them are, and
/// what is left behind the list is a proper suffix.
pub proof fn lemma_decode_items_sound(s: Seq<u8>, acc: Seq<Bencode>)
    requires
        items_well_formed(acc),
    ensures
        decode_items(s, acc) matches Ok((items, rest)) ==> items_well_formed(items)
            && proper_suffix(s, rest),
    decreases s.len(), 1nat,
{
    if s.len() == 0 {
    } else if s[0] == TAG_END {
        assert(s.skip(1) =~= s.skip(s.len() - s.skip(1).len()));
    } else {
        lemma_decode_value_sound(s);
        match decode_value(s) {
            Ok((item, mid)) => {
                let next = acc.push(item);
                assert forall|i: int| 0 <= i < next.len() implies well_formed(
                    #[trigger] next[i],
                ) by {
                    if i < acc.len() {
                        assert(well_formed(acc[i]));
                    }
                }
                lemma_decode_items_sound(mid, next);
                match decode_items(mid, next) {
                    Ok((items, rest)) => {
                        lemma_suffix_of_suffix(s, mid, rest);
                    },
                    Err(_) => {},
                }
            },
            Err(_) => {},
        }
    }
}

/// The entries of a dictionary have distinct keys and well-formed values
/// where those before them have, and what is left behind the dictionary
/// is a proper suffix.
pub proof fn lemma_decode_entries_sound(s: Seq<u8>, acc: Entries)
    requires
        keys_unique(acc),
        values_well_formed(acc),
    ensures
        decode_entries(s, acc) matches Ok((entries, rest)) ==> keys_unique(entries)
            && values_well_formed(entries) && proper_suffix(s, rest),
    decreases s.len(), 1nat,
{
    if s.len() == 0 {
    } else if s[0] == TAG_END {
        assert(s.skip(1) =~= s.skip(s.len() - s.skip(1).len()));
    } else {
        lemma_decode_value_sound(s);
        match decode_value(s) {
            Ok((Bencode::Bytes(key), after_key)) => {
                lemma_decode_value_sound(after_key);
                match decode_value(after_key) {
                    Ok((value, mid)) => {
                        let next = dict_insert(acc, key, value);
                        crate::bencode::lemma_dict_insert_unique(acc, key, value);
                        lemma_dict_insert_values(acc, key, value);
                        lemma_suffix_of_suffix(s, after_key, mid);
                        lemma_decode_entries_sound(mid, next);
                        match decode_entries(mid, next) {
                            Ok((entries, rest)) => {
                                lemma_suffix_of_suffix(s, mid, rest);
                            },
                            Err(_) => {},
                        }
                    },
                    Err(_) => {},
                }
            },
            _ => {},
        }
    }
}

/// Round trip of a whole value: the bytes written for a well-formed value
/// decode to that value and leave nothing.
pub proof fn lemma_decode_encode_whole(v: Bencode)
    requires
        well_formed(v),
    ensures
        decode_value(encode_value(v)) == Ok::<(Bencode, Seq<u8>), DecodeError>(
            (v, Seq::empty()),
        ),
{
    lemma_decode_encode(v, Seq::empty());
    assert(encode_value(v) + Seq::<u8>::empty() =~= encode_value(v));
}

} // verus!
