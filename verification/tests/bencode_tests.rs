use bittorrent::bencode::{
    decode_bencoded_value, decode_bencoded_value_rec, BencodeValue, DecodeError,
};
use bittorrent::decimal::{is_all_digits, parse_i64, push_decimal, push_signed_decimal};

fn bytes(text: &str) -> BencodeValue {
    BencodeValue::ByteString(text.as_bytes().to_vec())
}

fn entry(key: &str, value: BencodeValue) -> (Vec<u8>, BencodeValue) {
    (key.as_bytes().to_vec(), value)
}

#[test]
fn decodes_byte_string_with_empty_remainder() {
    let (value, rest) = decode_bencoded_value_rec(b"4:spam").unwrap();
    assert_eq!(value, bytes("spam"));
    assert!(rest.is_empty());
}

#[test]
fn decodes_negative_integer() {
    assert_eq!(decode_bencoded_value(b"i-42e"), Ok(BencodeValue::Integer(-42)));
}

#[test]
fn decodes_list_of_strings() {
    assert_eq!(
        decode_bencoded_value(b"l4:spam4:eggse"),
        Ok(BencodeValue::List(vec![bytes("spam"), bytes("eggs")]))
    );
}

#[test]
fn decodes_dictionary() {
    assert_eq!(
        decode_bencoded_value(b"d3:cow3:moo4:spam4:eggse"),
        Ok(BencodeValue::Dictionary(vec![
            entry("cow", bytes("moo")),
            entry("spam", bytes("eggs")),
        ]))
    );
}

#[test]
fn decodes_nested_values() {
    assert_eq!(
        decode_bencoded_value(b"d4:listli1ei2el0:ee3:numi-7ee"),
        Ok(BencodeValue::Dictionary(vec![
            entry(
                "list",
                BencodeValue::List(vec![
                    BencodeValue::Integer(1),
                    BencodeValue::Integer(2),
                    BencodeValue::List(vec![bytes("")]),
                ])
            ),
            entry("num", BencodeValue::Integer(-7)),
        ]))
    );
}

#[test]
fn decodes_empty_collections() {
    assert_eq!(decode_bencoded_value(b"le"), Ok(BencodeValue::List(vec![])));
    assert_eq!(decode_bencoded_value(b"de"), Ok(BencodeValue::Dictionary(vec![])));
    assert_eq!(decode_bencoded_value(b"0:"), Ok(bytes("")));
}

#[test]
fn hands_back_the_bytes_behind_the_value() {
    let (value, rest) = decode_bencoded_value_rec(b"i1e4:spamXYZ").unwrap();
    assert_eq!(value, BencodeValue::Integer(1));
    assert_eq!(rest, b"4:spamXYZ");
    let (second, rest) = decode_bencoded_value_rec(rest).unwrap();
    assert_eq!(second, bytes("spam"));
    assert_eq!(rest, b"XYZ");
}

#[test]
fn top_level_decode_leaves_trailing_bytes_unread() {
    assert_eq!(decode_bencoded_value(b"i1e???"), Ok(BencodeValue::Integer(1)));
}

#[test]
fn byte_strings_hold_arbitrary_bytes() {
    let input = [b'3', b':', 0xff, 0x00, b'e'];
    assert_eq!(
        decode_bencoded_value(&input),
        Ok(BencodeValue::ByteString(vec![0xff, 0x00, b'e']))
    );
}

#[test]
fn empty_input_is_unexpected_eof() {
    assert_eq!(decode_bencoded_value(b""), Err(DecodeError::UnexpectedEof));
}

#[test]
fn unknown_leading_byte_is_unrecognized_tag() {
    assert_eq!(decode_bencoded_value(b"x"), Err(DecodeError::UnrecognizedTag));
    assert_eq!(decode_bencoded_value(b"e"), Err(DecodeError::UnrecognizedTag));
    assert_eq!(decode_bencoded_value(b"-1:a"), Err(DecodeError::UnrecognizedTag));
    assert_eq!(decode_bencoded_value(b"li1e?e"), Err(DecodeError::UnrecognizedTag));
}

#[test]
fn non_string_key_is_invalid_key_type() {
    assert_eq!(decode_bencoded_value(b"di1ei2ee"), Err(DecodeError::InvalidKeyType));
    assert_eq!(decode_bencoded_value(b"dle3:fooe"), Err(DecodeError::InvalidKeyType));
    assert_eq!(decode_bencoded_value(b"dde3:fooe"), Err(DecodeError::InvalidKeyType));
}

#[test]
fn bad_length_is_invalid_length() {
    assert_eq!(decode_bencoded_value(b"4x:spam"), Err(DecodeError::InvalidLength));
    assert_eq!(decode_bencoded_value(b"1-1:a"), Err(DecodeError::InvalidLength));
}

#[test]
fn bad_number_is_invalid_integer() {
    assert_eq!(decode_bencoded_value(b"iabce"), Err(DecodeError::InvalidInteger));
    assert_eq!(decode_bencoded_value(b"ie"), Err(DecodeError::InvalidInteger));
    assert_eq!(decode_bencoded_value(b"i-e"), Err(DecodeError::InvalidInteger));
    assert_eq!(decode_bencoded_value(b"i+e"), Err(DecodeError::InvalidInteger));
    assert_eq!(decode_bencoded_value(b"i1-2e"), Err(DecodeError::InvalidInteger));
    assert_eq!(decode_bencoded_value(b"i 1e"), Err(DecodeError::InvalidInteger));
}

#[test]
fn integers_outside_64_bits_are_invalid() {
    assert_eq!(
        decode_bencoded_value(b"i9223372036854775807e"),
        Ok(BencodeValue::Integer(i64::MAX))
    );
    assert_eq!(
        decode_bencoded_value(b"i-9223372036854775808e"),
        Ok(BencodeValue::Integer(i64::MIN))
    );
    assert_eq!(
        decode_bencoded_value(b"i9223372036854775808e"),
        Err(DecodeError::InvalidInteger)
    );
    assert_eq!(
        decode_bencoded_value(b"i-9223372036854775809e"),
        Err(DecodeError::InvalidInteger)
    );
    assert_eq!(
        decode_bencoded_value(b"i99999999999999999999999999e"),
        Err(DecodeError::InvalidInteger)
    );
}

#[test]
fn signs_and_leading_zeros_are_read_as_numbers() {
    assert_eq!(decode_bencoded_value(b"i-0e"), Ok(BencodeValue::Integer(0)));
    assert_eq!(decode_bencoded_value(b"i+5e"), Ok(BencodeValue::Integer(5)));
    assert_eq!(decode_bencoded_value(b"i007e"), Ok(BencodeValue::Integer(7)));
    assert_eq!(decode_bencoded_value(b"04:spam"), Ok(bytes("spam")));
    assert_eq!(
        decode_bencoded_value(b"i000000000000000000000000000012e"),
        Ok(BencodeValue::Integer(12))
    );
}

#[test]
fn truncated_input_is_unexpected_eof() {
    assert_eq!(decode_bencoded_value(b"i12"), Err(DecodeError::UnexpectedEof));
    assert_eq!(decode_bencoded_value(b"i"), Err(DecodeError::UnexpectedEof));
    assert_eq!(decode_bencoded_value(b"5:abc"), Err(DecodeError::UnexpectedEof));
    assert_eq!(decode_bencoded_value(b"5"), Err(DecodeError::UnexpectedEof));
    assert_eq!(decode_bencoded_value(b"l4:spam"), Err(DecodeError::UnexpectedEof));
    assert_eq!(decode_bencoded_value(b"l"), Err(DecodeError::UnexpectedEof));
    assert_eq!(decode_bencoded_value(b"d3:cow"), Err(DecodeError::UnexpectedEof));
    assert_eq!(decode_bencoded_value(b"d3:cow3:moo"), Err(DecodeError::UnexpectedEof));
    assert_eq!(
        decode_bencoded_value(b"99999999999999999999999999:a"),
        Err(DecodeError::UnexpectedEof)
    );
}

#[test]
fn repeated_key_replaces_the_value_in_place() {
    assert_eq!(
        decode_bencoded_value(b"d1:ai1e1:bi2e1:ai3ee"),
        Ok(BencodeValue::Dictionary(vec![
            entry("a", BencodeValue::Integer(3)),
            entry("b", BencodeValue::Integer(2)),
        ]))
    );
}

#[test]
fn dictionary_keeps_the_order_of_its_entries() {
    assert_eq!(
        decode_bencoded_value(b"d1:zi1e1:ai2ee"),
        Ok(BencodeValue::Dictionary(vec![
            entry("z", BencodeValue::Integer(1)),
            entry("a", BencodeValue::Integer(2)),
        ]))
    );
}

#[test]
fn encodes_each_kind() {
    assert_eq!(bytes("spam").encode(), b"4:spam");
    assert_eq!(bytes("").encode(), b"0:");
    assert_eq!(BencodeValue::Integer(-42).encode(), b"i-42e");
    assert_eq!(BencodeValue::Integer(0).encode(), b"i0e");
    assert_eq!(BencodeValue::Integer(i64::MIN).encode(), b"i-9223372036854775808e");
    assert_eq!(
        BencodeValue::List(vec![bytes("spam"), bytes("eggs")]).encode(),
        b"l4:spam4:eggse"
    );
    assert_eq!(
        BencodeValue::Dictionary(vec![entry("cow", bytes("moo")), entry("spam", bytes("eggs"))])
            .encode(),
        b"d3:cow3:moo4:spam4:eggse"
    );
}

#[test]
fn encode_into_appends() {
    let mut out = b"xy".to_vec();
    BencodeValue::Integer(10).encode_into(&mut out);
    assert_eq!(out, b"xyi10e");
}

#[test]
fn encode_writes_long_lengths_in_decimal() {
    let value = BencodeValue::ByteString(vec![b'a'; 1234]);
    let encoded = value.encode();
    assert_eq!(&encoded[..5], b"1234:");
    assert_eq!(encoded.len(), 5 + 1234);
}

#[test]
fn decoding_undoes_encoding() {
    let value = BencodeValue::Dictionary(vec![
        entry("announce", bytes("http://tracker.example/announce")),
        entry(
            "info",
            BencodeValue::Dictionary(vec![
                entry("length", BencodeValue::Integer(92063)),
                entry("name", bytes("sample.txt")),
                entry("piece length", BencodeValue::Integer(32768)),
                entry("pieces", BencodeValue::ByteString((0u8..60).collect())),
            ]),
        ),
        entry(
            "misc",
            BencodeValue::List(vec![
                BencodeValue::Integer(i64::MIN),
                BencodeValue::Integer(i64::MAX),
                BencodeValue::List(vec![]),
                BencodeValue::Dictionary(vec![]),
                bytes("e"),
                bytes("i1e"),
            ]),
        ),
    ]);
    let encoded = value.encode();
    let (decoded, rest) = decode_bencoded_value_rec(&encoded).unwrap();
    assert_eq!(decoded, value);
    assert!(rest.is_empty());
    assert_eq!(decoded.encode(), encoded);
}

#[test]
fn decoding_undoes_encoding_before_other_bytes() {
    let value = BencodeValue::List(vec![bytes("a"), BencodeValue::Integer(-1)]);
    let mut encoded = value.encode();
    encoded.extend_from_slice(b"i5e");
    let (decoded, rest) = decode_bencoded_value_rec(&encoded).unwrap();
    assert_eq!(decoded, value);
    assert_eq!(rest, b"i5e");
}

#[test]
fn get_reads_fields_of_a_dictionary() {
    let value = decode_bencoded_value(b"d3:agei30e4:name3:bob4:rawb2:\xff\xfee").unwrap();
    assert_eq!(value.get(b"age"), Some(&BencodeValue::Integer(30)));
    assert_eq!(value.get(b"none"), None);
    assert_eq!(value.get_int(b"age"), Some(30));
    assert_eq!(value.get_int(b"name"), None);
    assert_eq!(value.get_size(b"age"), Some(30));
    assert_eq!(value.get_bytes(b"name"), Some(&b"bob".to_vec()));
    assert_eq!(value.get_bytes(b"age"), None);
    assert_eq!(value.get_text(b"name"), Some("bob".to_string()));
    assert_eq!(value.get_text(b"rawb"), None);
    assert_eq!(BencodeValue::Integer(1).get(b"age"), None);
}

#[test]
fn get_size_refuses_negative_numbers() {
    let value = decode_bencoded_value(b"d1:ni-1ee").unwrap();
    assert_eq!(value.get_int(b"n"), Some(-1));
    assert_eq!(value.get_size(b"n"), None);
}

#[test]
fn parse_i64_follows_the_signed_decimal_form() {
    assert_eq!(parse_i64(b"-12"), Some(-12));
    assert_eq!(parse_i64(b"+7"), Some(7));
    assert_eq!(parse_i64(b"0012"), Some(12));
    assert_eq!(parse_i64(b""), None);
    assert_eq!(parse_i64(b"-"), None);
    assert_eq!(parse_i64(b"12a"), None);
    assert_eq!(parse_i64(b"--1"), None);
    assert_eq!(parse_i64(b"9223372036854775807"), Some(i64::MAX));
    assert_eq!(parse_i64(b"9223372036854775808"), None);
    assert_eq!(parse_i64(b"-9223372036854775808"), Some(i64::MIN));
    assert_eq!(parse_i64(b"-9223372036854775809"), None);
}

#[test]
fn is_all_digits_checks_every_byte() {
    assert!(is_all_digits(b"0123456789"));
    assert!(is_all_digits(b""));
    assert!(!is_all_digits(b"12:"));
    assert!(!is_all_digits(b"/"));
}

#[test]
fn push_decimal_writes_shortest_digits() {
    let mut out = Vec::new();
    push_decimal(&mut out, 0);
    out.push(b',');
    push_decimal(&mut out, 18446744073709551615);
    out.push(b',');
    push_signed_decimal(&mut out, -305);
    assert_eq!(out, b"0,18446744073709551615,-305");
}

struct Lcg(u64);

impl Lcg {
    fn next(&mut self) -> u64 {
        self.0 = self.0.wrapping_mul(6364136223846793005).wrapping_add(1442695040888963407);
        self.0 >> 33
    }
}

fn generate(rng: &mut Lcg, depth: u32) -> BencodeValue {
    let kind = if depth == 0 { rng.next() % 2 } else { rng.next() % 4 };
    match kind {
        0 => {
            let len = (rng.next() % 12) as usize;
            BencodeValue::ByteString((0..len).map(|_| rng.next() as u8).collect())
        }
        1 => match rng.next() % 4 {
            0 => BencodeValue::Integer(rng.next() as i64),
            1 => BencodeValue::Integer(-(rng.next() as i64)),
            2 => BencodeValue::Integer(i64::MIN + (rng.next() % 3) as i64),
            _ => BencodeValue::Integer(i64::MAX - (rng.next() % 3) as i64),
        },
        2 => {
            let len = (rng.next() % 4) as usize;
            BencodeValue::List((0..len).map(|_| generate(rng, depth - 1)).collect())
        }
        _ => {
            let len = (rng.next() % 4) as usize;
            let mut entries = Vec::new();
            for i in 0..len {
                let mut key = vec![b'k', b'0' + i as u8];
                for _ in 0..rng.next() % 3 {
                    key.push(rng.next() as u8);
                }
                entries.push((key, generate(rng, depth - 1)));
            }
            BencodeValue::Dictionary(entries)
        }
    }
}

#[test]
fn decoding_undoes_encoding_of_generated_values() {
    let mut rng = Lcg(0x5eed);
    for _ in 0..500 {
        let value = generate(&mut rng, 4);
        let mut encoded = value.encode();
        let tail_len = (rng.next() % 5) as usize;
        let tail: Vec<u8> = (0..tail_len).map(|_| rng.next() as u8).collect();
        encoded.extend_from_slice(&tail);
        let (decoded, rest) = decode_bencoded_value_rec(&encoded).unwrap();
        assert_eq!(decoded, value);
        assert_eq!(rest, &tail[..]);
    }
}

#[test]
fn decoding_never_panics_on_arbitrary_bytes() {
    let mut rng = Lcg(42);
    let alphabet = b"0123456789:ilde-+x";
    for _ in 0..2000 {
        let len = (rng.next() % 24) as usize;
        let input: Vec<u8> = (0..len)
            .map(|_| alphabet[(rng.next() % alphabet.len() as u64) as usize])
            .collect();
        if let Ok((value, rest)) = decode_bencoded_value_rec(&input) {
            assert!(rest.len() < input.len());
            let consumed = &input[..input.len() - rest.len()];
            let again = decode_bencoded_value(&value.encode()).unwrap();
            assert_eq!(again, value);
            assert_eq!(decode_bencoded_value(consumed), Ok(value));
        }
    }
}
