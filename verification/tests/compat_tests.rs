use std::collections::HashMap;

use bittorrent::bencode::{decode_bencoded_value, BencodeValue};
use bittorrent::hash::b_sha1;
use bittorrent::torrent::TorrentFile;
use serde_bencode::value::Value;

fn to_serde(value: &BencodeValue) -> Value {
    match value {
        BencodeValue::ByteString(bytes) => Value::Bytes(bytes.clone()),
        BencodeValue::Integer(n) => Value::Int(*n),
        BencodeValue::List(items) => Value::List(items.iter().map(to_serde).collect()),
        BencodeValue::Dictionary(entries) => {
            let mut map = HashMap::new();
            for (key, value) in entries {
                map.insert(key.clone(), to_serde(value));
            }
            Value::Dict(map)
        }
    }
}

fn entry(key: &str, value: BencodeValue) -> (Vec<u8>, BencodeValue) {
    (key.as_bytes().to_vec(), value)
}

/// A value whose dictionaries hold their keys in ascending order.
fn sorted_sample() -> BencodeValue {
    BencodeValue::Dictionary(vec![
        entry("announce", BencodeValue::ByteString(b"http://tracker.example/announce".to_vec())),
        entry(
            "info",
            BencodeValue::Dictionary(vec![
                entry("length", BencodeValue::Integer(92063)),
                entry("name", BencodeValue::ByteString(b"sample.txt".to_vec())),
                entry("piece length", BencodeValue::Integer(32768)),
                entry("pieces", BencodeValue::ByteString((0u8..60).collect())),
            ]),
        ),
        entry(
            "list",
            BencodeValue::List(vec![
                BencodeValue::Integer(-1),
                BencodeValue::Integer(0),
                BencodeValue::ByteString(vec![0xff, 0x00]),
                BencodeValue::List(vec![]),
            ]),
        ),
    ])
}

#[test]
fn writes_what_serde_bencode_writes() {
    let value = sorted_sample();
    assert_eq!(value.encode(), serde_bencode::to_bytes(&to_serde(&value)).unwrap());
}

#[test]
fn reads_what_serde_bencode_writes() {
    let value = sorted_sample();
    let written = serde_bencode::to_bytes(&to_serde(&value)).unwrap();
    assert_eq!(decode_bencoded_value(&written), Ok(value));
}

#[test]
fn serde_bencode_reads_what_is_written() {
    let value = sorted_sample();
    let read: Value = serde_bencode::from_bytes(&value.encode()).unwrap();
    assert_eq!(read, to_serde(&value));
}

#[test]
fn info_hash_agrees_with_rewriting_the_four_fields() {
    let value = sorted_sample();
    let torrent = TorrentFile::from_u8_vec(value.encode()).unwrap();
    let info = value.get(b"info").unwrap();
    let rewritten = serde_bencode::to_bytes(&to_serde(info)).unwrap();
    assert_eq!(torrent.info_hash().to_vec(), b_sha1(&rewritten));
}
