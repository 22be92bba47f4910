use bittorrent::bencode::{BencodeValue, DecodeError};
use bittorrent::torrent::TorrentFile;
use bittorrent::ascii::{signed_string, unsigned_string};
use bittorrent::trackers::{
    assemble_url, peers_from_response, percent_encode, DiscoverPeersRequest,
    DiscoverPeersResponse, PeerAddress, TrackerError,
};

fn entry(key: &str, value: BencodeValue) -> (Vec<u8>, BencodeValue) {
    (key.as_bytes().to_vec(), value)
}

fn request() -> DiscoverPeersRequest {
    let mut info_hash = [0u8; 20];
    for (i, b) in info_hash.iter_mut().enumerate() {
        *b = (i as u8) * 13;
    }
    DiscoverPeersRequest {
        announce_url: "http://tracker.example/announce".to_string(),
        info_hash,
        peer_id: "00112233445566778899".to_string(),
        port: 6881,
        uploaded: 0,
        downloaded: 0,
        left: 92063,
        compact: 1,
    }
}

fn response_body(peers: Vec<u8>) -> Vec<u8> {
    BencodeValue::Dictionary(vec![
        entry("complete", BencodeValue::Integer(3)),
        entry("incomplete", BencodeValue::Integer(1)),
        entry("interval", BencodeValue::Integer(60)),
        entry("min interval", BencodeValue::Integer(30)),
        entry("peers", BencodeValue::ByteString(peers)),
    ])
    .encode()
}

#[test]
fn announce_url_of_a_request() {
    assert_eq!(
        request().get_url(),
        Ok("http://tracker.example/announce?peer_id=00112233445566778899&port=6881&uploaded=0\
            &downloaded=0&left=92063&compact=1&info_hash=%00%0d%1a%27%34%41%4e%5b%68%75%82%8f\
            %9c%a9%b6%c3%d0%dd%ea%f7"
            .to_string())
    );
}

#[test]
fn query_values_are_form_encoded() {
    let mut r = request();
    r.peer_id = "a b&c=d/\u{e9}".to_string();
    r.port = -1;
    r.compact = -128;
    r.uploaded = 18446744073709551615;
    let url = r.get_url().unwrap();
    assert!(url.starts_with(
        "http://tracker.example/announce?peer_id=a+b%26c%3Dd%2F%C3%A9&port=-1\
         &uploaded=18446744073709551615&downloaded=0&left=92063&compact=-128&info_hash=%00%0d"
    ));
}

#[test]
fn info_hash_is_percent_encoded_byte_for_byte() {
    assert_eq!(percent_encode(&[]), "");
    assert_eq!(percent_encode(&[0x00, 0x7f, 0x80, 0xff, b'a']), "%00%7f%80%ff%61");
}

#[test]
fn assemble_url_joins_the_parts() {
    assert_eq!(
        assemble_url("http://t/a", Some("x=1&y=2".to_string()), &[0xab, 0x01]),
        Ok("http://t/a?x=1&y=2&info_hash=%ab%01".to_string())
    );
    assert_eq!(assemble_url("http://t/a", None, &[0xab]), Err(TrackerError::QueryEncoding));
}

#[test]
fn decimal_strings() {
    assert_eq!(unsigned_string(0), "0");
    assert_eq!(unsigned_string(6881), "6881");
    assert_eq!(unsigned_string(u64::MAX), "18446744073709551615");
    assert_eq!(signed_string(-1), "-1");
    assert_eq!(signed_string(i64::MIN), "-9223372036854775808");
    assert_eq!(signed_string(42), "42");
}

#[test]
fn request_for_a_torrent() {
    let info = BencodeValue::Dictionary(vec![
        entry("length", BencodeValue::Integer(92063)),
        entry("name", BencodeValue::ByteString(b"sample.txt".to_vec())),
        entry("piece length", BencodeValue::Integer(32768)),
        entry("pieces", BencodeValue::ByteString(vec![5u8; 60])),
    ]);
    let file = BencodeValue::Dictionary(vec![
        entry("announce", BencodeValue::ByteString(b"http://t.example/ann".to_vec())),
        entry("info", info),
    ])
    .encode();
    let torrent = TorrentFile::from_u8_vec(file).unwrap();
    let r = DiscoverPeersRequest::for_torrent(&torrent);
    assert_eq!(r.announce_url, "http://t.example/ann");
    assert_eq!(r.info_hash, torrent.info_hash());
    assert_eq!(r.peer_id, "00112233445566778899");
    assert_eq!(r.port, 6881);
    assert_eq!(r.uploaded, 0);
    assert_eq!(r.downloaded, 0);
    assert_eq!(r.left, 92063);
    assert_eq!(r.compact, 1);
}

#[test]
fn reads_the_answer_of_a_tracker() {
    let peers = vec![178, 62, 82, 89, 0xc8, 0xd5];
    let response = DiscoverPeersResponse::from_bencoded_bytes(&response_body(peers.clone())).unwrap();
    assert_eq!(response.complete, 3);
    assert_eq!(response.incomplete, 1);
    assert_eq!(response.interval, 60);
    assert_eq!(response.min_interval, 30);
    assert_eq!(response.peers, peers);
}

#[test]
fn answer_without_a_field_is_malformed() {
    let body = BencodeValue::Dictionary(vec![
        entry("complete", BencodeValue::Integer(3)),
        entry("incomplete", BencodeValue::Integer(1)),
        entry("interval", BencodeValue::Integer(60)),
        entry("peers", BencodeValue::ByteString(vec![])),
    ])
    .encode();
    assert!(matches!(
        DiscoverPeersResponse::from_bencoded_bytes(&body),
        Err(TrackerError::MalformedResponse)
    ));
    assert!(matches!(
        DiscoverPeersResponse::from_bencoded_bytes(b"le"),
        Err(TrackerError::MalformedResponse)
    ));
    assert!(matches!(
        DiscoverPeersResponse::from_bencoded_bytes(b"d14:failure reason4:nopee"),
        Err(TrackerError::MalformedResponse)
    ));
}

#[test]
fn answer_that_is_not_bencode_gives_the_decode_error() {
    assert!(matches!(
        DiscoverPeersResponse::from_bencoded_bytes(b"<html>"),
        Err(TrackerError::Bencode(DecodeError::UnrecognizedTag))
    ));
    assert!(matches!(
        DiscoverPeersResponse::from_bencoded_bytes(b""),
        Err(TrackerError::Bencode(DecodeError::UnexpectedEof))
    ));
}

#[test]
fn compact_peer_list_gives_one_address_for_every_six_bytes() {
    let peers = vec![
        178, 62, 82, 89, 0xc8, 0xd5, 165, 232, 33, 77, 0xc8, 0xf3, 127, 0, 0, 1, 0x1a, 0xe1,
    ];
    let response = DiscoverPeersResponse {
        complete: 0,
        incomplete: 0,
        interval: 0,
        min_interval: 0,
        peers,
    };
    assert_eq!(
        response.parse_peers(),
        Ok(vec![
            PeerAddress { ip: [178, 62, 82, 89], port: 51413 },
            PeerAddress { ip: [165, 232, 33, 77], port: 51443 },
            PeerAddress { ip: [127, 0, 0, 1], port: 6881 },
        ])
    );
}

#[test]
fn empty_peer_list_gives_no_address() {
    let response = DiscoverPeersResponse {
        complete: 0,
        incomplete: 0,
        interval: 0,
        min_interval: 0,
        peers: vec![],
    };
    assert_eq!(response.parse_peers(), Ok(vec![]));
}

#[test]
fn peer_list_not_a_multiple_of_six_is_malformed() {
    for len in [1usize, 5, 7, 11, 13] {
        let response = DiscoverPeersResponse {
            complete: 0,
            incomplete: 0,
            interval: 0,
            min_interval: 0,
            peers: vec![1u8; len],
        };
        assert_eq!(response.parse_peers(), Err(TrackerError::MalformedPeerList));
    }
}

#[test]
fn many_peers_come_in_input_order() {
    let n = 50usize;
    let mut peers = Vec::new();
    for i in 0..n {
        peers.extend_from_slice(&[10, 0, (i / 256) as u8, (i % 256) as u8]);
        peers.extend_from_slice(&((1000 + i) as u16).to_be_bytes());
    }
    let list = peers_from_response(&response_body(peers)).unwrap();
    assert_eq!(list.len(), n);
    for (i, address) in list.iter().enumerate() {
        assert_eq!(address.ip, [10, 0, (i / 256) as u8, (i % 256) as u8]);
        assert_eq!(address.port, (1000 + i) as u16);
    }
}

#[test]
fn peers_from_response_passes_errors_on() {
    assert_eq!(
        peers_from_response(&response_body(vec![1, 2, 3])),
        Err(TrackerError::MalformedPeerList)
    );
    assert_eq!(peers_from_response(b"de"), Err(TrackerError::MalformedResponse));
    assert_eq!(
        peers_from_response(b"d"),
        Err(TrackerError::Bencode(DecodeError::UnexpectedEof))
    );
}

#[test]
fn announce_url_ends_with_sixty_characters_of_info_hash() {
    let mut r = request();
    r.info_hash = *b"ABCDEFGHIJKLMNOPQRST";
    r.announce_url = "http://t/?info_hash=x".to_string();
    let url = r.get_url().unwrap();
    let tail = &url[url.len() - 71..];
    assert_eq!(
        tail,
        "&info_hash=%41%42%43%44%45%46%47%48%49%4a%4b%4c%4d%4e%4f%50%51%52%53%54"
    );
}

#[test]
fn every_request_has_an_announce_url() {
    let mut r = request();
    r.peer_id = String::new();
    r.announce_url = String::new();
    r.port = i32::MIN;
    r.compact = i8::MAX;
    r.left = usize::MAX;
    assert_eq!(
        r.get_url(),
        Ok(format!(
            "?peer_id=&port=-2147483648&uploaded=0&downloaded=0&left={}&compact=127&info_hash=\
             %00%0d%1a%27%34%41%4e%5b%68%75%82%8f%9c%a9%b6%c3%d0%dd%ea%f7",
            usize::MAX
        ))
    );
}
