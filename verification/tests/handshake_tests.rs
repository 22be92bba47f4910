use bittorrent::handshake::{HandshakeError, PeerHandshake};

fn hash(seed: u8) -> [u8; 20] {
    let mut out = [0u8; 20];
    for (i, b) in out.iter_mut().enumerate() {
        *b = seed.wrapping_add(i as u8);
    }
    out
}

fn ours() -> PeerHandshake {
    PeerHandshake::from(hash(1), "00112233445566778899".to_string()).unwrap()
}

#[test]
fn makes_the_handshake_for_a_torrent() {
    let handshake = ours();
    assert_eq!(handshake.length, 19);
    assert_eq!(&handshake.bittorrent, b"BitTorrent protocol");
    assert_eq!(handshake.reserved, [0u8; 8]);
    assert_eq!(handshake.info_hash, hash(1));
    assert_eq!(&handshake.peer_id, b"00112233445566778899");
}

#[test]
fn peer_id_of_another_length_is_refused() {
    assert_eq!(
        PeerHandshake::from(hash(1), "short".to_string()),
        Err(HandshakeError::InvalidPeerId)
    );
    assert_eq!(
        PeerHandshake::from(hash(1), "001122334455667788990".to_string()),
        Err(HandshakeError::InvalidPeerId)
    );
    assert_eq!(PeerHandshake::from(hash(1), String::new()), Err(HandshakeError::InvalidPeerId));
}

#[test]
fn peer_id_is_measured_in_bytes() {
    let id = "\u{e9}\u{e9}\u{e9}\u{e9}\u{e9}\u{e9}\u{e9}\u{e9}\u{e9}\u{e9}".to_string();
    assert_eq!(id.len(), 20);
    let handshake = PeerHandshake::from(hash(0), id.clone()).unwrap();
    assert_eq!(&handshake.peer_id[..], id.as_bytes());
}

#[test]
fn writes_sixty_eight_bytes() {
    let bytes = ours().to_bytes();
    assert_eq!(bytes.len(), 68);
    assert_eq!(bytes[0], 19);
    assert_eq!(&bytes[1..20], b"BitTorrent protocol");
    assert_eq!(&bytes[20..28], &[0u8; 8]);
    assert_eq!(&bytes[28..48], &hash(1));
    assert_eq!(&bytes[48..68], b"00112233445566778899");
}

#[test]
fn handshake_round_trips_through_its_bytes() {
    let handshake = ours();
    let decoded = PeerHandshake::try_from(&handshake.to_bytes()).unwrap();
    assert_eq!(decoded, handshake);
    assert_eq!(decoded.length, 19);
    assert_eq!(decoded.reserved, [0u8; 8]);
}

#[test]
fn reads_a_record_with_reserved_bits_set() {
    let mut bytes = ours().to_bytes();
    bytes[25] = 0x10;
    bytes[27] = 0x04;
    let decoded = PeerHandshake::try_from(&bytes).unwrap();
    assert_eq!(decoded.reserved, [0, 0, 0, 0, 0, 0x10, 0, 0x04]);
    assert_eq!(decoded.to_bytes(), bytes);
}

#[test]
fn bytes_behind_the_record_are_left_unread() {
    let mut bytes = ours().to_bytes();
    bytes.extend_from_slice(&[1, 2, 3]);
    assert_eq!(PeerHandshake::try_from(&bytes), Ok(ours()));
}

#[test]
fn fewer_than_sixty_eight_bytes_is_a_short_read() {
    let bytes = ours().to_bytes();
    assert_eq!(PeerHandshake::try_from(&bytes[..67]), Err(HandshakeError::ShortRead));
    assert_eq!(PeerHandshake::try_from(&[]), Err(HandshakeError::ShortRead));
}

#[test]
fn another_name_length_is_malformed() {
    let mut bytes = ours().to_bytes();
    bytes[0] = 18;
    assert_eq!(PeerHandshake::try_from(&bytes), Err(HandshakeError::MalformedHandshake));
}

#[test]
fn short_read_comes_before_malformed() {
    assert_eq!(PeerHandshake::try_from(&[18u8; 10]), Err(HandshakeError::ShortRead));
}

#[test]
fn checks_the_info_hash_of_the_answer() {
    let answer = PeerHandshake::from(hash(1), "-PEER-ABCDEFGHIJKLMN".to_string()).unwrap();
    assert_eq!(answer.check_info_hash(&hash(1)), Ok(()));
    assert_eq!(answer.check_info_hash(&hash(2)), Err(HandshakeError::InfoHashMismatch));
}

#[test]
fn accept_refuses_an_answer_for_another_torrent() {
    let answer = PeerHandshake::from(hash(1), "-PEER-ABCDEFGHIJKLMN".to_string()).unwrap();
    let bytes = answer.to_bytes();
    assert_eq!(PeerHandshake::accept(&bytes, &hash(1)), Ok(answer));
    assert_eq!(PeerHandshake::accept(&bytes, &hash(9)), Err(HandshakeError::InfoHashMismatch));
    assert_eq!(PeerHandshake::accept(&bytes[..40], &hash(1)), Err(HandshakeError::ShortRead));
}

#[test]
fn write_to_stream_appends_the_record() {
    let mut stream = vec![1, 2];
    ours().write_to_stream(&mut stream);
    assert_eq!(stream.len(), 70);
    assert_eq!(&stream[..2], &[1, 2]);
    assert_eq!(&stream[2..], &ours().to_bytes()[..]);
}
