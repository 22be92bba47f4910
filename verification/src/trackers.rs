//! The tracker: the announce URL that asks for peers, and the compact peer
//! list in the tracker's bencoded answer.

use crate::ascii::{ascii, ascii_bytes, decimal_text, signed_string, unsigned_string};
use crate::bencode::{
    decode_bencoded_value, decode_value, encode_value, Bencode, BencodeValue, DecodeError,
};
use crate::fields::{bytes_field, size_field};
use crate::hash::{hex_chars, hex_digit, hex_encode, sha1_digest};
use crate::torrent::TorrentFile;
use crate::wire::{array_at, from_be16, u16_from_be};
use vstd::prelude::*;
use vstd::slice::slice_to_vec;
use vstd::string::*;

verus! {

/// Number of bytes that stand for one peer in a compact peer list.
pub const COMPACT_PEER_LEN: usize = 6;

/// The port that this client announces.
pub const DEFAULT_PORT: i32 = 6881;

/// Why a tracker exchange failed on this side.
#[derive(Debug, Clone, Copy, PartialEq, Eq, Structural)]
pub enum TrackerError {
    /// The answer is not a bencoded value.
    Bencode(DecodeError),
    /// The answer is no dictionary, or a field is missing or of the wrong kind.
    MalformedResponse,
    /// The peer list is not a whole number of six-byte entries.
    MalformedPeerList,
    /// There is no form-encoded query to put into the URL.
    QueryEncoding,
}

/// The address of a peer: four octets and a port.
#[derive(Debug, Clone, Copy, PartialEq, Eq)]
pub struct PeerAddress {
    pub ip: [u8; 4],
    pub port: u16,
}

/// What is sent to the tracker to learn of peers.
#[derive(Debug, Clone)]
pub struct DiscoverPeersRequest {
    pub announce_url: String,
    pub info_hash: [u8; 20],
    pub peer_id: String,
    pub port: i32,
    pub uploaded: usize,
    pub downloaded: usize,
    pub left: usize,
    pub compact: i8,
}

/// What the tracker answers.
#[derive(Debug, Clone)]
pub struct DiscoverPeersResponse {
    pub complete: usize,
    pub incomplete: usize,
    pub interval: usize,
    pub min_interval: usize,
    pub peers: Vec<u8>,
}

/// The tracker's answer as mathematical values.
pub struct ResponseModel {
    pub complete: usize,
    pub incomplete: usize,
    pub interval: usize,
    pub min_interval: usize,
    pub peers: Seq<u8>,
}

impl View for DiscoverPeersResponse {
    type V = ResponseModel;

    open spec fn view(&self) -> ResponseModel {
        ResponseModel {
            complete: self.complete,
            incomplete: self.incomplete,
            interval: self.interval,
            min_interval: self.min_interval,
            peers: self.peers@,
        }
    }
}

/// What the form encoder of `serde_urlencoded` writes for a sequence of
/// pairs of strings.
pub uninterp spec fn form_urlencoded(pairs: Seq<(Seq<char>, Seq<char>)>) -> Seq<char>;

/// The pairs of a vector of string pairs, as texts.
pub open spec fn pairs_model(pairs: Seq<(String, String)>) -> Seq<(Seq<char>, Seq<char>)> {
    Seq::new(pairs.len(), |i: int| (pairs[i].0@, pairs[i].1@))
}

/// Every byte as `%` and its two lowercase hexadecimal digits.
pub open spec fn percent_hex(bytes: Seq<u8>) -> Seq<char> {
    Seq::new(
        3 * bytes.len(),
        |i: int|
            if i % 3 == 0 {
                '%'
            } else if i % 3 == 1 {
                hex_digit(bytes[i / 3] as int / 16)
            } else {
                hex_digit(bytes[i / 3] as int % 16)
            },
    )
}

/// The announce URL: the tracker's URL, `?`, the form-encoded query,
/// `&info_hash=` and the info hash with every byte percent-encoded.
pub open spec fn announce_url(announce: Seq<char>, query: Seq<char>, info_hash: Seq<u8>) -> Seq<
    char,
> {
    announce + "?"@ + query + "&info_hash="@ + percent_hex(info_hash)
}

/// The tracker's answer that a decoded value holds: `complete`,
/// `incomplete`, `interval`, `min interval` and `peers`, none missing.
pub open spec fn response_of(root: Bencode) -> Option<ResponseModel> {
    match (
        size_field(root, ascii("complete"@)),
        size_field(root, ascii("incomplete"@)),
        size_field(root, ascii("interval"@)),
        size_field(root, ascii("min interval"@)),
        bytes_field(root, ascii("peers"@)),
    ) {
        (Some(complete), Some(incomplete), Some(interval), Some(min_interval), Some(peers)) => Some(
            ResponseModel { complete, incomplete, interval, min_interval, peers },
        ),
        _ => None,
    }
}

/// Whether `address` is what the `i`-th six bytes of `peers` stand for:
/// four octets, and the port in two bytes, most significant first.
pub open spec fn is_peer_at(peers: Seq<u8>, i: int, address: PeerAddress) -> bool {
    &&& address.ip@ == peers.subrange(6 * i, 6 * i + 4)
    &&& address.port == from_be16(peers, 6 * i + 4)
}

/// Calls `serde_urlencoded::to_string` on the pairs. Trusted: for pairs of
/// strings the encoder always succeeds (it accepts any sequence, any tuple
/// of two, and any string as key or value), and the text is what it
/// writes for these pairs, the same for the same pairs.
#[verifier::external_body]
fn form_urlencode(pairs: &Vec<(String, String)>) -> (r: Option<String>)
    ensures
        r is Some,
        r matches Some(text) ==> text@ == form_urlencoded(pairs_model(pairs@)),
{
    serde_urlencoded::to_string(pairs).ok()
}

/// The percent-encoded form of `bytes` is three characters for each byte:
/// `%`, the digit of the high nibble, the digit of the low nibble.
pub proof fn lemma_percent_hex(bytes: Seq<u8>, i: int)
    requires
        0 <= i < bytes.len(),
    ensures
        percent_hex(bytes).len() == 3 * bytes.len(),
        percent_hex(bytes)[3 * i] == '%',
        percent_hex(bytes)[3 * i + 1] == hex_digit(bytes[i] as int / 16),
        percent_hex(bytes)[3 * i + 2] == hex_digit(bytes[i] as int % 16),
{
}

/// An announce URL ends with the percent-encoded info hash.
pub proof fn lemma_announce_url_ends(announce: Seq<char>, query: Seq<char>, info_hash: Seq<u8>)
    ensures
        announce_url(announce, query, info_hash).len() >= 3 * info_hash.len(),
        announce_url(announce, query, info_hash).skip(
            announce_url(announce, query, info_hash).len() - 3 * info_hash.len(),
        ) == percent_hex(info_hash),
{
    let url = announce_url(announce, query, info_hash);
    assert(url.skip(url.len() - 3 * info_hash.len()) =~= percent_hex(info_hash));
}

/// Every byte of `bytes` as `%` and its two hexadecimal digits.
pub fn percent_encode(bytes: &[u8]) -> (text: String)
    ensures
        text@ == percent_hex(bytes@),
{
    let mut text: String = String::new();
    let mut i: usize = 0;
    proof {
        reveal_strlit("%");
        assert(text@ =~= percent_hex(bytes@.take(0)));
    }
    while i < bytes.len()
        invariant
            i <= bytes@.len(),
            text@ == percent_hex(bytes@.take(i as int)),
            "%"@ == seq!['%'],
        decreases bytes@.len() - i,
    {
        let one: [u8; 1] = [bytes[i]];
        let digits: String = hex_encode(one.as_slice());
        let ghost before = text@;
        text.append("%");
        text.append(digits.as_str());
        proof {
            let next = bytes@.take(i + 1);
            assert(one@ =~= seq![bytes@[i as int]]);
            assert(text@ == before + seq!['%'] + hex_chars(one@));
            assert forall|j: int| 0 <= j < 3 * (i + 1) implies text@[j] == percent_hex(next)[j] by {
                if j < 3 * i {
                    assert(text@[j] == percent_hex(bytes@.take(i as int))[j]);
                    assert(bytes@.take(i as int)[j / 3] == next[j / 3]);
                } else {
                    assert(j / 3 == i);
                    if j == 3 * i + 1 {
                        assert(text@[j] == hex_chars(one@)[0]);
                    } else if j == 3 * i + 2 {
                        assert(text@[j] == hex_chars(one@)[1]);
                    }
                }
            }
            assert(text@ =~= percent_hex(next));
        }
        i += 1;
    }
    assert(bytes@.take(bytes@.len() as int) =~= bytes@);
    text
}

/// Puts the announce URL together from the tracker's URL, the form-encoded
/// query as the encoder gave it, and the info hash. Without a query there
/// is no URL.
pub fn assemble_url(announce: &str, query: Option<String>, info_hash: &[u8]) -> (r: Result<
    String,
    TrackerError,
>)
    ensures
        match query {
            Some(text) => r matches Ok(url) && url@ == announce_url(announce@, text@, info_hash@),
            None => r matches Err(e) && e == TrackerError::QueryEncoding,
        },
{
    match query {
        None => Err(TrackerError::QueryEncoding),
        Some(text) => {
            let mut url: String = String::from_str(announce);
            url.append("?");
            url.append(text.as_str());
            url.append("&info_hash=");
            let hash: String = percent_encode(info_hash);
            url.append(hash.as_str());
            Ok(url)
        },
    }
}

impl DiscoverPeersRequest {
    /// The query of this request, but for the info hash: `peer_id`, `port`,
    /// `uploaded`, `downloaded`, `left` and `compact`, numbers in decimal.
    pub open spec fn query_pairs(&self) -> Seq<(Seq<char>, Seq<char>)> {
        seq![
            ("peer_id"@, self.peer_id@),
            ("port"@, decimal_text(self.port as int)),
            ("uploaded"@, decimal_text(self.uploaded as int)),
            ("downloaded"@, decimal_text(self.downloaded as int)),
            ("left"@, decimal_text(self.left as int)),
            ("compact"@, decimal_text(self.compact as int)),
        ]
    }

    /// The request that announces a download of `torrent` that has not
    /// begun: nothing up, nothing down, the whole file left, a compact
    /// peer list asked for.
    pub fn for_torrent(torrent: &TorrentFile) -> (request: DiscoverPeersRequest)
        ensures
            request.announce_url@ == torrent.announce@,
            request.info_hash@ == sha1_digest(encode_value(torrent.info.dictionary@)),
            request.peer_id@ == "00112233445566778899"@,
            request.port == DEFAULT_PORT,
            request.uploaded == 0,
            request.downloaded == 0,
            request.left == torrent.info.length,
            request.compact == 1,
    {
        let info_hash: [u8; 20] = torrent.info_hash();
        DiscoverPeersRequest {
            announce_url: torrent.announce.clone(),
            info_hash,
            peer_id: String::from_str("00112233445566778899"),
            port: DEFAULT_PORT,
            uploaded: 0,
            downloaded: 0,
            left: torrent.info.length,
            compact: 1,
        }
    }

    /// The announce URL of this request. There is one for every request,
    /// and it ends with the 60 characters of the percent-encoded info hash.
    pub fn get_url(&self) -> (r: Result<String, TrackerError>)
        ensures
            match r {
                Ok(url) => {
                    &&& url@ == announce_url(
                        self.announce_url@,
                        form_urlencoded(self.query_pairs()),
                        self.info_hash@,
                    )
                    &&& url@.len() >= 60
                    &&& url@.skip(url@.len() - 60) == percent_hex(self.info_hash@)
                },
                Err(_) => false,
            },
    {
        proof {
            lemma_announce_url_ends(
                self.announce_url@,
                form_urlencoded(self.query_pairs()),
                self.info_hash@,
            );
        }
        let mut query: Vec<(String, String)> = Vec::new();
        query.push((String::from_str("peer_id"), self.peer_id.clone()));
        query.push((String::from_str("port"), signed_string(self.port as i64)));
        query.push((String::from_str("uploaded"), unsigned_string(self.uploaded as u64)));
        query.push((String::from_str("downloaded"), unsigned_string(self.downloaded as u64)));
        query.push((String::from_str("left"), unsigned_string(self.left as u64)));
        query.push((String::from_str("compact"), signed_string(self.compact as i64)));
        assert(pairs_model(query@) =~= self.query_pairs());
        let encoded: Option<String> = form_urlencode(&query);
        assemble_url(self.announce_url.as_str(), encoded, self.info_hash.as_slice())
    }
}

impl DiscoverPeersResponse {
    /// Reads the tracker's answer from a decoded value.
    pub fn from_bencode(root: &BencodeValue) -> (r: Result<DiscoverPeersResponse, TrackerError>)
        ensures
            match response_of(root@) {
                Some(model) => r matches Ok(response) && response@ == model,
                None => r matches Err(e) && e == TrackerError::MalformedResponse,
            },
    {
        proof {
            reveal_strlit("complete");
            reveal_strlit("incomplete");
            reveal_strlit("interval");
            reveal_strlit("min interval");
            reveal_strlit("peers");
        }
        let complete: usize = match root.get_size(ascii_bytes("complete")) {
            Some(n) => n,
            None => {
                return Err(TrackerError::MalformedResponse);
            },
        };
        let incomplete: usize = match root.get_size(ascii_bytes("incomplete")) {
            Some(n) => n,
            None => {
                return Err(TrackerError::MalformedResponse);
            },
        };
        let interval: usize = match root.get_size(ascii_bytes("interval")) {
            Some(n) => n,
            None => {
                return Err(TrackerError::MalformedResponse);
            },
        };
        let min_interval: usize = match root.get_size(ascii_bytes("min interval")) {
            Some(n) => n,
            None => {
                return Err(TrackerError::MalformedResponse);
            },
        };
        let peers: Vec<u8> = match root.get_bytes(ascii_bytes("peers")) {
            Some(bytes) => slice_to_vec(bytes.as_slice()),
            None => {
                return Err(TrackerError::MalformedResponse);
            },
        };
        Ok(DiscoverPeersResponse { complete, incomplete, interval, min_interval, peers })
    }

    /// Reads the tracker's answer from the bytes of its body. Bytes behind
    /// the top-level value are left unread.
    pub fn from_bencoded_bytes(bytes: &[u8]) -> (r: Result<DiscoverPeersResponse, TrackerError>)
        ensures
            match decode_value(bytes@) {
                Err(e) => r matches Err(err) && err == TrackerError::Bencode(e),
                Ok((root, _)) => match response_of(root) {
                    Some(model) => r matches Ok(response) && response@ == model,
                    None => r matches Err(e) && e == TrackerError::MalformedResponse,
                },
            },
    {
        match decode_bencoded_value(bytes) {
            Err(e) => Err(TrackerError::Bencode(e)),
            Ok(root) => DiscoverPeersResponse::from_bencode(&root),
        }
    }

    /// The addresses in the compact peer list, in its order: one for every
    /// six bytes.
    pub fn parse_peers(&self) -> (r: Result<Vec<PeerAddress>, TrackerError>)
        ensures
            match r {
                Ok(list) => {
                    &&& self.peers@.len() % 6 == 0
                    &&& list@.len() == self.peers@.len() / 6
                    &&& forall|i: int|
                        0 <= i < list@.len() ==> is_peer_at(self.peers@, i, #[trigger] list@[i])
                },
                Err(e) => self.peers@.len() % 6 != 0 && e == TrackerError::MalformedPeerList,
            },
    {
        let total: usize = self.peers.len();
        if total % COMPACT_PEER_LEN != 0 {
            return Err(TrackerError::MalformedPeerList);
        }
        let count: usize = total / COMPACT_PEER_LEN;
        let mut list: Vec<PeerAddress> = Vec::new();
        let mut i: usize = 0;
        while i < count
            invariant
                i <= count,
                total == self.peers@.len(),
                count * 6 == total,
                list@.len() == i,
                forall|j: int| 0 <= j < i ==> is_peer_at(self.peers@, j, #[trigger] list@[j]),
            decreases count - i,
        {
            let at: usize = i * COMPACT_PEER_LEN;
            let ip: [u8; 4] = array_at::<4>(self.peers.as_slice(), at);
            let port: u16 = u16_from_be(self.peers.as_slice(), at + 4);
            list.push(PeerAddress { ip, port });
            i += 1;
        }
        Ok(list)
    }
}

/// The peers that a tracker's answer names, from the bytes of its body.
pub fn peers_from_response(body: &[u8]) -> (r: Result<Vec<PeerAddress>, TrackerError>)
    ensures
        match decode_value(body@) {
            Err(e) => r matches Err(err) && err == TrackerError::Bencode(e),
            Ok((root, _)) => match response_of(root) {
                None => r matches Err(e) && e == TrackerError::MalformedResponse,
                Some(model) => match r {
                    Ok(list) => {
                        &&& model.peers.len() % 6 == 0
                        &&& list@.len() == model.peers.len() / 6
                        &&& forall|i: int|
                            0 <= i < list@.len() ==> is_peer_at(model.peers, i, #[trigger] list@[i])
                    },
                    Err(e) => model.peers.len() % 6 != 0 && e == TrackerError::MalformedPeerList,
                },
            },
        },
{
    match DiscoverPeersResponse::from_bencoded_bytes(body) {
        Err(e) => Err(e),
        Ok(response) => response.parse_peers(),
    }
}

} // verus!
