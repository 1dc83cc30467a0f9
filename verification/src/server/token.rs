//! The authenticated tokens that the server gives to clients and takes back from
//! them, and the connection IDs that it derives. A token names the address that
//! it was given to, which is not compared when the token comes back.

use vstd::prelude::*;
use vstd::slice::{slice_subrange, slice_to_vec};

use crate::net::IpAddr;
use crate::server::response::VERSION_IDENTIFICATION;
use crate::table::same_bytes;

verus! {

/// The length of an HMAC-SHA256 tag.
pub const HMAC_TAG_LEN: usize = 32;

/// The length of the longest connection ID.
pub const MAX_CONN_ID_LEN: usize = 20;

/// A length up to which data can be authenticated.
pub const HMAC_INPUT_LIMIT: u64 = 0x1000_0000_0000_0000;

/// The HMAC-SHA256 tag of data under a key, as the `ring` crate computes it.
pub uninterp spec fn hmac_sha256(key: Seq<u8>, data: Seq<u8>) -> Seq<u8>;

/// Calls `ring::hmac::sign` with HMAC-SHA256: the named tag, which has 32
/// bytes.
#[verifier::external_body]
fn ring_sign(key: &[u8], data: &[u8]) -> (r: Vec<u8>)
    requires
        key@.len() <= HMAC_INPUT_LIMIT,
        data@.len() <= HMAC_INPUT_LIMIT,
    ensures
        r@ == hmac_sha256(key@, data@),
        r@.len() == HMAC_TAG_LEN,
{
    let key = ring::hmac::Key::new(ring::hmac::HMAC_SHA256, key);
    ring::hmac::sign(&key, data).as_ref().to_vec()
}

/// Calls `ring::hmac::verify` with HMAC-SHA256: whether the tag is the named one.
#[verifier::external_body]
fn ring_verify(key: &[u8], data: &[u8], tag: &[u8]) -> (r: bool)
    requires
        key@.len() <= HMAC_INPUT_LIMIT,
        data@.len() <= HMAC_INPUT_LIMIT,
    ensures
        r == (tag@ == hmac_sha256(key@, data@)),
{
    let key = ring::hmac::Key::new(ring::hmac::HMAC_SHA256, key);
    ring::hmac::verify(&key, data, tag).is_ok()
}

/// Calls `ring::rand::SystemRandom::fill` on the bytes of a key: 32 bytes, of
/// which nothing is known; none if the system gives no random numbers.
#[verifier::external_body]
fn ring_random_key() -> (r: Option<Vec<u8>>)
    ensures
        r matches Some(key) ==> key@.len() == HMAC_TAG_LEN,
{
    let mut key = vec![0u8; HMAC_TAG_LEN];
    ring::rand::SecureRandom::fill(&ring::rand::SystemRandom::new(), &mut key).ok()?;
    Some(key)
}

/// A fresh key for HMAC-SHA256; none if the system gives no random numbers.
pub fn generate_key() -> (r: Option<Vec<u8>>)
    ensures
        r matches Some(key) ==> key@.len() == HMAC_TAG_LEN,
{
    ring_random_key()
}

/// The bytes with which every token starts.
pub open spec fn token_prefix() -> Seq<u8> {
    vstd::utf8::encode_utf8(VERSION_IDENTIFICATION@)
}

/// What a token says before it is signed: the version of the server, the address
/// of the client and the connection ID that the client chose.
pub open spec fn token_data(src: IpAddr, dcid: Seq<u8>) -> Seq<u8> {
    token_prefix() + src.bytes() + dcid
}

/// The connection ID in a token, if the token is valid: it has the right start,
/// room for an address and at least one byte of a connection ID, and the tag of
/// all that.
pub open spec fn validated(key: Seq<u8>, src: IpAddr, token: Seq<u8>) -> Option<Seq<u8>> {
    let start = token_prefix().len() + src.bytes().len();
    let end = token.len() - HMAC_TAG_LEN;
    if token_prefix().is_prefix_of(token) && start + 1 <= end && token.skip(end) == hmac_sha256(
        key,
        token.take(end),
    ) {
        Some(token.subrange(start as int, end))
    } else {
        None
    }
}

/// The connection ID that the server derives from the one of a client.
pub open spec fn derived_id(seed: Seq<u8>, dcid: Seq<u8>) -> Seq<u8> {
    hmac_sha256(seed, dcid).take(MAX_CONN_ID_LEN as int)
}

/// Derives a connection ID from the one of a client.
pub fn derive_id(seed: &Vec<u8>, dcid: &Vec<u8>) -> (r: Vec<u8>)
    requires
        seed@.len() <= HMAC_INPUT_LIMIT,
        dcid@.len() <= HMAC_INPUT_LIMIT,
    ensures
        r@ == derived_id(seed@, dcid@),
        r@.len() == MAX_CONN_ID_LEN,
{
    let mut tag = ring_sign(seed.as_slice(), dcid.as_slice());
    tag.truncate(MAX_CONN_ID_LEN);
    tag
}

/// Generates a stateless retry token.
pub fn mint_token(key: &Vec<u8>, src: IpAddr, dcid: &Vec<u8>) -> (r: Vec<u8>)
    requires
        key@.len() <= HMAC_INPUT_LIMIT,
        dcid@.len() <= 255,
    ensures
        r@ == token_data(src, dcid@) + hmac_sha256(key@, token_data(src, dcid@)),
        r@.len() == token_data(src, dcid@).len() + HMAC_TAG_LEN,
        dcid@.len() > 0 ==> validated(key@, src, r@) == Some(dcid@),
        dcid@.len() == 0 ==> validated(key@, src, r@) is None,
{
    let mut token: Vec<u8> = Vec::new();
    token.extend_from_slice(VERSION_IDENTIFICATION.as_bytes());
    token.extend_from_slice(src.octets().as_slice());
    token.extend_from_slice(dcid.as_slice());
    assert(token@ =~= token_data(src, dcid@));
    proof {
        lemma_token_prefix();
        match src {
            IpAddr::V4(a) => crate::bigendian::lemma_be_bytes_len(a as nat, 4),
            IpAddr::V6(a) => crate::bigendian::lemma_be_bytes_len(a as nat, 16),
        }
    }
    let tag = ring_sign(key.as_slice(), token.as_slice());
    token.extend_from_slice(tag.as_slice());
    proof {
        let data = token_data(src, dcid@);
        let end = data.len() as int;
        let start = (token_prefix().len() + src.bytes().len()) as int;
        assert(token@.take(end) =~= data);
        assert(token@.skip(end) =~= tag@);
        assert(token@.subrange(0, token_prefix().len() as int) =~= token_prefix());
        assert(token@.subrange(start, end) =~= dcid@);
    }
    token
}

/// The version is short.
proof fn lemma_token_prefix()
    ensures
        token_prefix().len() == 5,
{
    reveal_strlit("0.1.0");
    vstd::utf8::is_ascii_chars_encode_utf8(VERSION_IDENTIFICATION@);
}

/// Validates a stateless retry token, by its format and its tag. Returns the
/// connection ID that it was minted for.
pub fn validate_token(key: &Vec<u8>, src: IpAddr, token: &Vec<u8>) -> (r: Option<Vec<u8>>)
    requires
        key@.len() <= HMAC_INPUT_LIMIT,
        token@.len() <= HMAC_INPUT_LIMIT,
    ensures
        match r {
            Some(dcid) => validated(key@, src, token@) == Some(dcid@),
            None => validated(key@, src, token@) is None,
        },
{
    let prefix = VERSION_IDENTIFICATION.as_bytes();
    let addr_bytes = src.octets();
    proof {
        lemma_token_prefix();
        match src {
            IpAddr::V4(a) => crate::bigendian::lemma_be_bytes_len(a as nat, 4),
            IpAddr::V6(a) => crate::bigendian::lemma_be_bytes_len(a as nat, 16),
        }
    }
    if token.len() < prefix.len() {
        return None;
    }
    if !same_bytes(slice_subrange(token.as_slice(), 0, prefix.len()), prefix) {
        return None;
    }
    let min_len: usize = prefix.len() + addr_bytes.len() + 1 + HMAC_TAG_LEN;
    if token.len() < min_len {
        return None;
    }
    let hmac_offset: usize = token.len() - HMAC_TAG_LEN;
    let data = slice_subrange(token.as_slice(), 0, hmac_offset);
    let tag = slice_subrange(token.as_slice(), hmac_offset, token.len());
    assert(data@ =~= token@.take(hmac_offset as int));
    assert(tag@ =~= token@.skip(hmac_offset as int));
    if !ring_verify(key.as_slice(), data, tag) {
        return None;
    }
    let dcid_offset: usize = prefix.len() + addr_bytes.len();
    Some(slice_to_vec(slice_subrange(token.as_slice(), dcid_offset, hmac_offset)))
}

/// A token is accepted only with the tag of everything before it under the
/// server's key, and only if it names this version of the server.
pub proof fn law_accepted_token_is_authentic(key: Seq<u8>, src: IpAddr, token: Seq<u8>)
    requires
        validated(key, src, token) is Some,
    ensures
        token.len() > HMAC_TAG_LEN,
        token_prefix().is_prefix_of(token),
        token.skip(token.len() - HMAC_TAG_LEN) == hmac_sha256(
            key,
            token.take(token.len() - HMAC_TAG_LEN),
        ),
{
}

/// Every token with the version of the server, as many bytes as an address of the
/// client's kind has, a connection ID that is not empty, and the tag of all that
/// under the server's key is accepted and gives back that connection ID.
pub proof fn law_authentic_tokens_are_accepted(
    key: Seq<u8>,
    src: IpAddr,
    address: Seq<u8>,
    dcid: Seq<u8>,
)
    requires
        address.len() == if src is V4 {
            4int
        } else {
            16
        },
        dcid.len() > 0,
        hmac_sha256(
            key,
            vstd::utf8::encode_utf8(VERSION_IDENTIFICATION@) + address + dcid,
        ).len() == 32,
    ensures
        ({
            let data = vstd::utf8::encode_utf8(VERSION_IDENTIFICATION@) + address + dcid;
            validated(key, src, data + hmac_sha256(key, data)) == Some(dcid)
        }),
{
    crate::net::law_address_bytes_hold_its_number(src);
    let version = vstd::utf8::encode_utf8(VERSION_IDENTIFICATION@);
    let data = version + address + dcid;
    let token = data + hmac_sha256(key, data);
    assert(token.take(data.len() as int) =~= data);
    assert(token.skip(data.len() as int) =~= hmac_sha256(key, data));
    assert(token.subrange(0, version.len() as int) =~= version);
    assert(token.subrange((version.len() + address.len()) as int, data.len() as int) =~= dcid);
}

/// A token that is accepted consists of the version of the server, as many bytes
/// as an address of the client's kind has, the connection ID that it gives, which
/// is not empty, and the tag of all that under the server's key.
pub proof fn law_accepted_tokens_have_their_parts(key: Seq<u8>, src: IpAddr, token: Seq<u8>)
    ensures
        validated(key, src, token) matches Some(dcid) ==> {
            let version = vstd::utf8::encode_utf8(VERSION_IDENTIFICATION@);
            let size = if src is V4 {
                4int
            } else {
                16int
            };
            let start = version.len() + size;
            let end = token.len() - 32;
            &&& dcid.len() > 0
            &&& start + dcid.len() == end
            &&& token.take(version.len() as int) == version
            &&& token.subrange(start, end) == dcid
            &&& token.skip(end) == hmac_sha256(key, token.take(end))
        },
{
    crate::net::law_address_bytes_hold_its_number(src);
    if validated(key, src, token) is Some {
        assert(token.take(token_prefix().len() as int) =~= token.subrange(
            0,
            token_prefix().len() as int,
        ));
    }
}

/// A token is signed over the version of the server, the bytes of the client's
/// address and the connection ID that the client chose, in this order. A derived
/// connection ID is the first twenty bytes of the tag of the client's ID under the
/// seed.
pub proof fn law_tokens_and_ids_are_derived_from_their_parts(
    seed: Seq<u8>,
    src: IpAddr,
    dcid: Seq<u8>,
)
    ensures
        token_data(src, dcid) == vstd::utf8::encode_utf8(VERSION_IDENTIFICATION@) + src.bytes()
            + dcid,
        derived_id(seed, dcid) == hmac_sha256(seed, dcid).take(20),
{
}

} // verus!
