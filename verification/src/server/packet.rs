//! The headers of QUIC packets, and the packets that the server sends without a
//! connection.

use vstd::prelude::*;

use crate::server::token::{HMAC_INPUT_LIMIT, MAX_CONN_ID_LEN};

verus! {

/// The largest datagram that is received or sent.
pub const MAX_DATAGRAM_SIZE: usize = 1350;

/// The types of QUIC packets.
#[derive(Clone, Copy, Debug, PartialEq, Eq, Structural)]
pub enum PacketType {
    /// The first packet of a handshake.
    Initial,
    /// The server's request to try again with a token.
    Retry,
    /// A later packet of a handshake.
    Handshake,
    /// Early data.
    ZeroRtt,
    /// The server's list of versions.
    VersionNegotiation,
    /// A packet of an established connection.
    Short,
}

/// What the server reads in the header of a QUIC packet.
#[derive(Clone, Debug, PartialEq, Eq)]
pub struct PacketHeader {
    /// The type of the packet.
    pub ty: PacketType,
    /// The version of QUIC.
    pub version: u32,
    /// The destination connection ID.
    pub dcid: Vec<u8>,
    /// The source connection ID.
    pub scid: Vec<u8>,
    /// The address validation token.
    pub token: Option<Vec<u8>>,
}

/// The model of [`PacketHeader`].
pub struct PacketView {
    pub ty: PacketType,
    pub version: u32,
    pub dcid: Seq<u8>,
    pub scid: Seq<u8>,
    pub token: Option<Seq<u8>>,
}

impl View for PacketHeader {
    type V = PacketView;

    open spec fn view(&self) -> PacketView {
        PacketView {
            ty: self.ty,
            version: self.version,
            dcid: self.dcid@,
            scid: self.scid@,
            token: match self.token {
                Some(token) => Some(token@),
                None => None,
            },
        }
    }
}

impl PacketView {
    /// An Initial packet has a token, which may be empty. The length of a
    /// connection ID is one byte, and in the supported version at most 20.
    pub open spec fn wf(self) -> bool {
        &&& self.ty is Initial ==> self.token is Some
        &&& self.dcid.len() <= 255
        &&& self.scid.len() <= 255
        &&& self.version == 1 ==> self.dcid.len() <= MAX_CONN_ID_LEN && self.scid.len()
            <= MAX_CONN_ID_LEN
        &&& self.token matches Some(token) ==> token.len() <= HMAC_INPUT_LIMIT
    }
}

/// The header that the `quiche` crate reads in a packet, where connection IDs of
/// established connections have 20 bytes; or the text of its error.
pub uninterp spec fn quic_header(packet: Seq<u8>) -> Result<PacketView, Seq<char>>;

/// That the outcome of reading a header is the expected one, and that the header
/// is well-formed.
pub open spec fn header_is(
    expected: Result<PacketView, Seq<char>>,
    r: Result<PacketHeader, String>,
) -> bool {
    match (r, expected) {
        (Ok(header), Ok(view)) => header@ == view && view.wf(),
        (Err(text), Err(expected)) => text@ == expected,
        _ => false,
    }
}

/// The Retry packet of version 1 that the `quiche` crate makes for a client's
/// connection ID, the ID that the client chose for the server, the server's new
/// ID and a token, if it makes one that fits into a datagram.
pub uninterp spec fn retry_result(
    scid: Seq<u8>,
    dcid: Seq<u8>,
    new_scid: Seq<u8>,
    token: Seq<u8>,
) -> Option<Seq<u8>>;

/// `quiche::version_is_supported`: only version 1 is.
pub assume_specification[ quiche::version_is_supported ](version: u32) -> (r: bool)
    ensures
        r == (version == 1),
;

/// Calls `quiche::Header::from_slice`: the named header or error. In a header an
/// Initial packet has a token, which is part of the packet, and the length of a
/// connection ID is one byte, and in version 1 at most 20.
#[verifier::external_body]
fn quiche_header(packet: &[u8]) -> (r: Result<PacketHeader, String>)
    requires
        packet@.len() <= HMAC_INPUT_LIMIT,
    ensures
        header_is(quic_header(packet@), r),
{
    let mut buf = packet.to_vec();
    let hdr = quiche::Header::from_slice(&mut buf, quiche::MAX_CONN_ID_LEN);
    let hdr = hdr.map_err(|e| e.to_string())?;
    let ty = match hdr.ty {
        quiche::Type::Initial => PacketType::Initial,
        quiche::Type::Retry => PacketType::Retry,
        quiche::Type::Handshake => PacketType::Handshake,
        quiche::Type::ZeroRTT => PacketType::ZeroRtt,
        quiche::Type::VersionNegotiation => PacketType::VersionNegotiation,
        quiche::Type::Short => PacketType::Short,
    };
    let (dcid, scid) = (hdr.dcid.to_vec(), hdr.scid.to_vec());
    Ok(PacketHeader { ty, version: hdr.version, dcid, scid, token: hdr.token })
}

/// Calls `quiche::negotiate_version`: a byte whose high bit is set and of which
/// the rest is random, version 0, the two connection IDs with their lengths, and
/// version 1. There is room for that in any case.
#[verifier::external_body]
fn quiche_negotiate_version(scid: &Vec<u8>, dcid: &Vec<u8>) -> (r: Vec<u8>)
    requires
        scid@.len() <= 255,
        dcid@.len() <= 255,
    ensures
        r@.len() > 0,
        r@[0] >= 0x80,
        r@.skip(1) == version_packet_tail(scid@, dcid@),
{
    let mut out = vec![0u8; MAX_DATAGRAM_SIZE];
    let scid = quiche::ConnectionId::from_ref(scid);
    let dcid = quiche::ConnectionId::from_ref(dcid);
    let len = quiche::negotiate_version(&scid, &dcid, &mut out).unwrap();
    out[..len].to_vec()
}

/// Calls `quiche::retry` for version 1 with room for a datagram: the named packet,
/// which begins as [`retry_packet_body`] describes and ends with an integrity tag
/// of 16 bytes. There is none if it does not fit. Whether there is one that fits
/// rests with the sealing of the tag, of which nothing more is said.
#[verifier::external_body]
fn quiche_retry(
    scid: &Vec<u8>,
    dcid: &Vec<u8>,
    new_scid: &Vec<u8>,
    token: &Vec<u8>,
    version: u32,
) -> (r: Option<Vec<u8>>)
    requires
        version == 1,
        scid@.len() <= 255,
        dcid@.len() <= 255,
        new_scid@.len() <= 255,
    ensures
        match r {
            Some(packet) => retry_result(scid@, dcid@, new_scid@, token@) == Some(packet@),
            None => retry_result(scid@, dcid@, new_scid@, token@) is None,
        },
        r matches Some(packet) ==> {
            let body = retry_packet_body(scid@, new_scid@, token@);
            &&& body.is_prefix_of(packet@)
            &&& packet@.len() == body.len() + 16
        },
        retry_packet_body(scid@, new_scid@, token@).len() + 16 > MAX_DATAGRAM_SIZE ==> r is None,
{
    let mut out = vec![0u8; MAX_DATAGRAM_SIZE];
    let to = quiche::ConnectionId::from_ref(scid);
    let odcid = quiche::ConnectionId::from_ref(dcid);
    let from = quiche::ConnectionId::from_ref(new_scid);
    let len = quiche::retry(&to, &odcid, &from, token, version, &mut out).ok()?;
    Some(out[..len].to_vec())
}

/// A Version Negotiation packet behind its first byte.
pub open spec fn version_packet_tail(scid: Seq<u8>, dcid: Seq<u8>) -> Seq<u8> {
    seq![0u8, 0, 0, 0, scid.len() as u8] + scid + seq![dcid.len() as u8] + dcid + seq![0u8, 0, 0, 1]
}

/// A Retry packet of version 1 without its tag: the type, the version, the
/// client's connection ID, the server's new one, and the token.
pub open spec fn retry_packet_body(scid: Seq<u8>, new_scid: Seq<u8>, token: Seq<u8>) -> Seq<u8> {
    seq![0xf0u8, 0, 0, 0, 1, scid.len() as u8] + scid + seq![new_scid.len() as u8] + new_scid
        + token
}

impl PacketHeader {
    /// Reads the header of a packet.
    pub fn parse(packet: &[u8]) -> (r: Result<PacketHeader, String>)
        requires
            packet@.len() <= HMAC_INPUT_LIMIT,
        ensures
            header_is(quic_header(packet@), r),
    {
        quiche_header(packet)
    }

    /// The answer to a packet of a version that is not supported. Its first byte
    /// is random but for the high bit.
    pub fn version_packet(&self) -> (r: Vec<u8>)
        requires
            self@.wf(),
        ensures
            r@.len() > 0,
            r@[0] >= 0x80,
            r@.skip(1) == version_packet_tail(self@.scid, self@.dcid),
    {
        quiche_negotiate_version(&self.scid, &self.dcid)
    }

    /// The answer to a packet without a token: the Retry packet with the server's
    /// new connection ID and the token that the client has to send back. There is
    /// none if it would not fit into a datagram or its tag cannot be sealed.
    pub fn retry_packet(&self, new_scid: &Vec<u8>, token: &Vec<u8>) -> (r: Option<Vec<u8>>)
        requires
            self@.wf(),
            self@.version == 1,
            new_scid@.len() <= 255,
        ensures
            match r {
                Some(packet) => retry_result(self@.scid, self@.dcid, new_scid@, token@) == Some(
                    packet@,
                ),
                None => retry_result(self@.scid, self@.dcid, new_scid@, token@) is None,
            },
            r matches Some(packet) ==> {
                let body = retry_packet_body(self@.scid, new_scid@, token@);
                &&& body.is_prefix_of(packet@)
                &&& packet@.len() == body.len() + 16
            },
            retry_packet_body(self@.scid, new_scid@, token@).len() + 16 > MAX_DATAGRAM_SIZE ==> r
                is None,
    {
        quiche_retry(&self.scid, &self.dcid, new_scid, token, self.version)
    }
}

/// Behind the first byte of a Version Negotiation packet stand version 0, the
/// client's connection ID behind its length, the server's behind its length, and
/// version 1 at the end.
pub proof fn law_version_packet_echoes_the_ids(scid: Seq<u8>, dcid: Seq<u8>)
    requires
        scid.len() <= 255,
        dcid.len() <= 255,
    ensures
        ({
            let tail = version_packet_tail(scid, dcid);
            let at = 5 + scid.len() as int;
            &&& tail.len() == 10 + scid.len() + dcid.len()
            &&& tail.take(4) == seq![0u8, 0, 0, 0]
            &&& tail[4] == scid.len()
            &&& tail.subrange(5, at) == scid
            &&& tail[at] == dcid.len()
            &&& tail.subrange(at + 1, at + 1 + dcid.len()) == dcid
            &&& tail.skip(at + 1 + dcid.len()) == seq![0u8, 0, 0, 1]
        }),
{
}

/// A Retry packet begins with its type and version 1, then the client's connection
/// ID behind its length, the server's new one behind its length, and the token.
pub proof fn law_retry_packet_carries_id_and_token(
    scid: Seq<u8>,
    new_scid: Seq<u8>,
    token: Seq<u8>,
)
    requires
        scid.len() <= 255,
        new_scid.len() <= 255,
    ensures
        ({
            let body = retry_packet_body(scid, new_scid, token);
            let at = 6 + scid.len() as int;
            &&& body.len() == 7 + scid.len() + new_scid.len() + token.len()
            &&& body.take(5) == seq![0xf0u8, 0, 0, 0, 1]
            &&& body[5] == scid.len()
            &&& body.subrange(6, at) == scid
            &&& body[at] == new_scid.len()
            &&& body.subrange(at + 1, at + 1 + new_scid.len()) == new_scid
            &&& body.skip(at + 1 + new_scid.len()) == token
        }),
{
}

/// A header that agrees with its model has the type, the version, the connection
/// IDs and the token of the model.
pub proof fn law_headers_are_exact(
    expected: Result<PacketView, Seq<char>>,
    r: Result<PacketHeader, String>,
)
    requires
        header_is(expected, r),
    ensures
        r is Ok <==> expected is Ok,
        (r, expected) matches (Ok(header), Ok(view)) ==> {
            &&& header.ty == view.ty
            &&& header.version == view.version
            &&& header.dcid@ == view.dcid
            &&& header.scid@ == view.scid
            &&& header.token is Some <==> view.token is Some
            &&& header.token matches Some(token) ==> view.token == Some(token@)
        },
        r matches Err(text) ==> expected == Err::<PacketView, _>(text@),
{
}

} // verus!
