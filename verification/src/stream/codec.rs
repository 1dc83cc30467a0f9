//! Framing of the packets that a TUN interface reads and writes.

use bytes::{BufMut, BytesMut};
use vstd::prelude::*;

verus! {

/// The byte buffers of the `bytes` crate.
#[verifier::external_type_specification]
#[verifier::external_body]
pub struct ExBytesMut(BytesMut);

/// The input and output errors of `std`.
#[verifier::external_type_specification]
#[verifier::external_body]
pub struct ExIoError(std::io::Error);

/// The bytes that a buffer holds.
pub uninterp spec fn bytes_of(b: BytesMut) -> Seq<u8>;

/// Calls `bytes::BytesMut::is_empty`: whether the buffer holds no bytes.
#[verifier::external_body]
fn bytesmut_is_empty(b: &BytesMut) -> (r: bool)
    ensures
        r == (bytes_of(*b).len() == 0),
{
    b.is_empty()
}

/// Calls `bytes::BytesMut::len`: the number of bytes in the buffer.
#[verifier::external_body]
fn bytesmut_len(b: &BytesMut) -> (r: usize)
    ensures
        r == bytes_of(*b).len(),
{
    b.len()
}

/// Calls `bytes::BytesMut::split_to`: the first `at` bytes leave the buffer and
/// are returned.
#[verifier::external_body]
fn bytesmut_split_to(b: &mut BytesMut, at: usize) -> (r: BytesMut)
    requires
        at <= bytes_of(*old(b)).len(),
    ensures
        bytes_of(r) == bytes_of(*old(b)).take(at as int),
        bytes_of(*final(b)) == bytes_of(*old(b)).skip(at as int),
{
    b.split_to(at)
}

/// Calls `bytes::BufMut::put` on a `bytes::BytesMut`: the bytes of `item` are
/// added behind those of the buffer. A buffer holds at most `isize::MAX` bytes.
#[verifier::external_body]
fn bytesmut_put(b: &mut BytesMut, item: BytesMut)
    requires
        bytes_of(*old(b)).len() + bytes_of(item).len() <= isize::MAX,
    ensures
        bytes_of(*final(b)) == bytes_of(*old(b)) + bytes_of(item),
{
    b.put(item)
}

/// The packet in the bytes that were read.
pub open spec fn packet_in(read: Seq<u8>) -> Option<Seq<u8>> {
    if read.len() == 0 {
        None
    } else {
        Some(read)
    }
}

/// The bytes to be written after a packet has been added.
pub open spec fn packet_added(written: Seq<u8>, packet: Seq<u8>) -> Seq<u8> {
    written + packet
}

/// The codec of a TUN interface: whatever is read at once is one packet, and
/// packets are written as they are.
pub struct IpPacketCodec;

impl IpPacketCodec {
    /// Takes all bytes that were read as one packet; none if there are none.
    pub fn decode(&mut self, src: &mut BytesMut) -> (r: Result<Option<BytesMut>, std::io::Error>)
        ensures
            r is Ok,
            bytes_of(*final(src)).len() == 0,
            match r->Ok_0 {
                Some(packet) => packet_in(bytes_of(*old(src))) == Some(bytes_of(packet)),
                None => packet_in(bytes_of(*old(src))) is None,
            },
    {
        if bytesmut_is_empty(src) {
            return Ok(None);
        }
        let len = bytesmut_len(src);
        let data = bytesmut_split_to(src, len);
        Ok(Some(data))
    }

    /// Adds a packet to the bytes that are to be written.
    pub fn encode(&mut self, item: BytesMut, dst: &mut BytesMut) -> (r: Result<(), std::io::Error>)
        requires
            bytes_of(*old(dst)).len() + bytes_of(item).len() <= isize::MAX,
        ensures
            r is Ok,
            bytes_of(*final(dst)) == packet_added(bytes_of(*old(dst)), bytes_of(item)),
    {
        bytesmut_put(dst, item);
        Ok(())
    }

    /// Adds a packet to the bytes that are to be written, if there is room for it.
    /// Otherwise nothing is added, and the result is none.
    pub fn encode_if_room(&mut self, item: BytesMut, dst: &mut BytesMut) -> (r: Option<
        Result<(), std::io::Error>,
    >)
        ensures
            if bytes_of(*old(dst)).len() + bytes_of(item).len() <= isize::MAX {
                &&& r matches Some(Ok(()))
                &&& bytes_of(*final(dst)) == packet_added(bytes_of(*old(dst)), bytes_of(item))
            } else {
                &&& r is None
                &&& bytes_of(*final(dst)) == bytes_of(*old(dst))
            },
    {
        let written = bytesmut_len(dst);
        let more = bytesmut_len(&item);
        if written > isize::MAX as usize || more > isize::MAX as usize - written {
            return None;
        }
        Some(self.encode(item, dst))
    }
}

/// What is written to an empty buffer is read back as the same packet, unless it
/// is empty.
pub proof fn law_packet_survives(packet: Seq<u8>)
    requires
        packet.len() > 0,
    ensures
        packet_in(packet_added(seq![], packet)) == Some(packet),
{
    assert(packet_added(seq![], packet) =~= packet);
}

/// The packet in the bytes that were read is all of them, and there is one unless
/// there are none. A packet is added behind what is to be written, byte for byte.
pub proof fn law_packets_keep_their_bytes(read: Seq<u8>, written: Seq<u8>, packet: Seq<u8>, i: int)
    ensures
        packet_in(read) is Some <==> read.len() > 0,
        packet_in(read) matches Some(p) ==> p == read,
        packet_added(written, packet).len() == written.len() + packet.len(),
        0 <= i < written.len() ==> packet_added(written, packet)[i] == written[i],
        0 <= i < packet.len() ==> packet_added(written, packet)[written.len() + i] == packet[i],
{
}

} // verus!
