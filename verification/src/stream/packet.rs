//! One-line descriptions of IP packets, for the log.

use vstd::prelude::*;
use vstd::slice::slice_subrange;
use vstd::string::StringExecFns;

use crate::buffer::Reader;
use crate::net::IpAddr;
use crate::stream::iptunnel::IpTunnel;
use crate::text::decimal_text;

verus! {

/// The 16-bit number at a place in a packet.
pub open spec fn number_at(buf: Seq<u8>, i: int) -> nat {
    (buf[i] * 256 + buf[i + 1]) as nat
}

/// The destination port, if the protocol has one and the packet is long enough.
pub open spec fn port_text(buf: Seq<u8>, header: int, protocol: u8) -> Seq<char> {
    if buf.len() >= header + 8 && (protocol == 6 || protocol == 17) {
        "Dest port: "@ + crate::text::decimal(number_at(buf, header + 2))
    } else {
        seq![]
    }
}

/// The description of an IPv4 packet.
pub open spec fn ipv4_packet_text(buf: Seq<u8>, bytes_read: nat) -> Seq<char> {
    if buf.len() < 20 {
        "Truncated IPv4 packet"@
    } else {
        "IPv4: bytes: "@ + crate::text::decimal(bytes_read) + "; Len: "@ + crate::text::decimal(
            number_at(buf, 2),
        ) + "; Dest: "@ + crate::text::decimal(buf[16] as nat) + "."@ + crate::text::decimal(
            buf[17] as nat,
        ) + "."@ + crate::text::decimal(buf[18] as nat) + "."@ + crate::text::decimal(
            buf[19] as nat,
        ) + "; Proto: "@ + crate::text::decimal(buf[9] as nat) + "; "@ + port_text(buf, 20, buf[9])
    }
}

/// The description of an IPv6 packet, given the text of its destination.
pub open spec fn ipv6_packet_text(
    buf: Seq<u8>,
    bytes_read: nat,
    destination: Seq<char>,
) -> Seq<char> {
    if buf.len() < 40 {
        "Truncated IPv6 packet"@
    } else {
        "IPv6: bytes: "@ + crate::text::decimal(bytes_read) + "; Payload Len: "@
            + crate::text::decimal(number_at(buf, 4)) + "; Dest: "@ + destination
            + "; Next header: "@ + crate::text::decimal(buf[6] as nat) + "; "@ + port_text(
            buf,
            40,
            buf[6],
        )
    }
}

/// The description of a packet. The IP version is in the high half of the first
/// byte.
pub open spec fn packet_text(buf: Seq<u8>, bytes_read: nat) -> Seq<char> {
    if buf[0] / 16 == 4 {
        ipv4_packet_text(buf, bytes_read)
    } else if buf[0] / 16 == 6 {
        let destination = crate::bigendian::be_value(buf.subrange(24, 40));
        ipv6_packet_text(buf, bytes_read, crate::net::ipv6_text(destination as u128))
    } else {
        "Unknown IP version"@
    }
}

/// The number in two bytes of a packet, as a text.
fn number_text(buf: &[u8], i: usize) -> (s: String)
    requires
        i + 1 < buf@.len(),
    ensures
        s@ == crate::text::decimal(number_at(buf@, i as int)),
{
    decimal_text(buf[i] as u128 * 256 + buf[i + 1] as u128)
}

/// Adds the destination port, if there is one.
fn append_port(s: &mut String, buf: &[u8], header: usize, protocol: u8)
    requires
        header <= 40,
    ensures
        final(s)@ == old(s)@ + port_text(buf@, header as int, protocol),
{
    if buf.len() >= header + 8 && (protocol == 6 || protocol == 17) {
        s.append("Dest port: ");
        s.append(number_text(buf, header + 2).as_str());
        assert(s@ =~= old(s)@ + port_text(buf@, header as int, protocol));
    } else {
        assert(s@ + seq![] =~= s@);
    }
}

/// The description of an IPv4 packet.
pub fn ipv4_packet_output(buf: &[u8], bytes_read: usize) -> (s: String)
    ensures
        s@ == ipv4_packet_text(buf@, bytes_read as nat),
{
    if buf.len() < 20 {
        return "Truncated IPv4 packet".to_owned();
    }
    let mut s = "IPv4: bytes: ".to_owned();
    s.append(decimal_text(bytes_read as u128).as_str());
    s.append("; Len: ");
    s.append(number_text(buf, 2).as_str());
    s.append("; Dest: ");
    s.append(decimal_text(buf[16] as u128).as_str());
    s.append(".");
    s.append(decimal_text(buf[17] as u128).as_str());
    s.append(".");
    s.append(decimal_text(buf[18] as u128).as_str());
    s.append(".");
    s.append(decimal_text(buf[19] as u128).as_str());
    s.append("; Proto: ");
    s.append(decimal_text(buf[9] as u128).as_str());
    s.append("; ");
    append_port(&mut s, buf, 20, buf[9]);
    s
}

/// The description of an IPv6 packet, given the text of its destination.
pub fn ipv6_packet_output(buf: &[u8], bytes_read: usize, destination: &str) -> (s: String)
    ensures
        s@ == ipv6_packet_text(buf@, bytes_read as nat, destination@),
{
    if buf.len() < 40 {
        return "Truncated IPv6 packet".to_owned();
    }
    let mut s = "IPv6: bytes: ".to_owned();
    s.append(decimal_text(bytes_read as u128).as_str());
    s.append("; Payload Len: ");
    s.append(number_text(buf, 4).as_str());
    s.append("; Dest: ");
    s.append(destination);
    s.append("; Next header: ");
    s.append(decimal_text(buf[6] as u128).as_str());
    s.append("; ");
    append_port(&mut s, buf, 40, buf[6]);
    s
}

impl IpTunnel {
    /// A one-line description of a packet, of which `bytes_read` bytes were read.
    pub fn packet_output(buf: &[u8], bytes_read: usize) -> (s: String)
        requires
            buf@.len() > 0,
        ensures
            s@ == packet_text(buf@, bytes_read as nat),
    {
        if buf[0] / 16 == 4 {
            ipv4_packet_output(buf, bytes_read)
        } else if buf[0] / 16 == 6 {
            if buf.len() < 40 {
                return ipv6_packet_output(buf, bytes_read, "");
            }
            let mut octets = Reader::with_slice(slice_subrange(buf, 24, 40));
            match IpTunnel::octets_to_ipv6(&mut octets) {
                Ok(destination) => {
                    assert(buf@.subrange(24, 40).subrange(0, 16) =~= buf@.subrange(24, 40));
                    ipv6_packet_output(
                        buf,
                        bytes_read,
                        IpAddr::V6(destination).to_text().as_str(),
                    )
                },
                Err(_) => vstd::pervasive::unreached(),
            }
        } else {
            "Unknown IP version".to_owned()
        }
    }
}

/// The destination of an IPv4 packet is the address in its bytes 16 to 19, shown
/// as such an address, between the length in bytes 2 and 3 and the protocol in
/// byte 9.
pub proof fn law_ipv4_destination_is_shown(buf: Seq<u8>, bytes_read: nat, addr: u32)
    requires
        buf.len() >= 20,
        buf[0] / 16 == 4,
        IpAddr::V4(addr).bytes() == buf.subrange(16, 20),
    ensures
        ({
            let head = "IPv4: bytes: "@ + crate::text::decimal(bytes_read) + "; Len: "@
                + crate::text::decimal(crate::bigendian::be_value(buf.subrange(2, 4)))
                + "; Dest: "@ + IpAddr::V4(addr).text() + "; Proto: "@ + crate::text::decimal(
                buf[9] as nat,
            ) + "; "@;
            packet_text(buf, bytes_read) == if (buf[9] == 6 || buf[9] == 17) && buf.len() >= 28 {
                head + "Dest port: "@ + crate::text::decimal(
                    crate::bigendian::be_value(buf.subrange(22, 24)),
                )
            } else {
                head
            }
        }),
{
    let four = buf.subrange(16, 20);
    assert(four =~= seq![buf[16], buf[17], buf[18], buf[19]]);
    crate::net::law_ipv4_text_shows_bytes(buf[16], buf[17], buf[18], buf[19], addr);
    lemma_number_at(buf, 2);
    if buf.len() >= 28 {
        lemma_number_at(buf, 22);
    }
    let head = "IPv4: bytes: "@ + crate::text::decimal(bytes_read) + "; Len: "@
        + crate::text::decimal(crate::bigendian::be_value(buf.subrange(2, 4))) + "; Dest: "@
        + IpAddr::V4(addr).text() + "; Proto: "@ + crate::text::decimal(buf[9] as nat) + "; "@;
    assert(ipv4_packet_text(buf, bytes_read) =~= head + port_text(buf, 20, buf[9]));
    if (buf[9] == 6 || buf[9] == 17) && buf.len() >= 28 {
        assert(head + port_text(buf, 20, buf[9]) =~= head + "Dest port: "@ + crate::text::decimal(
            crate::bigendian::be_value(buf.subrange(22, 24)),
        ));
    } else {
        assert(head + port_text(buf, 20, buf[9]) =~= head);
    }
}

/// The destination of an IPv6 packet is the address in its bytes 24 to 39, shown
/// as such an address, between the payload length in bytes 4 and 5 and the next
/// header in byte 6.
pub proof fn law_ipv6_destination_is_shown(buf: Seq<u8>, bytes_read: nat, addr: u128)
    requires
        buf.len() >= 40,
        buf[0] / 16 == 6,
        IpAddr::V6(addr).bytes() == buf.subrange(24, 40),
    ensures
        ({
            let head = "IPv6: bytes: "@ + crate::text::decimal(bytes_read) + "; Payload Len: "@
                + crate::text::decimal(crate::bigendian::be_value(buf.subrange(4, 6)))
                + "; Dest: "@ + IpAddr::V6(addr).text() + "; Next header: "@
                + crate::text::decimal(buf[6] as nat) + "; "@;
            packet_text(buf, bytes_read) == if (buf[6] == 6 || buf[6] == 17) && buf.len() >= 48 {
                head + "Dest port: "@ + crate::text::decimal(
                    crate::bigendian::be_value(buf.subrange(42, 44)),
                )
            } else {
                head
            }
        }),
{
    crate::net::law_address_bytes_hold_its_number(IpAddr::V6(addr));
    lemma_number_at(buf, 4);
    if buf.len() >= 48 {
        lemma_number_at(buf, 42);
    }
    let head = "IPv6: bytes: "@ + crate::text::decimal(bytes_read) + "; Payload Len: "@
        + crate::text::decimal(crate::bigendian::be_value(buf.subrange(4, 6))) + "; Dest: "@
        + IpAddr::V6(addr).text() + "; Next header: "@ + crate::text::decimal(buf[6] as nat) + "; "@;
    assert(packet_text(buf, bytes_read) =~= head + port_text(buf, 40, buf[6]));
    if (buf[6] == 6 || buf[6] == 17) && buf.len() >= 48 {
        assert(head + port_text(buf, 40, buf[6]) =~= head + "Dest port: "@ + crate::text::decimal(
            crate::bigendian::be_value(buf.subrange(42, 44)),
        ));
    } else {
        assert(head + port_text(buf, 40, buf[6]) =~= head);
    }
}

/// Two bytes hold their number in network order.
proof fn lemma_number_at(buf: Seq<u8>, i: int)
    requires
        0 <= i,
        i + 2 <= buf.len(),
    ensures
        number_at(buf, i) == crate::bigendian::be_value(buf.subrange(i, i + 2)),
{
    let s = buf.subrange(i, i + 2);
    assert(s =~= Seq::<u8>::empty().push(buf[i]).push(buf[i + 1]));
    assert(crate::bigendian::be_value(Seq::<u8>::empty()) == 0);
    crate::bigendian::lemma_be_value_push(Seq::<u8>::empty(), buf[i]);
    crate::bigendian::lemma_be_value_push(Seq::<u8>::empty().push(buf[i]), buf[i + 1]);
}

/// Packets that are too short for their header, or of another version, are named
/// as such.
pub proof fn law_other_packets_are_named(buf: Seq<u8>, bytes_read: nat)
    requires
        buf.len() > 0,
    ensures
        buf[0] / 16 == 4 && buf.len() < 20 ==> packet_text(buf, bytes_read)
            == "Truncated IPv4 packet"@,
        buf[0] / 16 == 6 && buf.len() < 40 ==> packet_text(buf, bytes_read)
            == "Truncated IPv6 packet"@,
        buf[0] / 16 != 4 && buf[0] / 16 != 6 ==> packet_text(buf, bytes_read)
            == "Unknown IP version"@,
{
}

/// The text of a destination stands in the description as it is given.
pub proof fn law_given_destination_is_shown(
    buf: Seq<u8>,
    bytes_read: nat,
    a: Seq<char>,
    b: Seq<char>,
)
    requires
        buf.len() >= 40,
        buf[0] / 16 == 6,
        a == crate::net::ipv6_text(crate::bigendian::be_value(buf.subrange(24, 40)) as u128),
    ensures
        ({
            let head = "IPv6: bytes: "@ + crate::text::decimal(bytes_read) + "; Payload Len: "@
                + crate::text::decimal(number_at(buf, 4)) + "; Dest: "@;
            let tail = ipv6_packet_text(buf, bytes_read, b).skip((head + b).len() as int);
            &&& ipv6_packet_text(buf, bytes_read, b) == head + b + tail
            &&& packet_text(buf, bytes_read) == head + a + tail
        }),
{
    let head = "IPv6: bytes: "@ + crate::text::decimal(bytes_read) + "; Payload Len: "@
        + crate::text::decimal(number_at(buf, 4)) + "; Dest: "@;
    let end = "; Next header: "@ + crate::text::decimal(buf[6] as nat) + "; "@ + port_text(
        buf,
        40,
        buf[6],
    );
    assert(ipv6_packet_text(buf, bytes_read, b) =~= head + b + end);
    assert(packet_text(buf, bytes_read) =~= head + a + end);
    assert((head + b + end).skip((head + b).len() as int) =~= end);
}

} // verus!
