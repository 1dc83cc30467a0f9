//! The capsules of RFC 9484 as they stand on the wire.

use vstd::arithmetic::power2::pow2;
use vstd::prelude::*;

use crate::error::{ErrorView, PsqError};
use crate::net::{IpAddr, IpNetwork, Ipv4Network, Ipv6Network};

verus! {

/// The types of capsules that tunnels send and understand.
#[derive(Clone, Copy, Debug, PartialEq, Eq, Structural)]
pub enum Capsule {
    /// Addresses that the other side is assigned.
    AddressAssign,
    /// Routes that are available through the tunnel.
    RouteAdvertisement,
}

impl Capsule {
    /// The number of a capsule type.
    pub open spec fn spec_code(self) -> u64 {
        match self {
            Capsule::AddressAssign => 1,
            Capsule::RouteAdvertisement => 3,
        }
    }

    /// The number of a capsule type.
    #[verifier::when_used_as_spec(spec_code)]
    pub fn code(self) -> (r: u64)
        ensures
            r == self.spec_code(),
    {
        match self {
            Capsule::AddressAssign => 1,
            Capsule::RouteAdvertisement => 3,
        }
    }

    /// The capsule type that has a number.
    pub open spec fn of_code(code: nat) -> Option<Capsule> {
        if code == 1 {
            Some(Capsule::AddressAssign)
        } else if code == 3 {
            Some(Capsule::RouteAdvertisement)
        } else {
            None
        }
    }

    /// The capsule type that has a number; none if the number is unknown.
    pub fn from_code(code: u64) -> (r: Option<Capsule>)
        ensures
            r == Capsule::of_code(code as nat),
    {
        if code == 1 {
            Some(Capsule::AddressAssign)
        } else if code == 3 {
            Some(Capsule::RouteAdvertisement)
        } else {
            None
        }
    }
}

/// The version number that goes before an address.
pub open spec fn version_of(addr: IpAddr) -> u8 {
    match addr {
        IpAddr::V4(_) => 4,
        IpAddr::V6(_) => 6,
    }
}

/// The length of the prefix that stands for a single address.
pub open spec fn full_prefix(addr: IpAddr) -> u8 {
    match addr {
        IpAddr::V4(_) => 32,
        IpAddr::V6(_) => 128,
    }
}

/// What an ADDRESS_ASSIGN capsule holds for one address: request 0, the
/// version, the address and the full prefix.
pub open spec fn address_pieces(addr: IpAddr) -> Seq<Seq<u8>> {
    seq![
        crate::buffer::varint_bytes(0, 1),
        seq![version_of(addr)],
        addr.bytes(),
        seq![full_prefix(addr)],
    ]
}

/// What an ADDRESS_ASSIGN capsule holds for a list of addresses.
pub open spec fn addresses_pieces(addresses: Seq<IpAddr>) -> Seq<Seq<u8>>
    decreases addresses.len(),
{
    if addresses.len() == 0 {
        seq![]
    } else {
        address_pieces(addresses[0]) + addresses_pieces(addresses.drop_first())
    }
}

/// An ADDRESS_ASSIGN capsule whose length is still zero.
pub open spec fn address_capsule_pieces(addresses: Seq<IpAddr>) -> Seq<Seq<u8>> {
    seq![
        crate::buffer::varint_bytes(Capsule::AddressAssign.code() as nat, 1),
        crate::buffer::varint_bytes(0, 2),
    ] + addresses_pieces(addresses)
}

/// The route to a network, as it stands in a ROUTE_ADVERTISEMENT capsule: the
/// version, the first and the last address, and protocol 0, which stands for
/// all protocols.
pub open spec fn route_bytes(prefix: IpNetwork) -> Seq<u8> {
    let size = if prefix is V4 {
        4nat
    } else {
        16nat
    };
    seq![version_of(prefix.ip())] + crate::bigendian::be_bytes(prefix.first(), size)
        + crate::bigendian::be_bytes(prefix.last(), size) + seq![0u8]
}

/// The routes to networks, one after the other.
pub open spec fn routes_bytes(prefixes: Seq<IpNetwork>) -> Seq<u8>
    decreases prefixes.len(),
{
    if prefixes.len() == 0 {
        seq![]
    } else {
        routes_bytes(prefixes.drop_last()) + route_bytes(prefixes.last())
    }
}

/// A ROUTE_ADVERTISEMENT capsule around the given routes.
pub open spec fn route_capsule_pieces(routes: Seq<u8>) -> Seq<Seq<u8>> {
    seq![
        crate::buffer::varint_bytes(Capsule::RouteAdvertisement.code() as nat, 1),
        crate::buffer::varint_bytes(routes.len(), 2),
        routes,
    ]
}

/// What writing an ADDRESS_ASSIGN capsule to the start of a buffer leaves there,
/// and the size of the capsule if there was room for it.
pub open spec fn address_capsule_written(buf: Seq<u8>, addresses: Seq<IpAddr>) -> (
    Seq<u8>,
    Option<int>,
) {
    let (filled, end) = crate::buffer::put_all(buf, 0, address_capsule_pieces(addresses));
    match end {
        Some(size) => (
            crate::bigendian::splice(
                filled,
                1,
                crate::buffer::varint_bytes((size - 3) as nat, 2),
            ),
            Some(size),
        ),
        None => (filled, None),
    }
}

/// What writing a ROUTE_ADVERTISEMENT capsule at an offset of a buffer leaves
/// there, and the size of the capsule if there was room for it. Nothing is
/// written where there are no routes.
pub open spec fn route_capsule_written(buf: Seq<u8>, offset: int, routes: Seq<u8>) -> (
    Seq<u8>,
    Option<int>,
) {
    if routes.len() <= 3 {
        (buf, Some(0))
    } else {
        let (filled, end) = crate::buffer::put_all(buf, offset, route_capsule_pieces(routes));
        match end {
            Some(size) => (filled, Some(size - offset)),
            None => (filled, None),
        }
    }
}

/// Something that a capsule asks to be set up on the TUN interface.
#[derive(Clone, Debug, PartialEq, Eq)]
pub enum Setting {
    /// The interface gets an address.
    Address(IpAddr),
    /// The interface gets a route to a network.
    Route(String),
}

/// The model of [`Setting`].
pub enum SettingView {
    Address(IpAddr),
    Route(Seq<char>),
}

impl View for Setting {
    type V = SettingView;

    open spec fn view(&self) -> SettingView {
        match *self {
            Setting::Address(addr) => SettingView::Address(addr),
            Setting::Route(s) => SettingView::Route(s@),
        }
    }
}

/// The models of a list of settings.
pub open spec fn settings_view(settings: Seq<Setting>) -> Seq<SettingView> {
    settings.map_values(|s: Setting| s@)
}

/// The addresses among settings, in their order.
pub open spec fn addresses_in(settings: Seq<SettingView>) -> Seq<IpAddr>
    decreases settings.len(),
{
    if settings.len() == 0 {
        seq![]
    } else {
        let before = addresses_in(settings.drop_last());
        match settings.last() {
            SettingView::Address(addr) => before.push(addr),
            SettingView::Route(_) => before,
        }
    }
}

/// One more setting adds its address, if it has one.
pub proof fn lemma_addresses_in_push(settings: Seq<SettingView>, setting: SettingView)
    ensures
        addresses_in(settings.push(setting)) == match setting {
            SettingView::Address(addr) => addresses_in(settings).push(addr),
            SettingView::Route(_) => addresses_in(settings),
        },
{
    assert(settings.push(setting).drop_last() =~= settings);
}

/// The model of how a reading ends: at an offset, or with an error.
pub open spec fn outcome_view(r: Result<usize, PsqError>) -> Result<int, ErrorView> {
    match r {
        Ok(offset) => Ok(offset as int),
        Err(e) => Err(e@),
    }
}

/// What capsules ask for, in their order, up to the place where the reading
/// ends.
#[verifier::ext_equal]
pub struct Reading {
    pub settings: Seq<SettingView>,
    pub outcome: Result<int, ErrorView>,
}

impl Reading {
    /// The same, behind other settings.
    pub open spec fn behind(self, settings: Seq<SettingView>) -> Reading {
        Reading { settings: settings + self.settings, outcome: self.outcome }
    }
}

/// A reading that ends at once.
pub open spec fn ended(outcome: Result<int, ErrorView>) -> Reading {
    Reading { settings: seq![], outcome }
}

/// The number in the bytes of a buffer from `from` to `to`.
pub open spec fn number_in(buf: Seq<u8>, from: int, to: int) -> nat {
    crate::bigendian::be_value(buf.subrange(from, to))
}

/// The smallest IPv4 network around `start` that reaches to `end`.
pub open spec fn ipv4_cidr(start: nat, end: nat) -> Ipv4Network {
    let host_bits = crate::net::least_cover(start, end, 0, 32);
    Ipv4Network {
        addr: crate::net::block_start(start, host_bits) as u32,
        prefix: (32 - host_bits) as u8,
    }
}

/// The smallest IPv6 network around `start` that reaches to `end`.
pub open spec fn ipv6_cidr(start: nat, end: nat) -> Ipv6Network {
    let host_bits = crate::net::least_cover(start, end, 0, 128);
    Ipv6Network {
        addr: crate::net::block_start(start, host_bits) as u128,
        prefix: (128 - host_bits) as u8,
    }
}

/// The entry of an ADDRESS_ASSIGN capsule at `off`, with the offset behind it:
/// a request number, an IP version, an address and the length of a prefix.
pub open spec fn address_entry(buf: Seq<u8>, off: int) -> Result<(IpAddr, int), ErrorView> {
    match crate::buffer::varint_at(buf, off) {
        None => Err(ErrorView::Octets),
        Some((_, at)) => if at >= buf.len() {
            Err(ErrorView::Octets)
        } else if buf[at] == 4 {
            if at + 6 > buf.len() {
                Err(ErrorView::Octets)
            } else {
                Ok((IpAddr::V4(number_in(buf, at + 1, at + 5) as u32), at + 6))
            }
        } else if buf[at] == 6 {
            if at + 18 > buf.len() {
                Err(ErrorView::Octets)
            } else {
                Ok((IpAddr::V6(number_in(buf, at + 1, at + 17) as u128), at + 18))
            }
        } else {
            Err(
                ErrorView::H3Capsule(
                    "Address assign: Invalid IP version: "@ + crate::text::decimal(buf[at] as nat),
                ),
            )
        },
    }
}

/// The entry of a ROUTE_ADVERTISEMENT capsule at `off`, with the offset behind
/// it: an IP version, a first address, a last address and a protocol. The route
/// leads to the smallest network that has both addresses.
pub open spec fn route_entry(buf: Seq<u8>, off: int) -> Result<(Seq<char>, int), ErrorView> {
    if off >= buf.len() {
        Err(ErrorView::Octets)
    } else if buf[off] == 4 {
        if off + 10 > buf.len() {
            Err(ErrorView::Octets)
        } else {
            Ok(
                (
                    ipv4_cidr(
                        number_in(buf, off + 1, off + 5),
                        number_in(buf, off + 5, off + 9),
                    ).text(),
                    off + 10,
                ),
            )
        }
    } else if buf[off] == 6 {
        if off + 34 > buf.len() {
            Err(ErrorView::Octets)
        } else {
            Ok(
                (
                    ipv6_cidr(
                        number_in(buf, off + 1, off + 17),
                        number_in(buf, off + 17, off + 33),
                    ).text(),
                    off + 34,
                ),
            )
        }
    } else {
        Err(
            ErrorView::H3Capsule(
                "Route advertisement: Invalid IP version: "@ + crate::text::decimal(
                    buf[off] as nat,
                ),
            ),
        )
    }
}

/// Reads the entries of an ADDRESS_ASSIGN capsule from `off` on, of which
/// `remaining` bytes are left. Entries must fill the capsule exactly.
pub open spec fn read_addresses(buf: Seq<u8>, off: int, remaining: int) -> Reading
    decreases remaining,
{
    if remaining >= 7 {
        match address_entry(buf, off) {
            Err(e) => ended(Err(e)),
            Ok((addr, next)) => if next - off > remaining {
                ended(Err(ErrorView::H3Capsule("Invalid length in Address Assign capsule"@)))
            } else {
                proof {
                    lemma_varint_advances(buf, off);
                }
                read_addresses(buf, next, remaining - (next - off)).behind(
                    seq![SettingView::Address(addr)],
                )
            },
        }
    } else if remaining > 0 {
        ended(Err(ErrorView::H3Capsule("Invalid length in Address Assign capsule"@)))
    } else {
        ended(Ok(off))
    }
}

/// Reads the entries of a ROUTE_ADVERTISEMENT capsule from `off` on, of which
/// `remaining` bytes are left. No entry may be longer than what is left. What is
/// too short for an entry is passed over.
pub open spec fn read_routes(buf: Seq<u8>, off: int, remaining: int) -> Reading
    decreases remaining,
{
    if remaining >= 10 {
        match route_entry(buf, off) {
            Err(e) => ended(Err(e)),
            Ok((destination, next)) => if next - off > remaining {
                ended(Err(ErrorView::H3Capsule("Invalid length in Route Advertisement capsule"@)))
            } else {
                read_routes(buf, next, remaining - (next - off)).behind(
                    seq![SettingView::Route(destination)],
                )
            },
        }
    } else if off + remaining <= buf.len() {
        ended(Ok(off + remaining))
    } else {
        ended(Err(ErrorView::Octets))
    }
}

/// Reads the capsule at the start of a buffer: its type, its length and what it
/// holds. A capsule of unknown type is passed over.
pub open spec fn read_capsule(buf: Seq<u8>) -> Reading {
    match crate::buffer::varint_at(buf, 0) {
        None => ended(Err(ErrorView::Octets)),
        Some((code, at)) => match crate::buffer::varint_at(buf, at) {
            None => ended(Err(ErrorView::Octets)),
            Some((len, off)) => if len + 2 > buf.len() {
                ended(Err(ErrorView::H3Capsule("Truncated capsule received"@)))
            } else {
                match Capsule::of_code(code) {
                    Some(Capsule::AddressAssign) => read_addresses(buf, off, len as int),
                    Some(Capsule::RouteAdvertisement) => read_routes(buf, off, len as int),
                    None => if off + len <= buf.len() {
                        ended(Ok(off + len))
                    } else {
                        ended(Err(ErrorView::Octets))
                    },
                }
            },
        },
    }
}

/// Reads capsules one after the other, from `off` to the end of the data.
pub open spec fn read_capsules(data: Seq<u8>, off: int) -> Reading
    decreases data.len() - off,
{
    if off < 0 || off >= data.len() {
        ended(Ok(off))
    } else {
        let one = read_capsule(data.subrange(off, data.len() as int));
        match one.outcome {
            Ok(size) => {
                proof {
                    law_capsule_size(data.subrange(off, data.len() as int));
                }
                read_capsules(data, off + size).behind(one.settings)
            },
            Err(_) => one,
        }
    }
}

/// A variable-length integer takes one to eight bytes of the buffer.
pub proof fn lemma_varint_advances(buf: Seq<u8>, off: int)
    ensures
        crate::buffer::varint_at(buf, off) matches Some((_, next)) ==> off + 1 <= next <= off + 8
            && next <= buf.len(),
{
}

/// Addresses that are read to their end fill the capsule.
proof fn lemma_addresses_size(buf: Seq<u8>, off: int, remaining: int)
    requires
        off <= buf.len(),
        0 <= remaining,
    ensures
        read_addresses(buf, off, remaining).outcome matches Ok(next) ==> next == off + remaining
            && next <= buf.len(),
    decreases remaining,
{
    if remaining >= 7 {
        lemma_varint_advances(buf, off);
        if let Ok((_, next)) = address_entry(buf, off) {
            if next - off <= remaining {
                lemma_addresses_size(buf, next, remaining - (next - off));
            }
        }
    }
}

/// Routes that are read to their end fill the capsule.
proof fn lemma_routes_size(buf: Seq<u8>, off: int, remaining: int)
    requires
        off <= buf.len(),
        0 <= remaining,
    ensures
        read_routes(buf, off, remaining).outcome matches Ok(next) ==> next == off + remaining
            && next <= buf.len(),
    decreases remaining,
{
    if remaining >= 10 {
        if let Ok((_, next)) = route_entry(buf, off) {
            if next - off <= remaining {
                lemma_routes_size(buf, next, remaining - (next - off));
            }
        }
    }
}

/// The size of the capsule at the start of a buffer by its own account: the bytes
/// of its type and of its length, and the length.
pub open spec fn declared_size(buf: Seq<u8>) -> Option<int> {
    match crate::buffer::varint_at(buf, 0) {
        None => None,
        Some((_, at)) => match crate::buffer::varint_at(buf, at) {
            None => None,
            Some((len, off)) => Some(off + len),
        },
    }
}

/// Where the reading of a capsule does not fail, it gives the size of the capsule,
/// whatever its type, and the capsule lies in the buffer.
pub proof fn law_capsule_size(buf: Seq<u8>)
    ensures
        read_capsule(buf).outcome matches Ok(size) ==> declared_size(buf) == Some(size) && 2 <= size
            <= buf.len(),
{
    lemma_varint_advances(buf, 0);
    if let Some((_, at)) = crate::buffer::varint_at(buf, 0) {
        lemma_varint_advances(buf, at);
        if let Some((len, off)) = crate::buffer::varint_at(buf, at) {
            lemma_addresses_size(buf, off, len as int);
            lemma_routes_size(buf, off, len as int);
        }
    }
}

/// The network of a route is written with its first address, it has every address
/// of the range that it stands for, and no smaller network around the first of
/// these has them all.
pub proof fn law_route_network_is_the_smallest(start: nat, end: nat, v4: bool)
    requires
        start <= end,
        v4 ==> end <= u32::MAX,
        end <= u128::MAX,
    ensures
        v4 ==> ({
            let n = ipv4_cidr(start, end);
            &&& n.wf()
            &&& n.addr == n.first()
            &&& n.first() <= start
            &&& end <= n.last()
            &&& forall|k: nat|
                k < 32 - n.prefix ==> end > start - start % #[trigger] pow2(k) + pow2(k) - 1
        }),
        !v4 ==> ({
            let n = ipv6_cidr(start, end);
            &&& n.wf()
            &&& n.addr == n.first()
            &&& n.first() <= start
            &&& end <= n.last()
            &&& forall|k: nat|
                k < 128 - n.prefix ==> end > start - start % #[trigger] pow2(k) + pow2(k) - 1
        }),
{
    crate::net::lemma_address_space();
    let bits: nat = if v4 {
        32
    } else {
        128
    };
    crate::net::law_covering_block_is_smallest(start, end, bits);
    let k = crate::net::least_cover(start, end, 0, bits);
    crate::net::lemma_block(start, k);
    crate::net::lemma_block_member(start, k, bits, 0);
    assert(crate::net::block_start(crate::net::block_start(start, k), k)
        == crate::net::block_start(start, k));
    assert forall|j: nat| j < k implies end > start - start % #[trigger] pow2(j) + pow2(j) - 1 by {
        assert(end > crate::net::block_last(start, j));
    }
}

/// A route whose last address lies before its first stands for the first alone.
pub proof fn law_route_backwards_is_one_address(start: nat, end: nat)
    requires
        end < start,
    ensures
        start <= u32::MAX ==> ipv4_cidr(start, end) == (Ipv4Network {
            addr: start as u32,
            prefix: 32,
        }),
        start <= u128::MAX ==> ipv6_cidr(start, end) == (Ipv6Network {
            addr: start as u128,
            prefix: 128,
        }),
{
    crate::net::lemma_block(start, 0);
    vstd::arithmetic::power2::lemma2_to64();
}

/// The types of capsules have the numbers that RFC 9484 gives them, and no other
/// number is a type.
pub proof fn law_capsule_types_have_their_numbers(code: nat)
    ensures
        Capsule::AddressAssign.code() == 1,
        Capsule::RouteAdvertisement.code() == 3,
        code == 1 ==> Capsule::of_code(code) == Some(Capsule::AddressAssign),
        code == 3 ==> Capsule::of_code(code) == Some(Capsule::RouteAdvertisement),
        code != 1 && code != 3 ==> Capsule::of_code(code) is None,
{
}

/// A capsule that claims more than the data can hold is refused, whatever its
/// type. A capsule of an unknown type sets nothing and is passed over, if it is
/// all there. `code` and `len` are its type and length, which end at `off`.
pub proof fn law_other_capsules_set_nothing(
    buf: Seq<u8>,
    code: nat,
    at: int,
    len: nat,
    off: int,
)
    requires
        crate::buffer::varint_at(buf, 0) == Some((code, at)),
        crate::buffer::varint_at(buf, at) == Some((len, off)),
    ensures
        len + 2 > buf.len() ==> read_capsule(buf) == (Reading {
            settings: seq![],
            outcome: Err(ErrorView::H3Capsule("Truncated capsule received"@)),
        }),
        len + 2 <= buf.len() && code != 1 && code != 3 ==> read_capsule(buf).settings == Seq::<
            SettingView,
        >::empty(),
        len + 2 <= buf.len() && code != 1 && code != 3 && off + len <= buf.len() ==> read_capsule(
            buf,
        ).outcome == Ok::<_, ErrorView>(off + len),
        len + 2 <= buf.len() && code != 1 && code != 3 && off + len > buf.len() ==> read_capsule(
            buf,
        ).outcome == Err::<int, _>(ErrorView::Octets),
        read_capsule(buf).outcome matches Ok(size) ==> size == off + len,
{
    law_capsule_size(buf);
}

/// A capsule that assigns addresses sets addresses alone, one that advertises
/// routes sets routes alone.
pub proof fn law_capsules_set_what_they_are_for(buf: Seq<u8>, i: int)
    requires
        0 <= i < read_capsule(buf).settings.len(),
    ensures
        crate::buffer::varint_at(buf, 0) matches Some((code, _)) && (code == 1
            && read_capsule(buf).settings[i] is Address || code == 3
            && read_capsule(buf).settings[i] is Route),
{
    if let Some((_, at)) = crate::buffer::varint_at(buf, 0) {
        if let Some((len, off)) = crate::buffer::varint_at(buf, at) {
            lemma_kinds(buf, off, len as int);
        }
    }
}

/// The entries of a capsule are of its kind.
proof fn lemma_kinds(buf: Seq<u8>, off: int, remaining: int)
    ensures
        forall|i: int|
            0 <= i < read_addresses(buf, off, remaining).settings.len() ==> (
            #[trigger] read_addresses(buf, off, remaining).settings[i]) is Address,
        forall|i: int|
            0 <= i < read_routes(buf, off, remaining).settings.len() ==> (
            #[trigger] read_routes(buf, off, remaining).settings[i]) is Route,
    decreases remaining,
{
    if remaining >= 7 {
        lemma_varint_advances(buf, off);
        if let Ok((_, next)) = address_entry(buf, off) {
            if next - off <= remaining {
                lemma_kinds(buf, next, remaining - (next - off));
            }
        }
    }
    if remaining >= 10 {
        if let Ok((_, next)) = route_entry(buf, off) {
            if next - off <= remaining {
                lemma_kinds(buf, next, remaining - (next - off));
            }
        }
    }
}

/// An address in a capsule is the number in the bytes behind its version, and the
/// reading goes on behind the byte of its prefix. `at` is where the version stands,
/// behind the request number.
pub proof fn law_address_is_read_from_its_bytes(
    buf: Seq<u8>,
    off: int,
    remaining: int,
    request: nat,
    at: int,
)
    requires
        0 <= off,
        crate::buffer::varint_at(buf, off) == Some((request, at)),
        at < buf.len(),
        remaining >= 7,
    ensures
        ({
            let here = read_addresses(buf, off, remaining);
            let size = if buf[at] == 4 {
                4int
            } else {
                16int
            };
            let next = at + size + 2;
            let rest = read_addresses(buf, next, remaining - (next - off));
            if buf[at] != 4 && buf[at] != 6 {
                &&& here.settings.len() == 0
                &&& here.outcome == Err::<int, _>(
                    ErrorView::H3Capsule(
                        "Address assign: Invalid IP version: "@ + crate::text::decimal(
                            buf[at] as nat,
                        ),
                    ),
                )
            } else if next > buf.len() {
                here.settings.len() == 0 && here.outcome == Err::<int, _>(ErrorView::Octets)
            } else if next - off > remaining {
                &&& here.settings.len() == 0
                &&& here.outcome == Err::<int, _>(
                    ErrorView::H3Capsule("Invalid length in Address Assign capsule"@),
                )
            } else {
                &&& here.settings.len() == 1 + rest.settings.len()
                &&& here.settings[0] matches SettingView::Address(addr)
                &&& (addr is V4 <==> buf[at] == 4)
                &&& addr.bytes() == buf.subrange(at + 1, at + 1 + size)
                &&& here.settings.drop_first() == rest.settings
                &&& here.outcome == rest.outcome
            }
        }),
{
    let size = if buf[at] == 4 {
        4int
    } else {
        16int
    };
    let next = at + size + 2;
    lemma_varint_advances(buf, off);
    if (buf[at] == 4 || buf[at] == 6) && next <= buf.len() && next - off <= remaining {
        let bytes = buf.subrange(at + 1, at + 1 + size);
        crate::bigendian::lemma_be_value_bound(bytes);
        crate::bigendian::lemma_address_limits();
        lemma_bytes_of_value(bytes);
        let here = read_addresses(buf, off, remaining);
        let rest = read_addresses(buf, next, remaining - (next - off));
        assert(here.settings.drop_first() =~= rest.settings);
    }
}

/// A byte sequence is given back by the number that it holds.
proof fn lemma_bytes_of_value(s: Seq<u8>)
    ensures
        crate::bigendian::be_bytes(crate::bigendian::be_value(s), s.len()) == s,
    decreases s.len(),
{
    if s.len() > 0 {
        lemma_bytes_of_value(s.drop_last());
        let v = crate::bigendian::be_value(s.drop_last());
        assert((v * 256 + s.last() as nat) / 256 == v);
        assert(crate::bigendian::be_bytes(crate::bigendian::be_value(s), s.len()) =~= s);
    }
}

/// A route in a capsule leads to the smallest network from the first to the last
/// of the two addresses behind its version, and the reading goes on behind the
/// byte of its protocol.
pub proof fn law_route_is_read_from_its_bytes(buf: Seq<u8>, off: int, remaining: int)
    requires
        0 <= off < buf.len(),
        remaining >= 10,
    ensures
        ({
            let here = read_routes(buf, off, remaining);
            let size = if buf[off] == 4 {
                4int
            } else {
                16int
            };
            let next = off + 2 * size + 2;
            let rest = read_routes(buf, next, remaining - (next - off));
            let start = crate::bigendian::be_value(buf.subrange(off + 1, off + 1 + size));
            let end = crate::bigendian::be_value(
                buf.subrange(off + 1 + size, off + 1 + 2 * size),
            );
            if buf[off] != 4 && buf[off] != 6 {
                &&& here.settings.len() == 0
                &&& here.outcome == Err::<int, _>(
                    ErrorView::H3Capsule(
                        "Route advertisement: Invalid IP version: "@ + crate::text::decimal(
                            buf[off] as nat,
                        ),
                    ),
                )
            } else if next > buf.len() {
                here.settings.len() == 0 && here.outcome == Err::<int, _>(ErrorView::Octets)
            } else if next - off > remaining {
                &&& here.settings.len() == 0
                &&& here.outcome == Err::<int, _>(
                    ErrorView::H3Capsule("Invalid length in Route Advertisement capsule"@),
                )
            } else {
                &&& here.settings.len() == 1 + rest.settings.len()
                &&& here.settings[0] == SettingView::Route(
                    if buf[off] == 4 {
                        ipv4_cidr(start, end).text()
                    } else {
                        ipv6_cidr(start, end).text()
                    },
                )
                &&& here.settings.drop_first() == rest.settings
                &&& here.outcome == rest.outcome
            }
        }),
{
    let here = read_routes(buf, off, remaining);
    let size = if buf[off] == 4 {
        4int
    } else {
        16int
    };
    let next = off + 2 * size + 2;
    if (buf[off] == 4 || buf[off] == 6) && next <= buf.len() && next - off <= remaining {
        let rest = read_routes(buf, next, remaining - (next - off));
        assert(here.settings.drop_first() =~= rest.settings);
    }
}

/// Settings keep the order of their addresses and leave out their routes.
pub proof fn law_addresses_among_settings(a: Seq<SettingView>, b: Seq<SettingView>, addr: IpAddr)
    ensures
        addresses_in(a + b) == addresses_in(a) + addresses_in(b),
        addresses_in(seq![SettingView::Address(addr)]) == seq![addr],
        forall|s: Seq<char>| #[trigger] addresses_in(seq![SettingView::Route(s)]).len() == 0,
    decreases b.len(),
{
    reveal_with_fuel(addresses_in, 2);
    assert(seq![SettingView::Address(addr)].drop_last() =~= seq![]);
    assert(seq![addr] =~= Seq::<IpAddr>::empty().push(addr));
    assert forall|s: Seq<char>| #[trigger]
        addresses_in(seq![SettingView::Route(s)]).len() == 0 by {
        assert(seq![SettingView::Route(s)].drop_last() =~= seq![]);
    }
    if b.len() == 0 {
        assert(a + b =~= a);
        assert(addresses_in(a) + addresses_in(b) =~= addresses_in(a));
    } else {
        law_addresses_among_settings(a, b.drop_last(), addr);
        assert((a + b).drop_last() =~= a + b.drop_last());
        assert(addresses_in(a + b) =~= addresses_in(a) + addresses_in(b));
    }
}

/// What stands in a route entry: the version, the first and the last address of
/// the network, and protocol 0.
pub proof fn law_route_entry_on_the_wire(prefix: IpNetwork)
    requires
        prefix.wf(),
    ensures
        ({
            let bytes = route_bytes(prefix);
            let size = if prefix is V4 {
                4int
            } else {
                16int
            };
            &&& bytes.len() == 2 * size + 2
            &&& bytes[0] == if prefix is V4 {
                4u8
            } else {
                6u8
            }
            &&& crate::bigendian::be_value(bytes.subrange(1, 1 + size)) == prefix.first()
            &&& crate::bigendian::be_value(bytes.subrange(1 + size, 1 + 2 * size)) == prefix.last()
            &&& bytes[2 * size + 1] == 0
        }),
{
    crate::stream::roundtrip::lemma_cidr_of_network(prefix);
    let size: nat = if prefix is V4 {
        4
    } else {
        16
    };
    crate::bigendian::lemma_address_limits();
    crate::bigendian::lemma_be_bytes_len(prefix.first(), size);
    crate::bigendian::lemma_be_bytes_len(prefix.last(), size);
    crate::bigendian::lemma_be_value_of_bytes(prefix.first(), size);
    crate::bigendian::lemma_be_value_of_bytes(prefix.last(), size);
    let bytes = route_bytes(prefix);
    assert(bytes.subrange(1, 1int + size) =~= crate::bigendian::be_bytes(prefix.first(), size));
    assert(bytes.subrange(1int + size, 1int + 2 * size) =~= crate::bigendian::be_bytes(
        prefix.last(),
        size,
    ));
}

/// Routes stand one behind the other in the order in which they are added.
pub proof fn law_routes_stand_in_order(prefixes: Seq<IpNetwork>, prefix: IpNetwork)
    ensures
        routes_bytes(Seq::<IpNetwork>::empty()).len() == 0,
        routes_bytes(prefixes.push(prefix)) == routes_bytes(prefixes) + route_bytes(prefix),
{
    assert(prefixes.push(prefix).drop_last() =~= prefixes);
}

/// Where less is left of a capsule than an entry takes, nothing more is set. A
/// capsule of addresses must then be at its end; what is left of a capsule of
/// routes is passed over. Data that end where an entry should start are an error.
pub proof fn law_capsules_end(buf: Seq<u8>, off: int, remaining: int)
    requires
        0 <= off <= buf.len(),
        0 <= remaining,
    ensures
        remaining < 7 ==> read_addresses(buf, off, remaining).settings.len() == 0,
        remaining == 0 ==> read_addresses(buf, off, remaining).outcome == Ok::<_, ErrorView>(off),
        0 < remaining < 7 ==> read_addresses(buf, off, remaining).outcome == Err::<int, _>(
            ErrorView::H3Capsule("Invalid length in Address Assign capsule"@),
        ),
        remaining >= 7 && crate::buffer::varint_at(buf, off) is None ==> read_addresses(
            buf,
            off,
            remaining,
        ) == (Reading { settings: seq![], outcome: Err(ErrorView::Octets) }),
        remaining >= 7 && (crate::buffer::varint_at(buf, off) matches Some((_, at)) && at
            >= buf.len()) ==> read_addresses(buf, off, remaining) == (Reading {
            settings: seq![],
            outcome: Err(ErrorView::Octets),
        }),
        remaining < 10 ==> read_routes(buf, off, remaining).settings.len() == 0,
        remaining < 10 && off + remaining <= buf.len() ==> read_routes(buf, off, remaining).outcome
            == Ok::<_, ErrorView>(off + remaining),
        remaining < 10 && off + remaining > buf.len() ==> read_routes(buf, off, remaining).outcome
            == Err::<int, _>(ErrorView::Octets),
        remaining >= 10 && off == buf.len() ==> read_routes(buf, off, remaining) == (Reading {
            settings: seq![],
            outcome: Err(ErrorView::Octets),
        }),
{
}

/// The known capsules are read from behind their type and length, over as many
/// bytes as their length says. Without a type or a length there is no capsule.
pub proof fn law_capsules_are_read_over_their_length(
    buf: Seq<u8>,
    code: nat,
    at: int,
    len: nat,
    off: int,
)
    requires
        crate::buffer::varint_at(buf, 0) == Some((code, at)),
    ensures
        crate::buffer::varint_at(buf, at) == Some((len, off)) && len + 2 <= buf.len() && code == 1
            ==> read_capsule(buf) == read_addresses(buf, off, len as int),
        crate::buffer::varint_at(buf, at) == Some((len, off)) && len + 2 <= buf.len() && code == 3
            ==> read_capsule(buf) == read_routes(buf, off, len as int),
        crate::buffer::varint_at(buf, at) is None ==> read_capsule(buf) == (Reading {
            settings: seq![],
            outcome: Err(ErrorView::Octets),
        }),
{
}

/// Without a type there is no capsule, and behind the last byte there is none.
pub proof fn law_nothing_is_read_from_no_data(buf: Seq<u8>)
    ensures
        crate::buffer::varint_at(buf, 0) is None ==> read_capsule(buf) == (Reading {
            settings: seq![],
            outcome: Err(ErrorView::Octets),
        }),
        read_capsules(buf, buf.len() as int) == (Reading {
            settings: seq![],
            outcome: Ok(buf.len() as int),
        }),
{
}

/// Capsules are read one behind the other: each starts where the one before it
/// ends, what they set adds up in their order, and the first error ends the
/// reading.
pub proof fn law_capsules_are_read_in_order(data: Seq<u8>, off: int)
    requires
        0 <= off < data.len(),
    ensures
        ({
            let one = read_capsule(data.subrange(off, data.len() as int));
            match one.outcome {
                Ok(size) => {
                    &&& read_capsules(data, off).settings == one.settings + read_capsules(
                        data,
                        off + size,
                    ).settings
                    &&& read_capsules(data, off).outcome == read_capsules(data, off + size).outcome
                },
                Err(_) => read_capsules(data, off) == one,
            }
        }),
        read_capsules(data, data.len() as int) == (Reading {
            settings: seq![],
            outcome: Ok(data.len() as int),
        }),
{
    law_capsule_size(data.subrange(off, data.len() as int));
}

} // verus!
