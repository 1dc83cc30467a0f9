//! What one side of a tunnel writes into capsules, the other side reads.

use vstd::arithmetic::power2::pow2;
use vstd::prelude::*;

use crate::net::{IpAddr, IpNetwork, Ipv4Network, Ipv6Network};
use crate::stream::capsule::{Capsule, Reading, SettingView};

verus! {

/// The setting for each of a list of addresses.
pub open spec fn address_settings(addresses: Seq<IpAddr>) -> Seq<SettingView> {
    addresses.map_values(|addr: IpAddr| SettingView::Address(addr))
}

/// The network in the usual notation, written with its first address.
pub open spec fn canonical_text(prefix: IpNetwork) -> Seq<char> {
    match prefix {
        IpNetwork::V4(n) => (Ipv4Network { addr: n.first() as u32, prefix: n.prefix }).text(),
        IpNetwork::V6(n) => (Ipv6Network { addr: n.first() as u128, prefix: n.prefix }).text(),
    }
}

/// The setting for each of a list of routes.
pub open spec fn route_settings(prefixes: Seq<IpNetwork>) -> Seq<SettingView> {
    prefixes.map_values(|prefix: IpNetwork| SettingView::Route(canonical_text(prefix)))
}

/// The bytes that stand for an address in an ADDRESS_ASSIGN capsule.
pub open spec fn address_bytes(addr: IpAddr) -> Seq<u8> {
    seq![0u8, crate::stream::capsule::version_of(addr)] + addr.bytes()
        + seq![crate::stream::capsule::full_prefix(addr)]
}

/// The bytes that stand for addresses in an ADDRESS_ASSIGN capsule.
pub open spec fn addresses_bytes(addresses: Seq<IpAddr>) -> Seq<u8> {
    crate::buffer::joined(crate::stream::capsule::addresses_pieces(addresses))
}

/// One more address in front adds its bytes in front.
proof fn lemma_addresses_bytes(addresses: Seq<IpAddr>)
    requires
        addresses.len() > 0,
    ensures
        addresses_bytes(addresses) == address_bytes(addresses[0]) + addresses_bytes(
            addresses.drop_first(),
        ),
        address_bytes(addresses[0]).len() == 3 + addresses[0].bytes().len(),
        addresses[0].bytes().len() == if addresses[0] is V4 {
            4int
        } else {
            16
        },
{
    let addr = addresses[0];
    let rest = crate::stream::capsule::addresses_pieces(addresses.drop_first());
    let p0 = crate::stream::capsule::addresses_pieces(addresses);
    let p1 = p0.drop_first();
    let p2 = p1.drop_first();
    let p3 = p2.drop_first();
    assert(p3.drop_first() =~= rest);
    assert(crate::buffer::joined(p3) == p3[0] + crate::buffer::joined(rest));
    assert(crate::buffer::joined(p2) == p2[0] + crate::buffer::joined(p3));
    assert(crate::buffer::joined(p1) == p1[0] + crate::buffer::joined(p2));
    reveal_with_fuel(crate::bigendian::be_bytes, 2);
    assert(0u8 | 0u8 == 0u8) by (bit_vector);
    assert(p0[0] =~= seq![0u8]);
    assert(addresses_bytes(addresses) =~= address_bytes(addr) + addresses_bytes(
        addresses.drop_first(),
    ));
    match addr {
        IpAddr::V4(a) => crate::bigendian::lemma_be_bytes_len(a as nat, 4),
        IpAddr::V6(a) => crate::bigendian::lemma_be_bytes_len(a as nat, 16),
    }
}

/// The entry of an address is read as that address.
proof fn lemma_read_address(buf: Seq<u8>, off: int, addr: IpAddr)
    requires
        0 <= off,
        off + address_bytes(addr).len() <= buf.len(),
        buf.subrange(off, off + address_bytes(addr).len()) == address_bytes(addr),
    ensures
        crate::stream::capsule::address_entry(buf, off) == Ok::<_, crate::error::ErrorView>(
            (addr, off + address_bytes(addr).len()),
        ),
{
    let size: nat = if addr is V4 {
        4
    } else {
        16
    };
    crate::bigendian::lemma_be_bytes_len(addr.value(), size);
    crate::bigendian::lemma_address_limits();
    crate::bigendian::lemma_be_value_of_bytes(addr.value(), size);
    let s = address_bytes(addr);
    assert(buf[off] == s[0]);
    assert(buf[off + 1] == s[1]);
    assert(buf.subrange(off + 2, off + 2 + size) =~= s.subrange(2, 2int + size));
    assert(s.subrange(2, 2int + size) =~= addr.bytes());
    assert(buf.subrange(off, off + 1) =~= seq![0u8]);
    reveal_with_fuel(crate::bigendian::be_bytes, 2);
    assert(0u8 | 0u8 == 0u8) by (bit_vector);
    assert(crate::buffer::varint_bytes(0, 1) =~= seq![0u8]);
    crate::buffer::lemma_varint_read_back(0, 1, buf, off);
}

/// The entries of addresses are read as those addresses.
proof fn lemma_read_addresses(buf: Seq<u8>, off: int, addresses: Seq<IpAddr>)
    requires
        0 <= off,
        off + addresses_bytes(addresses).len() <= buf.len(),
        buf.subrange(off, off + addresses_bytes(addresses).len()) == addresses_bytes(addresses),
    ensures
        crate::stream::capsule::read_addresses(
            buf,
            off,
            addresses_bytes(addresses).len() as int,
        ) == (Reading {
            settings: address_settings(addresses),
            outcome: Ok(off + addresses_bytes(addresses).len()),
        }),
    decreases addresses.len(),
{
    let whole = addresses_bytes(addresses);
    if addresses.len() == 0 {
        assert(address_settings(addresses) =~= seq![]);
    } else {
        lemma_addresses_bytes(addresses);
        let first = address_bytes(addresses[0]);
        let rest = addresses_bytes(addresses.drop_first());
        let next = off + first.len();
        assert(buf.subrange(off, next) =~= whole.subrange(0, first.len() as int));
        assert(whole.subrange(0, first.len() as int) =~= first);
        assert(buf.subrange(next, next + rest.len()) =~= whole.subrange(
            first.len() as int,
            whole.len() as int,
        ));
        assert(whole.subrange(first.len() as int, whole.len() as int) =~= rest);
        lemma_read_address(buf, off, addresses[0]);
        lemma_read_addresses(buf, next, addresses.drop_first());
        assert(seq![SettingView::Address(addresses[0])] + address_settings(addresses.drop_first())
            =~= address_settings(addresses));
    }
}

/// The smallest block from the first to the last address of a block is that
/// block.
proof fn lemma_least_cover_of_block(addr: nat, host_bits: nat, bits: nat, from: nat)
    requires
        addr < pow2(bits),
        from <= host_bits <= bits,
    ensures
        crate::net::least_cover(
            crate::net::block_start(addr, host_bits),
            crate::net::block_last(addr, host_bits),
            from,
            bits,
        ) == host_bits,
    decreases host_bits - from,
{
    let first = crate::net::block_start(addr, host_bits);
    let last = crate::net::block_last(addr, host_bits);
    crate::net::lemma_block(addr, host_bits);
    crate::net::lemma_block_member(addr, host_bits, bits, 0);
    if from < host_bits {
        let small = pow2(from);
        let times = pow2((host_bits - from) as nat);
        vstd::arithmetic::power2::lemma_pow2_pos(from);
        vstd::arithmetic::power2::lemma_pow2_adds((host_bits - from) as nat, from);
        vstd::arithmetic::div_mod::lemma_fundamental_div_mod(addr as int, pow2(host_bits) as int);
        let q = addr / pow2(host_bits);
        assert(first == (times * q) * small) by (nonlinear_arith)
            requires
                first == (times * small) * q,
        ;
        vstd::arithmetic::div_mod::lemma_mod_multiples_basic((times * q) as int, small as int);
        assert(crate::net::block_last(first, from) == first + small - 1);
        vstd::arithmetic::power2::lemma_pow2_strictly_increases(from, host_bits);
        assert(!crate::net::covers(first, last, from));
        lemma_least_cover_of_block(addr, host_bits, bits, from + 1);
    } else if host_bits < bits {
        assert(crate::net::block_start(first, host_bits) == first);
    }
}

/// The smallest network from the first to the last address of a network is that
/// network.
pub proof fn lemma_cidr_of_network(prefix: IpNetwork)
    requires
        prefix.wf(),
    ensures
        canonical_text(prefix) == match prefix {
            IpNetwork::V4(_) => crate::stream::capsule::ipv4_cidr(
                prefix.first(),
                prefix.last(),
            ).text(),
            IpNetwork::V6(_) => crate::stream::capsule::ipv6_cidr(
                prefix.first(),
                prefix.last(),
            ).text(),
        },
        prefix.spec_size() >= 1,
        prefix.first() <= prefix.last() <= u128::MAX,
        prefix is V4 ==> prefix.last() <= u32::MAX,
{
    crate::net::lemma_address_space();
    match prefix {
        IpNetwork::V4(n) => {
            let k = n.host_bits();
            crate::net::lemma_block(n.addr as nat, k);
            crate::net::lemma_block_member(n.addr as nat, k, 32, (pow2(k) - 1) as nat);
            crate::net::lemma_block_member(n.addr as nat, k, 32, 0);
            lemma_least_cover_of_block(n.addr as nat, k, 32, 0);
        },
        IpNetwork::V6(n) => {
            let k = n.host_bits();
            crate::net::lemma_block(n.addr as nat, k);
            crate::net::lemma_block_member(n.addr as nat, k, 128, (pow2(k) - 1) as nat);
            crate::net::lemma_block_member(n.addr as nat, k, 128, 0);
            lemma_least_cover_of_block(n.addr as nat, k, 128, 0);
        },
    }
}

/// The entry of a route takes two bytes and two addresses.
pub proof fn lemma_route_bytes_len(prefix: IpNetwork)
    ensures
        crate::stream::capsule::route_bytes(prefix).len() == if prefix is V4 {
            10int
        } else {
            34
        },
{
    let last = prefix.last();
    let size: nat = if prefix is V4 {
        4
    } else {
        16
    };
    crate::bigendian::lemma_be_bytes_len(prefix.first(), size);
    crate::bigendian::lemma_be_bytes_len(last, size);
}

/// The entry of a route is read as the route to the same network.
proof fn lemma_read_route(buf: Seq<u8>, off: int, prefix: IpNetwork)
    requires
        prefix.wf(),
        0 <= off,
        off + crate::stream::capsule::route_bytes(prefix).len() <= buf.len(),
        buf.subrange(off, off + crate::stream::capsule::route_bytes(prefix).len())
            == crate::stream::capsule::route_bytes(prefix),
    ensures
        crate::stream::capsule::route_entry(buf, off) == Ok::<_, crate::error::ErrorView>(
            (canonical_text(prefix), off + crate::stream::capsule::route_bytes(prefix).len()),
        ),
{
    let first = prefix.first();
    let last = prefix.last();
    let size: nat = if prefix is V4 {
        4
    } else {
        16
    };
    lemma_cidr_of_network(prefix);
    lemma_route_bytes_len(prefix);
    crate::bigendian::lemma_be_bytes_len(first, size);
    crate::bigendian::lemma_be_bytes_len(last, size);
    crate::bigendian::lemma_address_limits();
    crate::bigendian::lemma_be_value_of_bytes(first, size);
    crate::bigendian::lemma_be_value_of_bytes(last, size);
    let s = crate::stream::capsule::route_bytes(prefix);
    assert(buf[off] == s[0]);
    assert(buf.subrange(off + 1, off + 1 + size) =~= s.subrange(1, 1int + size));
    assert(s.subrange(1, 1int + size) =~= crate::bigendian::be_bytes(first, size));
    assert(buf.subrange(off + 1 + size, off + 1 + 2 * size) =~= s.subrange(
        1int + size,
        1int + 2 * size,
    ));
    assert(s.subrange(1int + size, 1int + 2 * size) =~= crate::bigendian::be_bytes(last, size));
}

/// Routes begin with the first of them.
proof fn lemma_routes_bytes(prefixes: Seq<IpNetwork>)
    requires
        prefixes.len() > 0,
    ensures
        crate::stream::capsule::routes_bytes(prefixes) == crate::stream::capsule::route_bytes(
            prefixes[0],
        ) + crate::stream::capsule::routes_bytes(prefixes.drop_first()),
    decreases prefixes.len(),
{
    if prefixes.len() == 1 {
        reveal_with_fuel(crate::stream::capsule::routes_bytes, 2);
        assert(prefixes.drop_last() =~= seq![]);
        assert(prefixes.drop_first() =~= seq![]);
        assert(crate::stream::capsule::routes_bytes(prefixes)
            =~= crate::stream::capsule::route_bytes(prefixes[0]));
    } else {
        lemma_routes_bytes(prefixes.drop_last());
        assert(prefixes.drop_last().drop_first() =~= prefixes.drop_first().drop_last());
        assert(crate::stream::capsule::routes_bytes(prefixes)
            =~= crate::stream::capsule::route_bytes(prefixes[0])
            + crate::stream::capsule::routes_bytes(prefixes.drop_first()));
    }
}

/// The entries of routes are read as the routes to the same networks.
proof fn lemma_read_routes(buf: Seq<u8>, off: int, prefixes: Seq<IpNetwork>)
    requires
        forall|i: int| 0 <= i < prefixes.len() ==> (#[trigger] prefixes[i]).wf(),
        0 <= off,
        off + crate::stream::capsule::routes_bytes(prefixes).len() <= buf.len(),
        buf.subrange(off, off + crate::stream::capsule::routes_bytes(prefixes).len())
            == crate::stream::capsule::routes_bytes(prefixes),
    ensures
        crate::stream::capsule::read_routes(
            buf,
            off,
            crate::stream::capsule::routes_bytes(prefixes).len() as int,
        ) == (Reading {
            settings: route_settings(prefixes),
            outcome: Ok(off + crate::stream::capsule::routes_bytes(prefixes).len()),
        }),
    decreases prefixes.len(),
{
    let whole = crate::stream::capsule::routes_bytes(prefixes);
    if prefixes.len() == 0 {
        assert(route_settings(prefixes) =~= seq![]);
    } else {
        lemma_routes_bytes(prefixes);
        lemma_route_bytes_len(prefixes[0]);
        let first = crate::stream::capsule::route_bytes(prefixes[0]);
        let rest = crate::stream::capsule::routes_bytes(prefixes.drop_first());
        let next = off + first.len();
        assert(buf.subrange(off, next) =~= whole.subrange(0, first.len() as int));
        assert(whole.subrange(0, first.len() as int) =~= first);
        assert(buf.subrange(next, next + rest.len()) =~= whole.subrange(
            first.len() as int,
            whole.len() as int,
        ));
        assert(whole.subrange(first.len() as int, whole.len() as int) =~= rest);
        lemma_read_route(buf, off, prefixes[0]);
        lemma_read_routes(buf, next, prefixes.drop_first());
        assert(seq![SettingView::Route(canonical_text(prefixes[0]))] + route_settings(
            prefixes.drop_first(),
        ) =~= route_settings(prefixes));
    }
}

/// A capsule as it stands on the wire: its type, its length and what it holds.
pub open spec fn capsule_bytes(capsule: Capsule, content: Seq<u8>) -> Seq<u8> {
    crate::buffer::varint_bytes(capsule.code() as nat, 1) + crate::buffer::varint_bytes(
        content.len(),
        2,
    ) + content
}

/// The type and the length of a capsule are read back.
proof fn lemma_read_capsule_head(buf: Seq<u8>, capsule: Capsule, content: Seq<u8>)
    requires
        content.len() < 0x4000,
        capsule_bytes(capsule, content).len() <= buf.len(),
        buf.subrange(0, capsule_bytes(capsule, content).len() as int) == capsule_bytes(
            capsule,
            content,
        ),
    ensures
        capsule_bytes(capsule, content).len() == 3 + content.len(),
        crate::buffer::varint_at(buf, 0) == Some((capsule.code() as nat, 1int)),
        crate::buffer::varint_at(buf, 1) == Some((content.len(), 3int)),
        buf.subrange(3, 3int + content.len()) == content,
        Capsule::of_code(capsule.code() as nat) == Some(capsule),
{
    let whole = capsule_bytes(capsule, content);
    let code = crate::buffer::varint_bytes(capsule.code() as nat, 1);
    let len = crate::buffer::varint_bytes(content.len(), 2);
    crate::bigendian::lemma_be_bytes_len(capsule.code() as nat, 1);
    crate::bigendian::lemma_be_bytes_len(content.len(), 2);
    assert(whole.subrange(0, 1) =~= code);
    assert(whole.subrange(1, 3) =~= len);
    assert(whole.subrange(3, 3int + content.len()) =~= content);
    assert(buf.subrange(0, 1) =~= whole.subrange(0, 1));
    assert(buf.subrange(1, 3) =~= whole.subrange(1, 3));
    assert(buf.subrange(3, 3int + content.len()) =~= whole.subrange(3, 3int + content.len()));
    crate::buffer::lemma_varint_read_back(capsule.code() as nat, 1, buf, 0);
    crate::buffer::lemma_varint_read_back(content.len(), 2, buf, 1);
}

/// An ADDRESS_ASSIGN capsule that fits into a buffer stands at its start, and
/// the rest of the buffer is unchanged.
pub proof fn lemma_address_capsule_written(buf: Seq<u8>, addresses: Seq<IpAddr>)
    ensures
        ({
            let (filled, end) = crate::stream::capsule::address_capsule_written(buf, addresses);
            let capsule = capsule_bytes(Capsule::AddressAssign, addresses_bytes(addresses));
            match end {
                Some(size) => {
                    &&& size == 3 + addresses_bytes(addresses).len()
                    &&& size == capsule.len()
                    &&& size <= buf.len()
                    &&& filled == crate::bigendian::splice(buf, 0, capsule)
                },
                None => 3 + addresses_bytes(addresses).len() > buf.len(),
            }
        }),
{
    let p0 = crate::stream::capsule::address_capsule_pieces(addresses);
    let p1 = p0.drop_first();
    let p2 = p1.drop_first();
    assert(p2 =~= crate::stream::capsule::addresses_pieces(addresses));
    assert(crate::buffer::joined(p1) == p1[0] + crate::buffer::joined(p2));
    crate::bigendian::lemma_be_bytes_len(Capsule::AddressAssign.code() as nat, 1);
    crate::bigendian::lemma_be_bytes_len(0, 2);
    crate::bigendian::lemma_be_bytes_len(addresses_bytes(addresses).len(), 2);
    crate::buffer::lemma_put_all(buf, 0, p0);
    let content = addresses_bytes(addresses);
    let capsule = capsule_bytes(Capsule::AddressAssign, content);
    if 3 + content.len() <= buf.len() {
        let (filled, end) = crate::buffer::put_all(buf, 0, p0);
        assert(end == Some(3int + content.len()));
        assert(crate::bigendian::splice(
            filled,
            1,
            crate::buffer::varint_bytes(content.len(), 2),
        ) =~= crate::bigendian::splice(buf, 0, capsule));
    }
}

/// A ROUTE_ADVERTISEMENT capsule that fits into a buffer stands at the offset,
/// and the rest of the buffer is unchanged.
pub proof fn lemma_route_capsule_written(buf: Seq<u8>, offset: int, routes: Seq<u8>)
    requires
        0 <= offset <= buf.len(),
        routes.len() > 3,
    ensures
        ({
            let (filled, end) = crate::stream::capsule::route_capsule_written(buf, offset, routes);
            let capsule = capsule_bytes(Capsule::RouteAdvertisement, routes);
            match end {
                Some(size) => {
                    &&& size == 3 + routes.len()
                    &&& size == capsule.len()
                    &&& offset + size <= buf.len()
                    &&& filled == crate::bigendian::splice(buf, offset, capsule)
                },
                None => offset + 3 + routes.len() > buf.len(),
            }
        }),
{
    let p0 = crate::stream::capsule::route_capsule_pieces(routes);
    let p1 = p0.drop_first();
    let p2 = p1.drop_first();
    let p3 = p2.drop_first();
    assert(p3 =~= seq![]);
    assert(crate::buffer::joined(p3) =~= seq![]);
    assert(crate::buffer::joined(p2) =~= routes);
    assert(crate::buffer::joined(p1) == p1[0] + crate::buffer::joined(p2));
    assert(crate::buffer::joined(p0) =~= capsule_bytes(Capsule::RouteAdvertisement, routes));
    crate::bigendian::lemma_be_bytes_len(Capsule::RouteAdvertisement.code() as nat, 1);
    crate::bigendian::lemma_be_bytes_len(routes.len(), 2);
    crate::buffer::lemma_put_all(buf, offset, p0);
}

/// The capsule that assigns addresses is read back as exactly those addresses,
/// whatever stands behind it, if its length fits into the two bytes that it has.
pub proof fn law_assigned_addresses_are_read_back(buf: Seq<u8>, addresses: Seq<IpAddr>)
    requires
        addresses_bytes(addresses).len() < 0x4000,
    ensures
        ({
            let (filled, end) = crate::stream::capsule::address_capsule_written(buf, addresses);
            end matches Some(size) ==> crate::stream::capsule::read_capsule(filled) == (Reading {
                settings: address_settings(addresses),
                outcome: Ok(size),
            })
        }),
{
    let (filled, end) = crate::stream::capsule::address_capsule_written(buf, addresses);
    let content = addresses_bytes(addresses);
    let capsule = capsule_bytes(Capsule::AddressAssign, content);
    lemma_address_capsule_written(buf, addresses);
    if end is Some {
        assert(filled.subrange(0, capsule.len() as int) =~= capsule);
        lemma_read_capsule_head(filled, Capsule::AddressAssign, content);
        lemma_read_addresses(filled, 3, addresses);
    }
}

/// The capsule that advertises routes is read back as routes to exactly the same
/// networks, whatever stands behind it, if its length fits into the two bytes
/// that it has.
pub proof fn law_advertised_routes_are_read_back(
    buf: Seq<u8>,
    offset: int,
    prefixes: Seq<IpNetwork>,
)
    requires
        0 <= offset <= buf.len(),
        prefixes.len() > 0,
        forall|i: int| 0 <= i < prefixes.len() ==> (#[trigger] prefixes[i]).wf(),
        crate::stream::capsule::routes_bytes(prefixes).len() < 0x4000,
    ensures
        ({
            let (filled, end) = crate::stream::capsule::route_capsule_written(
                buf,
                offset,
                crate::stream::capsule::routes_bytes(prefixes),
            );
            end matches Some(size) ==> crate::stream::capsule::read_capsule(
                filled.subrange(offset, filled.len() as int),
            ) == (Reading {
                settings: route_settings(prefixes),
                outcome: Ok(size),
            })
        }),
{
    let content = crate::stream::capsule::routes_bytes(prefixes);
    let (filled, end) = crate::stream::capsule::route_capsule_written(buf, offset, content);
    let capsule = capsule_bytes(Capsule::RouteAdvertisement, content);
    lemma_routes_bytes(prefixes);
    lemma_route_bytes_len(prefixes[0]);
    lemma_route_capsule_written(buf, offset, content);
    if end is Some {
        let rest = filled.subrange(offset, filled.len() as int);
        assert(rest.subrange(0, capsule.len() as int) =~= capsule);
        lemma_read_capsule_head(rest, Capsule::RouteAdvertisement, content);
        lemma_read_routes(rest, 3, prefixes);
    }
}

/// What the server writes into a buffer for a client that it assigns addresses
/// and advertises routes, if there is room for it.
pub open spec fn response_body(buf: Seq<u8>, addresses: Seq<IpAddr>, routes: Seq<u8>) -> Option<
    Seq<u8>,
> {
    let (one, end) = crate::stream::capsule::address_capsule_written(buf, addresses);
    match end {
        None => None,
        Some(first) => {
            let (both, end) = crate::stream::capsule::route_capsule_written(one, first, routes);
            match end {
                None => None,
                Some(second) => Some(both.take(first + second)),
            }
        },
    }
}

/// What the server answers to a client is read by the client as exactly the
/// addresses that it was assigned, followed by routes to exactly the networks
/// that are advertised.
pub proof fn law_response_is_read_back(
    buf: Seq<u8>,
    addresses: Seq<IpAddr>,
    prefixes: Seq<IpNetwork>,
)
    requires
        buf.len() < 0x4000,
        forall|i: int| 0 <= i < prefixes.len() ==> (#[trigger] prefixes[i]).wf(),
    ensures
        response_body(buf, addresses, crate::stream::capsule::routes_bytes(prefixes)) matches Some(
            body,
        ) ==> crate::stream::capsule::read_capsules(body, 0) == (Reading {
            settings: address_settings(addresses) + route_settings(prefixes),
            outcome: Ok(body.len() as int),
        }),
{
    let routes = crate::stream::capsule::routes_bytes(prefixes);
    let content = addresses_bytes(addresses);
    let one_capsule = capsule_bytes(Capsule::AddressAssign, content);
    let two_capsule = capsule_bytes(Capsule::RouteAdvertisement, routes);
    if let Some(body) = response_body(buf, addresses, routes) {
        let (one, end) = crate::stream::capsule::address_capsule_written(buf, addresses);
        let first = end.unwrap();
        lemma_address_capsule_written(buf, addresses);
        let (both, _) = crate::stream::capsule::route_capsule_written(one, first, routes);
        if prefixes.len() == 0 {
            assert(routes =~= seq![]);
            assert(route_settings(prefixes) =~= seq![]);
            assert(body =~= one_capsule);
        } else {
            lemma_routes_bytes(prefixes);
            lemma_route_bytes_len(prefixes[0]);
            lemma_route_capsule_written(one, first, routes);
            assert(body =~= one_capsule + two_capsule);
        }
        assert(body.subrange(0, first) =~= one_capsule);
        assert(body.subrange(0, body.len() as int) =~= body);
        lemma_read_capsule_head(body, Capsule::AddressAssign, content);
        lemma_read_addresses(body, 3, addresses);
        assert(crate::stream::capsule::read_capsule(body) == (Reading {
            settings: address_settings(addresses),
            outcome: Ok(first),
        }));
        reveal_with_fuel(crate::stream::capsule::read_capsules, 3);
        if prefixes.len() > 0 {
            let rest = body.subrange(first, body.len() as int);
            assert(rest =~= two_capsule);
            assert(rest.subrange(0, two_capsule.len() as int) =~= two_capsule);
            lemma_read_capsule_head(rest, Capsule::RouteAdvertisement, routes);
            lemma_read_routes(rest, 3, prefixes);
            assert(crate::stream::capsule::read_capsule(rest) == (Reading {
                settings: route_settings(prefixes),
                outcome: Ok(rest.len() as int),
            }));
            assert(crate::stream::capsule::read_capsules(body, first) =~= Reading {
                settings: route_settings(prefixes),
                outcome: Ok(body.len() as int),
            });
        } else {
            assert(crate::stream::capsule::read_capsules(body, first)
                =~= crate::stream::capsule::ended(Ok(first)));
        }
        assert(crate::stream::capsule::read_capsules(body, 0) =~= (Reading {
            settings: address_settings(addresses) + route_settings(prefixes),
            outcome: Ok(body.len() as int),
        }));
    }
}

/// The settings for addresses are those addresses, and the settings for routes
/// are the networks with their first addresses and the lengths of their prefixes.
pub proof fn law_settings_name_what_they_set(
    addresses: Seq<IpAddr>,
    prefixes: Seq<IpNetwork>,
    i: int,
)
    ensures
        address_settings(addresses).len() == addresses.len(),
        route_settings(prefixes).len() == prefixes.len(),
        0 <= i < addresses.len() ==> address_settings(addresses)[i] == SettingView::Address(
            addresses[i],
        ),
        0 <= i < prefixes.len() ==> route_settings(prefixes)[i] == SettingView::Route(
            match prefixes[i] {
                IpNetwork::V4(n) => crate::net::ipv4_text(n.first()) + "/"@ + crate::text::decimal(
                    n.prefix as nat,
                ),
                IpNetwork::V6(n) => crate::net::ipv6_text(n.first() as u128) + "/"@
                    + crate::text::decimal(n.prefix as nat),
            },
        ) || !prefixes[i].wf(),
{
    if 0 <= i < prefixes.len() && prefixes[i].wf() {
        lemma_cidr_of_network(prefixes[i]);
    }
}

/// What stands in an ADDRESS_ASSIGN capsule for one more address: request 0, the
/// version, the bytes of the address and the length of a full prefix.
pub proof fn law_address_entry_on_the_wire(addresses: Seq<IpAddr>, addr: IpAddr)
    ensures
        addresses_bytes(Seq::<IpAddr>::empty()).len() == 0,
        addresses_bytes(addresses.push(addr)) == addresses_bytes(addresses) + (match addr {
            IpAddr::V4(_) => seq![0u8, 4u8] + addr.bytes() + seq![32u8],
            IpAddr::V6(_) => seq![0u8, 6u8] + addr.bytes() + seq![128u8],
        }),
    decreases addresses.len(),
{
    let all = addresses.push(addr);
    lemma_addresses_bytes(all);
    if addresses.len() == 0 {
        assert(all.drop_first() =~= seq![]);
        assert(addresses =~= seq![]);
        assert(addresses_bytes(all) =~= addresses_bytes(addresses) + address_bytes(addr));
    } else {
        law_address_entry_on_the_wire(addresses.drop_first(), addr);
        lemma_addresses_bytes(addresses);
        assert(all.drop_first() =~= addresses.drop_first().push(addr));
        assert(addresses_bytes(all) =~= addresses_bytes(addresses) + address_bytes(addr));
    }
}

/// What is written of a capsule: its type in one byte, its length as a
/// variable-length integer of two bytes, and its content; nothing else changes.
/// It is written whole exactly if there is room for all of it. A length that does
/// not fit into its two bytes loses its high bits.
pub proof fn law_capsules_on_the_wire(
    buf: Seq<u8>,
    addresses: Seq<IpAddr>,
    offset: int,
    routes: Seq<u8>,
)
    requires
        0 <= offset <= buf.len(),
        3 < routes.len(),
    ensures
        ({
            let (filled, end) = crate::stream::capsule::address_capsule_written(buf, addresses);
            let content = addresses_bytes(addresses);
            end matches Some(size) ==> {
                &&& size == 3 + content.len()
                &&& filled.len() == buf.len()
                &&& filled[0] == 1
                &&& content.len() < 0x4000 ==> filled[1] * 256 + filled[2] == 0x4000
                    + content.len()
                &&& filled[1] == (content.len() / 256 % 256) as u8 | 0x40
                &&& filled[2] == content.len() % 256
                &&& filled.subrange(3, size) == content
                &&& filled.skip(size) == buf.skip(size)
            }
        }),
        ({
            let (filled, end) = crate::stream::capsule::route_capsule_written(buf, offset, routes);
            end matches Some(size) ==> {
                &&& size == 3 + routes.len()
                &&& filled.len() == buf.len()
                &&& filled.take(offset) == buf.take(offset)
                &&& filled[offset] == 3
                &&& routes.len() < 0x4000 ==> filled[offset + 1] * 256 + filled[offset + 2]
                    == 0x4000 + routes.len()
                &&& filled[offset + 1] == (routes.len() / 256 % 256) as u8 | 0x40
                &&& filled[offset + 2] == routes.len() % 256
                &&& filled.subrange(offset + 3, offset + size) == routes
                &&& filled.skip(offset + size) == buf.skip(offset + size)
            }
        }),
        crate::stream::capsule::address_capsule_written(buf, addresses).1 is Some <==> 3
            + addresses_bytes(addresses).len() <= buf.len(),
        crate::stream::capsule::route_capsule_written(buf, offset, routes).1 is Some <==> offset + 3
            + routes.len() <= buf.len(),
{
    let content = addresses_bytes(addresses);
    lemma_address_capsule_written(buf, addresses);
    lemma_route_capsule_written(buf, offset, routes);
    lemma_capsule_head(Capsule::AddressAssign, content);
    lemma_capsule_head(Capsule::RouteAdvertisement, routes);
    let one = capsule_bytes(Capsule::AddressAssign, content);
    let two = capsule_bytes(Capsule::RouteAdvertisement, routes);
    assert(one.skip(3) =~= content);
    assert(two.skip(3) =~= routes);
    let (filled, end) = crate::stream::capsule::address_capsule_written(buf, addresses);
    if let Some(size) = end {
        assert(filled[0] == one[0] && filled[1] == one[1] && filled[2] == one[2]);
        assert(filled.subrange(3, size) =~= one.skip(3));
        assert(filled.skip(size) =~= buf.skip(size));
    }
    let (filled, end) = crate::stream::capsule::route_capsule_written(buf, offset, routes);
    if let Some(size) = end {
        assert(filled[offset] == two[0] && filled[offset + 1] == two[1] && filled[offset + 2]
            == two[2]);
        assert(filled.subrange(offset + 3, offset + size) =~= two.skip(3));
        assert(filled.take(offset) =~= buf.take(offset));
        assert(filled.skip(offset + size) =~= buf.skip(offset + size));
    }
}

/// The first three bytes of a capsule.
proof fn lemma_capsule_head(capsule: Capsule, content: Seq<u8>)
    ensures
        ({
            let bytes = capsule_bytes(capsule, content);
            &&& bytes.len() == 3 + content.len()
            &&& bytes[0] == capsule.code()
            &&& content.len() < 0x4000 ==> bytes[1] * 256 + bytes[2] == 0x4000 + content.len()
            &&& bytes[1] == (content.len() / 256 % 256) as u8 | 0x40
            &&& bytes[2] == content.len() % 256
        }),
{
    reveal_with_fuel(crate::bigendian::be_bytes, 3);
    let code = capsule.code() as u8;
    assert(code | 0u8 == code) by (bit_vector);
    let len = content.len();
    let high = (len / 256 % 256) as u8;
    assert(high < 0x40 ==> high | 0x40u8 == high + 0x40) by (bit_vector);
    assert(crate::buffer::varint_bytes(capsule.code() as nat, 1) =~= seq![code]);
    assert(crate::buffer::varint_bytes(len, 2) =~= seq![high | 0x40u8, (len % 256) as u8]);
}

/// No more than three bytes of routes are no routes: nothing is written of them.
pub proof fn law_no_capsule_without_routes(buf: Seq<u8>, offset: int, routes: Seq<u8>)
    requires
        routes.len() <= 3,
    ensures
        crate::stream::capsule::route_capsule_written(buf, offset, routes) == (buf, Some(0int)),
{
}

/// A capsule for which there is no room is written as far as its parts fit: the
/// type, the length, and what it holds, of which routes are one part. For addresses
/// the length is not known yet and stands as zero. Nothing else changes.
pub proof fn law_capsules_without_room_are_cut(
    buf: Seq<u8>,
    addresses: Seq<IpAddr>,
    offset: int,
    routes: Seq<u8>,
)
    requires
        0 <= offset <= buf.len(),
        routes.len() > 3,
    ensures
        ({
            let (filled, end) = crate::stream::capsule::address_capsule_written(buf, addresses);
            let parts = seq![
                crate::buffer::varint_bytes(1, 1),
                crate::buffer::varint_bytes(0, 2),
            ] + crate::stream::capsule::addresses_pieces(addresses);
            end is None ==> exists|k: int|
                {
                    let part = crate::buffer::joined(#[trigger] parts.take(k));
                    &&& 0 <= k < parts.len()
                    &&& part.len() + parts[k].len() > buf.len()
                    &&& filled == part + buf.skip(part.len() as int)
                }
        }),
        ({
            let (filled, end) = crate::stream::capsule::route_capsule_written(buf, offset, routes);
            let parts = seq![
                crate::buffer::varint_bytes(3, 1),
                crate::buffer::varint_bytes(routes.len(), 2),
                routes,
            ];
            end is None ==> exists|k: int|
                {
                    let part = crate::buffer::joined(#[trigger] parts.take(k));
                    &&& 0 <= k < parts.len()
                    &&& offset + part.len() + parts[k].len() > buf.len()
                    &&& filled == buf.take(offset) + part + buf.skip(offset + part.len())
                }
        }),
{
    if crate::stream::capsule::address_capsule_written(buf, addresses).1 is None {
        let parts = crate::stream::capsule::address_capsule_pieces(addresses);
        let k = crate::buffer::lemma_first_without_room(buf, 0, parts);
        crate::buffer::law_pieces_are_written_while_there_is_room(buf, 0, parts, k);
        let part = crate::buffer::joined(parts.take(k));
        assert(buf.take(0) + part + buf.skip(0int + part.len()) =~= part + buf.skip(
            part.len() as int,
        ));
    }
    if crate::stream::capsule::route_capsule_written(buf, offset, routes).1 is None {
        let parts = crate::stream::capsule::route_capsule_pieces(routes);
        let k = crate::buffer::lemma_first_without_room(buf, offset, parts);
        crate::buffer::law_pieces_are_written_while_there_is_room(buf, offset, parts, k);
    }
}

} // verus!
