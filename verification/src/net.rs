//! IP addresses and network prefixes.

use vstd::arithmetic::power2::pow2;
use vstd::prelude::*;
use vstd::string::StringExecFns;

use crate::bigendian::be_octets;
use crate::error::PsqError;
use crate::text::decimal_text;

verus! {

/// An IPv4 or IPv6 address, held as the number in its bytes.
#[derive(Clone, Copy, Debug, PartialEq, Eq, Structural)]
pub enum IpAddr {
    /// An IPv4 address.
    V4(u32),
    /// An IPv6 address.
    V6(u128),
}

/// An IPv4 address with the length of its network prefix.
#[derive(Clone, Copy, Debug, PartialEq, Eq, Structural)]
pub struct Ipv4Network {
    /// The address, which may have bits set behind the prefix.
    pub addr: u32,
    /// The number of bits in the prefix.
    pub prefix: u8,
}

/// An IPv6 address with the length of its network prefix.
#[derive(Clone, Copy, Debug, PartialEq, Eq, Structural)]
pub struct Ipv6Network {
    /// The address, which may have bits set behind the prefix.
    pub addr: u128,
    /// The number of bits in the prefix.
    pub prefix: u8,
}

/// An IPv4 or IPv6 network.
#[derive(Clone, Copy, Debug, PartialEq, Eq, Structural)]
pub enum IpNetwork {
    /// An IPv4 network.
    V4(Ipv4Network),
    /// An IPv6 network.
    V6(Ipv6Network),
}

/// The first address of the block of `2^host_bits` addresses around `addr`.
pub open spec fn block_start(addr: nat, host_bits: nat) -> nat {
    (addr - addr % pow2(host_bits)) as nat
}

/// The last address of the block of `2^host_bits` addresses around `addr`.
pub open spec fn block_last(addr: nat, host_bits: nat) -> nat {
    (block_start(addr, host_bits) + pow2(host_bits) - 1) as nat
}

/// How many addresses the `ipnetwork` crate counts in a network: it leaves out
/// the last one where the prefix is empty.
pub open spec fn network_size(bits: nat, prefix: nat) -> nat {
    if prefix == 0 {
        (pow2(bits) - 1) as nat
    } else {
        pow2((bits - prefix) as nat)
    }
}

/// An IPv4 address in dotted decimal notation.
pub open spec fn ipv4_text(addr: nat) -> Seq<char> {
    crate::text::decimal(addr / 0x100_0000) + "."@ + crate::text::decimal(addr / 0x1_0000 % 0x100)
        + "."@ + crate::text::decimal(addr / 0x100 % 0x100) + "."@ + crate::text::decimal(
        addr % 0x100,
    )
}

/// An IPv6 address as `std` shows it.
pub uninterp spec fn ipv6_text(addr: u128) -> Seq<char>;

/// The network that the `ipnetwork` crate reads from a text, if there is one.
pub uninterp spec fn network_of_text(s: Seq<char>) -> Option<IpNetwork>;

/// Calls `to_string` on the address of an `ipnetwork::Ipv6Network`, which is the
/// IPv6 address of `std`: the text is the named one.
#[verifier::external_body]
fn std_ipv6_text(addr: u128) -> (s: String)
    ensures
        s@ == ipv6_text(addr),
{
    ipnetwork::Ipv6Network::new(addr.into(), 128).unwrap().ip().to_string()
}

/// Calls `ipnetwork::Ipv4Network::size`: a power of two, but one less for the
/// empty prefix.
#[verifier::external_body]
fn ipnetwork_v4_size(addr: u32, prefix: u8) -> (r: u32)
    requires
        prefix <= 32,
    ensures
        r == network_size(32, prefix as nat),
{
    ipnetwork::Ipv4Network::new(addr.into(), prefix).unwrap().size()
}

/// Calls `ipnetwork::Ipv6Network::size`: a power of two, but one less for the
/// empty prefix.
#[verifier::external_body]
fn ipnetwork_v6_size(addr: u128, prefix: u8) -> (r: u128)
    requires
        prefix <= 128,
    ensures
        r == network_size(128, prefix as nat),
{
    ipnetwork::Ipv6Network::new(addr.into(), prefix).unwrap().size()
}

/// Calls `ipnetwork::Ipv4Network::nth`: the address `n` places behind the first
/// of the network, if `n` is below its size.
#[verifier::external_body]
fn ipnetwork_v4_nth(addr: u32, prefix: u8, n: u32) -> (r: Option<u32>)
    requires
        prefix <= 32,
    ensures
        r is Some <==> n < network_size(32, prefix as nat),
        r matches Some(a) ==> a == block_start(addr as nat, (32 - prefix) as nat) + n,
{
    ipnetwork::Ipv4Network::new(addr.into(), prefix).unwrap().nth(n).map(u32::from)
}

/// Calls `ipnetwork::Ipv6Network::nth`: the address `n` places behind the first
/// of the network, if `n` is below its size.
#[verifier::external_body]
fn ipnetwork_v6_nth(addr: u128, prefix: u8, n: u128) -> (r: Option<u128>)
    requires
        prefix <= 128,
    ensures
        r is Some <==> n < network_size(128, prefix as nat),
        r matches Some(a) ==> a == block_start(addr as nat, (128 - prefix) as nat) + n,
{
    ipnetwork::Ipv6Network::new(addr.into(), prefix).unwrap().nth(n).map(u128::from)
}

/// Calls `ipnetwork::Ipv4Network::broadcast`: the last address of the network.
#[verifier::external_body]
fn ipnetwork_v4_broadcast(addr: u32, prefix: u8) -> (r: u32)
    requires
        prefix <= 32,
    ensures
        r == block_last(addr as nat, (32 - prefix) as nat),
{
    ipnetwork::Ipv4Network::new(addr.into(), prefix).unwrap().broadcast().into()
}

/// Calls `ipnetwork::Ipv6Network::broadcast`: the last address of the network.
#[verifier::external_body]
fn ipnetwork_v6_broadcast(addr: u128, prefix: u8) -> (r: u128)
    requires
        prefix <= 128,
    ensures
        r == block_last(addr as nat, (128 - prefix) as nat),
{
    ipnetwork::Ipv6Network::new(addr.into(), prefix).unwrap().broadcast().into()
}

/// Calls `ipnetwork::Ipv4Network::contains`: whether the two addresses have the
/// prefix in common.
#[verifier::external_body]
fn ipnetwork_v4_contains(addr: u32, prefix: u8, ip: u32) -> (r: bool)
    requires
        prefix <= 32,
    ensures
        r == (block_start(ip as nat, (32 - prefix) as nat) == block_start(
            addr as nat,
            (32 - prefix) as nat,
        )),
{
    ipnetwork::Ipv4Network::new(addr.into(), prefix).unwrap().contains(ip.into())
}

/// Calls `ipnetwork::Ipv6Network::contains`: whether the two addresses have the
/// prefix in common.
#[verifier::external_body]
fn ipnetwork_v6_contains(addr: u128, prefix: u8, ip: u128) -> (r: bool)
    requires
        prefix <= 128,
    ensures
        r == (block_start(ip as nat, (128 - prefix) as nat) == block_start(
            addr as nat,
            (128 - prefix) as nat,
        )),
{
    ipnetwork::Ipv6Network::new(addr.into(), prefix).unwrap().contains(ip.into())
}

/// Calls `to_string` on `ipnetwork::Ipv4Network`: the address, a slash and the
/// length of the prefix.
#[verifier::external_body]
fn ipnetwork_v4_text(addr: u32, prefix: u8) -> (s: String)
    requires
        prefix <= 32,
    ensures
        s@ == ipv4_text(addr as nat) + "/"@ + crate::text::decimal(prefix as nat),
{
    ipnetwork::Ipv4Network::new(addr.into(), prefix).unwrap().to_string()
}

/// Calls `to_string` on `ipnetwork::Ipv6Network`: the address as `std` shows
/// it, a slash and the length of the prefix.
#[verifier::external_body]
fn ipnetwork_v6_text(addr: u128, prefix: u8) -> (s: String)
    requires
        prefix <= 128,
    ensures
        s@ == ipv6_text(addr) + "/"@ + crate::text::decimal(prefix as nat),
{
    ipnetwork::Ipv6Network::new(addr.into(), prefix).unwrap().to_string()
}

/// Calls `ipnetwork::IpNetwork::from_str`: the named network, whose prefix is no
/// longer than an address; an error exactly if the text names none, which says
/// that the text is an invalid address.
#[verifier::external_body]
fn ipnetwork_parse(s: &str) -> (r: Result<IpNetwork, String>)
    ensures
        r is Ok <==> network_of_text(s@) is Some,
        r matches Ok(n) ==> n.wf() && network_of_text(s@) == Some(n),
        r matches Err(text) ==> text@ == "invalid address: "@ + s@,
{
    Ok(match s.parse::<ipnetwork::IpNetwork>().map_err(|e| e.to_string())? {
        ipnetwork::IpNetwork::V4(n) => IpNetwork::V4(
            Ipv4Network { addr: n.ip().into(), prefix: n.prefix() },
        ),
        ipnetwork::IpNetwork::V6(n) => IpNetwork::V6(
            Ipv6Network { addr: n.ip().into(), prefix: n.prefix() },
        ),
    })
}

impl IpAddr {
    /// The number in the bytes of the address.
    pub open spec fn value(self) -> nat {
        match self {
            IpAddr::V4(a) => a as nat,
            IpAddr::V6(a) => a as nat,
        }
    }

    /// The bytes of the address in network order.
    pub open spec fn bytes(self) -> Seq<u8> {
        match self {
            IpAddr::V4(a) => crate::bigendian::be_bytes(a as nat, 4),
            IpAddr::V6(a) => crate::bigendian::be_bytes(a as nat, 16),
        }
    }

    /// The address as it is shown and handed to the operating system.
    pub open spec fn text(self) -> Seq<char> {
        match self {
            IpAddr::V4(a) => ipv4_text(a as nat),
            IpAddr::V6(a) => ipv6_text(a),
        }
    }

    /// The bytes of the address in network order.
    pub fn octets(&self) -> (r: Vec<u8>)
        ensures
            r@ == self.bytes(),
    {
        match *self {
            IpAddr::V4(a) => be_octets(a as u128, 4),
            IpAddr::V6(a) => be_octets(a, 16),
        }
    }

    /// The text of the address.
    pub fn to_text(&self) -> (s: String)
        ensures
            s@ == self.text(),
    {
        match *self {
            IpAddr::V4(a) => {
                let mut s = decimal_text((a / 0x100_0000) as u128);
                s.append(".");
                s.append(decimal_text((a / 0x1_0000 % 0x100) as u128).as_str());
                s.append(".");
                s.append(decimal_text((a / 0x100 % 0x100) as u128).as_str());
                s.append(".");
                s.append(decimal_text((a % 0x100) as u128).as_str());
                s
            },
            IpAddr::V6(a) => std_ipv6_text(a),
        }
    }
}

impl Ipv4Network {
    /// The prefix is no longer than an address.
    pub open spec fn wf(self) -> bool {
        self.prefix <= 32
    }

    /// The bits behind the prefix.
    pub open spec fn host_bits(self) -> nat {
        (32 - self.prefix) as nat
    }

    /// The first address of the network.
    pub open spec fn first(self) -> nat {
        block_start(self.addr as nat, self.host_bits())
    }

    /// The last address of the network.
    pub open spec fn last(self) -> nat {
        block_last(self.addr as nat, self.host_bits())
    }

    /// The network in the usual notation.
    pub open spec fn text(self) -> Seq<char> {
        ipv4_text(self.addr as nat) + "/"@ + crate::text::decimal(self.prefix as nat)
    }

    /// The number of addresses in the network.
    pub fn size(&self) -> (r: u32)
        requires
            self.wf(),
        ensures
            r == network_size(32, self.prefix as nat),
    {
        ipnetwork_v4_size(self.addr, self.prefix)
    }

    /// The address `n` places behind the first.
    pub fn nth(&self, n: u32) -> (r: Option<u32>)
        requires
            self.wf(),
        ensures
            r is Some <==> n < network_size(32, self.prefix as nat),
            r matches Some(a) ==> a == self.first() + n,
    {
        ipnetwork_v4_nth(self.addr, self.prefix, n)
    }

    /// The last address of the network.
    pub fn broadcast(&self) -> (r: u32)
        requires
            self.wf(),
        ensures
            r == self.last(),
    {
        ipnetwork_v4_broadcast(self.addr, self.prefix)
    }

    /// The network in the usual notation.
    pub fn to_text(&self) -> (s: String)
        requires
            self.wf(),
        ensures
            s@ == self.text(),
    {
        ipnetwork_v4_text(self.addr, self.prefix)
    }
}

impl Ipv6Network {
    /// The prefix is no longer than an address.
    pub open spec fn wf(self) -> bool {
        self.prefix <= 128
    }

    /// The bits behind the prefix.
    pub open spec fn host_bits(self) -> nat {
        (128 - self.prefix) as nat
    }

    /// The first address of the network.
    pub open spec fn first(self) -> nat {
        block_start(self.addr as nat, self.host_bits())
    }

    /// The last address of the network.
    pub open spec fn last(self) -> nat {
        block_last(self.addr as nat, self.host_bits())
    }

    /// The network in the usual notation.
    pub open spec fn text(self) -> Seq<char> {
        ipv6_text(self.addr) + "/"@ + crate::text::decimal(self.prefix as nat)
    }

    /// The number of addresses in the network.
    pub fn size(&self) -> (r: u128)
        requires
            self.wf(),
        ensures
            r == network_size(128, self.prefix as nat),
    {
        ipnetwork_v6_size(self.addr, self.prefix)
    }

    /// The address `n` places behind the first.
    pub fn nth(&self, n: u128) -> (r: Option<u128>)
        requires
            self.wf(),
        ensures
            r is Some <==> n < network_size(128, self.prefix as nat),
            r matches Some(a) ==> a == self.first() + n,
    {
        ipnetwork_v6_nth(self.addr, self.prefix, n)
    }

    /// The last address of the network.
    pub fn broadcast(&self) -> (r: u128)
        requires
            self.wf(),
        ensures
            r == self.last(),
    {
        ipnetwork_v6_broadcast(self.addr, self.prefix)
    }

    /// The network in the usual notation.
    pub fn to_text(&self) -> (s: String)
        requires
            self.wf(),
        ensures
            s@ == self.text(),
    {
        ipnetwork_v6_text(self.addr, self.prefix)
    }
}

impl IpNetwork {
    /// The prefix is no longer than an address.
    pub open spec fn wf(self) -> bool {
        match self {
            IpNetwork::V4(n) => n.wf(),
            IpNetwork::V6(n) => n.wf(),
        }
    }

    /// The address that the network was written with.
    pub open spec fn spec_ip(self) -> IpAddr {
        match self {
            IpNetwork::V4(n) => IpAddr::V4(n.addr),
            IpNetwork::V6(n) => IpAddr::V6(n.addr),
        }
    }

    /// The first address of the network.
    pub open spec fn first(self) -> nat {
        match self {
            IpNetwork::V4(n) => n.first(),
            IpNetwork::V6(n) => n.first(),
        }
    }

    /// The last address of the network.
    pub open spec fn last(self) -> nat {
        match self {
            IpNetwork::V4(n) => n.last(),
            IpNetwork::V6(n) => n.last(),
        }
    }

    /// The number of addresses that are counted in the network.
    pub open spec fn spec_size(self) -> nat {
        match self {
            IpNetwork::V4(n) => network_size(32, n.prefix as nat),
            IpNetwork::V6(n) => network_size(128, n.prefix as nat),
        }
    }

    /// Whether an address is of the same kind and has the same prefix.
    pub open spec fn has(self, addr: IpAddr) -> bool {
        match (self, addr) {
            (IpNetwork::V4(n), IpAddr::V4(a)) => block_start(a as nat, n.host_bits()) == n.first(),
            (IpNetwork::V6(n), IpAddr::V6(a)) => block_start(a as nat, n.host_bits()) == n.first(),
            _ => false,
        }
    }

    /// The network in the usual notation.
    pub open spec fn text(self) -> Seq<char> {
        match self {
            IpNetwork::V4(n) => n.text(),
            IpNetwork::V6(n) => n.text(),
        }
    }

    /// Reads a network from a text such as `10.76.0.1/24`.
    pub fn parse(s: &str) -> (r: Result<IpNetwork, PsqError>)
        ensures
            r matches Ok(n) ==> n.wf(),
            match r {
                Ok(n) => network_of_text(s@) == Some(n),
                Err(e) => network_of_text(s@) is None && e@ == parse_error(s@),
            },
    {
        match ipnetwork_parse(s) {
            Ok(n) => Ok(n),
            Err(text) => Err(PsqError::AddressParse(text)),
        }
    }

    /// The address that the network was written with.
    #[verifier::when_used_as_spec(spec_ip)]
    pub fn ip(self) -> (r: IpAddr)
        ensures
            r == self.spec_ip(),
    {
        match self {
            IpNetwork::V4(n) => IpAddr::V4(n.addr),
            IpNetwork::V6(n) => IpAddr::V6(n.addr),
        }
    }

    /// Whether an address belongs to the network.
    pub fn contains(&self, addr: IpAddr) -> (r: bool)
        requires
            self.wf(),
        ensures
            r == self.has(addr),
    {
        match (*self, addr) {
            (IpNetwork::V4(n), IpAddr::V4(a)) => ipnetwork_v4_contains(n.addr, n.prefix, a),
            (IpNetwork::V6(n), IpAddr::V6(a)) => ipnetwork_v6_contains(n.addr, n.prefix, a),
            _ => false,
        }
    }

    /// The network in the usual notation.
    pub fn to_text(&self) -> (s: String)
        requires
            self.wf(),
        ensures
            s@ == self.text(),
    {
        match self {
            IpNetwork::V4(n) => n.to_text(),
            IpNetwork::V6(n) => n.to_text(),
        }
    }
}

/// The error for a text that is no network.
pub open spec fn parse_error(s: Seq<char>) -> crate::error::ErrorView {
    crate::error::ErrorView::AddressParse("invalid address: "@ + s)
}

/// Whether the block of `2^host_bits` addresses around `start` reaches to `end`.
pub open spec fn covers(start: nat, end: nat, host_bits: nat) -> bool {
    end <= block_last(start, host_bits)
}

/// The least number of host bits from `from` on, and at most `bits`, with which
/// the block around `start` reaches to `end`.
pub open spec fn least_cover(start: nat, end: nat, from: nat, bits: nat) -> nat
    decreases bits - from,
{
    if from >= bits || covers(start, end, from) {
        from
    } else {
        least_cover(start, end, from + 1, bits)
    }
}

/// The powers of two at the lengths of an address.
pub proof fn lemma_address_space()
    ensures
        pow2(32) == 0x1_0000_0000,
        pow2(64) == 0x1_0000_0000_0000_0000,
        pow2(128) == 0x1_0000_0000_0000_0000_0000_0000_0000_0000,
{
    vstd::arithmetic::power2::lemma2_to64();
    vstd::arithmetic::power2::lemma2_to64_rest();
    vstd::arithmetic::power2::lemma_pow2_adds(64, 64);
    assert(0x1_0000_0000_0000_0000int * 0x1_0000_0000_0000_0000int
        == 0x1_0000_0000_0000_0000_0000_0000_0000_0000int) by (nonlinear_arith);
}

/// A block starts at or before each of its addresses, which are at most its
/// size further on.
pub proof fn lemma_block(addr: nat, host_bits: nat)
    ensures
        pow2(host_bits) > 0,
        addr % pow2(host_bits) <= addr,
        block_start(addr, host_bits) <= addr <= block_last(addr, host_bits),
{
    vstd::arithmetic::power2::lemma_pow2_pos(host_bits);
    vstd::arithmetic::div_mod::lemma_mod_bound(addr as int, pow2(host_bits) as int);
    vstd::arithmetic::div_mod::lemma_mod_decreases(addr, pow2(host_bits));
}

/// The block over a whole address space starts at zero.
pub proof fn lemma_whole_space(addr: nat, bits: nat)
    requires
        addr < pow2(bits),
    ensures
        block_start(addr, bits) == 0,
{
    vstd::arithmetic::div_mod::lemma_small_mod(addr, pow2(bits));
}

/// The addresses of a block have that block around them, and do not leave the
/// address space.
pub proof fn lemma_block_member(addr: nat, host_bits: nat, bits: nat, n: nat)
    requires
        addr < pow2(bits),
        host_bits <= bits,
        n < pow2(host_bits),
    ensures
        block_start(addr, host_bits) + n < pow2(bits),
        block_start(block_start(addr, host_bits) + n, host_bits) == block_start(addr, host_bits),
{
    let size = pow2(host_bits);
    let q = addr / size;
    lemma_block(addr, host_bits);
    vstd::arithmetic::div_mod::lemma_fundamental_div_mod(addr as int, size as int);
    assert(block_start(addr, host_bits) == size * q);
    vstd::arithmetic::div_mod::lemma_fundamental_div_mod_converse(
        (size * q + n) as int,
        size as int,
        q as int,
        n as int,
    );
    let blocks = pow2((bits - host_bits) as nat);
    vstd::arithmetic::power2::lemma_pow2_adds((bits - host_bits) as nat, host_bits);
    assert(q < blocks) by (nonlinear_arith)
        requires
            size * q <= addr,
            addr < blocks * size,
            size > 0,
    ;
    assert(size * q + size <= blocks * size) by (nonlinear_arith)
        requires
            q + 1 <= blocks,
            size > 0,
    ;
}

/// The smallest block around `start` that reaches to `end`, as its first
/// address and the length of its prefix.
pub fn covering_block(start: u128, end: u128, bits: u8) -> (r: (u128, u8))
    requires
        bits <= 128,
        start < pow2(bits as nat),
        end < pow2(bits as nat),
    ensures
        ({
            let k = least_cover(start as nat, end as nat, 0, bits as nat);
            &&& k <= bits
            &&& r.0 == block_start(start as nat, k)
            &&& r.1 == bits - k
        }),
{
    let mut k: u8 = 0;
    let mut last: u128 = 0;
    proof {
        vstd::arithmetic::power2::lemma2_to64();
        lemma_address_space();
    }
    while k < bits
        invariant
            k <= bits <= 128,
            last == pow2(k as nat) - 1,
            pow2(128) == 0x1_0000_0000_0000_0000_0000_0000_0000_0000,
            least_cover(start as nat, end as nat, 0, bits as nat) == least_cover(
                start as nat,
                end as nat,
                k as nat,
                bits as nat,
            ),
        decreases bits - k,
    {
        proof {
            vstd::arithmetic::power2::lemma_pow2_strictly_increases(k as nat, 128);
            vstd::arithmetic::power2::lemma_pow2_unfold((k + 1) as nat);
            if k + 1 < 128 {
                vstd::arithmetic::power2::lemma_pow2_strictly_increases((k + 1) as nat, 128);
            }
            lemma_block(start as nat, k as nat);
        }
        let network: u128 = start - start % (last + 1);
        if end < network || end - network <= last {
            return (network, bits - k);
        }
        last = 2 * last + 1;
        k = k + 1;
    }
    proof {
        lemma_whole_space(start as nat, bits as nat);
    }
    (0, 0)
}

/// The block that is found for a range has the whole range in it, and no smaller
/// block around its first address has.
pub proof fn law_covering_block_is_smallest(start: nat, end: nat, bits: nat)
    requires
        start <= end < pow2(bits),
    ensures
        ({
            let k = least_cover(start, end, 0, bits);
            &&& k <= bits
            &&& block_start(start, k) <= start
            &&& end <= block_last(start, k)
            &&& forall|j: nat| j < k ==> end > #[trigger] block_last(start, j)
        }),
{
    lemma_least_cover(start, end, 0, bits);
    lemma_block(start, least_cover(start, end, 0, bits));
}

/// The search for the smallest block stops at the first that covers the range.
proof fn lemma_least_cover(start: nat, end: nat, from: nat, bits: nat)
    requires
        start < pow2(bits),
        end < pow2(bits),
        from <= bits,
    ensures
        ({
            let k = least_cover(start, end, from, bits);
            &&& from <= k <= bits
            &&& covers(start, end, k)
            &&& forall|j: nat| from <= j < k ==> end > #[trigger] block_last(start, j)
        }),
    decreases bits - from,
{
    if from >= bits {
        lemma_whole_space(start, bits);
    } else if !covers(start, end, from) {
        lemma_least_cover(start, end, from + 1, bits);
    }
}

/// The addresses in a block around an address are those from its first to its
/// last.
proof fn lemma_same_block(a: nat, b: nat, host_bits: nat, bits: nat)
    requires
        a < pow2(bits),
        b < pow2(bits),
        host_bits <= bits,
    ensures
        block_start(a, host_bits) == block_start(b, host_bits) <==> block_start(b, host_bits) <= a
            <= block_last(b, host_bits),
{
    lemma_block(a, host_bits);
    lemma_block(b, host_bits);
    let first = block_start(b, host_bits);
    if first <= a <= block_last(b, host_bits) {
        lemma_block_member(b, host_bits, bits, (a - first) as nat);
    }
}

/// A network is a range: it has exactly the addresses of its kind from its first
/// to its last. There are as many of them as numbers in the bits behind the
/// prefix, its first is a multiple of that, and the address that it was written
/// with is one of them. All of them are counted, but one less where the prefix is
/// empty.
pub proof fn law_network_is_a_range(prefix: IpNetwork, addr: IpAddr)
    requires
        prefix.wf(),
    ensures
        prefix.has(addr) <==> (prefix is V4 <==> addr is V4) && prefix.first() <= addr.value()
            <= prefix.last(),
        prefix.has(prefix.ip()),
        match prefix {
            IpNetwork::V4(n) => {
                &&& prefix.ip() == IpAddr::V4(n.addr)
                &&& prefix.last() - prefix.first() + 1 == pow2((32 - n.prefix) as nat)
                &&& prefix.first() % pow2((32 - n.prefix) as nat) == 0
                &&& prefix.spec_size() == prefix.last() - prefix.first() + if n.prefix > 0 {
                    1int
                } else {
                    0
                }
            },
            IpNetwork::V6(n) => {
                &&& prefix.ip() == IpAddr::V6(n.addr)
                &&& prefix.last() - prefix.first() + 1 == pow2((128 - n.prefix) as nat)
                &&& prefix.first() % pow2((128 - n.prefix) as nat) == 0
                &&& prefix.spec_size() == prefix.last() - prefix.first() + if n.prefix > 0 {
                    1int
                } else {
                    0
                }
            },
        },
{
    lemma_address_space();
    match prefix {
        IpNetwork::V4(n) => {
            lemma_block(n.addr as nat, n.host_bits());
            lemma_block_member(n.addr as nat, n.host_bits(), 32, 0);
            lemma_block(prefix.first(), n.host_bits());
            if let IpAddr::V4(a) = addr {
                lemma_same_block(a as nat, n.addr as nat, n.host_bits(), 32);
            }
        },
        IpNetwork::V6(n) => {
            lemma_block(n.addr as nat, n.host_bits());
            lemma_block_member(n.addr as nat, n.host_bits(), 128, 0);
            lemma_block(prefix.first(), n.host_bits());
            if let IpAddr::V6(a) = addr {
                lemma_same_block(a as nat, n.addr as nat, n.host_bits(), 128);
            }
        },
    }
}

/// An address has as many bytes as its kind asks for, and they hold its number.
pub proof fn law_address_bytes_hold_its_number(addr: IpAddr)
    ensures
        addr.bytes().len() == if addr is V4 {
            4int
        } else {
            16
        },
        crate::bigendian::be_value(addr.bytes()) == addr.value(),
        match addr {
            IpAddr::V4(a) => addr.value() == a,
            IpAddr::V6(a) => addr.value() == a,
        },
{
    crate::bigendian::lemma_address_limits();
    match addr {
        IpAddr::V4(a) => {
            crate::bigendian::lemma_be_bytes_len(a as nat, 4);
            crate::bigendian::lemma_be_value_of_bytes(a as nat, 4);
        },
        IpAddr::V6(a) => {
            crate::bigendian::lemma_be_bytes_len(a as nat, 16);
            crate::bigendian::lemma_be_value_of_bytes(a as nat, 16);
        },
    }
}

/// The number of four bytes in network order, and the bytes in it.
proof fn lemma_four_bytes(a: u8, b: u8, c: u8, d: u8)
    ensures
        ({
            let v = crate::bigendian::be_value(seq![a, b, c, d]);
            &&& v / 0x100_0000 == a
            &&& v / 0x1_0000 % 0x100 == b
            &&& v / 0x100 % 0x100 == c
            &&& v % 0x100 == d
        }),
{
    let s1 = seq![a];
    let s2 = s1.push(b);
    let s3 = s2.push(c);
    assert(s1 =~= Seq::<u8>::empty().push(a));
    crate::bigendian::lemma_be_value_push(Seq::empty(), a);
    crate::bigendian::lemma_be_value_push(s1, b);
    crate::bigendian::lemma_be_value_push(s2, c);
    crate::bigendian::lemma_be_value_push(s3, d);
    assert(seq![a, b, c, d] =~= s3.push(d));
}

/// An IPv4 address is shown as its bytes in decimal notation with dots between
/// them.
pub proof fn law_ipv4_text_shows_bytes(a: u8, b: u8, c: u8, d: u8, addr: u32)
    requires
        IpAddr::V4(addr).bytes() == seq![a, b, c, d],
    ensures
        IpAddr::V4(addr).text() == crate::text::decimal(a as nat) + "."@ + crate::text::decimal(
            b as nat,
        ) + "."@ + crate::text::decimal(c as nat) + "."@ + crate::text::decimal(d as nat),
{
    law_address_bytes_hold_its_number(IpAddr::V4(addr));
    lemma_four_bytes(a, b, c, d);
}

} // verus!
