//! The pools from which the server assigns addresses to clients.

use std::collections::HashSet;

use vstd::prelude::*;

use crate::error::{ErrorView, PsqError};
use crate::net::{IpAddr, IpNetwork};

verus! {

broadcast use vstd::std_specs::hash::group_hash_axioms;

/// For keeping track of available addresses.
pub struct AddressPool {
    /// The network of the pool, written with the server's own address.
    pub prefix: IpNetwork,
    /// The place in the network where the search for a free address starts.
    pub next: u128,
    /// The addresses in use, as numbers.
    pub used: HashSet<u128>,
}

/// The model of [`AddressPool`].
pub struct PoolView {
    pub prefix: IpNetwork,
    pub next: nat,
    pub used: Set<u128>,
}

impl View for AddressPool {
    type V = PoolView;

    open spec fn view(&self) -> PoolView {
        PoolView { prefix: self.prefix, next: self.next as nat, used: self.used@ }
    }
}

/// An address of the kind that a network has.
pub open spec fn address_like(prefix: IpNetwork, value: nat) -> IpAddr {
    match prefix {
        IpNetwork::V4(_) => IpAddr::V4(value as u32),
        IpNetwork::V6(_) => IpAddr::V6(value as u128),
    }
}

/// Whether an address is of the kind that a network has.
pub open spec fn same_kind(prefix: IpNetwork, addr: IpAddr) -> bool {
    prefix is V4 <==> addr is V4
}

/// The address at a place in a network, as a number. Places are counted in a
/// machine word, and start anew where that is exhausted.
pub open spec fn slot_value(prefix: IpNetwork, slot: nat) -> nat {
    (prefix.first() + slot as int % (usize::MAX + 1)) as nat
}

/// The first place from `slot` on whose address is not in use. Behind the last
/// place the search goes on, once, at place 1.
pub open spec fn first_free(
    prefix: IpNetwork,
    used: Set<u128>,
    slot: nat,
    wrapped: bool,
) -> Option<nat>
    decreases
            if wrapped {
                0int
            } else {
                1int
            },
            prefix.spec_size() - slot,
{
    if slot >= prefix.spec_size() {
        if wrapped {
            None
        } else {
            first_free(prefix, used, 1, true)
        }
    } else if !used.contains(slot_value(prefix, slot) as u128) {
        Some(slot)
    } else {
        first_free(prefix, used, slot + 1, wrapped)
    }
}

impl PoolView {
    /// Whether an address is in use.
    pub open spec fn in_use(self, addr: IpAddr) -> bool {
        same_kind(self.prefix, addr) && self.used.contains(addr.value() as u128)
    }

    /// The addresses in use are of the network, and the search starts inside it.
    pub open spec fn wf(self) -> bool {
        &&& self.prefix.wf()
        &&& self.used.finite()
        &&& self.used.len() <= usize::MAX
        &&& forall|v: u128| #[trigger]
            self.used.contains(v) ==> {
                let addr = address_like(self.prefix, v as nat);
                addr.value() == v && self.prefix.has(addr)
            }
        &&& 1 <= self.next
        &&& self.next < self.prefix.spec_size() || self.next == 1
    }

    /// The pool with one more address in use.
    pub open spec fn with(self, addr: IpAddr) -> PoolView {
        PoolView { used: self.used.insert(addr.value() as u128), ..self }
    }

    /// The pool with an address free. One of the other kind is not in it.
    pub open spec fn without(self, addr: IpAddr) -> PoolView {
        PoolView {
            used: if same_kind(self.prefix, addr) {
                self.used.remove(addr.value() as u128)
            } else {
                self.used
            },
            ..self
        }
    }

    /// The place behind `slot`, where the next search starts.
    pub open spec fn after(self, slot: nat) -> nat {
        if slot + 1 >= self.prefix.spec_size() {
            1
        } else {
            slot + 1
        }
    }

    /// The address that is taken next, and the pool without it; none if all but
    /// one of the addresses are in use.
    pub open spec fn taken(self) -> Option<(IpAddr, PoolView)> {
        if self.used.len() + 1 >= self.prefix.spec_size() {
            None
        } else {
            let slot = first_free(self.prefix, self.used, self.next, false).unwrap();
            let addr = address_like(self.prefix, slot_value(self.prefix, slot));
            Some((addr, (PoolView { next: self.after(slot), ..self.with(addr) })))
        }
    }
}

/// What the pool reports where no address is left.
pub open spec fn exhausted() -> ErrorView {
    ErrorView::Custom("AddressPool: no addresses available"@)
}

/// The addresses of a network lie in the address space, and each is of the
/// network.
pub proof fn lemma_network_bounds(prefix: IpNetwork, n: nat)
    requires
        prefix.wf(),
        n < prefix.spec_size(),
    ensures
        prefix.spec_size() >= 1,
        prefix.first() + n <= u128::MAX,
        prefix is V4 ==> prefix.spec_size() <= u32::MAX + 1 && prefix.first() + n <= u32::MAX,
        prefix.has(address_like(prefix, prefix.first() + n)),
        address_like(prefix, prefix.first() + n).value() == prefix.first() + n,
{
    crate::net::lemma_address_space();
    match prefix {
        IpNetwork::V4(p) => {
            if p.host_bits() < 32 {
                vstd::arithmetic::power2::lemma_pow2_strictly_increases(p.host_bits(), 32);
            }
            crate::net::lemma_block_member(p.addr as nat, p.host_bits(), 32, n);
        },
        IpNetwork::V6(p) => {
            crate::net::lemma_block_member(p.addr as nat, p.host_bits(), 128, n);
        },
    }
}

/// If the first places are all in use, that many addresses are in use.
proof fn lemma_slots_in_use(prefix: IpNetwork, used: Set<u128>, count: nat)
    requires
        prefix.wf(),
        used.finite(),
        count < prefix.spec_size(),
        count <= usize::MAX + 1,
        forall|j: nat| 1 <= j <= count ==> #[trigger] used.contains(
            slot_value(prefix, j) as u128,
        ),
    ensures
        used.len() >= count,
    decreases count,
{
    if count > 0 {
        let last = slot_value(prefix, count) as u128;
        let rest = used.remove(last);
        assert(used.contains(last));
        assert forall|j: nat| 1 <= j <= count - 1 implies #[trigger] rest.contains(
            slot_value(prefix, j) as u128,
        ) by {
            assert(used.contains(slot_value(prefix, j) as u128));
            lemma_network_bounds(prefix, j);
            assert(j as int % (usize::MAX + 1) == j) by {
                vstd::arithmetic::div_mod::lemma_small_mod(j, (usize::MAX + 1) as nat);
            }
            if count == usize::MAX + 1 {
                vstd::arithmetic::div_mod::lemma_mod_self_0(count as int);
                lemma_network_bounds(prefix, 0);
            } else {
                vstd::arithmetic::div_mod::lemma_small_mod(count, (usize::MAX + 1) as nat);
                lemma_network_bounds(prefix, count);
            }
        }
        lemma_slots_in_use(prefix, rest, (count - 1) as nat);
    }
}

impl AddressPool {
    /// The addresses in use are of the network, and the search starts inside it.
    pub open spec fn wf(self) -> bool {
        self@.wf()
    }

    /// A pool over a network, of which the server's own address is in use.
    pub fn new(prefix: IpNetwork) -> (r: Result<AddressPool, PsqError>)
        requires
            prefix.wf(),
        ensures
            r matches Ok(pool) && pool.wf() && pool@ == fresh_pool(prefix),
    {
        let localaddr = prefix.ip();
        let mut ap = AddressPool { prefix, next: 1, used: HashSet::new() };
        match ap.add(localaddr) {
            Ok(()) => {
                assert(ap@.used =~= set![prefix.ip().value() as u128]);
                Ok(ap)
            },
            Err(e) => Err(e),
        }
    }

    /// Marks an address as in use.
    pub fn add(&mut self, addr: IpAddr) -> (r: Result<(), PsqError>)
        requires
            old(self).wf(),
        ensures
            final(self).wf(),
            match r {
                Ok(()) => {
                    &&& old(self)@.prefix.has(addr)
                    &&& !old(self)@.in_use(addr)
                    &&& final(self)@ == old(self)@.with(addr)
                },
                Err(e) => {
                    &&& final(self)@ == old(self)@
                    &&& if old(self)@.prefix.has(addr) {
                        old(self)@.in_use(addr) && e@ == ErrorView::Custom(
                            "AddressPool: already in use"@,
                        )
                    } else {
                        e@ == ErrorView::Custom("AddressPool: address not in range"@)
                    }
                },
            },
    {
        if !self.prefix.contains(addr) {
            return Err(PsqError::Custom("AddressPool: address not in range".to_owned()));
        }
        let value: u128 = match addr {
            IpAddr::V4(a) => a as u128,
            IpAddr::V6(a) => a,
        };
        if self.used.contains(&value) {
            Err(PsqError::Custom("AddressPool: already in use".to_owned()))
        } else {
            self.used.insert(value);
            assert(self.used@.len() == self.used.len());
            Ok(())
        }
    }

    /// Marks an address as free.
    pub fn remove(&mut self, addr: &IpAddr)
        requires
            old(self).wf(),
        ensures
            final(self).wf(),
            final(self)@ == (PoolView {
                used: if same_kind(old(self)@.prefix, *addr) {
                    old(self)@.used.remove(addr.value() as u128)
                } else {
                    old(self)@.used
                },
                ..old(self)@
            }),
            final(self)@ == old(self)@.without(*addr),
    {
        match (self.prefix, *addr) {
            (IpNetwork::V4(_), IpAddr::V4(a)) => {
                self.used.remove(&(a as u128));
            },
            (IpNetwork::V6(_), IpAddr::V6(a)) => {
                self.used.remove(&a);
            },
            _ => {},
        }
    }

    /// The address `n` places behind the first of the network.
    pub fn nth(&self, n: usize) -> (r: Option<IpAddr>)
        requires
            self.wf(),
        ensures
            ({
                let place = if self.prefix is V4 {
                    n as nat % 0x1_0000_0000
                } else {
                    n as nat
                };
                if place < self.prefix.spec_size() {
                    r == Some(address_like(self.prefix, self.prefix.first() + place))
                } else {
                    r is None
                }
            }),
    {
        match self.prefix {
            IpNetwork::V4(v4) => match v4.nth((n as u64 % 0x1_0000_0000) as u32) {
                Some(a) => Some(IpAddr::V4(a)),
                None => None,
            },
            IpNetwork::V6(v6) => match v6.nth(n as u128) {
                Some(a) => Some(IpAddr::V6(a)),
                None => None,
            },
        }
    }

    /// Takes an address out of the pool.
    pub fn get(&mut self) -> (r: Result<IpAddr, PsqError>)
        requires
            old(self).wf(),
        ensures
            final(self).wf(),
            match r {
                Ok(addr) => {
                    &&& old(self)@.taken() == Some((addr, final(self)@))
                    &&& old(self)@.prefix.has(addr)
                    &&& !old(self)@.in_use(addr)
                },
                Err(e) => {
                    &&& old(self)@.taken() is None
                    &&& e@ == exhausted()
                    &&& final(self)@ == old(self)@
                },
            },
    {
        let size: u128 = match self.prefix {
            IpNetwork::V4(v4) => v4.size() as u128,
            IpNetwork::V6(v6) => v6.size(),
        };
        proof {
            lemma_size_positive(self.prefix);
        }
        if self.used.len() as u128 >= size - 1 {
            return Err(PsqError::Custom("AddressPool: no addresses available".to_owned()));
        }
        let ghost before = self@;
        let ghost mut wrapped = false;
        proof {
            lemma_search(before.prefix, before.used, before.next, false);
        }
        loop
            invariant
                self.wf(),
                before == old(self)@,
                before.taken() is Some,
                self@.prefix == before.prefix,
                self@.used == before.used,
                size == before.prefix.spec_size(),
                self.next < size,
                first_free(before.prefix, before.used, before.next, false) is Some,
                first_free(before.prefix, before.used, before.next, false) == first_free(
                    before.prefix,
                    before.used,
                    self@.next,
                    wrapped,
                ),
            decreases
                    if wrapped {
                        0int
                    } else {
                        1int
                    },
                    size - self.next,
        {
            let ghost slot = self@.next;
            let index: usize = (self.next % (usize::MAX as u128 + 1)) as usize;
            proof {
                vstd::arithmetic::div_mod::lemma_mod_decreases(slot, (usize::MAX + 1) as nat);
                lemma_network_bounds(self.prefix, index as nat);
            }
            let addr = self.nth(index).unwrap();
            assert(addr == address_like(before.prefix, slot_value(before.prefix, slot)));
            assert(addr.value() == slot_value(before.prefix, slot));
            self.next = self.next + 1;
            if self.next >= size {
                self.next = 1;
            }
            if self.add(addr).is_ok() {
                return Ok(addr);
            }
            proof {
                reveal_with_fuel(first_free, 2);
                if slot + 1 >= size {
                    wrapped = true;
                }
            }
        }
    }
}

/// A network has an address.
proof fn lemma_size_positive(prefix: IpNetwork)
    requires
        prefix.wf(),
    ensures
        prefix.spec_size() >= 1,
{
    crate::net::lemma_address_space();
    match prefix {
        IpNetwork::V4(p) => vstd::arithmetic::power2::lemma_pow2_pos(p.host_bits()),
        IpNetwork::V6(p) => vstd::arithmetic::power2::lemma_pow2_pos(p.host_bits()),
    }
}

/// While more than one address is free, the search finds a place that is.
proof fn lemma_search(prefix: IpNetwork, used: Set<u128>, slot: nat, wrapped: bool)
    requires
        prefix.wf(),
        used.finite(),
        used.len() <= usize::MAX,
        used.len() + 1 < prefix.spec_size(),
        1 <= slot,
        wrapped ==> forall|j: nat|
            1 <= j < slot ==> #[trigger] used.contains(slot_value(prefix, j) as u128),
    ensures
        first_free(prefix, used, slot, wrapped) matches Some(found) && 1 <= found
            < prefix.spec_size() && !used.contains(slot_value(prefix, found) as u128),
    decreases
            if wrapped {
                0int
            } else {
                1int
            },
            prefix.spec_size() - slot,
{
    let size = prefix.spec_size();
    if slot >= size {
        if wrapped {
            let count = if size - 1 <= usize::MAX + 1 {
                (size - 1) as nat
            } else {
                (usize::MAX + 1) as nat
            };
            lemma_slots_in_use(prefix, used, count);
        } else {
            lemma_search(prefix, used, 1, true);
        }
    } else if used.contains(slot_value(prefix, slot) as u128) {
        lemma_search(prefix, used, slot + 1, wrapped);
    }
}

/// An address that is taken out of a pool belongs to its network, was free and
/// is in use from then on; everything that was in use stays so.
pub proof fn law_taken_address_is_fresh(pool: PoolView)
    requires
        pool.wf(),
    ensures
        pool.taken() matches Some((addr, rest)) ==> {
            &&& pool.prefix.has(addr)
            &&& !pool.in_use(addr)
            &&& rest.in_use(addr)
            &&& rest.prefix == pool.prefix
            &&& forall|other: IpAddr| pool.in_use(other) ==> rest.in_use(other)
            &&& pool.used.len() < usize::MAX ==> rest.wf()
        },
{
    if pool.taken() is Some {
        lemma_search(pool.prefix, pool.used, pool.next, false);
        let slot = first_free(pool.prefix, pool.used, pool.next, false).unwrap();
        vstd::arithmetic::div_mod::lemma_mod_decreases(slot, (usize::MAX + 1) as nat);
        lemma_network_bounds(pool.prefix, (slot as int % (usize::MAX + 1)) as nat);
    }
}

/// Two addresses that are taken out of a pool one after the other differ, and
/// neither is the server's own address where that is in use.
pub proof fn law_taken_addresses_differ(pool: PoolView)
    requires
        pool.wf(),
        pool.in_use(pool.prefix.ip()),
        pool.used.len() < usize::MAX,
    ensures
        pool.taken() matches Some((first, rest)) ==> (rest.taken() matches Some((second, _)) ==> {
            &&& first != second
            &&& first != pool.prefix.ip()
            &&& second != pool.prefix.ip()
        }),
{
    law_taken_address_is_fresh(pool);
    if pool.taken() is Some {
        law_taken_address_is_fresh(pool.taken().unwrap().1);
    }
}

/// The pool that [`AddressPool::new`] makes over a network.
pub open spec fn fresh_pool(prefix: IpNetwork) -> PoolView {
    PoolView { prefix, next: 1, used: set![prefix.ip().value() as u128] }
}

/// The addresses that so many calls of [`AddressPool::get`] give, leaving out
/// those that fail, and the pool after them.
pub open spec fn after_gets(pool: PoolView, calls: nat) -> (Seq<IpAddr>, PoolView)
    decreases calls,
{
    if calls == 0 {
        (seq![], pool)
    } else {
        let (addresses, now) = after_gets(pool, (calls - 1) as nat);
        match now.taken() {
            Some((addr, rest)) => (addresses.push(addr), rest),
            None => (addresses, now),
        }
    }
}

/// How many addresses a fresh pool has to give: all but the network address and
/// one more.
pub open spec fn supply(prefix: IpNetwork) -> nat {
    if prefix.spec_size() <= 2 {
        0
    } else {
        (prefix.spec_size() - 2) as nat
    }
}

/// The place of the server's own address in its network.
pub open spec fn own_place(prefix: IpNetwork) -> int {
    prefix.ip().value() - prefix.first()
}

/// The `k`-th place, counted from zero, that is neither the first of the network
/// nor that of the server's own address.
pub open spec fn client_place(prefix: IpNetwork, k: int) -> int {
    if own_place(prefix) == 0 || k + 1 < own_place(prefix) {
        k + 1
    } else {
        k + 2
    }
}

/// The server's own address has a place in its network.
proof fn lemma_own_place(prefix: IpNetwork)
    requires
        prefix.wf(),
        match prefix {
            IpNetwork::V4(n) => n.prefix >= 1,
            IpNetwork::V6(n) => n.prefix >= 1,
        },
    ensures
        0 <= own_place(prefix) < prefix.spec_size(),
        prefix.ip().value() <= u128::MAX,
{
    match prefix {
        IpNetwork::V4(n) => crate::net::lemma_block(n.addr as nat, n.host_bits()),
        IpNetwork::V6(n) => crate::net::lemma_block(n.addr as nat, n.host_bits()),
    }
}

/// What a pool looks like after calls that all gave an address.
proof fn lemma_gets(prefix: IpNetwork, calls: nat)
    requires
        prefix.wf(),
        match prefix {
            IpNetwork::V4(n) => n.prefix >= 1,
            IpNetwork::V6(n) => n.prefix >= 1,
        },
        calls <= supply(prefix),
        calls + 2 <= usize::MAX,
    ensures
        ({
            let (addresses, now) = after_gets(fresh_pool(prefix), calls);
            &&& addresses.len() == calls
            &&& forall|k: int|
                0 <= k < calls ==> (#[trigger] addresses[k]).value() == prefix.first()
                    + client_place(prefix, k) && same_kind(prefix, addresses[k])
            &&& now.prefix == prefix
            &&& now.used.finite()
            &&& now.used.len() == calls + 1
            &&& calls < supply(prefix) ==> {
                &&& now.next == (if calls == 0 {
                    1
                } else {
                    client_place(prefix, calls - 1) + 1
                })
                &&& forall|v: u128| #[trigger]
                    now.used.contains(v) ==> v == prefix.ip().value() || v < prefix.first()
                        + now.next
            }
            &&& now.used.contains(prefix.ip().value() as u128)
            &&& now.taken() is None <==> calls == supply(prefix)
        }),
    decreases calls,
{
    lemma_own_place(prefix);
    let size = prefix.spec_size();
    let (addresses, now) = after_gets(fresh_pool(prefix), calls);
    if calls > 0 {
        let before = (calls - 1) as nat;
        lemma_gets(prefix, before);
        let (had, pool) = after_gets(fresh_pool(prefix), before);
        let slot = client_place(prefix, before as int) as nat;
        lemma_network_bounds(prefix, slot);
        lemma_network_bounds(prefix, pool.next);
        vstd::arithmetic::div_mod::lemma_small_mod(slot, (usize::MAX + 1) as nat);
        vstd::arithmetic::div_mod::lemma_small_mod(pool.next, (usize::MAX + 1) as nat);
        reveal_with_fuel(first_free, 3);
        assert(slot == pool.next || slot == pool.next + 1 && pool.next == own_place(prefix));
        assert(first_free(prefix, pool.used, pool.next, false) == Some(slot));
        let addr = address_like(prefix, prefix.first() + slot);
        assert(pool.taken() == Some((addr, now)));
        assert(addresses == had.push(addr));
        assert(!pool.used.contains(addr.value() as u128));
    } else {
        assert(now.used =~= Set::<u128>::empty().insert(prefix.ip().value() as u128));
    }
}

/// Of repeated calls on a fresh pool, over a network whose prefix is not empty,
/// exactly as many succeed as there are addresses but two, and all after them
/// fail. The addresses increase, and they are the lowest ones of the network that
/// are neither its first address nor the server's own.
pub proof fn law_pool_hands_out_in_order(prefix: IpNetwork, calls: nat)
    requires
        prefix.wf(),
        match prefix {
            IpNetwork::V4(n) => n.prefix >= 1,
            IpNetwork::V6(n) => n.prefix >= 1,
        },
        calls + 2 <= usize::MAX,
    ensures
        ({
            let (addresses, now) = after_gets(fresh_pool(prefix), calls);
            &&& addresses.len() == if calls <= supply(prefix) {
                calls
            } else {
                supply(prefix)
            }
            &&& calls >= supply(prefix) <==> now.taken() is None
            &&& forall|k: int|
                0 <= k < addresses.len() ==> {
                    &&& prefix.has(#[trigger] addresses[k])
                    &&& addresses[k].value() == prefix.first() + client_place(prefix, k)
                    &&& addresses[k].value() != prefix.first()
                    &&& addresses[k] != prefix.ip()
                }
            &&& forall|j: int, k: int|
                0 <= j < k < addresses.len() ==> (#[trigger] addresses[j]).value() < (
                #[trigger] addresses[k]).value()
            &&& forall|v: nat, k: int|
                0 <= k < addresses.len() && prefix.first() < v < (#[trigger] addresses[k]).value()
                    && v != prefix.ip().value() ==> #[trigger] handed_out(addresses, v)
        }),
    decreases calls,
{
    lemma_own_place(prefix);
    let (addresses, now) = after_gets(fresh_pool(prefix), calls);
    if calls <= supply(prefix) {
        lemma_gets(prefix, calls);
        assert forall|k: int| 0 <= k < addresses.len() implies prefix.has(
            #[trigger] addresses[k],
        ) by {
            let place = client_place(prefix, k) as nat;
            lemma_network_bounds(prefix, place);
            assert(addresses[k] == address_like(prefix, prefix.first() + place));
        }
        assert forall|v: nat, k: int|
            0 <= k < addresses.len() && prefix.first() < v < (#[trigger] addresses[k]).value() && v
                != prefix.ip().value() implies #[trigger] handed_out(addresses, v) by {
            let place = v - prefix.first();
            let j = if own_place(prefix) == 0 || place < own_place(prefix) {
                place - 1
            } else {
                place - 2
            };
            assert(client_place(prefix, j) == place);
            assert(addresses[j].value() == v);
        }
    } else {
        law_pool_hands_out_in_order(prefix, (calls - 1) as nat);
    }
}

/// Whether an address with this number is among these.
pub open spec fn handed_out(addresses: Seq<IpAddr>, v: nat) -> bool {
    exists|j: int| 0 <= j < addresses.len() && (#[trigger] addresses[j]).value() == v
}

/// The search gives the first free place from where it starts, and goes round.
proof fn lemma_first_free(prefix: IpNetwork, used: Set<u128>, slot: nat, wrapped: bool)
    requires
        1 <= slot,
    ensures
        first_free(prefix, used, slot, wrapped) matches Some(p) ==> {
            &&& p < prefix.spec_size()
            &&& !used.contains(slot_value(prefix, p) as u128)
            &&& slot <= p && (forall|q: nat|
                slot <= q < p ==> #[trigger] used.contains(slot_value(prefix, q) as u128)) || {
                &&& !wrapped
                &&& 1 <= p
                &&& forall|q: nat|
                    slot <= q < prefix.spec_size() || 1 <= q < p ==> #[trigger] used.contains(
                        slot_value(prefix, q) as u128,
                    )
            }
        },
    decreases
            if wrapped {
                0int
            } else {
                1int
            },
            prefix.spec_size() - slot,
{
    if slot >= prefix.spec_size() {
        if !wrapped {
            lemma_first_free(prefix, used, 1, true);
        }
    } else if used.contains(slot_value(prefix, slot) as u128) {
        lemma_first_free(prefix, used, slot + 1, wrapped);
    }
}

/// A pool has an address to give exactly if at least two of those that are counted
/// are not in use. The address is the first free one from where the last search
/// ended, going round behind the last; the next search starts behind it; and it is
/// the only one that is in use more than before. This holds of networks whose
/// places fit into a machine word.
pub proof fn law_next_free_address_is_taken(pool: PoolView)
    requires
        pool.wf(),
        pool.prefix.spec_size() <= usize::MAX + 1,
    ensures
        pool.taken() is Some <==> pool.used.len() + 2 <= pool.prefix.spec_size(),
        pool.taken() matches Some((addr, rest)) ==> {
            let first = pool.prefix.first();
            let p = addr.value() - first;
            &&& addr is V4 <==> pool.prefix is V4
            &&& 1 <= p < pool.prefix.spec_size()
            &&& !pool.used.contains(addr.value() as u128)
            &&& p >= pool.next ==> forall|q: int|
                pool.next <= q < p ==> #[trigger] pool.used.contains((first + q) as u128)
            &&& p < pool.next ==> forall|q: int|
                pool.next <= q < pool.prefix.spec_size() || 1 <= q < p
                    ==> #[trigger] pool.used.contains((first + q) as u128)
            &&& rest.next == if p + 1 < pool.prefix.spec_size() {
                p + 1
            } else {
                1
            }
            &&& rest.used == pool.used.insert(addr.value() as u128)
            &&& rest.prefix == pool.prefix
        },
{
    if let Some((addr, rest)) = pool.taken() {
        lemma_search(pool.prefix, pool.used, pool.next, false);
        lemma_first_free(pool.prefix, pool.used, pool.next, false);
        let slot = first_free(pool.prefix, pool.used, pool.next, false).unwrap();
        vstd::arithmetic::div_mod::lemma_small_mod(slot, (usize::MAX + 1) as nat);
        lemma_network_bounds(pool.prefix, slot);
        let first = pool.prefix.first();
        assert forall|q: nat| q < pool.prefix.spec_size() implies #[trigger] slot_value(
            pool.prefix,
            q,
        ) == first + q by {
            vstd::arithmetic::div_mod::lemma_small_mod(q, (usize::MAX + 1) as nat);
        }
        let p = addr.value() - first;
        assert(p == slot);
        if p >= pool.next {
            assert forall|q: int| pool.next <= q < p implies #[trigger] pool.used.contains(
                (first + q) as u128,
            ) by {
                assert(slot_value(pool.prefix, q as nat) == first + q);
            }
        } else {
            assert forall|q: int|
                pool.next <= q < pool.prefix.spec_size() || 1 <= q < p implies
                #[trigger] pool.used.contains((first + q) as u128) by {
                assert(slot_value(pool.prefix, q as nat) == first + q);
            }
        }
    }
}

/// An address is in use in a pool exactly if it is of the pool's kind and its
/// number is among those in use. A fresh pool has the address that it was
/// configured with in use and no other.
pub proof fn law_fresh_pool_uses_its_own_address(prefix: IpNetwork, addr: IpAddr)
    requires
        prefix.wf(),
    ensures
        fresh_pool(prefix).in_use(addr) <==> addr == match prefix {
            IpNetwork::V4(n) => IpAddr::V4(n.addr),
            IpNetwork::V6(n) => IpAddr::V6(n.addr),
        },
        fresh_pool(prefix).prefix == prefix,
        fresh_pool(prefix).next == 1,
        fresh_pool(prefix).used.len() == 1,
{
    let own = prefix.ip().value() as u128;
    assert(fresh_pool(prefix).used =~= Set::<u128>::empty().insert(own));
}

/// Of repeated calls on a fresh pool over a network from one address to another,
/// whose prefix is not empty, as many succeed as there are addresses between the
/// two, and no more.
pub proof fn law_pool_gives_all_but_two(prefix: IpNetwork, calls: nat)
    requires
        prefix.wf(),
        match prefix {
            IpNetwork::V4(n) => n.prefix >= 1,
            IpNetwork::V6(n) => n.prefix >= 1,
        },
        calls + 2 <= usize::MAX,
    ensures
        ({
            let between = prefix.last() - prefix.first() - 1;
            let addresses = after_gets(fresh_pool(prefix), calls).0;
            &&& calls <= between ==> addresses.len() == calls
            &&& calls > between && between >= 0 ==> addresses.len() == between
            &&& between < 0 ==> addresses.len() == 0
        }),
{
    law_pool_hands_out_in_order(prefix, calls);
    crate::net::law_network_is_a_range(prefix, prefix.ip());
}

/// Marking an address as in use, or as free, changes that address alone, and
/// neither the network nor the place where the next search starts. An address that
/// was free and is marked and released again leaves the pool as it was.
pub proof fn law_marks_change_one_address(pool: PoolView, addr: IpAddr, other: IpAddr)
    requires
        pool.prefix is V4 <==> addr is V4,
    ensures
        pool.with(addr).in_use(other) <==> pool.in_use(other) || other == addr,
        pool.without(addr).in_use(other) <==> pool.in_use(other) && other != addr,
        pool.with(addr).prefix == pool.prefix && pool.with(addr).next == pool.next,
        pool.without(addr).prefix == pool.prefix && pool.without(addr).next == pool.next,
        !pool.in_use(addr) ==> pool.with(addr).without(addr) == pool,
{
    if !pool.in_use(addr) {
        assert(pool.with(addr).without(addr).used =~= pool.used);
    }
}

/// An address of the other kind than a network's is not in use in a pool over it,
/// and releasing it changes nothing.
pub proof fn law_addresses_of_the_other_kind_are_not_in_the_pool(pool: PoolView, addr: IpAddr)
    requires
        !(pool.prefix is V4 <==> addr is V4),
    ensures
        !pool.in_use(addr),
        pool.without(addr) == pool,
{
}

/// The address at a place of a network is of the network's kind and has the number
/// of that place.
pub proof fn law_places_have_their_numbers(prefix: IpNetwork, n: nat)
    requires
        prefix.wf(),
        n < prefix.spec_size(),
    ensures
        ({
            let addr = address_like(prefix, prefix.first() + n);
            &&& addr is V4 <==> prefix is V4
            &&& addr.value() == prefix.first() + n
            &&& prefix.has(addr)
        }),
{
    lemma_network_bounds(prefix, n);
}

/// A pool without addresses says so.
pub proof fn law_exhaustion_is_named()
    ensures
        exhausted() == ErrorView::Custom("AddressPool: no addresses available"@),
{
}

} // verus!
