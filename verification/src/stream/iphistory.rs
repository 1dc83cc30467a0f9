//! What holds of an endpoint for IP tunnels over any run of requests.

use vstd::prelude::*;

use crate::error::ErrorView;
use crate::net::IpAddr;
use crate::stream::addresspool::PoolView;
use crate::stream::ipendpoint::EndpointView;
use crate::stream::iprequest::{ActionView, HeaderCheck, RequestView, Stage};

verus! {

/// One request to an endpoint: what the checks of its headers say, the stream it
/// came on, and how the steps that the caller performs for it go.
pub struct Call {
    pub checks: Seq<HeaderCheck>,
    pub stream_id: u64,
    pub reports: Seq<Result<(), ErrorView>>,
}

/// Where the steps of a request lead: the endpoint and the request after them,
/// and the answer if they lead to one.
pub struct Served {
    pub endpoint: EndpointView,
    pub request: RequestView,
    pub answer: Option<Seq<u8>>,
}

/// A tunnel that was established: the name of its interface and the addresses
/// that its client was assigned.
pub struct Established {
    pub ifname: Seq<char>,
    pub addresses: Seq<IpAddr>,
}

/// The steps of a request, one for each report, up to the answer or the first
/// error.
pub open spec fn served(
    endpoint: EndpointView,
    request: RequestView,
    reports: Seq<Result<(), ErrorView>>,
) -> Served
    decreases reports.len(),
{
    if reports.len() == 0 {
        Served { endpoint, request, answer: None }
    } else {
        let step = endpoint.stepped(request, reports[0]);
        match step.next {
            Ok(ActionView::Respond(body)) => Served {
                endpoint: step.endpoint,
                request: step.request,
                answer: Some(body),
            },
            Ok(_) => served(step.endpoint, step.request, reports.drop_first()),
            Err(_) => Served { endpoint: step.endpoint, request: step.request, answer: None },
        }
    }
}

/// The endpoint after a request, and the tunnel if the request was answered.
pub open spec fn called(endpoint: EndpointView, call: Call) -> (
    EndpointView,
    Option<Established>,
) {
    if crate::stream::iprequest::authorized(call.checks, endpoint.permission is None) == Ok::<
        _,
        ErrorView,
    >(true) {
        let (begun, request) = endpoint.begun(call.stream_id);
        let end = served(begun, request, call.reports);
        (
            end.endpoint,
            match end.answer {
                Some(_) => Some(
                    Established {
                        ifname: end.request.tunnel.ifname,
                        addresses: end.request.addresses,
                    },
                ),
                None => None,
            },
        )
    } else {
        (endpoint, None)
    }
}

/// The endpoint after a run of requests, and the tunnels that were established,
/// in their order.
pub open spec fn after_calls(endpoint: EndpointView, calls: Seq<Call>) -> (
    EndpointView,
    Seq<Established>,
)
    decreases calls.len(),
{
    if calls.len() == 0 {
        (endpoint, seq![])
    } else {
        let (before, tunnels) = after_calls(endpoint, calls.drop_last());
        let (after, tunnel) = called(before, calls.last());
        match tunnel {
            Some(t) => (after, tunnels.push(t)),
            None => (after, tunnels),
        }
    }
}

/// What requests keep of the pools: their number and networks, and the addresses
/// in use. At most so many addresses leave each pool from an index on, and none
/// leaves one before that.
pub open spec fn pools_kept(
    before: Seq<PoolView>,
    after: Seq<PoolView>,
    from: int,
    count: nat,
) -> bool {
    &&& after.len() == before.len()
    &&& forall|i: int|
        0 <= i < before.len() ==> {
            &&& (#[trigger] after[i]).wf()
            &&& after[i].prefix == before[i].prefix
            &&& after[i].used.len() <= before[i].used.len() + (if i >= from {
                count
            } else {
                0
            })
            &&& forall|addr: IpAddr| before[i].in_use(addr) ==> #[trigger] after[i].in_use(addr)
        }
}

/// The steps of a request keep the endpoint's pools, and give the client only
/// addresses that were not in use.
proof fn lemma_served(
    endpoint: EndpointView,
    request: RequestView,
    reports: Seq<Result<(), ErrorView>>,
)
    requires
        endpoint.wf(),
        endpoint.serves(request),
        crate::stream::iprequest::assigned_from_pools(endpoint.pools, request.addresses),
        forall|i: int|
            request.addresses.len() <= i < endpoint.pools.len() ==> (
            #[trigger] endpoint.pools[i]).used.len() < usize::MAX,
    ensures
        ({
            let end = served(endpoint, request, reports);
            let addresses = end.request.addresses;
            &&& end.endpoint.wf()
            &&& end.endpoint.ifprefix == endpoint.ifprefix
            &&& end.endpoint.permission == endpoint.permission
            &&& end.endpoint.route_adv == endpoint.route_adv
            &&& pools_kept(
                endpoint.pools,
                end.endpoint.pools,
                request.addresses.len() as int,
                1,
            )
            &&& request.addresses.len() <= addresses.len()
            &&& forall|i: int|
                0 <= i < request.addresses.len() ==> addresses[i] == request.addresses[i]
            &&& crate::stream::iprequest::assigned_from_pools(end.endpoint.pools, addresses)
            &&& forall|i: int|
                request.addresses.len() <= i < addresses.len() ==> !endpoint.pools[i].in_use(
                    #[trigger] addresses[i],
                )
            &&& match end.answer {
                Some(body) => {
                    &&& end.endpoint.tuncount == endpoint.tuncount + 1
                    &&& end.request.tunnel.ifname == endpoint.next_interface()
                    &&& addresses.len() == endpoint.pools.len()
                    &&& crate::stream::iprequest::answer_body(addresses, endpoint.route_adv)
                        == Some(body)
                },
                None => end.endpoint.tuncount == endpoint.tuncount,
            }
        }),
    decreases reports.len(),
{
    if reports.len() > 0 {
        let step = endpoint.stepped(request, reports[0]);
        crate::stream::iprequest::law_one_address_from_each_pool(endpoint, request, reports[0]);
        let old_len = request.addresses.len() as int;
        if let Stage::LocalAddress(index) = request.stage {
            assert(index == old_len);
            crate::stream::addresspool::law_taken_address_is_fresh(endpoint.pools[old_len]);
        }
        assert(pools_kept(endpoint.pools, step.endpoint.pools, old_len, 1));
        assert(step.endpoint.wf());
        assert(forall|i: int|
            step.request.addresses.len() <= i < endpoint.pools.len() ==> step.endpoint.pools[i]
                == #[trigger] endpoint.pools[i]);
        match step.next {
            Ok(ActionView::Respond(_)) => {},
            Ok(_) => {
                assert(step.endpoint.next_interface() == endpoint.next_interface());
                lemma_served(step.endpoint, step.request, reports.drop_first());
            },
            Err(_) => {},
        }
    }
}

/// What one request does to an endpoint, answered or not.
proof fn lemma_called(endpoint: EndpointView, call: Call)
    requires
        endpoint.wf(),
        forall|i: int|
            0 <= i < endpoint.pools.len() ==> (#[trigger] endpoint.pools[i]).used.len()
                < usize::MAX,
    ensures
        ({
            let (after, tunnel) = called(endpoint, call);
            &&& after.wf()
            &&& after.ifprefix == endpoint.ifprefix
            &&& pools_kept(endpoint.pools, after.pools, 0, 1)
            &&& match tunnel {
                Some(t) => {
                    &&& after.tuncount == endpoint.tuncount + 1
                    &&& t.ifname == endpoint.next_interface()
                    &&& t.addresses.len() == endpoint.pools.len()
                    &&& crate::stream::iprequest::assigned_from_pools(after.pools, t.addresses)
                    &&& forall|i: int|
                        0 <= i < t.addresses.len() ==> !endpoint.pools[i].in_use(
                            #[trigger] t.addresses[i],
                        )
                },
                None => after.tuncount == endpoint.tuncount,
            }
        }),
{
    let (begun, request) = endpoint.begun(call.stream_id);
    assert(begun.next_interface() == endpoint.next_interface());
    lemma_served(begun, request, call.reports);
}

/// The tunnels of a run of requests to an endpoint: each has the next interface
/// in line and one address from each pool, which was free at first and is in use
/// now; no two of them have the same address from a pool.
proof fn lemma_after_calls(endpoint: EndpointView, calls: Seq<Call>)
    requires
        endpoint.wf(),
        forall|i: int|
            0 <= i < endpoint.pools.len() ==> (#[trigger] endpoint.pools[i]).used.len()
                + calls.len() <= usize::MAX,
    ensures
        ({
            let (after, tunnels) = after_calls(endpoint, calls);
            &&& after.wf()
            &&& after.ifprefix == endpoint.ifprefix
            &&& after.tuncount == endpoint.tuncount + tunnels.len()
            &&& tunnels.len() <= calls.len()
            &&& pools_kept(endpoint.pools, after.pools, 0, calls.len())
            &&& forall|k: int|
                0 <= k < tunnels.len() ==> {
                    &&& (#[trigger] tunnels[k]).ifname == interface_name(
                        endpoint.ifprefix,
                        (endpoint.tuncount + k) as nat,
                    )
                    &&& tunnels[k].addresses.len() == endpoint.pools.len()
                    &&& crate::stream::iprequest::assigned_from_pools(
                        after.pools,
                        tunnels[k].addresses,
                    )
                }
            &&& forall|k: int, i: int|
                0 <= k < tunnels.len() && 0 <= i < endpoint.pools.len()
                    ==> !endpoint.pools[i].in_use(#[trigger] tunnels[k].addresses[i])
            &&& forall|j: int, k: int, i: int|
                0 <= j < k < tunnels.len() && 0 <= i < endpoint.pools.len() ==> (
                #[trigger] tunnels[j].addresses[i]) != (#[trigger] tunnels[k].addresses[i])
        }),
    decreases calls.len(),
{
    if calls.len() > 0 {
        let (before, had) = after_calls(endpoint, calls.drop_last());
        lemma_after_calls(endpoint, calls.drop_last());
        assert forall|i: int| 0 <= i < before.pools.len() implies (
        #[trigger] before.pools[i]).used.len() < usize::MAX by {
            assert(before.pools[i].used.len() <= endpoint.pools[i].used.len() + (calls.len() - 1));
        }
        lemma_called(before, calls.last());
        let (after, tunnels) = after_calls(endpoint, calls);
        assert forall|i: int| 0 <= i < endpoint.pools.len() implies {
            &&& (#[trigger] after.pools[i]).wf()
            &&& after.pools[i].prefix == endpoint.pools[i].prefix
            &&& after.pools[i].used.len() <= endpoint.pools[i].used.len() + calls.len()
            &&& forall|addr: IpAddr|
                endpoint.pools[i].in_use(addr) ==> #[trigger] after.pools[i].in_use(addr)
        } by {
            assert(before.pools[i].prefix == endpoint.pools[i].prefix);
            assert forall|addr: IpAddr|
                endpoint.pools[i].in_use(addr) implies #[trigger] after.pools[i].in_use(addr) by {
                assert(before.pools[i].in_use(addr));
            }
        }
        assert forall|k: int| 0 <= k < had.len() implies
            crate::stream::iprequest::assigned_from_pools(
            after.pools,
            (#[trigger] had[k]).addresses,
        ) by {
            assert forall|i: int| 0 <= i < had[k].addresses.len() implies after.pools[i].prefix.has(
                #[trigger] had[k].addresses[i],
            ) && after.pools[i].in_use(had[k].addresses[i]) by {
                assert(before.pools[i].in_use(had[k].addresses[i]));
                assert(after.pools[i].prefix == before.pools[i].prefix);
            }
        }
        if let Some(t) = called(before, calls.last()).1 {
            let last = had.len() as int;
            assert(tunnels == had.push(t));
            assert forall|k: int, i: int|
                0 <= k < tunnels.len() && 0 <= i < endpoint.pools.len() implies
                !endpoint.pools[i].in_use(#[trigger] tunnels[k].addresses[i]) by {
                if k == last {
                    if endpoint.pools[i].in_use(t.addresses[i]) {
                        assert(before.pools[i].in_use(t.addresses[i]));
                    }
                } else {
                    assert(tunnels[k] == had[k]);
                }
            }
            assert forall|j: int, k: int, i: int|
                0 <= j < k < tunnels.len() && 0 <= i < endpoint.pools.len() implies (
            #[trigger] tunnels[j].addresses[i]) != (#[trigger] tunnels[k].addresses[i]) by {
                assert(tunnels[j] == had[j]);
                if k == last {
                    assert(before.pools[i].in_use(had[j].addresses[i]));
                    assert(!before.pools[i].in_use(t.addresses[i]));
                } else {
                    assert(tunnels[k] == had[k]);
                }
            }
        }
    }
}

/// The name of the `n`-th interface of an endpoint.
pub open spec fn interface_name(ifprefix: Seq<char>, n: nat) -> Seq<char> {
    ifprefix + "-i"@ + crate::text::decimal(n)
}

/// The interfaces with different numbers have different names.
proof fn lemma_interface_names_differ(ifprefix: Seq<char>, m: nat, n: nat)
    requires
        m != n,
    ensures
        interface_name(ifprefix, m) != interface_name(ifprefix, n),
{
    let a = crate::text::decimal(m);
    let b = crate::text::decimal(n);
    let head = ifprefix + "-i"@;
    if head + a == head + b {
        assert((head + a).skip(head.len() as int) =~= a);
        assert((head + b).skip(head.len() as int) =~= b);
        crate::text::lemma_decimal_injective(m, n);
    }
}

/// Over any run of requests to an endpoint, whether they are answered or fail:
/// the endpoint counts the answered ones; the tunnel of the `k`-th of these has
/// the interface whose number is `k` more than the count at first, so no two have
/// the same interface; and each has one address from each pool, in the order of
/// the pools, which was not in use before and which no other tunnel has from that
/// pool.
pub proof fn law_tunnels_of_a_run(endpoint: EndpointView, calls: Seq<Call>)
    requires
        endpoint.wf(),
        forall|i: int|
            0 <= i < endpoint.pools.len() ==> (#[trigger] endpoint.pools[i]).used.len()
                + calls.len() <= usize::MAX,
    ensures
        ({
            let (after, tunnels) = after_calls(endpoint, calls);
            &&& after.tuncount == endpoint.tuncount + tunnels.len()
            &&& forall|k: int|
                0 <= k < tunnels.len() ==> (#[trigger] tunnels[k]).ifname == endpoint.ifprefix
                    + "-i"@ + crate::text::decimal((endpoint.tuncount + k) as nat)
                    && tunnels[k].addresses.len() == endpoint.pools.len()
            &&& forall|j: int, k: int|
                0 <= j < k < tunnels.len() ==> (#[trigger] tunnels[j]).ifname != (
                #[trigger] tunnels[k]).ifname
            &&& forall|k: int, i: int|
                0 <= k < tunnels.len() && 0 <= i < endpoint.pools.len() ==> {
                    &&& endpoint.pools[i].prefix.has(#[trigger] tunnels[k].addresses[i])
                    &&& !endpoint.pools[i].in_use(tunnels[k].addresses[i])
                }
            &&& forall|j: int, k: int, i: int|
                0 <= j < k < tunnels.len() && 0 <= i < endpoint.pools.len() ==> (
                #[trigger] tunnels[j].addresses[i]) != (#[trigger] tunnels[k].addresses[i])
        }),
{
    lemma_after_calls(endpoint, calls);
    let (after, tunnels) = after_calls(endpoint, calls);
    assert forall|j: int, k: int| 0 <= j < k < tunnels.len() implies (
    #[trigger] tunnels[j]).ifname != (#[trigger] tunnels[k]).ifname by {
        lemma_interface_names_differ(
            endpoint.ifprefix,
            (endpoint.tuncount + j) as nat,
            (endpoint.tuncount + k) as nat,
        );
    }
    assert forall|k: int, i: int|
        0 <= k < tunnels.len() && 0 <= i < endpoint.pools.len() implies
        endpoint.pools[i].prefix.has(#[trigger] tunnels[k].addresses[i]) by {
        assert(crate::stream::iprequest::assigned_from_pools(after.pools, tunnels[k].addresses));
        assert(after.pools[i].prefix == endpoint.pools[i].prefix);
    }
}

/// Where no address belongs to two pools, no address goes to two clients in a run
/// of requests.
pub proof fn law_no_address_goes_to_two_clients(endpoint: EndpointView, calls: Seq<Call>)
    requires
        endpoint.wf(),
        forall|i: int|
            0 <= i < endpoint.pools.len() ==> (#[trigger] endpoint.pools[i]).used.len()
                + calls.len() <= usize::MAX,
        forall|h: int, i: int, addr: IpAddr|
            0 <= h < i < endpoint.pools.len() && (
            #[trigger] endpoint.pools[h].prefix.has(addr)) ==> !(
            #[trigger] endpoint.pools[i].prefix.has(addr)),
    ensures
        ({
            let tunnels = after_calls(endpoint, calls).1;
            forall|j: int, k: int, h: int, i: int|
                0 <= j < k < tunnels.len() && 0 <= h < endpoint.pools.len() && 0 <= i
                    < endpoint.pools.len() ==> (#[trigger] tunnels[j].addresses[h]) != (
                #[trigger] tunnels[k].addresses[i])
        }),
{
    law_tunnels_of_a_run(endpoint, calls);
    let tunnels = after_calls(endpoint, calls).1;
    assert forall|j: int, k: int, h: int, i: int|
        0 <= j < k < tunnels.len() && 0 <= h < endpoint.pools.len() && 0 <= i
            < endpoint.pools.len() implies (#[trigger] tunnels[j].addresses[h]) != (
    #[trigger] tunnels[k].addresses[i]) by {
        let a = tunnels[j].addresses[h];
        let b = tunnels[k].addresses[i];
        assert(endpoint.pools[h].prefix.has(a));
        assert(endpoint.pools[i].prefix.has(b));
    }
}

/// A run of requests goes on from where the one before ended: its tunnels come
/// behind the ones that were there, and a request that is not authorized changes
/// nothing.
pub proof fn law_runs_go_on(endpoint: EndpointView, calls: Seq<Call>, call: Call)
    ensures
        after_calls(endpoint, Seq::<Call>::empty()).0 == endpoint,
        after_calls(endpoint, Seq::<Call>::empty()).1.len() == 0,
        ({
            let (before, had) = after_calls(endpoint, calls);
            let (after, tunnels) = after_calls(endpoint, calls.push(call));
            &&& had.is_prefix_of(tunnels)
            &&& tunnels.len() <= had.len() + 1
            &&& crate::stream::iprequest::authorized(call.checks, before.permission is None)
                != Ok::<_, ErrorView>(true) ==> after == before && tunnels == had
        }),
{
    assert(calls.push(call).drop_last() =~= calls);
    let had = after_calls(endpoint, calls).1;
    let tunnels = after_calls(endpoint, calls.push(call)).1;
    assert(tunnels.subrange(0, had.len() as int) =~= had);
}

} // verus!
