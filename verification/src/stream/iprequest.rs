//! How the endpoint for IP tunnels serves a request.
//!
//! The steps that touch the operating system are made by the caller: it creates
//! the TUN interface, then performs one [`RequestAction`] after the other, and
//! hands back how each step went.

use vstd::prelude::*;
use vstd::string::StringExecFns;

use crate::error::{ErrorView, PsqError};
use crate::net::IpAddr;
use crate::stream::addresspool::PoolView;
use crate::stream::ipendpoint::{EndpointView, IpEndpoint};
use crate::stream::iptunnel::{IpTunnel, TunnelView};
use crate::text::{decimal_text, join};

verus! {

/// What the checks of one header of a request say.
#[derive(Debug, PartialEq, Eq)]
pub struct HeaderCheck {
    /// Whether the header is acceptable in a request for the tunnel.
    pub common: Result<(), PsqError>,
    /// Whether the header has a token with the required permission. It is not
    /// looked at where access has been granted already.
    pub token: Result<bool, PsqError>,
}

/// Whether headers grant access, given whether it has been granted already;
/// or the error that comes first.
pub open spec fn authorized(checks: Seq<HeaderCheck>, granted: bool) -> Result<bool, ErrorView>
    decreases checks.len(),
{
    if checks.len() == 0 {
        Ok(granted)
    } else {
        match (checks[0].common, checks[0].token) {
            (Err(e), _) => Err(e@),
            (Ok(()), Err(e)) => if granted {
                authorized(checks.drop_first(), true)
            } else {
                Err(e@)
            },
            (Ok(()), Ok(good)) => authorized(checks.drop_first(), granted || good),
        }
    }
}

/// Decides whether the headers of a request grant access to an endpoint.
pub fn check_request(open: bool, checks: &Vec<HeaderCheck>) -> (r: Result<(), PsqError>)
    ensures
        match (r, authorized(checks@, open)) {
            (Ok(()), Ok(granted)) => granted,
            (Err(e), Ok(granted)) => !granted && e@ == ErrorView::HttpResponse(
                401,
                "Authorization required"@,
            ),
            (Err(e), Err(error)) => e@ == error,
            _ => false,
        },
{
    let mut granted: bool = open;
    let mut i: usize = 0;
    assert(checks@.skip(0) =~= checks@);
    while i < checks.len()
        invariant
            i <= checks@.len(),
            authorized(checks@, open) == authorized(checks@.skip(i as int), granted),
        decreases checks@.len() - i,
    {
        proof {
            assert(checks@.skip(i as int)[0] == checks@[i as int]);
            assert(checks@.skip(i as int).drop_first() =~= checks@.skip(i + 1));
        }
        if let Err(e) = &checks[i].common {
            return Err(e.duplicate());
        }
        if !granted {
            match &checks[i].token {
                Ok(good) => {
                    granted = *good;
                },
                Err(e) => {
                    return Err(e.duplicate());
                },
            }
        }
        i = i + 1;
    }
    if !granted {
        return Err(PsqError::HttpResponse(401, "Authorization required".to_owned()));
    }
    Ok(())
}

/// How many bytes the answer to a request has room for.
pub const BODY_SIZE: usize = 256;

/// The step of a request that the caller is performing.
#[derive(Clone, Copy, Debug, PartialEq, Eq, Structural)]
pub enum Stage {
    /// The TUN interface is created, and a task starts to read from it.
    CreateTun,
    /// The interface gets the server's own address in a pool.
    LocalAddress(usize),
    /// The interface gets the route to the client's address from a pool.
    RemoteRoute(usize),
    /// The request has been answered.
    Finished,
}

/// A request that is being served.
pub struct IpRequest {
    /// The tunnel for the client.
    pub tunnel: IpTunnel,
    /// The addresses that the client has been assigned so far.
    pub addresses: Vec<IpAddr>,
    /// The step that the caller is performing.
    pub stage: Stage,
}

/// The model of [`IpRequest`].
#[verifier::ext_equal]
pub struct RequestView {
    pub tunnel: TunnelView,
    pub addresses: Seq<IpAddr>,
    pub stage: Stage,
}

impl View for IpRequest {
    type V = RequestView;

    open spec fn view(&self) -> RequestView {
        RequestView { tunnel: self.tunnel@, addresses: self.addresses@, stage: self.stage }
    }
}

/// What the caller has to do next.
#[derive(Clone, Debug, PartialEq, Eq)]
pub enum RequestAction {
    /// Give the interface an address.
    AddAddress(String),
    /// Give the interface a route.
    AddRoute(String),
    /// Answer the request with this body.
    Respond(Vec<u8>),
}

/// The model of [`RequestAction`].
pub enum ActionView {
    AddAddress(Seq<char>),
    AddRoute(Seq<char>),
    Respond(Seq<u8>),
}

impl View for RequestAction {
    type V = ActionView;

    open spec fn view(&self) -> ActionView {
        match *self {
            RequestAction::AddAddress(s) => ActionView::AddAddress(s@),
            RequestAction::AddRoute(s) => ActionView::AddRoute(s@),
            RequestAction::Respond(body) => ActionView::Respond(body@),
        }
    }
}

/// What becomes of the endpoint and the request in a step, and what comes next.
#[verifier::ext_equal]
pub struct Step {
    pub endpoint: EndpointView,
    pub request: RequestView,
    pub next: Result<ActionView, ErrorView>,
}

/// The body of an answer with these addresses and routes.
pub open spec fn answer_body(addresses: Seq<IpAddr>, routes: Seq<u8>) -> Option<Seq<u8>> {
    crate::stream::roundtrip::response_body(
        Seq::new(BODY_SIZE as nat, |i: int| 0u8),
        addresses,
        routes,
    )
}

impl EndpointView {
    /// The request as it starts: the first client gets the test stream.
    pub open spec fn begun(self, stream_id: u64) -> (EndpointView, RequestView) {
        (
            EndpointView { teststream: false, ..self },
            RequestView {
                tunnel: TunnelView {
                    stream_id,
                    tunwriter: false,
                    ifname: self.next_interface(),
                    tuntask: false,
                    addresses: seq![],
                    teststream: self.teststream,
                },
                addresses: seq![],
                stage: Stage::CreateTun,
            },
        )
    }

    /// Goes on to a pool: its own address is added to the interface. Behind the
    /// last pool the request is answered.
    pub open spec fn to_pool(self, request: RequestView, index: int) -> Step {
        if index < self.pools.len() {
            Step {
                endpoint: self,
                request: RequestView { stage: Stage::LocalAddress(index as usize), ..request },
                next: Ok(ActionView::AddAddress(self.pools[index].prefix.ip().text())),
            }
        } else {
            match answer_body(request.addresses, self.route_adv) {
                Some(body) => Step {
                    endpoint: EndpointView { tuncount: self.tuncount + 1, ..self },
                    request: RequestView { stage: Stage::Finished, ..request },
                    next: Ok(ActionView::Respond(body)),
                },
                None => Step { endpoint: self, request, next: Err(ErrorView::Octets) },
            }
        }
    }

    /// Takes an address for the client out of a pool, to which the interface
    /// then gets a route.
    pub open spec fn from_pool(self, request: RequestView, index: int) -> Step {
        match self.pools[index].taken() {
            Some((addr, rest)) => Step {
                endpoint: EndpointView { pools: self.pools.update(index, rest), ..self },
                request: RequestView {
                    addresses: request.addresses.push(addr),
                    stage: Stage::RemoteRoute(index as usize),
                    ..request
                },
                next: Ok(ActionView::AddRoute(addr.text())),
            },
            None => Step {
                endpoint: self,
                request,
                next: Err(crate::stream::addresspool::exhausted()),
            },
        }
    }

    /// The step that follows on the caller's report of how its action went.
    pub open spec fn stepped(self, request: RequestView, done: Result<(), ErrorView>) -> Step {
        match (request.stage, done) {
            (Stage::CreateTun, Err(_)) => Step {
                endpoint: self,
                request,
                next: Err(ErrorView::HttpResponse(503, "Could not create TUN interface"@)),
            },
            (Stage::CreateTun, Ok(())) => self.to_pool(
                RequestView {
                    tunnel: TunnelView { tunwriter: true, tuntask: true, ..request.tunnel },
                    ..request
                },
                0,
            ),
            (Stage::LocalAddress(_), Err(e)) => Step { endpoint: self, request, next: Err(e) },
            (Stage::LocalAddress(index), Ok(())) => self.from_pool(request, index as int),
            (Stage::RemoteRoute(_), Err(e)) => Step { endpoint: self, request, next: Err(e) },
            (Stage::RemoteRoute(index), Ok(())) => self.to_pool(request, index + 1),
            (Stage::Finished, _) => Step {
                endpoint: self,
                request,
                next: Err(ErrorView::Unimplemented),
            },
        }
    }

    /// Whether a request is answered next, if all went well so far.
    pub open spec fn answers(self, request: RequestView, well: bool) -> bool {
        well && match request.stage {
            Stage::CreateTun => self.pools.len() == 0,
            Stage::RemoteRoute(index) => index + 1 == self.pools.len(),
            _ => false,
        }
    }

    /// Whether a request is at a step of this endpoint: it has the interface that
    /// is next in line, and an address from each pool that it has passed.
    pub open spec fn serves(self, request: RequestView) -> bool {
        &&& request.tunnel.ifname == self.next_interface()
        &&& match request.stage {
            Stage::CreateTun => request.addresses.len() == 0,
            Stage::LocalAddress(index) => index < self.pools.len() && request.addresses.len()
                == index,
            Stage::RemoteRoute(index) => index < self.pools.len() && request.addresses.len()
                == index + 1,
            Stage::Finished => false,
        }
    }
}

/// The model of what a caller reports.
pub open spec fn report_view(done: Result<(), PsqError>) -> Result<(), ErrorView> {
    match done {
        Ok(()) => Ok(()),
        Err(e) => Err(e@),
    }
}

/// That a step went as its model says.
pub open spec fn step_is(
    model: Step,
    endpoint: EndpointView,
    request: RequestView,
    next: Result<RequestAction, PsqError>,
) -> bool {
    &&& endpoint == model.endpoint
    &&& request == model.request
    &&& match (next, model.next) {
        (Ok(action), Ok(expected)) => action@ == expected,
        (Err(e), Err(error)) => e@ == error,
        _ => false,
    }
}

impl IpEndpoint {
    /// Starts to serve a request, given what the checks of its headers say. The
    /// caller then creates the TUN interface of the tunnel.
    pub fn process_request(&mut self, checks: &Vec<HeaderCheck>, stream_id: u64) -> (r: Result<
        IpRequest,
        PsqError,
    >)
        requires
            old(self).wf(),
        ensures
            final(self).wf(),
            match (r, authorized(checks@, old(self)@.permission is None)) {
                (Ok(request), Ok(granted)) => granted && (final(self)@, request@) == old(
                    self,
                )@.begun(stream_id) && final(self)@.serves(request@),
                (Err(e), Ok(granted)) => !granted && e@ == ErrorView::HttpResponse(
                    401,
                    "Authorization required"@,
                ) && final(self)@ == old(self)@,
                (Err(e), Err(error)) => e@ == error && final(self)@ == old(self)@,
                _ => false,
            },
    {
        check_request(self.permission.is_none(), checks)?;
        let mut tunif = join(self.ifprefix.as_str(), "-i");
        tunif.append(decimal_text(self.tuncount as u128).as_str());
        let tunnel = IpTunnel::new(stream_id, tunif.as_str(), self.teststream)?;
        self.teststream = false;
        assert(self@.pools == old(self)@.pools);
        Ok(IpRequest { tunnel, addresses: Vec::new(), stage: Stage::CreateTun })
    }

    /// Goes on to a pool, or answers the request behind the last one.
    fn enter_pool(&mut self, request: &mut IpRequest, index: usize) -> (r: Result<
        RequestAction,
        PsqError,
    >)
        requires
            old(self).wf(),
            index <= old(self)@.pools.len(),
            index == old(self)@.pools.len() ==> old(self).tuncount < u32::MAX,
        ensures
            final(self).wf(),
            step_is(
                old(self)@.to_pool(old(request)@, index as int),
                final(self)@,
                final(request)@,
                r,
            ),
    {
        if index < self.addrpools.len() {
            assert(self@.pools[index as int] == self.addrpools@[index as int]@);
            request.stage = Stage::LocalAddress(index);
            return Ok(RequestAction::AddAddress(self.addrpools[index].prefix.ip().to_text()));
        }
        let mut body: Vec<u8> = vec![0u8; BODY_SIZE];
        assert(body@ =~= Seq::new(BODY_SIZE as nat, |i: int| 0u8));
        proof {
            crate::stream::roundtrip::lemma_address_capsule_written(body@, request.addresses@);
        }
        let len_aacap = IpTunnel::address_assign_capsule(&mut body, &request.addresses)?;
        proof {
            if self.route_adv@.len() > 3 {
                crate::stream::roundtrip::lemma_route_capsule_written(
                    body@,
                    len_aacap as int,
                    self.route_adv@,
                );
            }
        }
        let len_racap = IpTunnel::route_advertisement_capsule(
            &mut body,
            len_aacap,
            &self.route_adv,
        )?;
        body.truncate(len_aacap + len_racap);
        self.tuncount = self.tuncount + 1;
        request.stage = Stage::Finished;
        Ok(RequestAction::Respond(body))
    }

    /// Decides what comes next in serving a request, given how the caller's last
    /// action went.
    pub fn next_action(&mut self, request: &mut IpRequest, done: Result<(), PsqError>) -> (r: Result<
        RequestAction,
        PsqError,
    >)
        requires
            old(self).wf(),
            old(self)@.serves(old(request)@),
            old(self)@.answers(old(request)@, done is Ok) ==> old(self).tuncount < u32::MAX,
        ensures
            final(self).wf(),
            step_is(
                old(self)@.stepped(old(request)@, report_view(done)),
                final(self)@,
                final(request)@,
                r,
            ),
    {
        match request.stage {
            Stage::CreateTun => {
                if done.is_err() {
                    return Err(
                        PsqError::HttpResponse(503, "Could not create TUN interface".to_owned()),
                    );
                }
                request.tunnel.device_started();
                self.enter_pool(request, 0)
            },
            Stage::LocalAddress(index) => {
                done?;
                assert(self@.pools[index as int] == self.addrpools@[index as int]@);
                assert(self.addrpools@[index as int].wf());
                let taken = self.addrpools[index].get();
                assert(self@.pools =~= old(self)@.pools.update(
                    index as int,
                    self.addrpools@[index as int]@,
                ));
                let addr = match taken {
                    Ok(addr) => addr,
                    Err(e) => {
                        assert(self@.pools =~= old(self)@.pools);
                        return Err(e);
                    },
                };
                request.addresses.push(addr);
                request.stage = Stage::RemoteRoute(index);
                Ok(RequestAction::AddRoute(addr.to_text()))
            },
            Stage::RemoteRoute(index) => {
                done?;
                assert(self@.pools.len() == self.addrpools.len());
                self.enter_pool(request, index + 1)
            },
            Stage::Finished => vstd::pervasive::unreached(),
        }
    }
}

/// Whether a client has been assigned one address from each of the first pools:
/// an address of the pool's network that is in use.
pub open spec fn assigned_from_pools(pools: Seq<PoolView>, addresses: Seq<IpAddr>) -> bool {
    &&& addresses.len() <= pools.len()
    &&& forall|i: int|
        0 <= i < addresses.len() ==> pools[i].prefix.has(#[trigger] addresses[i])
            && pools[i].in_use(addresses[i])
}

/// A request starts without addresses.
pub proof fn law_request_starts_without_addresses(endpoint: EndpointView, stream_id: u64)
    ensures
        ({
            let (fresh, begun) = endpoint.begun(stream_id);
            fresh.serves(begun) && assigned_from_pools(fresh.pools, begun.addresses)
        }),
{
}

/// Each client is assigned one address from each pool. Every step of a request
/// keeps the addresses that the client has, and each of them belongs to its pool
/// and is in use; when the request is answered, there is one for each pool, and
/// the answer holds exactly these and the endpoint's routes.
pub proof fn law_one_address_from_each_pool(
    endpoint: EndpointView,
    request: RequestView,
    done: Result<(), ErrorView>,
)
    requires
        endpoint.wf(),
        endpoint.serves(request),
        assigned_from_pools(endpoint.pools, request.addresses),
    ensures
        ({
            let step = endpoint.stepped(request, done);
            &&& assigned_from_pools(step.endpoint.pools, step.request.addresses)
            &&& request.addresses.is_prefix_of(step.request.addresses)
            &&& step.endpoint.pools.len() == endpoint.pools.len()
            &&& match step.next {
                Ok(ActionView::Respond(body)) => {
                    &&& step.request.addresses.len() == endpoint.pools.len()
                    &&& answer_body(step.request.addresses, endpoint.route_adv) == Some(body)
                },
                Ok(_) => step.endpoint.serves(step.request),
                Err(_) => true,
            }
        }),
{
    let step = endpoint.stepped(request, done);
    let addresses = step.request.addresses;
    assert(addresses.subrange(0, request.addresses.len() as int) =~= request.addresses);
    if let Stage::LocalAddress(index) = request.stage {
        crate::stream::addresspool::law_taken_address_is_fresh(endpoint.pools[index as int]);
    }
    assert forall|i: int| 0 <= i < addresses.len() implies step.endpoint.pools[i].prefix.has(
        #[trigger] addresses[i],
    ) && step.endpoint.pools[i].in_use(addresses[i]) by {
        if i < request.addresses.len() {
            assert(addresses[i] == request.addresses[i]);
        }
    }
}

/// An address that a step assigns was not in use in its pool before.
pub proof fn law_assigned_address_is_fresh(endpoint: EndpointView, request: RequestView)
    requires
        endpoint.wf(),
        endpoint.serves(request),
        request.stage is LocalAddress,
    ensures
        ({
            let step = endpoint.stepped(request, Ok(()));
            let index = request.addresses.len() as int;
            step.request.addresses.len() > index ==> !endpoint.pools[index].in_use(
                step.request.addresses[index],
            )
        }),
{
    crate::stream::addresspool::law_taken_address_is_fresh(
        endpoint.pools[request.addresses.len() as int],
    );
}

/// There is an answer exactly if the two capsules fit into its buffer. The second
/// is left out where there are no routes.
pub proof fn law_answer_fits(addresses: Seq<IpAddr>, routes: Seq<u8>)
    ensures
        answer_body(addresses, routes) is Some <==> 3
            + crate::stream::roundtrip::addresses_bytes(addresses).len() + (if routes.len() <= 3 {
            0nat
        } else {
            3 + routes.len()
        }) <= 256,
{
    let buf = Seq::new(BODY_SIZE as nat, |i: int| 0u8);
    let (one, end) = crate::stream::capsule::address_capsule_written(buf, addresses);
    crate::stream::roundtrip::lemma_address_capsule_written(buf, addresses);
    if let Some(first) = end {
        if routes.len() > 3 {
            crate::stream::roundtrip::lemma_route_capsule_written(one, first, routes);
        }
    }
}

/// The answer to a request is read by the client as exactly the addresses that
/// it was assigned, followed by routes to exactly the networks that the endpoint
/// advertises.
pub proof fn law_client_reads_answer(
    addresses: Seq<IpAddr>,
    prefixes: Seq<crate::net::IpNetwork>,
)
    requires
        forall|i: int| 0 <= i < prefixes.len() ==> (#[trigger] prefixes[i]).wf(),
    ensures
        answer_body(addresses, crate::stream::capsule::routes_bytes(prefixes)) matches Some(body)
            ==> crate::stream::capsule::read_capsules(body, 0) == (crate::stream::capsule::Reading {
            settings: crate::stream::roundtrip::address_settings(addresses)
                + crate::stream::roundtrip::route_settings(prefixes),
            outcome: Ok(body.len() as int),
        }),
{
    crate::stream::roundtrip::law_response_is_read_back(
        Seq::new(BODY_SIZE as nat, |i: int| 0u8),
        addresses,
        prefixes,
    );
}

/// A client that reads the answer to its request, and makes all settings in it,
/// ends up with exactly the addresses that it was assigned.
pub proof fn law_client_gets_assigned_addresses(
    tunnel: TunnelView,
    addresses: Seq<IpAddr>,
    prefixes: Seq<crate::net::IpNetwork>,
)
    requires
        forall|i: int| 0 <= i < prefixes.len() ==> (#[trigger] prefixes[i]).wf(),
    ensures
        answer_body(addresses, crate::stream::capsule::routes_bytes(prefixes)) matches Some(body)
            ==> tunnel.with_settings(
            crate::stream::capsule::read_capsules(body, 0).settings,
        ).addresses == tunnel.addresses + addresses,
{
    law_client_reads_answer(addresses, prefixes);
    let a = crate::stream::roundtrip::address_settings(addresses);
    let r = crate::stream::roundtrip::route_settings(prefixes);
    lemma_addresses_of_addresses(addresses);
    lemma_no_addresses_of_routes(a, prefixes);
}

/// The addresses among the settings for addresses are those addresses.
proof fn lemma_addresses_of_addresses(addresses: Seq<IpAddr>)
    ensures
        crate::stream::capsule::addresses_in(
            crate::stream::roundtrip::address_settings(addresses),
        ) == addresses,
    decreases addresses.len(),
{
    let settings = crate::stream::roundtrip::address_settings(addresses);
    if addresses.len() > 0 {
        lemma_addresses_of_addresses(addresses.drop_last());
        assert(settings.drop_last() =~= crate::stream::roundtrip::address_settings(
            addresses.drop_last(),
        ));
        assert(addresses =~= addresses.drop_last().push(addresses.last()));
    } else {
        assert(addresses =~= seq![]);
    }
}

/// Settings for routes add no addresses.
proof fn lemma_no_addresses_of_routes(
    settings: Seq<crate::stream::capsule::SettingView>,
    prefixes: Seq<crate::net::IpNetwork>,
)
    ensures
        crate::stream::capsule::addresses_in(
            settings + crate::stream::roundtrip::route_settings(prefixes),
        ) == crate::stream::capsule::addresses_in(settings),
    decreases prefixes.len(),
{
    let routes = crate::stream::roundtrip::route_settings(prefixes);
    if prefixes.len() > 0 {
        lemma_no_addresses_of_routes(settings, prefixes.drop_last());
        assert((settings + routes).drop_last() =~= settings
            + crate::stream::roundtrip::route_settings(prefixes.drop_last()));
    } else {
        assert(settings + routes =~= settings);
    }
}

/// An endpoint that requires a permission serves a request only if one of its
/// headers has a token with that permission.
pub proof fn law_permission_is_required(checks: Seq<HeaderCheck>)
    requires
        authorized(checks, false) == Ok::<_, ErrorView>(true),
    ensures
        exists|i: int| 0 <= i < checks.len() && (#[trigger] checks[i]).token == Ok::<_, PsqError>(
            true,
        ),
    decreases checks.len(),
{
    if checks.len() > 0 {
        if checks[0].token != Ok::<_, PsqError>(true) {
            let rest = checks.drop_first();
            law_permission_is_required(rest);
            let i = choose|i: int|
                0 <= i < rest.len() && (#[trigger] rest[i]).token == Ok::<_, PsqError>(true);
            assert(checks[i + 1] == rest[i]);
        }
    }
}

/// An endpoint without a permission is open to all whose headers are acceptable,
/// whatever their tokens are.
pub proof fn law_open_endpoint_needs_no_token(checks: Seq<HeaderCheck>)
    requires
        forall|i: int| 0 <= i < checks.len() ==> (#[trigger] checks[i]).common is Ok,
    ensures
        authorized(checks, true) == Ok::<_, ErrorView>(true),
    decreases checks.len(),
{
    if checks.len() > 0 {
        assert(checks[0].common is Ok);
        assert forall|i: int| 0 <= i < checks.drop_first().len() implies (
        #[trigger] checks.drop_first()[i]).common is Ok by {
            assert(checks.drop_first()[i] == checks[i + 1]);
        }
        law_open_endpoint_needs_no_token(checks.drop_first());
    }
}

/// Whether access has been granted before a header: at first, or by a token in a
/// header in front of it.
pub open spec fn granted_before(checks: Seq<HeaderCheck>, granted: bool, i: int) -> bool {
    granted || exists|j: int|
        0 <= j < i && j < checks.len() && (#[trigger] checks[j]).token == Ok::<_, PsqError>(true)
}

/// Whether the check of a header ends the request: the header is not acceptable,
/// or its token is wrong and access has not been granted before it.
pub open spec fn refused_at(checks: Seq<HeaderCheck>, granted: bool, i: int) -> bool {
    checks[i].common is Err || checks[i].token is Err && !granted_before(checks, granted, i)
}

/// Headers whose checks do not end the request can be left out, if it is noted
/// whether they granted access.
proof fn lemma_passed_headers(checks: Seq<HeaderCheck>, granted: bool, i: int)
    requires
        0 <= i <= checks.len(),
        forall|j: int| 0 <= j < i ==> !#[trigger] refused_at(checks, granted, j),
    ensures
        authorized(checks, granted) == authorized(
            checks.skip(i),
            granted_before(checks, granted, i),
        ),
    decreases i,
{
    if i == 0 {
        assert(checks.skip(0) =~= checks);
    } else {
        lemma_passed_headers(checks, granted, i - 1);
        let here = checks.skip(i - 1);
        assert(here[0] == checks[i - 1]);
        assert(here.drop_first() =~= checks.skip(i));
        assert(!refused_at(checks, granted, i - 1));
        lemma_granted_before_next(checks, granted, i - 1);
    }
}

/// A header adds to the access granted before it what its own token grants.
proof fn lemma_granted_before_next(checks: Seq<HeaderCheck>, granted: bool, i: int)
    requires
        0 <= i < checks.len(),
    ensures
        granted_before(checks, granted, i + 1) == (granted_before(checks, granted, i)
            || checks[i].token == Ok::<_, PsqError>(true)),
{
    if granted_before(checks, granted, i + 1) && !granted {
        let j = choose|j: int|
            0 <= j < i + 1 && j < checks.len() && (#[trigger] checks[j]).token == Ok::<_, PsqError>(
                true,
            );
        assert(j == i || j < i);
    }
}

/// If no check ends a request, it is granted access exactly if it was open to all
/// or one of its headers, wherever it stands, has a token with the permission.
pub proof fn law_any_good_token_grants_access(checks: Seq<HeaderCheck>, granted: bool)
    requires
        forall|i: int| 0 <= i < checks.len() ==> !#[trigger] refused_at(checks, granted, i),
    ensures
        authorized(checks, granted) == Ok::<_, ErrorView>(
            granted || exists|j: int|
                0 <= j < checks.len() && (#[trigger] checks[j]).token == Ok::<_, PsqError>(true),
        ),
{
    let n = checks.len() as int;
    lemma_passed_headers(checks, granted, n);
    if granted_before(checks, granted, n) && !granted {
        let j = choose|j: int|
            0 <= j < n && j < checks.len() && (#[trigger] checks[j]).token == Ok::<_, PsqError>(
                true,
            );
        assert(checks[j].token == Ok::<_, PsqError>(true));
    }
}

/// The first check that ends a request gives its error.
pub proof fn law_first_refusal_is_the_error(checks: Seq<HeaderCheck>, granted: bool, i: int)
    requires
        0 <= i < checks.len(),
        refused_at(checks, granted, i),
        forall|j: int| 0 <= j < i ==> !#[trigger] refused_at(checks, granted, j),
    ensures
        authorized(checks, granted) == Err::<bool, _>(
            match checks[i].common {
                Err(e) => e@,
                Ok(()) => checks[i].token->Err_0@,
            },
        ),
{
    lemma_passed_headers(checks, granted, i);
    assert(checks.skip(i)[0] == checks[i]);
}

/// A request gets the interface that is next in line and the stream that it came
/// on. The first one takes the test stream; nothing else of the endpoint changes.
pub proof fn law_request_begins(endpoint: EndpointView, stream_id: u64)
    ensures
        ({
            let (after, request) = endpoint.begun(stream_id);
            &&& after.ifprefix == endpoint.ifprefix
            &&& after.tuncount == endpoint.tuncount
            &&& after.pools == endpoint.pools
            &&& after.route_adv == endpoint.route_adv
            &&& after.permission == endpoint.permission
            &&& !after.teststream
            &&& request.tunnel.teststream == endpoint.teststream
            &&& request.tunnel.stream_id == stream_id
            &&& request.tunnel.ifname == endpoint.ifprefix + "-i"@ + crate::text::decimal(
                endpoint.tuncount,
            )
            &&& request.tunnel.addresses.len() == 0
            &&& !request.tunnel.tunwriter
            &&& !request.tunnel.tuntask
            &&& request.addresses.len() == 0
            &&& request.stage == Stage::CreateTun
        }),
{
}

/// A step that goes on to a pool has the interface get the address that the pool
/// was configured with. That is the pool with as many before it as the client has
/// addresses; there is such a step as long as a pool is left.
pub proof fn law_interface_gets_the_configured_address(
    endpoint: EndpointView,
    request: RequestView,
    done: Result<(), ErrorView>,
)
    requires
        endpoint.wf(),
        endpoint.serves(request),
    ensures
        ({
            let step = endpoint.stepped(request, done);
            let i = request.addresses.len() as int;
            &&& (step.next matches Ok(ActionView::AddAddress(_))) <==> (done is Ok && !(
            request.stage is LocalAddress) && i < endpoint.pools.len())
            &&& step.next matches Ok(ActionView::AddAddress(text)) ==> {
                &&& text == (match endpoint.pools[i].prefix {
                    crate::net::IpNetwork::V4(n) => IpAddr::V4(n.addr).text(),
                    crate::net::IpNetwork::V6(n) => IpAddr::V6(n.addr).text(),
                })
                &&& step.request.stage == Stage::LocalAddress(i as usize)
                &&& step.request.addresses == request.addresses
                &&& step.endpoint == endpoint
            }
        }),
{
}

/// The address that the interface gets is never assigned to a client, as long as
/// it is in use in its pool, which it is from the start.
pub proof fn law_configured_address_is_not_assigned(
    prefix: crate::net::IpNetwork,
    endpoint: EndpointView,
    request: RequestView,
)
    requires
        prefix.wf(),
        endpoint.wf(),
        endpoint.serves(request),
        request.stage is LocalAddress,
        endpoint.pools[request.addresses.len() as int].in_use(
            endpoint.pools[request.addresses.len() as int].prefix.ip(),
        ),
    ensures
        crate::stream::addresspool::fresh_pool(prefix).prefix == prefix,
        crate::stream::addresspool::fresh_pool(prefix).in_use(prefix.ip()),
        ({
            let step = endpoint.stepped(request, Ok(()));
            let i = request.addresses.len() as int;
            step.request.addresses.len() > i ==> step.request.addresses[i]
                != endpoint.pools[i].prefix.ip() && step.endpoint.pools[i].in_use(
                endpoint.pools[i].prefix.ip(),
            )
        }),
{
    law_assigned_address_is_fresh(endpoint, request);
    crate::stream::addresspool::law_taken_address_is_fresh(
        endpoint.pools[request.addresses.len() as int],
    );
}

/// A step that assigns an address takes it out of the pool that the request has
/// come to, has the interface get a route to that address, and leaves the other
/// pools alone. It fails exactly if all but one of the pool's addresses are in
/// use, and changes nothing then.
pub proof fn law_route_leads_to_the_assigned_address(
    endpoint: EndpointView,
    request: RequestView,
)
    requires
        endpoint.wf(),
        endpoint.serves(request),
        request.stage is LocalAddress,
    ensures
        ({
            let step = endpoint.stepped(request, Ok(()));
            let i = request.addresses.len() as int;
            if endpoint.pools[i].used.len() + 1 >= endpoint.pools[i].prefix.spec_size() {
                &&& step.next == Err::<ActionView, _>(
                    ErrorView::Custom("AddressPool: no addresses available"@),
                )
                &&& step.endpoint == endpoint
                &&& step.request == request
            } else {
                &&& step.request.addresses.len() == i + 1
                &&& step.next == Ok::<_, ErrorView>(
                    ActionView::AddRoute(step.request.addresses[i].text()),
                )
                &&& endpoint.pools[i].prefix.has(step.request.addresses[i])
                &&& step.request.stage == Stage::RemoteRoute(i as usize)
                &&& step.request.tunnel == request.tunnel
                &&& step.endpoint.pools.len() == endpoint.pools.len()
                &&& forall|j: int|
                    0 <= j < endpoint.pools.len() && j != i ==> #[trigger] step.endpoint.pools[j]
                        == endpoint.pools[j]
            }
        }),
{
    crate::stream::addresspool::law_taken_address_is_fresh(
        endpoint.pools[request.addresses.len() as int],
    );
}

/// A step that goes wrong at the caller ends the request with the caller's error,
/// or with status 503 where the interface could not be created, and leaves
/// endpoint and request as they are.
pub proof fn law_failed_steps_end_a_request(
    endpoint: EndpointView,
    request: RequestView,
    e: ErrorView,
)
    requires
        endpoint.serves(request),
    ensures
        ({
            let step = endpoint.stepped(request, Err(e));
            &&& step.endpoint == endpoint
            &&& step.request == request
            &&& step.next == Err::<ActionView, _>(
                if request.stage is CreateTun {
                    ErrorView::HttpResponse(503, "Could not create TUN interface"@)
                } else {
                    e
                },
            )
        }),
{
}

/// The interface is noted as up once it has been created, and behind the last
/// pool the request is answered, if the answer fits.
pub proof fn law_requests_are_answered_behind_the_last_pool(
    endpoint: EndpointView,
    request: RequestView,
)
    requires
        endpoint.serves(request),
        !(request.stage is LocalAddress),
    ensures
        ({
            let step = endpoint.stepped(request, Ok(()));
            &&& request.stage is CreateTun ==> step.request.tunnel.tunwriter
                && step.request.tunnel.tuntask
            &&& step.request.tunnel.ifname == request.tunnel.ifname
            &&& step.request.tunnel.stream_id == request.tunnel.stream_id
            &&& step.request.tunnel.teststream == request.tunnel.teststream
            &&& step.request.tunnel.addresses == request.tunnel.addresses
            &&& step.request.addresses == request.addresses
            &&& step.endpoint.pools == endpoint.pools
            &&& step.endpoint.route_adv == endpoint.route_adv
            &&& request.addresses.len() == endpoint.pools.len() ==> match answer_body(
                request.addresses,
                endpoint.route_adv,
            ) {
                Some(body) => step.next == Ok::<_, ErrorView>(ActionView::Respond(body))
                    && step.endpoint.tuncount == endpoint.tuncount + 1,
                None => step.next == Err::<ActionView, _>(ErrorView::Octets) && step.endpoint
                    == endpoint,
            }
        }),
{
}

/// A step that agrees with its model has exactly the outcome of the model.
pub proof fn law_steps_are_exact(
    model: Step,
    endpoint: EndpointView,
    request: RequestView,
    next: Result<RequestAction, PsqError>,
)
    requires
        step_is(model, endpoint, request, next),
    ensures
        endpoint == model.endpoint,
        request == model.request,
        next is Ok <==> model.next is Ok,
        next matches Ok(action) ==> model.next == Ok::<_, ErrorView>(action@),
        next matches Err(e) ==> model.next == Err::<ActionView, _>(e@),
        forall|done: Result<(), PsqError>|
            #![trigger report_view(done)]
            (done is Ok <==> report_view(done) is Ok) && (done matches Err(e) ==> report_view(done)
                == Err::<(), _>(e@)),
{
}

/// Where all headers are acceptable and no token is wrong, a request to an
/// endpoint that requires a permission is granted access exactly if some header,
/// at whatever position, has a token with that permission.
pub proof fn law_good_token_counts_wherever_it_stands(checks: Seq<HeaderCheck>)
    requires
        forall|i: int|
            0 <= i < checks.len() ==> (#[trigger] checks[i]).common is Ok && checks[i].token is Ok,
    ensures
        authorized(checks, false) == Ok::<_, ErrorView>(
            exists|j: int|
                0 <= j < checks.len() && (#[trigger] checks[j]).token == Ok::<_, PsqError>(true),
        ),
{
    assert forall|i: int| 0 <= i < checks.len() implies !#[trigger] refused_at(
        checks,
        false,
        i,
    ) by {
        assert(checks[i].common is Ok);
    }
    law_any_good_token_grants_access(checks, false);
}

} // verus!
