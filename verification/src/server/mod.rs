//! The server side operations for incoming HTTP/3 connections.

use vstd::prelude::*;
use vstd::string::StringExecFns;

use crate::error::{ErrorView, PsqError};
use crate::net::IpAddr;
pub use crate::server::config::Config;
use crate::server::endpoint::{Endpoint, EndpointModel};
use crate::server::packet::{PacketHeader, PacketType, PacketView};
use crate::server::token::{
    derive_id, mint_token, validate_token, HMAC_INPUT_LIMIT, MAX_CONN_ID_LEN,
};
use crate::table::Table;
use crate::text::join;

pub mod config;
pub mod endpoint;
pub mod packet;
pub mod response;
pub mod token;
pub mod transport;

verus! {

/// The main server that listens to incoming connections. `S` is the session of a
/// client, `E` an endpoint.
pub struct PsqServer<S, E> {
    /// The key from which connection IDs are derived.
    pub conn_id_seed: Vec<u8>,
    /// The sessions of the connected clients by connection ID.
    pub clients: Table<Vec<u8>, S>,
    /// The endpoints by path.
    pub endpoints: Table<String, E>,
    /// The secret for JSON Web Tokens.
    pub jwt_secret: Vec<u8>,
    /// The key for retry tokens.
    pub retry_token_key: Vec<u8>,
}

/// The model of [`PsqServer`].
#[verifier::reject_recursive_types(S)]
#[verifier::reject_recursive_types(E)]
pub struct ServerView<S, E> {
    pub conn_id_seed: Seq<u8>,
    pub clients: Map<Seq<u8>, S>,
    pub endpoints: Map<Seq<char>, E>,
    pub jwt_secret: Seq<u8>,
    pub retry_token_key: Seq<u8>,
}

impl<S, E> View for PsqServer<S, E> {
    type V = ServerView<S, E>;

    open spec fn view(&self) -> ServerView<S, E> {
        ServerView {
            conn_id_seed: self.conn_id_seed@,
            clients: self.clients@,
            endpoints: self.endpoints@,
            jwt_secret: self.jwt_secret@,
            retry_token_key: self.retry_token_key@,
        }
    }
}

/// What the server does with a packet.
#[derive(Clone, Debug, PartialEq, Eq)]
pub enum PacketDecision {
    /// It goes to the client with this connection ID.
    Deliver(Vec<u8>),
    /// It is answered with the versions that the server supports.
    NegotiateVersion,
    /// It is answered with a new connection ID and a token.
    Retry(Vec<u8>, Vec<u8>),
    /// It starts a connection with this connection ID; the second one is the
    /// ID that the client had chosen first.
    Accept(Vec<u8>, Vec<u8>),
}

/// The model of [`PacketDecision`].
pub enum DecisionView {
    Deliver(Seq<u8>),
    NegotiateVersion,
    Retry(Seq<u8>, Seq<u8>),
    Accept(Seq<u8>, Seq<u8>),
}

impl View for PacketDecision {
    type V = DecisionView;

    open spec fn view(&self) -> DecisionView {
        match *self {
            PacketDecision::Deliver(id) => DecisionView::Deliver(id@),
            PacketDecision::NegotiateVersion => DecisionView::NegotiateVersion,
            PacketDecision::Retry(id, token) => DecisionView::Retry(id@, token@),
            PacketDecision::Accept(id, odcid) => DecisionView::Accept(id@, odcid@),
        }
    }
}

/// The models of the endpoints in a table.
pub open spec fn endpoint_models(endpoints: Map<Seq<char>, Endpoint>) -> Map<
    Seq<char>,
    EndpointModel,
> {
    endpoints.map_values(|e: Endpoint| e@)
}

/// Whether the endpoints in a table are well-formed.
pub open spec fn endpoints_wf(endpoints: Map<Seq<char>, Endpoint>) -> bool {
    forall|path: Seq<char>| #[trigger]
        endpoints.contains_key(path) ==> endpoints[path]@.wf()
}

impl<S, E> ServerView<S, E> {
    /// Whether only the endpoints differ.
    pub open spec fn same_but_endpoints(self, other: ServerView<S, E>) -> bool {
        self == (ServerView { endpoints: self.endpoints, ..other })
    }

    /// What the server does with a packet that has a header and comes from an
    /// address.
    ///
    /// A packet for a known connection is delivered; the connection is looked up
    /// by the ID in the packet first, then by the ID derived from it. Any other
    /// packet must be an Initial one. If its version is not supported, versions
    /// are negotiated. Without a token the client has to try again with one. With
    /// a valid token it is accepted, if its ID has the length of the server's.
    pub open spec fn decision(self, header: PacketView, from: IpAddr) -> Result<
        DecisionView,
        ErrorView,
    > {
        let id = crate::server::token::derived_id(self.conn_id_seed, header.dcid);
        let token = header.token.unwrap();
        let data = crate::server::token::token_data(from, header.dcid);
        if self.clients.contains_key(header.dcid) {
            Ok(DecisionView::Deliver(header.dcid))
        } else if self.clients.contains_key(id) {
            Ok(DecisionView::Deliver(id))
        } else if !(header.ty is Initial) {
            Err(ErrorView::Custom("Packet not initial"@))
        } else if header.version != 1 {
            Ok(DecisionView::NegotiateVersion)
        } else if token.len() == 0 {
            Ok(
                DecisionView::Retry(
                    id,
                    data + crate::server::token::hmac_sha256(self.retry_token_key, data),
                ),
            )
        } else {
            match crate::server::token::validated(self.retry_token_key, from, token) {
                None => Err(ErrorView::Custom("Invalid address validation token"@)),
                Some(odcid) => if header.dcid.len() != MAX_CONN_ID_LEN {
                    Err(ErrorView::Custom("Invalid destination connection ID"@))
                } else {
                    Ok(DecisionView::Accept(header.dcid, odcid))
                },
            }
        }
    }
}

impl<S, E> ServerView<S, E> {
    /// That a client which is told to try again, and does so from the same
    /// address with the ID and the token that it was given, is accepted, and that
    /// the server then knows the ID that the client had chosen first. This holds
    /// while the server has no client with that ID or the one derived from it,
    /// and if the client had chosen an ID that is not empty.
    pub open spec fn retry_succeeds(self, dcid: Seq<u8>, from: IpAddr, d: DecisionView) -> bool {
        d matches DecisionView::Retry(id, token) ==> dcid.len() > 0 ==> forall|again: PacketView|
            {
                &&& again.ty is Initial
                &&& again.version == 1
                &&& again.dcid == id
                &&& again.token == Some(token)
                &&& !self.clients.contains_key(id)
                &&& !self.clients.contains_key(
                    crate::server::token::derived_id(self.conn_id_seed, id),
                )
            } ==> #[trigger] self.decision(again, from) == Ok::<_, ErrorView>(
                DecisionView::Accept(id, dcid),
            )
    }
}

/// That a decision is the expected one.
pub open spec fn decision_is(
    expected: Result<DecisionView, ErrorView>,
    r: Result<PacketDecision, PsqError>,
) -> bool {
    match (r, expected) {
        (Ok(decision), Ok(view)) => decision@ == view,
        (Err(e), Err(error)) => e@ == error,
        _ => false,
    }
}

impl<S, E> PsqServer<S, E> {
    /// No connection ID and no path occurs twice, and the keys are not too long.
    pub open spec fn wf(self) -> bool {
        &&& self.clients.wf()
        &&& self.endpoints.wf()
        &&& self.conn_id_seed@.len() <= HMAC_INPUT_LIMIT
        &&& self.retry_token_key@.len() <= HMAC_INPUT_LIMIT
    }

    /// A server without clients and endpoints.
    pub fn new(conn_id_seed: Vec<u8>, retry_token_key: Vec<u8>, jwt_secret: Vec<u8>) -> (r: Self)
        requires
            conn_id_seed@.len() <= HMAC_INPUT_LIMIT,
            retry_token_key@.len() <= HMAC_INPUT_LIMIT,
        ensures
            r.wf(),
            r@ == (ServerView::<S, E> {
                conn_id_seed: conn_id_seed@,
                clients: Map::empty(),
                endpoints: Map::empty(),
                jwt_secret: jwt_secret@,
                retry_token_key: retry_token_key@,
            }),
    {
        PsqServer {
            conn_id_seed,
            clients: Table::new(),
            endpoints: Table::new(),
            jwt_secret,
            retry_token_key,
        }
    }

    /// Decides what to do with a UDP datagram that came from an address: reads
    /// the header of the QUIC packet in it and goes by that.
    pub fn process_udp(&self, packet: &[u8], from: IpAddr) -> (r: Result<
        (PacketHeader, PacketDecision),
        PsqError,
    >)
        requires
            self.wf(),
            packet@.len() <= HMAC_INPUT_LIMIT,
        ensures
            match (r, crate::server::packet::quic_header(packet@)) {
                (Err(e), Err(text)) => e@ == ErrorView::Quiche(text),
                (Err(e), Ok(header)) => self@.decision(header, from) == Err::<DecisionView, _>(e@),
                (Ok((h, decision)), Ok(header)) => h@ == header && header.wf() && self@.decision(
                    header,
                    from,
                ) == Ok::<_, ErrorView>(decision@) && self@.retry_succeeds(
                    header.dcid,
                    from,
                    decision@,
                ),
                (Ok(_), Err(_)) => false,
            },
    {
        let header = match PacketHeader::parse(packet) {
            Ok(header) => header,
            Err(text) => {
                return Err(PsqError::Quiche(text));
            },
        };
        let decision = self.decide(&header, from)?;
        Ok((header, decision))
    }

    /// Decides what to do with a packet by its header.
    pub fn decide(&self, header: &PacketHeader, from: IpAddr) -> (r: Result<
        PacketDecision,
        PsqError,
    >)
        requires
            self.wf(),
            header@.wf(),
        ensures
            decision_is(self@.decision(header@, from), r),
            r matches Ok(decision) ==> self@.retry_succeeds(header@.dcid, from, decision@),
    {
        let conn_id = derive_id(&self.conn_id_seed, &header.dcid);
        if self.clients.contains_key(&header.dcid) {
            return Ok(PacketDecision::Deliver(copy_bytes(&header.dcid)));
        }
        if self.clients.contains_key(&conn_id) {
            return Ok(PacketDecision::Deliver(conn_id));
        }
        if !matches!(header.ty, PacketType::Initial) {
            return Err(PsqError::Custom("Packet not initial".to_owned()));
        }
        if !quiche::version_is_supported(header.version) {
            return Ok(PacketDecision::NegotiateVersion);
        }
        // Token is always present in Initial packets.
        let token = header.token.as_ref().unwrap();
        // Do stateless retry if the client didn't send a token.
        if token.len() == 0 {
            let new_token = mint_token(&self.retry_token_key, from, &header.dcid);
            return Ok(PacketDecision::Retry(conn_id, new_token));
        }
        let odcid = match validate_token(&self.retry_token_key, from, token) {
            Some(odcid) => odcid,
            None => {
                return Err(PsqError::Custom("Invalid address validation token".to_owned()));
            },
        };
        if conn_id.len() != header.dcid.len() {
            return Err(PsqError::Custom("Invalid destination connection ID".to_owned()));
        }
        Ok(PacketDecision::Accept(copy_bytes(&header.dcid), odcid))
    }

    /// Adds an endpoint at a path, in place of the one that is there.
    pub fn add_endpoint(&mut self, path: &str, endpoint: E)
        requires
            old(self).wf(),
        ensures
            final(self).wf(),
            final(self)@ == (ServerView {
                endpoints: old(self)@.endpoints.insert(path@, endpoint),
                ..old(self)@
            }),
    {
        self.endpoints.insert(path.to_owned(), endpoint);
    }

    /// The error for an address that the server cannot listen to.
    pub fn bind_error(addr: &str, e: &str) -> (r: PsqError)
        ensures
            r@ == ErrorView::Custom("Failed to bind to "@ + addr@ + ": "@ + e@),
    {
        let mut s = join("Failed to bind to ", addr);
        s.append(": ");
        s.append(e);
        PsqError::Custom(s)
    }

    /// Adds the session of a client.
    pub fn add_client(&mut self, id: Vec<u8>, session: S)
        requires
            old(self).wf(),
        ensures
            final(self).wf(),
            final(self)@ == (ServerView {
                clients: old(self)@.clients.insert(id@, session),
                ..old(self)@
            }),
    {
        self.clients.insert(id, session);
    }

    /// Forgets the clients whose connections are closed, given their IDs.
    pub fn collect_garbage(&mut self, closed: &Vec<Vec<u8>>)
        requires
            old(self).wf(),
        ensures
            final(self).wf(),
            final(self)@ == (ServerView {
                clients: old(self)@.clients.remove_keys(ids(closed@)),
                ..old(self)@
            }),
    {
        let mut i: usize = 0;
        let ghost before = self@.clients;
        assert(before =~= before.remove_keys(ids(closed@.take(0))));
        while i < closed.len()
            invariant
                i <= closed@.len(),
                self.wf(),
                before == old(self)@.clients,
                self@ == (ServerView {
                    clients: before.remove_keys(ids(closed@.take(i as int))),
                    ..old(self)@
                }),
            decreases closed@.len() - i,
        {
            self.clients.remove(&closed[i]);
            proof {
                let done = closed@.take(i as int);
                let more = closed@.take(i + 1);
                assert forall|id: Seq<u8>| #[trigger]
                    ids(more).contains(id) == (ids(done).contains(id) || id == closed@[i as int]@) by {
                    if ids(done).contains(id) {
                        let j = choose|j: int| 0 <= j < done.len() && (#[trigger] done[j])@ == id;
                        assert(more[j]@ == id);
                    }
                    if id == closed@[i as int]@ {
                        assert(more[i as int]@ == id);
                    }
                    if ids(more).contains(id) {
                        let j = choose|j: int| 0 <= j < more.len() && (#[trigger] more[j])@ == id;
                        if j < i {
                            assert(done[j]@ == id);
                        }
                    }
                }
                assert(before.remove_keys(ids(done)).remove(closed@[i as int]@)
                    =~= before.remove_keys(ids(more)));
            }
            i = i + 1;
        }
        assert(closed@.take(i as int) =~= closed@);
    }
}

/// The connection IDs in a list.
pub open spec fn ids(list: Seq<Vec<u8>>) -> Set<Seq<u8>> {
    Set::new(|id: Seq<u8>| exists|j: int| 0 <= j < list.len() && (#[trigger] list[j])@ == id)
}

impl<S> PsqServer<S, Endpoint> {
    /// Initializes the server, with fresh keys, the secret for tokens and the
    /// endpoints of a configuration.
    pub fn start(
        conn_id_seed: Vec<u8>,
        retry_token_key: Vec<u8>,
        jwt_secret: Vec<u8>,
        config: &Config,
    ) -> (r: Result<Self, PsqError>)
        requires
            conn_id_seed@.len() <= HMAC_INPUT_LIMIT,
            retry_token_key@.len() <= HMAC_INPUT_LIMIT,
            config.wf(),
        ensures
            match r {
                Ok(server) => {
                    &&& crate::server::config::configured(config.endpoints@).1 is None
                    &&& server.wf()
                    &&& endpoints_wf(server@.endpoints)
                    &&& server@.conn_id_seed == conn_id_seed@
                    &&& server@.retry_token_key == retry_token_key@
                    &&& server@.jwt_secret == jwt_secret@
                    &&& server@.clients == Map::<Seq<u8>, S>::empty()
                    &&& endpoint_models(server@.endpoints)
                        == crate::server::config::with_endpoints(
                        Map::empty(),
                        crate::server::config::configured(config.endpoints@).0,
                    )
                },
                Err(e) => crate::server::config::configured(config.endpoints@).1 == Some(e@),
            },
    {
        let mut server: PsqServer<S, Endpoint> = PsqServer::new(
            conn_id_seed,
            retry_token_key,
            jwt_secret,
        );
        assert(endpoint_models(server@.endpoints) =~= Map::empty());
        config.set_server_endpoints(&mut server)?;
        Ok(server)
    }
}

/// The same bytes once more.
fn copy_bytes(bytes: &Vec<u8>) -> (r: Vec<u8>)
    ensures
        r@ == bytes@,
{
    vstd::slice::slice_to_vec(bytes.as_slice())
}

/// A packet of a known connection is delivered, whatever its type, version and
/// token: to the client with the connection ID in the packet, or else to the one
/// with the ID that is derived from it.
pub proof fn law_known_connections_are_delivered<S, E>(
    server: ServerView<S, E>,
    header: PacketView,
    from: IpAddr,
)
    ensures
        server.clients.contains_key(header.dcid) ==> server.decision(header, from) == Ok::<
            _,
            ErrorView,
        >(DecisionView::Deliver(header.dcid)),
        ({
            let id = crate::server::token::hmac_sha256(server.conn_id_seed, header.dcid).take(20);
            !server.clients.contains_key(header.dcid) && server.clients.contains_key(id)
                ==> server.decision(header, from) == Ok::<_, ErrorView>(DecisionView::Deliver(id))
        }),
        server.decision(header, from) matches Ok(DecisionView::Deliver(id))
            ==> server.clients.contains_key(id),
{
}

/// A packet of no known connection: other than an Initial packet it is refused;
/// of another version than 1 it leads to negotiation; with an empty token it leads
/// to a retry with the derived ID and a token for the client's address and ID;
/// with a token that is not valid, or an ID of another length than the server's, it
/// is refused; and otherwise it is accepted under its ID, with the ID in the token
/// as the client's first.
pub proof fn law_unknown_connections_start_anew<S, E>(
    server: ServerView<S, E>,
    header: PacketView,
    from: IpAddr,
)
    requires
        header.wf(),
        !server.clients.contains_key(header.dcid),
        !server.clients.contains_key(
            crate::server::token::hmac_sha256(server.conn_id_seed, header.dcid).take(20),
        ),
    ensures
        ({
            let id = crate::server::token::hmac_sha256(server.conn_id_seed, header.dcid).take(20);
            let key = server.retry_token_key;
            let data = vstd::utf8::encode_utf8(crate::server::response::VERSION_IDENTIFICATION@)
                + from.bytes() + header.dcid;
            let d = server.decision(header, from);
            let first = header.ty is Initial && header.version == 1;
            &&& !(header.ty is Initial) ==> d == Err::<DecisionView, _>(
                ErrorView::Custom("Packet not initial"@),
            )
            &&& header.ty is Initial && header.version != 1 ==> d == Ok::<_, ErrorView>(
                DecisionView::NegotiateVersion,
            )
            &&& first && header.token.unwrap().len() == 0 ==> d == Ok::<_, ErrorView>(
                DecisionView::Retry(id, data + crate::server::token::hmac_sha256(key, data)),
            )
            &&& first && header.token.unwrap().len() > 0 ==> match crate::server::token::validated(
                key,
                from,
                header.token.unwrap(),
            ) {
                None => d == Err::<DecisionView, _>(
                    ErrorView::Custom("Invalid address validation token"@),
                ),
                Some(odcid) => d == if header.dcid.len() == 20 {
                    Ok::<_, ErrorView>(DecisionView::Accept(header.dcid, odcid))
                } else {
                    Err(ErrorView::Custom("Invalid destination connection ID"@))
                },
            }
        }),
{
}

/// A client that is told to try again and does so, from the same address, with the
/// ID and the token that it was given, is accepted under that ID, and the server
/// then knows the ID that it had chosen first. The tags that the server makes have
/// 32 bytes.
pub proof fn law_a_retry_is_accepted<S, E>(
    server: ServerView<S, E>,
    first: PacketView,
    again: PacketView,
    from: IpAddr,
    id: Seq<u8>,
    token: Seq<u8>,
)
    requires
        server.decision(first, from) == Ok::<_, ErrorView>(DecisionView::Retry(id, token)),
        first.dcid.len() > 0,
        crate::server::token::hmac_sha256(server.conn_id_seed, first.dcid).len() == 32,
        crate::server::token::hmac_sha256(
            server.retry_token_key,
            crate::server::token::token_data(from, first.dcid),
        ).len() == 32,
        again.ty is Initial,
        again.version == 1,
        again.dcid == id,
        again.token == Some(token),
        !server.clients.contains_key(id),
        !server.clients.contains_key(
            crate::server::token::hmac_sha256(server.conn_id_seed, id).take(20),
        ),
    ensures
        server.decision(again, from) == Ok::<_, ErrorView>(DecisionView::Accept(id, first.dcid)),
{
    crate::net::law_address_bytes_hold_its_number(from);
    crate::server::token::law_authentic_tokens_are_accepted(
        server.retry_token_key,
        from,
        from.bytes(),
        first.dcid,
    );
}

/// A decision that agrees with its model is exactly that of the model.
pub proof fn law_decisions_are_exact(
    expected: Result<DecisionView, ErrorView>,
    r: Result<PacketDecision, PsqError>,
)
    requires
        decision_is(expected, r),
    ensures
        r is Ok <==> expected is Ok,
        r matches Ok(decision) ==> expected == Ok::<_, ErrorView>(decision@),
        r matches Err(e) ==> expected == Err::<DecisionView, _>(e@),
{
}

/// Exactly the clients whose connection IDs are among the closed ones are
/// forgotten; the others keep their sessions.
pub proof fn law_only_closed_clients_are_forgotten<S>(
    clients: Map<Seq<u8>, S>,
    closed: Seq<Vec<u8>>,
    id: Seq<u8>,
)
    ensures
        clients.remove_keys(ids(closed)).contains_key(id) <==> clients.contains_key(id)
            && !exists|j: int| 0 <= j < closed.len() && (#[trigger] closed[j])@ == id,
        clients.remove_keys(ids(closed)).contains_key(id) ==> clients.remove_keys(ids(closed))[id]
            == clients[id],
{
}

/// The models of endpoints stand at the paths of the endpoints.
pub proof fn law_endpoint_models_stand_at_their_paths(
    endpoints: Map<Seq<char>, Endpoint>,
    path: Seq<char>,
)
    ensures
        endpoint_models(endpoints).contains_key(path) <==> endpoints.contains_key(path),
        endpoints.contains_key(path) ==> endpoint_models(endpoints)[path] == endpoints[path]@,
{
}

/// Where only the endpoints differ, clients, keys and secret are the same.
pub proof fn law_endpoints_leave_the_rest_alone<S, E>(a: ServerView<S, E>, b: ServerView<S, E>)
    requires
        a.same_but_endpoints(b),
    ensures
        a.clients == b.clients,
        a.conn_id_seed == b.conn_id_seed,
        a.retry_token_key == b.retry_token_key,
        a.jwt_secret == b.jwt_secret,
{
}

} // verus!
