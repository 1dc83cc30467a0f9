//! Server side configuration settings: certificates and endpoints.

use vstd::prelude::*;
use vstd::string::StrSliceExecFns;

use crate::error::{ErrorView, PsqError};
use crate::net::IpNetwork;
use crate::server::endpoint::{Endpoint, EndpointModel};
use crate::server::PsqServer;
use crate::stream::addresspool::PoolView;
use crate::stream::files::{Files, FilesView};
use crate::stream::ipendpoint::{EndpointView, IpEndpoint};
use crate::stream::udpendpoint::UdpEndpoint;
use crate::text::join;

verus! {

/// Configuration for server certificate and endpoint settings.
pub struct Config {
    /// The file that has the PEM formatted TLS certificate.
    pub cert_file: String,
    /// The file with the private key of the certificate.
    pub key_file: String,
    /// Where the secret for tokens comes from.
    pub jwt_config: JWTSecretConfig,
    /// The endpoints of the server.
    pub endpoints: Vec<EndpointConfig>,
}

/// Where the secret for JSON Web Tokens comes from.
#[derive(Clone, Debug, PartialEq, Eq)]
pub enum JWTSecretConfig {
    /// It is in a file.
    FilePath(String),
    /// It stands in the configuration itself.
    Plain(String),
}

/// Common attributes to different endpoint types.
#[derive(Clone, Debug, PartialEq, Eq)]
pub struct Common {
    /// Path to this endpoint.
    pub path: String,
    /// Permission label required to be present in the token of a client. If
    /// there is none, anyone can access this endpoint.
    pub permission: Option<String>,
}

/// The configuration of one endpoint.
pub enum EndpointConfig {
    /// An endpoint for IP tunnels.
    IpEndpoint {
        /// The common attributes.
        common: Common,
        /// The prefix of the names of the TUN interfaces.
        ifprefix: String,
        /// The networks from which clients are assigned addresses.
        addresspools: Vec<String>,
        /// The networks to which routes are advertised.
        routes: Vec<String>,
    },
    /// An endpoint for UDP tunnels.
    UdpEndpoint {
        /// The common attributes.
        common: Common,
    },
    /// An endpoint for static files.
    Files {
        /// The common attributes.
        common: Common,
        /// The directory with the files.
        root: String,
    },
}

/// The texts in a list.
pub open spec fn texts(list: Seq<String>) -> Seq<Seq<char>> {
    list.map_values(|s: String| s@)
}

/// The text that may be there.
pub open spec fn text_option(s: Option<String>) -> Option<Seq<char>> {
    match s {
        Some(s) => Some(s@),
        None => None,
    }
}

/// The pools over the networks in a list of texts, or the error for the first
/// that is no network.
pub open spec fn pools_of(list: Seq<Seq<char>>) -> Result<Seq<PoolView>, ErrorView>
    decreases list.len(),
{
    if list.len() == 0 {
        Ok(seq![])
    } else {
        match pools_of(list.drop_last()) {
            Err(e) => Err(e),
            Ok(pools) => match crate::net::network_of_text(list.last()) {
                None => Err(crate::net::parse_error(list.last())),
                Some(prefix) => Ok(
                    pools.push(crate::stream::addresspool::fresh_pool(prefix)),
                ),
            },
        }
    }
}

/// The networks in a list of texts, or the error for the first that is no
/// network.
pub open spec fn networks_of(list: Seq<Seq<char>>) -> Result<Seq<IpNetwork>, ErrorView>
    decreases list.len(),
{
    if list.len() == 0 {
        Ok(seq![])
    } else {
        match networks_of(list.drop_last()) {
            Err(e) => Err(e),
            Ok(networks) => match crate::net::network_of_text(list.last()) {
                None => Err(crate::net::parse_error(list.last())),
                Some(prefix) => Ok(networks.push(prefix)),
            },
        }
    }
}

impl EndpointConfig {
    /// The routes fit into a buffer.
    pub open spec fn wf(self) -> bool {
        match self {
            EndpointConfig::IpEndpoint { routes, .. } => 34 * routes@.len() <= usize::MAX,
            _ => true,
        }
    }

    /// The path of the endpoint.
    pub open spec fn path(self) -> Seq<char> {
        match self {
            EndpointConfig::IpEndpoint { common, .. } => common.path@,
            EndpointConfig::UdpEndpoint { common } => common.path@,
            EndpointConfig::Files { common, .. } => common.path@,
        }
    }

    /// The endpoint that is configured, or the error for the first text in it
    /// that is no network. Pools come before routes.
    pub open spec fn model(self) -> Result<EndpointModel, ErrorView> {
        match self {
            EndpointConfig::IpEndpoint { common, ifprefix, addresspools, routes } => match (
                pools_of(texts(addresspools@)),
                networks_of(texts(routes@)),
            ) {
                (Err(e), _) => Err(e),
                (_, Err(e)) => Err(e),
                (Ok(pools), Ok(networks)) => Ok(
                    EndpointModel::Ip(
                        EndpointView {
                            ifprefix: ifprefix@,
                            tuncount: 0,
                            pools,
                            route_adv: crate::stream::capsule::routes_bytes(networks),
                            permission: text_option(common.permission),
                            teststream: false,
                        },
                    ),
                ),
            },
            EndpointConfig::UdpEndpoint { common } => Ok(
                EndpointModel::Udp(text_option(common.permission)),
            ),
            EndpointConfig::Files { common, root } => Ok(
                EndpointModel::Files(
                    FilesView { root: root@, permission: text_option(common.permission) },
                ),
            ),
        }
    }

    /// The path of the endpoint.
    pub fn path_text(&self) -> (r: &String)
        ensures
            r@ == self.path(),
    {
        match self {
            EndpointConfig::IpEndpoint { common, .. } => &common.path,
            EndpointConfig::UdpEndpoint { common } => &common.path,
            EndpointConfig::Files { common, .. } => &common.path,
        }
    }

    /// Builds the endpoint that is configured.
    pub fn build(&self) -> (r: Result<Endpoint, PsqError>)
        requires
            self.wf(),
        ensures
            match (r, self.model()) {
                (Ok(endpoint), Ok(model)) => endpoint@ == model && model.wf(),
                (Err(e), Err(error)) => e@ == error,
                _ => false,
            },
    {
        match self {
            EndpointConfig::IpEndpoint { common, ifprefix, addresspools, routes } => {
                let mut ipendpoint = IpEndpoint::new(ifprefix.as_str());
                add_pools(&mut ipendpoint, addresspools)?;
                add_routes(&mut ipendpoint, routes)?;
                if let Some(permission) = &common.permission {
                    ipendpoint.require_permission(permission);
                }
                Ok(Endpoint::Ip(ipendpoint))
            },
            EndpointConfig::UdpEndpoint { common } => {
                let mut udpendpoint = UdpEndpoint::new();
                if let Some(permission) = &common.permission {
                    udpendpoint.require_permission(permission);
                }
                Ok(Endpoint::Udp(udpendpoint))
            },
            EndpointConfig::Files { common, root } => {
                let mut files = Files::new(root.as_str());
                if let Some(permission) = &common.permission {
                    files.require_permission(permission);
                }
                Ok(Endpoint::Files(files))
            },
        }
    }
}

/// The list up to an index ends with the element before that.
proof fn lemma_texts_step(list: Seq<String>, i: int)
    requires
        0 <= i < list.len(),
    ensures
        texts(list).take(i + 1).drop_last() == texts(list).take(i),
        texts(list).take(i + 1).last() == list[i]@,
{
    assert(texts(list).take(i + 1).drop_last() =~= texts(list).take(i));
}

/// Where a part of a list has an error, the whole list has the same.
proof fn lemma_first_error(list: Seq<Seq<char>>, i: int)
    requires
        0 <= i <= list.len(),
    ensures
        pools_of(list.take(i)) matches Err(e) ==> pools_of(list) == Err::<Seq<PoolView>, _>(e),
        networks_of(list.take(i)) matches Err(e) ==> networks_of(list) == Err::<
            Seq<IpNetwork>,
            _,
        >(e),
    decreases list.len() - i,
{
    if i == list.len() {
        assert(list.take(i) =~= list);
    } else {
        assert(list.take(i + 1).drop_last() =~= list.take(i));
        lemma_first_error(list, i + 1);
    }
}

/// Adds a pool for each network in a list of texts.
fn add_pools(endpoint: &mut IpEndpoint, list: &Vec<String>) -> (r: Result<(), PsqError>)
    requires
        old(endpoint).wf(),
        old(endpoint)@.pools.len() == 0,
    ensures
        final(endpoint).wf(),
        match (r, pools_of(texts(list@))) {
            (Ok(()), Ok(pools)) => final(endpoint)@ == (EndpointView { pools, ..old(endpoint)@ }),
            (Err(e), Err(error)) => e@ == error,
            _ => false,
        },
{
    let mut i: usize = 0;
    assert(texts(list@).take(0) =~= seq![]);
    assert(endpoint@.pools =~= seq![]);
    while i < list.len()
        invariant
            i <= list@.len(),
            endpoint.wf(),
            pools_of(texts(list@).take(i as int)) matches Ok(pools) && endpoint@ == (EndpointView {
                pools,
                ..old(endpoint)@
            }),
        decreases list@.len() - i,
    {
        proof {
            lemma_texts_step(list@, i as int);
            lemma_first_error(texts(list@), i + 1);
        }
        let prefix = IpNetwork::parse(list[i].as_str())?;
        endpoint.add_addresspool(prefix)?;
        i = i + 1;
    }
    assert(texts(list@).take(i as int) =~= texts(list@));
    Ok(())
}

/// Adds a route for each network in a list of texts.
fn add_routes(endpoint: &mut IpEndpoint, list: &Vec<String>) -> (r: Result<(), PsqError>)
    requires
        old(endpoint).wf(),
        old(endpoint)@.route_adv.len() == 0,
        34 * list@.len() <= usize::MAX,
    ensures
        final(endpoint).wf(),
        match (r, networks_of(texts(list@))) {
            (Ok(()), Ok(networks)) => final(endpoint)@ == (EndpointView {
                route_adv: crate::stream::capsule::routes_bytes(networks),
                ..old(endpoint)@
            }),
            (Err(e), Err(error)) => e@ == error,
            _ => false,
        },
{
    let mut i: usize = 0;
    assert(texts(list@).take(0) =~= seq![]);
    assert(endpoint@.route_adv =~= seq![]);
    while i < list.len()
        invariant
            i <= list@.len(),
            34 * list@.len() <= usize::MAX,
            endpoint.wf(),
            endpoint@.route_adv.len() <= 34 * i,
            networks_of(texts(list@).take(i as int)) matches Ok(networks) && endpoint@
                == (EndpointView {
                route_adv: crate::stream::capsule::routes_bytes(networks),
                ..old(endpoint)@
            }),
        decreases list@.len() - i,
    {
        proof {
            lemma_texts_step(list@, i as int);
            lemma_first_error(texts(list@), i + 1);
        }
        let prefix = IpNetwork::parse(list[i].as_str())?;
        proof {
            crate::stream::roundtrip::lemma_route_bytes_len(prefix);
            let networks = networks_of(texts(list@).take(i as int))->Ok_0;
            assert(networks.push(prefix).drop_last() =~= networks);
        }
        endpoint.add_route(prefix)?;
        i = i + 1;
    }
    assert(texts(list@).take(i as int) =~= texts(list@));
    Ok(())
}

/// The endpoints of a configuration with their paths, up to the first that is
/// wrong, and the error for that one.
pub open spec fn configured(list: Seq<EndpointConfig>) -> (
    Seq<(Seq<char>, EndpointModel)>,
    Option<ErrorView>,
)
    decreases list.len(),
{
    if list.len() == 0 {
        (seq![], None)
    } else {
        let (before, error) = configured(list.drop_last());
        match (error, list.last().model()) {
            (Some(e), _) => (before, Some(e)),
            (None, Err(e)) => (before, Some(e)),
            (None, Ok(model)) => (before.push((list.last().path(), model)), None),
        }
    }
}

/// Where a part of a list has an error, the whole list has the same.
proof fn lemma_first_wrong_endpoint(list: Seq<EndpointConfig>, i: int)
    requires
        0 <= i <= list.len(),
    ensures
        configured(list.take(i)).1 is Some ==> configured(list) == configured(list.take(i)),
    decreases list.len() - i,
{
    if i == list.len() {
        assert(list.take(i) =~= list);
    } else {
        assert(list.take(i + 1).drop_last() =~= list.take(i));
        lemma_first_wrong_endpoint(list, i + 1);
    }
}

impl Config {
    /// The routes of each endpoint fit into a buffer.
    pub open spec fn wf(self) -> bool {
        forall|i: int| 0 <= i < self.endpoints@.len() ==> (#[trigger] self.endpoints@[i]).wf()
    }

    /// File path that contains the PEM formatted TLS certificate.
    pub fn cert_file(&self) -> (r: &String)
        ensures
            *r == self.cert_file,
    {
        &self.cert_file
    }

    /// File for private key to check the certificate.
    pub fn key_file(&self) -> (r: &String)
        ensures
            *r == self.key_file,
    {
        &self.key_file
    }

    /// The file that has the secret for tokens; none if the secret stands in the
    /// configuration itself.
    pub fn jwt_secret_path(&self) -> (r: Option<&String>)
        ensures
            match self.jwt_config {
                JWTSecretConfig::FilePath(path) => r == Some(&path),
                JWTSecretConfig::Plain(_) => r is None,
            },
    {
        match &self.jwt_config {
            JWTSecretConfig::FilePath(path) => Some(path),
            JWTSecretConfig::Plain(_) => None,
        }
    }

    /// Secret used to decode tokens. `file` is how reading the file of
    /// [`Config::jwt_secret_path`] went, if there is one; its contents are taken
    /// as they are.
    pub fn jwt_secret(&self, file: Option<Result<Vec<u8>, PsqError>>) -> (r: Result<
        Vec<u8>,
        PsqError,
    >)
        requires
            self.jwt_config is FilePath ==> file is Some,
        ensures
            match self.jwt_config {
                JWTSecretConfig::FilePath(_) => Some(r) == file,
                JWTSecretConfig::Plain(plain) => r is Ok && r->Ok_0@ == vstd::utf8::encode_utf8(
                    plain@,
                ),
            },
    {
        match &self.jwt_config {
            JWTSecretConfig::FilePath(_) => file.unwrap(),
            JWTSecretConfig::Plain(plain) => Ok(plain.as_str().as_bytes_vec()),
        }
    }

    /// A configuration without its endpoints.
    pub fn default_without_endpoints(default: Config) -> (r: Config)
        ensures
            r.cert_file == default.cert_file,
            r.key_file == default.key_file,
            r.jwt_config == default.jwt_config,
            r.endpoints@ == Seq::<EndpointConfig>::empty(),
    {
        let mut config = default;
        config.endpoints.clear();
        config
    }

    /// The error for a configuration file that cannot be opened.
    pub fn open_error(e: &str) -> (r: PsqError)
        ensures
            r@ == ErrorView::Custom("Could not open config file: "@ + e@),
    {
        PsqError::Custom(join("Could not open config file: ", e))
    }

    /// The error for a configuration file that cannot be parsed.
    pub fn parse_error(e: &str) -> (r: PsqError)
        ensures
            r@ == ErrorView::Custom("Could not parse config file: "@ + e@),
    {
        PsqError::Custom(join("Could not parse config file: ", e))
    }

    /// Applies the endpoint settings to a server. Endpoints before the first
    /// that is wrong are added.
    pub fn set_server_endpoints<S>(&self, server: &mut PsqServer<S, Endpoint>) -> (r: Result<
        (),
        PsqError,
    >)
        requires
            self.wf(),
            old(server).wf(),
        ensures
            final(server).wf(),
            final(server)@.same_but_endpoints(old(server)@),
            crate::server::endpoints_wf(old(server)@.endpoints) ==> crate::server::endpoints_wf(
                final(server)@.endpoints,
            ),
            crate::server::endpoint_models(final(server)@.endpoints) == with_endpoints(
                crate::server::endpoint_models(old(server)@.endpoints),
                configured(self.endpoints@).0,
            ),
            match r {
                Ok(()) => configured(self.endpoints@).1 is None,
                Err(e) => configured(self.endpoints@).1 == Some(e@),
            },
    {
        let mut i: usize = 0;
        assert(self.endpoints@.take(0) =~= seq![]);
        while i < self.endpoints.len()
            invariant
                i <= self.endpoints@.len(),
                self.wf(),
                server.wf(),
                server@.same_but_endpoints(old(server)@),
                crate::server::endpoints_wf(old(server)@.endpoints) ==> crate::server::endpoints_wf(
                    server@.endpoints,
                ),
                configured(self.endpoints@.take(i as int)).1 is None,
                crate::server::endpoint_models(server@.endpoints) == with_endpoints(
                    crate::server::endpoint_models(old(server)@.endpoints),
                    configured(self.endpoints@.take(i as int)).0,
                ),
            decreases self.endpoints@.len() - i,
        {
            let ghost done = configured(self.endpoints@.take(i as int)).0;
            proof {
                let part = self.endpoints@.take(i + 1);
                assert(part.drop_last() =~= self.endpoints@.take(i as int));
                assert(part.last() == self.endpoints@[i as int]);
                lemma_first_wrong_endpoint(self.endpoints@, i + 1);
            }
            let endpoint = self.endpoints[i].build()?;
            let ghost models = crate::server::endpoint_models(server@.endpoints);
            let path = self.endpoints[i].path_text();
            server.add_endpoint(path.as_str(), endpoint);
            proof {
                assert(crate::server::endpoint_models(server@.endpoints) =~= models.insert(
                    path@,
                    endpoint@,
                ));
                assert(done.push((path@, endpoint@)).drop_last() =~= done);
            }
            i = i + 1;
        }
        assert(self.endpoints@.take(i as int) =~= self.endpoints@);
        Ok(())
    }
}

/// Endpoints with more of them added in their order: a later one takes the place
/// of an earlier one at the same path.
pub open spec fn with_endpoints(
    before: Map<Seq<char>, EndpointModel>,
    added: Seq<(Seq<char>, EndpointModel)>,
) -> Map<Seq<char>, EndpointModel>
    decreases added.len(),
{
    if added.len() == 0 {
        before
    } else {
        with_endpoints(before, added.drop_last()).insert(added.last().0, added.last().1)
    }
}

/// Of several endpoints at one path the last one counts, and paths at which none
/// is added keep what they have.
pub proof fn law_last_endpoint_counts(
    before: Map<Seq<char>, EndpointModel>,
    added: Seq<(Seq<char>, EndpointModel)>,
    i: int,
    path: Seq<char>,
)
    ensures
        0 <= i < added.len() && (forall|j: int| i < j < added.len() ==> added[j].0 != added[i].0)
            ==> with_endpoints(before, added).contains_key(added[i].0) && with_endpoints(
            before,
            added,
        )[added[i].0] == added[i].1,
        (forall|j: int| 0 <= j < added.len() ==> added[j].0 != path) ==> with_endpoints(
            before,
            added,
        ).contains_key(path) == before.contains_key(path) && (before.contains_key(path)
            ==> with_endpoints(before, added)[path] == before[path]),
    decreases added.len(),
{
    if added.len() > 0 {
        let rest = added.drop_last();
        law_last_endpoint_counts(before, rest, i, path);
        if i == added.len() - 1 {
            assert(added.last() == added[i]);
        } else if 0 <= i < added.len() {
            assert(rest[i] == added[i]);
            assert(forall|j: int| i < j < rest.len() ==> rest[j] == added[j]);
            assert(added.last() == added[added.len() - 1]);
        }
        assert(forall|j: int| 0 <= j < rest.len() ==> rest[j] == added[j]);
    }
}

/// An endpoint requires exactly the permission that is configured for it, and
/// is open to all where none is.
pub proof fn law_permission_is_configured(config: EndpointConfig)
    ensures
        config.model() matches Ok(model) ==> {
            let permission = match config {
                EndpointConfig::IpEndpoint { common, .. } => common.permission,
                EndpointConfig::UdpEndpoint { common } => common.permission,
                EndpointConfig::Files { common, .. } => common.permission,
            };
            match permission {
                Some(label) => model.permission() == Some(label@),
                None => model.permission() is None,
            }
        },
{
}

/// Where every text names a network, there are as many networks as texts, and
/// each is the one that the text at its place names. Otherwise the error is that
/// of the first text that names none.
pub proof fn law_networks_are_those_in_the_texts(list: Seq<Seq<char>>)
    ensures
        networks_of(list) is Ok <==> forall|i: int|
            0 <= i < list.len() ==> crate::net::network_of_text(#[trigger] list[i]) is Some,
        networks_of(list) matches Ok(networks) ==> {
            &&& networks.len() == list.len()
            &&& forall|i: int|
                0 <= i < list.len() ==> crate::net::network_of_text(#[trigger] list[i]) == Some(
                    networks[i],
                )
        },
        networks_of(list) matches Err(e) ==> exists|i: int|
            {
                &&& 0 <= i < list.len()
                &&& crate::net::network_of_text(#[trigger] list[i]) is None
                &&& e == ErrorView::AddressParse("invalid address: "@ + list[i])
                &&& forall|j: int|
                    0 <= j < i ==> crate::net::network_of_text(#[trigger] list[j]) is Some
            },
    decreases list.len(),
{
    if list.len() > 0 {
        let before = list.drop_last();
        law_networks_are_those_in_the_texts(before);
        assert(forall|i: int| 0 <= i < before.len() ==> before[i] == list[i]);
        assert(list.last() == list[list.len() - 1]);
        if let Err(e) = networks_of(before) {
            let i = choose|i: int|
                {
                    &&& 0 <= i < before.len()
                    &&& crate::net::network_of_text(#[trigger] before[i]) is None
                    &&& e == ErrorView::AddressParse("invalid address: "@ + before[i])
                    &&& forall|j: int|
                        0 <= j < i ==> crate::net::network_of_text(#[trigger] before[j]) is Some
                };
            assert(crate::net::network_of_text(list[i]) is None);
        }
    }
}

/// Where every text names a network, there are as many pools as texts, and each is
/// over the network that the text at its place names, with only that network's own
/// address in use. Otherwise the error is that of the first text that names none.
pub proof fn law_pools_are_over_the_networks_in_the_texts(list: Seq<Seq<char>>)
    ensures
        pools_of(list) is Ok <==> forall|i: int|
            0 <= i < list.len() ==> crate::net::network_of_text(#[trigger] list[i]) is Some,
        pools_of(list) matches Ok(pools) ==> {
            &&& pools.len() == list.len()
            &&& forall|i: int|
                0 <= i < list.len() ==> crate::net::network_of_text(#[trigger] list[i]) == Some(
                    pools[i].prefix,
                ) && pools[i].next == 1 && pools[i].used
                    == set![pools[i].prefix.ip().value() as u128]
        },
        pools_of(list) matches Err(e) ==> exists|i: int|
            {
                &&& 0 <= i < list.len()
                &&& crate::net::network_of_text(#[trigger] list[i]) is None
                &&& e == ErrorView::AddressParse("invalid address: "@ + list[i])
                &&& forall|j: int|
                    0 <= j < i ==> crate::net::network_of_text(#[trigger] list[j]) is Some
            },
    decreases list.len(),
{
    if list.len() > 0 {
        let before = list.drop_last();
        law_pools_are_over_the_networks_in_the_texts(before);
        assert(forall|i: int| 0 <= i < before.len() ==> before[i] == list[i]);
        assert(list.last() == list[list.len() - 1]);
        if let Err(e) = pools_of(before) {
            let i = choose|i: int|
                {
                    &&& 0 <= i < before.len()
                    &&& crate::net::network_of_text(#[trigger] before[i]) is None
                    &&& e == ErrorView::AddressParse("invalid address: "@ + before[i])
                    &&& forall|j: int|
                        0 <= j < i ==> crate::net::network_of_text(#[trigger] before[j]) is Some
                };
            assert(crate::net::network_of_text(list[i]) is None);
        }
    }
}

/// An endpoint stands at the path that is configured.
pub proof fn law_endpoint_has_the_configured_path(config: EndpointConfig)
    ensures
        config matches EndpointConfig::IpEndpoint { common, .. } ==> config.path() == common.path@,
        config matches EndpointConfig::UdpEndpoint { common } ==> config.path() == common.path@,
        config matches EndpointConfig::Files { common, .. } ==> config.path() == common.path@,
{
}

/// An endpoint for files has the directory that is configured; it and one for UDP
/// tunnels are never refused. One for IP tunnels has the interface prefix that is
/// configured, no tunnels yet, a pool for each text with a network, and what it
/// advertises are the routes to the networks that the texts name, each in its place.
pub proof fn law_endpoint_is_as_configured(config: EndpointConfig)
    ensures
        config matches EndpointConfig::UdpEndpoint { .. } ==> config.model() matches Ok(
            EndpointModel::Udp(_),
        ),
        config matches EndpointConfig::Files { root, .. } ==> (config.model() matches Ok(
            EndpointModel::Files(files),
        ) && files.root == root@),
        config matches EndpointConfig::IpEndpoint { ifprefix, addresspools, routes, .. } ==> {
            &&& config.model() is Ok <==> {
                &&& forall|i: int|
                    0 <= i < addresspools@.len() ==> crate::net::network_of_text(
                        (#[trigger] addresspools@[i])@,
                    ) is Some
                &&& forall|i: int|
                    0 <= i < routes@.len() ==> crate::net::network_of_text(
                        (#[trigger] routes@[i])@,
                    ) is Some
            }
            &&& config.model() matches Ok(model) ==> {
                &&& model matches EndpointModel::Ip(endpoint)
                &&& endpoint.ifprefix == ifprefix@
                &&& endpoint.tuncount == 0
                &&& !endpoint.teststream
                &&& endpoint.pools.len() == addresspools@.len()
                &&& forall|i: int|
                    0 <= i < addresspools@.len() ==> crate::net::network_of_text(
                        (#[trigger] addresspools@[i])@,
                    ) == Some(endpoint.pools[i].prefix)
                &&& exists|networks: Seq<IpNetwork>|
                    {
                        &&& networks.len() == routes@.len()
                        &&& forall|i: int|
                            0 <= i < routes@.len() ==> crate::net::network_of_text(
                                (#[trigger] routes@[i])@,
                            ) == Some(networks[i])
                        &&& endpoint.route_adv == #[trigger] crate::stream::capsule::routes_bytes(
                            networks,
                        )
                    }
            }
        },
{
    if let EndpointConfig::IpEndpoint { addresspools, routes, .. } = config {
        let pool_texts = texts(addresspools@);
        let route_texts = texts(routes@);
        law_pools_are_over_the_networks_in_the_texts(pool_texts);
        law_networks_are_those_in_the_texts(route_texts);
        assert(forall|i: int|
            0 <= i < addresspools@.len() ==> pool_texts[i] == (#[trigger] addresspools@[i])@);
        assert(forall|i: int|
            0 <= i < routes@.len() ==> route_texts[i] == (#[trigger] routes@[i])@);
        assert(forall|i: int|
            0 <= i < addresspools@.len() ==> #[trigger] pool_texts[i] == addresspools@[i]@);
        assert(forall|i: int|
            0 <= i < routes@.len() ==> #[trigger] route_texts[i] == routes@[i]@);
        if let Ok(EndpointModel::Ip(endpoint)) = config.model() {
            let networks = networks_of(route_texts)->Ok_0;
            assert(endpoint.route_adv == crate::stream::capsule::routes_bytes(networks));
        }
    }
}

/// Up to the first endpoint that is wrong, the endpoints are added in their order,
/// each at its path. None is left out where none is wrong, and otherwise the error
/// is that of the first wrong one.
pub proof fn law_endpoints_are_added_in_order(list: Seq<EndpointConfig>)
    ensures
        ({
            let (added, error) = configured(list);
            &&& added.len() <= list.len()
            &&& forall|i: int|
                0 <= i < added.len() ==> (#[trigger] added[i]).0 == list[i].path()
                    && list[i].model() == Ok::<_, ErrorView>(added[i].1)
            &&& error is None <==> added.len() == list.len()
            &&& added.len() < list.len() ==> (list[added.len() as int].model() matches Err(e)
                && error == Some(e))
        }),
    decreases list.len(),
{
    if list.len() > 0 {
        let before = list.drop_last();
        law_endpoints_are_added_in_order(before);
        assert(forall|i: int| 0 <= i < before.len() ==> before[i] == list[i]);
        assert(list.last() == list[list.len() - 1]);
    }
}

} // verus!
