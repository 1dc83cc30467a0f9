//! The server's endpoint for IP tunnels.

use vstd::prelude::*;
use vstd::string::StringExecFns;

use crate::buffer::{put_bytes, put_u8};
use crate::error::PsqError;
use crate::net::{IpAddr, IpNetwork};
use crate::stream::addresspool::{AddressPool, PoolView};
use crate::text::join;

verus! {

/// Server endpoint for IP tunnels over HTTP/3.
///
/// It can be given one or more address pools from which it assigns addresses to
/// the clients that connect, and routes that it advertises to them.
pub struct IpEndpoint {
    /// The prefix of the names of the TUN interfaces.
    pub ifprefix: String,
    /// The number of tunnels that were established.
    pub tuncount: u32,
    /// The pools of addresses to assign, for example one for IPv4 and one for
    /// IPv6.
    pub addrpools: Vec<AddressPool>,
    /// The routes that are advertised to clients, as they stand in a capsule.
    pub route_adv: Vec<u8>,
    /// The permission label that a client's token must have.
    pub permission: Option<String>,
    /// For testing support: whether the next tunnel gets a test stream.
    pub teststream: bool,
}

/// The model of [`IpEndpoint`].
#[verifier::ext_equal]
pub struct EndpointView {
    pub ifprefix: Seq<char>,
    pub tuncount: nat,
    pub pools: Seq<PoolView>,
    pub route_adv: Seq<u8>,
    pub permission: Option<Seq<char>>,
    pub teststream: bool,
}

impl View for IpEndpoint {
    type V = EndpointView;

    open spec fn view(&self) -> EndpointView {
        EndpointView {
            ifprefix: self.ifprefix@,
            tuncount: self.tuncount as nat,
            pools: self.addrpools@.map_values(|pool: AddressPool| pool@),
            route_adv: self.route_adv@,
            permission: match self.permission {
                Some(label) => Some(label@),
                None => None,
            },
            teststream: self.teststream,
        }
    }
}

/// The prefixes of pools, each after a blank.
pub open spec fn pools_text(pools: Seq<PoolView>) -> Seq<char>
    decreases pools.len(),
{
    if pools.len() == 0 {
        seq![]
    } else {
        pools_text(pools.drop_last()) + " "@ + pools.last().prefix.text()
    }
}

impl EndpointView {
    /// The pools are well-formed, and there is an index for each.
    pub open spec fn wf(self) -> bool {
        &&& self.pools.len() <= usize::MAX
        &&& forall|i: int| 0 <= i < self.pools.len() ==> (#[trigger] self.pools[i]).wf()
    }

    /// The endpoint in the notation of the log.
    pub open spec fn text(self) -> Seq<char> {
        "IpEndpoint("@ + self.ifprefix + pools_text(self.pools) + ")"@
    }

    /// The name of the interface of the next tunnel.
    pub open spec fn next_interface(self) -> Seq<char> {
        self.ifprefix + "-i"@ + crate::text::decimal(self.tuncount)
    }
}

impl IpEndpoint {
    /// The pools are well-formed.
    pub open spec fn wf(self) -> bool {
        self@.wf()
    }

    /// A new endpoint without pools and routes. For each tunnel it names an
    /// interface after the prefix: with `tun-s0`, the interfaces are
    /// `tun-s0-i0`, `tun-s0-i1`, and so on.
    pub fn new(ifprefix: &str) -> (r: IpEndpoint)
        ensures
            r.wf(),
            r@ == (EndpointView {
                ifprefix: ifprefix@,
                tuncount: 0,
                pools: seq![],
                route_adv: seq![],
                permission: None,
                teststream: false,
            }),
    {
        let r = IpEndpoint {
            ifprefix: ifprefix.to_owned(),
            tuncount: 0,
            addrpools: Vec::new(),
            route_adv: Vec::new(),
            permission: None,
            teststream: false,
        };
        assert(r@.pools =~= seq![]);
        r
    }

    /// Advertises a route to a network through the tunnels. This can be called
    /// for several networks.
    pub fn add_route(&mut self, prefix: IpNetwork) -> (r: Result<(), PsqError>)
        requires
            prefix.wf(),
            old(self)@.route_adv.len() + 34 <= usize::MAX,
        ensures
            r is Ok,
            final(self)@ == (EndpointView {
                route_adv: old(self)@.route_adv + crate::stream::capsule::route_bytes(prefix),
                ..old(self)@
            }),
    {
        let addrlen: usize = match prefix {
            IpNetwork::V4(_) => 4,
            IpNetwork::V6(_) => 16,
        };
        let start = self.route_adv.len();
        self.route_adv.resize(start + (2 * addrlen + 2), 0);
        let ghost zeros = self.route_adv@;
        proof {
            crate::stream::roundtrip::lemma_cidr_of_network(prefix);
            crate::bigendian::lemma_be_bytes_len(prefix.first(), addrlen as nat);
            crate::bigendian::lemma_be_bytes_len(prefix.last(), addrlen as nat);
        }
        let (version, first, last): (u8, IpAddr, IpAddr) = match prefix {
            IpNetwork::V4(n) => (4, IpAddr::V4(n.nth(0).unwrap()), IpAddr::V4(n.broadcast())),
            IpNetwork::V6(n) => (6, IpAddr::V6(n.nth(0).unwrap()), IpAddr::V6(n.broadcast())),
        };
        let mut off = put_u8(&mut self.route_adv, start, version)?;
        off = put_bytes(&mut self.route_adv, off, first.octets().as_slice())?;
        off = put_bytes(&mut self.route_adv, off, last.octets().as_slice())?;
        // All protocols are allowed.
        put_u8(&mut self.route_adv, off, 0)?;
        assert(self.route_adv@ =~= old(self).route_adv@ + crate::stream::capsule::route_bytes(
            prefix,
        ));
        Ok(())
    }

    /// Adds a pool of addresses. A client is assigned one address from each pool.
    pub fn add_addresspool(&mut self, ip: IpNetwork) -> (r: Result<(), PsqError>)
        requires
            old(self).wf(),
            ip.wf(),
        ensures
            r is Ok,
            final(self).wf(),
            final(self)@ == (EndpointView {
                pools: old(self)@.pools.push(
                    crate::stream::addresspool::fresh_pool(ip),
                ),
                ..old(self)@
            }),
    {
        let pool = AddressPool::new(ip)?;
        let ghost added = pool@;
        self.addrpools.push(pool);
        assert(self@.pools =~= old(self)@.pools.push(added));
        assert(self@.pools.len() == self.addrpools.len());
        Ok(())
    }

    /// Requires a permission label in the token of a client. Without it a
    /// request is rejected as unauthorized.
    pub fn require_permission(&mut self, permission: &String)
        ensures
            final(self)@ == (EndpointView { permission: Some(permission@), ..old(self)@ }),
    {
        self.permission = Some(permission.as_str().to_owned());
    }

    /// For testing support: the next tunnel gets a test stream.
    pub fn add_teststream(&mut self)
        ensures
            final(self)@ == (EndpointView { teststream: true, ..old(self)@ }),
    {
        self.teststream = true;
    }

    /// The endpoint in the notation of the log.
    pub fn fmt(&self) -> (s: String)
        requires
            self.wf(),
        ensures
            s@ == self@.text(),
    {
        let mut s = join("IpEndpoint(", self.ifprefix.as_str());
        let ghost head = s@;
        let mut i: usize = 0;
        assert(s@ =~= head + pools_text(self@.pools.take(0)));
        while i < self.addrpools.len()
            invariant
                i <= self.addrpools@.len(),
                self.wf(),
                self@.pools.len() == self.addrpools@.len(),
                s@ == head + pools_text(self@.pools.take(i as int)),
            decreases self.addrpools@.len() - i,
        {
            proof {
                let done = self@.pools.take(i + 1);
                assert(done.drop_last() =~= self@.pools.take(i as int));
                assert(self@.pools[i as int] == self.addrpools@[i as int]@);
                assert(done.last() == self@.pools[i as int]);
            }
            s.append(" ");
            s.append(self.addrpools[i].prefix.to_text().as_str());
            i = i + 1;
            assert(s@ =~= head + pools_text(self@.pools.take(i as int)));
        }
        assert(self@.pools.take(i as int) =~= self@.pools);
        s.append(")");
        s
    }
}

/// The endpoint in the notation of the log shows the prefix of its interfaces and
/// then the network of each pool in the order in which the pools were added.
pub proof fn law_endpoint_text_lists_its_pools(endpoint: EndpointView, pool: PoolView)
    ensures
        endpoint.pools.len() == 0 ==> endpoint.text() == "IpEndpoint("@ + endpoint.ifprefix + ")"@,
        (EndpointView { pools: endpoint.pools.push(pool), ..endpoint }).text()
            == endpoint.text().drop_last() + " "@ + pool.prefix.text() + ")"@,
{
    reveal_strlit(")");
    assert(endpoint.pools.push(pool).drop_last() =~= endpoint.pools);
    assert(endpoint.text().drop_last() =~= "IpEndpoint("@ + endpoint.ifprefix + pools_text(
        endpoint.pools,
    ));
    if endpoint.pools.len() == 0 {
        assert(endpoint.text() =~= "IpEndpoint("@ + endpoint.ifprefix + ")"@);
    }
    assert((EndpointView { pools: endpoint.pools.push(pool), ..endpoint }).text()
        =~= endpoint.text().drop_last() + " "@ + pool.prefix.text() + ")"@);
}

} // verus!
