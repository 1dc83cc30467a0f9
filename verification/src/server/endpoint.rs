//! The endpoints that a server can have.

use vstd::prelude::*;

use crate::stream::files::{Files, FilesView};
use crate::stream::ipendpoint::{EndpointView, IpEndpoint};
use crate::stream::udpendpoint::UdpEndpoint;

verus! {

/// An endpoint of the server.
pub enum Endpoint {
    /// An endpoint for IP tunnels.
    Ip(IpEndpoint),
    /// An endpoint for UDP tunnels.
    Udp(UdpEndpoint),
    /// An endpoint for static files.
    Files(Files),
}

/// The model of [`Endpoint`].
pub enum EndpointModel {
    Ip(EndpointView),
    Udp(Option<Seq<char>>),
    Files(FilesView),
}

impl View for Endpoint {
    type V = EndpointModel;

    open spec fn view(&self) -> EndpointModel {
        match *self {
            Endpoint::Ip(e) => EndpointModel::Ip(e@),
            Endpoint::Udp(e) => EndpointModel::Udp(e@),
            Endpoint::Files(e) => EndpointModel::Files(e@),
        }
    }
}

impl EndpointModel {
    /// The pools of an endpoint for IP tunnels are well-formed.
    pub open spec fn wf(self) -> bool {
        match self {
            EndpointModel::Ip(e) => e.wf(),
            _ => true,
        }
    }

    /// The endpoint in the notation of the log.
    pub open spec fn text(self) -> Seq<char> {
        match self {
            EndpointModel::Ip(e) => e.text(),
            EndpointModel::Udp(_) => "UdpEndpoint()"@,
            EndpointModel::Files(e) => "Files("@ + e.root + ")"@,
        }
    }

    /// The permission label that a client's token must have.
    pub open spec fn permission(self) -> Option<Seq<char>> {
        match self {
            EndpointModel::Ip(e) => e.permission,
            EndpointModel::Udp(permission) => permission,
            EndpointModel::Files(e) => e.permission,
        }
    }
}

impl Endpoint {
    /// The endpoint in the notation of the log.
    pub fn fmt(&self) -> (s: String)
        requires
            self@.wf(),
        ensures
            s@ == self@.text(),
    {
        match self {
            Endpoint::Ip(e) => e.fmt(),
            Endpoint::Udp(e) => e.fmt(),
            Endpoint::Files(e) => e.fmt(),
        }
    }
}

/// The log names the kind of each endpoint, and for files the directory.
pub proof fn law_endpoint_text_names_its_kind(endpoint: EndpointModel)
    ensures
        endpoint matches EndpointModel::Ip(e) ==> endpoint.text() == e.text(),
        endpoint is Udp ==> endpoint.text() == "UdpEndpoint()"@,
        endpoint matches EndpointModel::Files(e) ==> endpoint.text() == "Files("@ + e.root + ")"@,
{
}

/// Every kind of endpoint asks for the permission that it was given.
pub proof fn law_endpoint_asks_for_its_permission(endpoint: EndpointModel)
    ensures
        endpoint matches EndpointModel::Ip(e) ==> endpoint.permission() == e.permission,
        endpoint matches EndpointModel::Udp(p) ==> endpoint.permission() == p,
        endpoint matches EndpointModel::Files(e) ==> endpoint.permission() == e.permission,
{
}

} // verus!
