//! The server's endpoint for UDP tunnels.

use vstd::prelude::*;

verus! {

/// Server endpoint for UDP tunnels over HTTP/3. All parameters of a tunnel are
/// in the request.
pub struct UdpEndpoint {
    /// The permission label that a client's token must have.
    pub permission: Option<String>,
}

impl View for UdpEndpoint {
    type V = Option<Seq<char>>;

    /// The permission label.
    open spec fn view(&self) -> Option<Seq<char>> {
        match self.permission {
            Some(label) => Some(label@),
            None => None,
        }
    }
}

impl UdpEndpoint {
    /// An endpoint that is open to all.
    pub fn new() -> (r: UdpEndpoint)
        ensures
            r@ is None,
    {
        UdpEndpoint { permission: None }
    }

    /// Requires a permission label in the token of a client.
    pub fn require_permission(&mut self, permission: &String)
        ensures
            final(self)@ == Some(permission@),
    {
        self.permission = Some(permission.as_str().to_owned());
    }

    /// The endpoint in the notation of the log.
    pub fn fmt(&self) -> (s: String)
        ensures
            s@ == "UdpEndpoint()"@,
    {
        "UdpEndpoint()".to_owned()
    }
}

} // verus!
