//! The request with which a client opens an IP tunnel.

use vstd::prelude::*;

use crate::error::{ErrorView, PsqError};
use crate::stream::iptunnel::IpTunnel;

verus! {

/// The URL that the `url` crate gets by joining a reference to a base URL, or
/// the text of its error. A base that is no URL is an error too.
pub uninterp spec fn joined_url(base: Seq<char>, reference: Seq<char>) -> Result<
    Seq<char>,
    Seq<char>,
>;

/// That the outcome of joining is the expected one.
pub open spec fn url_is(
    expected: Result<Seq<char>, Seq<char>>,
    r: Result<String, String>,
) -> bool {
    match (r, expected) {
        (Ok(url), Ok(text)) => url@ == text,
        (Err(e), Err(text)) => e@ == text,
        _ => false,
    }
}

/// Calls `url::Url::join` on a base URL, which `url::Url::parse` reads from its
/// text: the named URL or error.
#[verifier::external_body]
fn url_join(base: &str, reference: &str) -> (r: Result<String, String>)
    ensures
        url_is(joined_url(base@, reference@), r),
{
    let base = url::Url::parse(base).map_err(|e| e.to_string())?;
    let url = base.join(reference).map_err(|e| e.to_string())?;
    Ok(url.to_string())
}

/// A CONNECT request for a tunnel.
#[derive(Clone, Debug, PartialEq, Eq)]
pub struct ConnectRequest {
    /// The URL of the endpoint.
    pub url: String,
    /// The protocol that is asked for.
    pub protocol: String,
}

/// The protocol of IP tunnels.
pub const CONNECT_IP: &'static str = "connect-ip";

impl IpTunnel {
    /// The request that opens an IP tunnel over a connection with the given base
    /// URL. `urlstr` is the path of the endpoint at the server, which is appended
    /// to the base URL.
    pub fn connect(base: &str, urlstr: &str) -> (r: Result<ConnectRequest, PsqError>)
        ensures
            match (r, joined_url(base@, urlstr@)) {
                (Ok(request), Ok(url)) => request.url@ == url && request.protocol@ == CONNECT_IP@,
                (Err(e), Err(text)) => e@ == ErrorView::UrlParse(text),
                _ => false,
            },
    {
        Self::connect_to(url_join(base, urlstr))
    }

    /// The request that opens an IP tunnel at a URL, or the error of a URL that
    /// is none.
    pub fn connect_to(url: Result<String, String>) -> (r: Result<ConnectRequest, PsqError>)
        ensures
            match (r, url) {
                (Ok(request), Ok(url)) => request.url@ == url@ && request.protocol@ == CONNECT_IP@,
                (Err(e), Err(text)) => e@ == ErrorView::UrlParse(text@),
                _ => false,
            },
    {
        match url {
            Ok(url) => Ok(ConnectRequest { url, protocol: CONNECT_IP.to_owned() }),
            Err(text) => Err(PsqError::UrlParse(text)),
        }
    }
}

/// An outcome of joining that agrees with its model has the text of the model.
pub proof fn law_urls_are_exact(
    expected: Result<Seq<char>, Seq<char>>,
    r: Result<String, String>,
)
    requires
        url_is(expected, r),
    ensures
        r is Ok <==> expected is Ok,
        r matches Ok(url) ==> expected == Ok::<_, Seq<char>>(url@),
        r matches Err(text) ==> expected == Err::<Seq<char>, _>(text@),
{
}

} // verus!
