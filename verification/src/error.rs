//! The error type of the library.

use vstd::prelude::*;
use vstd::string::StringExecFns;

use crate::text::decimal_text;

verus! {

/// Everything that can go wrong while serving or using a tunnel.
///
/// The variants from `Io` to `Jwt` carry the text of an error that arose
/// outside the library.
#[derive(Clone, Debug, PartialEq, Eq)]
pub enum PsqError {
    /// A capsule on an HTTP/3 stream was malformed.
    H3Capsule(String),
    /// The operation is not supported.
    NotSupported(String),
    /// An HTTP error status with its message.
    HttpResponse(u16, String),
    /// The stream is closing.
    StreamClose(String),
    /// An input or output error.
    Io(String),
    /// A URL could not be parsed.
    UrlParse(String),
    /// A network prefix could not be parsed.
    AddressParse(String),
    /// The QUIC layer failed.
    Quiche(String),
    /// The HTTP/3 layer failed.
    Http3(String),
    /// A buffer was too short for what was read from or written to it.
    Octets,
    /// The TUN interface failed.
    Tun(String),
    /// A text was not valid UTF-8.
    Utf8(String),
    /// A JSON Web Token was not acceptable.
    Jwt(String),
    /// Any other error.
    Custom(String),
    /// The operation is not implemented.
    Unimplemented,
}

/// The model of [`PsqError`]: the same variants over character sequences.
pub enum ErrorView {
    H3Capsule(Seq<char>),
    NotSupported(Seq<char>),
    HttpResponse(u16, Seq<char>),
    StreamClose(Seq<char>),
    Io(Seq<char>),
    UrlParse(Seq<char>),
    AddressParse(Seq<char>),
    Quiche(Seq<char>),
    Http3(Seq<char>),
    Octets,
    Tun(Seq<char>),
    Utf8(Seq<char>),
    Jwt(Seq<char>),
    Custom(Seq<char>),
    Unimplemented,
}

impl View for PsqError {
    type V = ErrorView;

    open spec fn view(&self) -> ErrorView {
        match *self {
            PsqError::H3Capsule(s) => ErrorView::H3Capsule(s@),
            PsqError::NotSupported(s) => ErrorView::NotSupported(s@),
            PsqError::HttpResponse(code, s) => ErrorView::HttpResponse(code, s@),
            PsqError::StreamClose(s) => ErrorView::StreamClose(s@),
            PsqError::Io(s) => ErrorView::Io(s@),
            PsqError::UrlParse(s) => ErrorView::UrlParse(s@),
            PsqError::AddressParse(s) => ErrorView::AddressParse(s@),
            PsqError::Quiche(s) => ErrorView::Quiche(s@),
            PsqError::Http3(s) => ErrorView::Http3(s@),
            PsqError::Octets => ErrorView::Octets,
            PsqError::Tun(s) => ErrorView::Tun(s@),
            PsqError::Utf8(s) => ErrorView::Utf8(s@),
            PsqError::Jwt(s) => ErrorView::Jwt(s@),
            PsqError::Custom(s) => ErrorView::Custom(s@),
            PsqError::Unimplemented => ErrorView::Unimplemented,
        }
    }
}

impl ErrorView {
    /// What is shown to a user for this error.
    pub open spec fn text(self) -> Seq<char> {
        match self {
            ErrorView::H3Capsule(s) => "HTTP/3 capsule error: "@ + s,
            ErrorView::NotSupported(s) => "Not supported: "@ + s,
            ErrorView::HttpResponse(code, s) => "HTTP response error: "@ + s + " ("@
                + crate::text::decimal(code as nat) + ")"@,
            ErrorView::StreamClose(s) => "Stream closing: "@ + s,
            ErrorView::Io(s) => "IO error: "@ + s,
            ErrorView::UrlParse(s) => "URL parse error: "@ + s,
            ErrorView::AddressParse(s) => "IP Address parse error: "@ + s,
            ErrorView::Quiche(s) => "QUIC error: "@ + s,
            ErrorView::Http3(s) => "HTTP/3 error: "@ + s,
            ErrorView::Octets => "Octets buffer error: BufferTooShortError"@,
            ErrorView::Tun(s) => "TUN interface error: "@ + s,
            ErrorView::Utf8(s) => "UTF8 parsing error: "@ + s,
            ErrorView::Jwt(s) => "JSON Web Token error: "@ + s,
            ErrorView::Custom(s) => "Custom error: "@ + s,
            ErrorView::Unimplemented => "Unimplemented"@,
        }
    }
}

impl PsqError {
    /// The same error once more.
    pub fn duplicate(&self) -> (r: PsqError)
        ensures
            r@ == self@,
    {
        match self {
            PsqError::H3Capsule(s) => PsqError::H3Capsule(s.as_str().to_owned()),
            PsqError::NotSupported(s) => PsqError::NotSupported(s.as_str().to_owned()),
            PsqError::HttpResponse(code, s) => PsqError::HttpResponse(*code, s.as_str().to_owned()),
            PsqError::StreamClose(s) => PsqError::StreamClose(s.as_str().to_owned()),
            PsqError::Io(s) => PsqError::Io(s.as_str().to_owned()),
            PsqError::UrlParse(s) => PsqError::UrlParse(s.as_str().to_owned()),
            PsqError::AddressParse(s) => PsqError::AddressParse(s.as_str().to_owned()),
            PsqError::Quiche(s) => PsqError::Quiche(s.as_str().to_owned()),
            PsqError::Http3(s) => PsqError::Http3(s.as_str().to_owned()),
            PsqError::Octets => PsqError::Octets,
            PsqError::Tun(s) => PsqError::Tun(s.as_str().to_owned()),
            PsqError::Utf8(s) => PsqError::Utf8(s.as_str().to_owned()),
            PsqError::Jwt(s) => PsqError::Jwt(s.as_str().to_owned()),
            PsqError::Custom(s) => PsqError::Custom(s.as_str().to_owned()),
            PsqError::Unimplemented => PsqError::Unimplemented,
        }
    }

    /// The text of the error.
    pub fn message(&self) -> (s: String)
        ensures
            s@ == self@.text(),
    {
        let (head, tail): (&str, &str) = match self {
            PsqError::H3Capsule(s) => ("HTTP/3 capsule error: ", s.as_str()),
            PsqError::NotSupported(s) => ("Not supported: ", s.as_str()),
            PsqError::HttpResponse(_, s) => ("HTTP response error: ", s.as_str()),
            PsqError::StreamClose(s) => ("Stream closing: ", s.as_str()),
            PsqError::Io(s) => ("IO error: ", s.as_str()),
            PsqError::UrlParse(s) => ("URL parse error: ", s.as_str()),
            PsqError::AddressParse(s) => ("IP Address parse error: ", s.as_str()),
            PsqError::Quiche(s) => ("QUIC error: ", s.as_str()),
            PsqError::Http3(s) => ("HTTP/3 error: ", s.as_str()),
            PsqError::Octets => ("Octets buffer error: BufferTooShortError", ""),
            PsqError::Tun(s) => ("TUN interface error: ", s.as_str()),
            PsqError::Utf8(s) => ("UTF8 parsing error: ", s.as_str()),
            PsqError::Jwt(s) => ("JSON Web Token error: ", s.as_str()),
            PsqError::Custom(s) => ("Custom error: ", s.as_str()),
            PsqError::Unimplemented => ("Unimplemented", ""),
        };
        proof {
            reveal_strlit("");
        }
        let mut s = crate::text::join(head, tail);
        if let PsqError::HttpResponse(code, _) = self {
            s.append(" (");
            s.append(decimal_text(*code as u128).as_str());
            s.append(")");
        }
        s
    }
}

/// The text of an error is a label for its kind and, behind that, the text that
/// the error carries, whatever that is. A status stands in brackets at the end.
pub proof fn law_error_text_carries_its_cause(s: Seq<char>, code: u16)
    ensures
        ErrorView::H3Capsule(s).text() == "HTTP/3 capsule error: "@ + s,
        ErrorView::NotSupported(s).text() == "Not supported: "@ + s,
        ErrorView::HttpResponse(code, s).text() == "HTTP response error: "@ + s + " ("@
            + crate::text::decimal(code as nat) + ")"@,
        ErrorView::StreamClose(s).text() == "Stream closing: "@ + s,
        ErrorView::Io(s).text() == "IO error: "@ + s,
        ErrorView::UrlParse(s).text() == "URL parse error: "@ + s,
        ErrorView::AddressParse(s).text() == "IP Address parse error: "@ + s,
        ErrorView::Quiche(s).text() == "QUIC error: "@ + s,
        ErrorView::Http3(s).text() == "HTTP/3 error: "@ + s,
        ErrorView::Tun(s).text() == "TUN interface error: "@ + s,
        ErrorView::Utf8(s).text() == "UTF8 parsing error: "@ + s,
        ErrorView::Jwt(s).text() == "JSON Web Token error: "@ + s,
        ErrorView::Custom(s).text() == "Custom error: "@ + s,
{
}

/// Errors have the same model exactly if they are of the same kind and say the
/// same.
pub proof fn law_error_models_tell_errors_apart(a: PsqError, b: PsqError)
    ensures
        (a, b) matches (PsqError::H3Capsule(s), PsqError::H3Capsule(t)) ==> (a@ == b@ <==> s@ == t@),
        (a, b) matches (PsqError::NotSupported(s), PsqError::NotSupported(t)) ==> (a@ == b@ <==> s@ == t@),
        (a, b) matches (PsqError::StreamClose(s), PsqError::StreamClose(t)) ==> (a@ == b@ <==> s@ == t@),
        (a, b) matches (PsqError::Io(s), PsqError::Io(t)) ==> (a@ == b@ <==> s@ == t@),
        (a, b) matches (PsqError::UrlParse(s), PsqError::UrlParse(t)) ==> (a@ == b@ <==> s@ == t@),
        (a, b) matches (PsqError::AddressParse(s), PsqError::AddressParse(t)) ==> (a@ == b@ <==> s@ == t@),
        (a, b) matches (PsqError::Quiche(s), PsqError::Quiche(t)) ==> (a@ == b@ <==> s@ == t@),
        (a, b) matches (PsqError::Http3(s), PsqError::Http3(t)) ==> (a@ == b@ <==> s@ == t@),
        (a, b) matches (PsqError::Tun(s), PsqError::Tun(t)) ==> (a@ == b@ <==> s@ == t@),
        (a, b) matches (PsqError::Utf8(s), PsqError::Utf8(t)) ==> (a@ == b@ <==> s@ == t@),
        (a, b) matches (PsqError::Jwt(s), PsqError::Jwt(t)) ==> (a@ == b@ <==> s@ == t@),
        (a, b) matches (PsqError::Custom(s), PsqError::Custom(t)) ==> (a@ == b@ <==> s@ == t@),
        (a, b) matches (PsqError::HttpResponse(c, s), PsqError::HttpResponse(d, t)) ==> (a@ == b@
            <==> c == d && s@ == t@),
        a@ == b@ ==> (a is H3Capsule <==> b is H3Capsule),
        a@ == b@ ==> (a is NotSupported <==> b is NotSupported),
        a@ == b@ ==> (a is StreamClose <==> b is StreamClose),
        a@ == b@ ==> (a is Io <==> b is Io),
        a@ == b@ ==> (a is UrlParse <==> b is UrlParse),
        a@ == b@ ==> (a is AddressParse <==> b is AddressParse),
        a@ == b@ ==> (a is Quiche <==> b is Quiche),
        a@ == b@ ==> (a is Http3 <==> b is Http3),
        a@ == b@ ==> (a is Tun <==> b is Tun),
        a@ == b@ ==> (a is Utf8 <==> b is Utf8),
        a@ == b@ ==> (a is Jwt <==> b is Jwt),
        a@ == b@ ==> (a is Custom <==> b is Custom),
        a@ == b@ ==> (a is HttpResponse <==> b is HttpResponse),
        a@ == b@ ==> (a is Octets <==> b is Octets),
        a@ == b@ ==> (a is Unimplemented <==> b is Unimplemented),
        a is Octets && b is Octets ==> a@ == b@,
        a is Unimplemented && b is Unimplemented ==> a@ == b@,
{
}

} // verus!
