//! The HTTP/3 responses of the server.

use vstd::prelude::*;
use vstd::string::StrSliceExecFns;

use crate::text::{decimal_text, join};

verus! {

/// The version that the server names in its responses and tokens.
pub const VERSION_IDENTIFICATION: &'static str = "0.1.0";

/// An HTTP/3 header.
#[derive(Clone, Debug, PartialEq, Eq)]
pub struct Header {
    /// The name of the header.
    pub name: Vec<u8>,
    /// Its value.
    pub value: Vec<u8>,
}

/// The model of [`Header`].
pub struct HeaderView {
    pub name: Seq<u8>,
    pub value: Seq<u8>,
}

impl View for Header {
    type V = HeaderView;

    open spec fn view(&self) -> HeaderView {
        HeaderView { name: self.name@, value: self.value@ }
    }
}

/// A header with a name and a value in UTF-8.
pub open spec fn text_header(name: Seq<char>, value: Seq<char>) -> HeaderView {
    HeaderView {
        name: vstd::utf8::encode_utf8(name),
        value: vstd::utf8::encode_utf8(value),
    }
}

/// The headers of a response with a status and a body of the given length. All
/// responses say that capsules are understood.
pub open spec fn response_headers(status: u16, body_len: nat) -> Seq<HeaderView> {
    seq![
        text_header(":status"@, crate::text::decimal(status as nat)),
        text_header("server"@, "pasque/"@ + VERSION_IDENTIFICATION@),
        text_header("capsule-protocol"@, "?1"@),
        text_header("content-length"@, crate::text::decimal(body_len)),
    ]
}

/// The models of a list of headers.
pub open spec fn headers_view(headers: Seq<Header>) -> Seq<HeaderView> {
    headers.map_values(|h: Header| h@)
}

/// A header with a name and a value in UTF-8.
fn new_header(name: &str, value: &str) -> (r: Header)
    ensures
        r@ == text_header(name@, value@),
{
    Header { name: name.as_bytes_vec(), value: value.as_bytes_vec() }
}

/// The headers of a response with a status and a body.
pub fn build_h3_resp_headers(status: u16, body: &Vec<u8>) -> (r: Vec<Header>)
    ensures
        headers_view(r@) == response_headers(status, body@.len()),
{
    let mut headers: Vec<Header> = Vec::new();
    headers.push(new_header(":status", decimal_text(status as u128).as_str()));
    headers.push(new_header("server", join("pasque/", VERSION_IDENTIFICATION).as_str()));
    headers.push(new_header("capsule-protocol", "?1"));
    headers.push(new_header("content-length", decimal_text(body.len() as u128).as_str()));
    assert(headers_view(headers@) =~= response_headers(status, body@.len()));
    headers
}

/// A response with a status and a message, which ends the stream.
pub fn build_h3_response(status: u16, msg: &str) -> (r: (Vec<Header>, Vec<u8>, bool))
    ensures
        r.1@ == vstd::utf8::encode_utf8(msg@),
        headers_view(r.0@) == response_headers(status, r.1@.len()),
        r.2,
{
    let body = msg.as_bytes_vec();
    (build_h3_resp_headers(status, &body), body, true)
}

/// Texts with the same bytes are the same.
proof fn lemma_bytes_tell_texts_apart(a: Seq<char>, b: Seq<char>)
    requires
        vstd::utf8::encode_utf8(a) == vstd::utf8::encode_utf8(b),
    ensures
        a == b,
{
    vstd::utf8::encode_utf8_decode_utf8(a);
    vstd::utf8::encode_utf8_decode_utf8(b);
}

/// The names of the headers of a response differ.
proof fn lemma_names_differ()
    ensures
        vstd::utf8::encode_utf8(":status"@) != vstd::utf8::encode_utf8("server"@),
        vstd::utf8::encode_utf8(":status"@) != vstd::utf8::encode_utf8("capsule-protocol"@),
        vstd::utf8::encode_utf8(":status"@) != vstd::utf8::encode_utf8("content-length"@),
        vstd::utf8::encode_utf8("server"@) != vstd::utf8::encode_utf8("capsule-protocol"@),
        vstd::utf8::encode_utf8("server"@) != vstd::utf8::encode_utf8("content-length"@),
        vstd::utf8::encode_utf8("capsule-protocol"@) != vstd::utf8::encode_utf8(
            "content-length"@,
        ),
{
    reveal_strlit(":status");
    reveal_strlit("server");
    reveal_strlit("capsule-protocol");
    reveal_strlit("content-length");
    assert(":status"@.len() == 7 && "server"@.len() == 6 && "capsule-protocol"@.len() == 16
        && "content-length"@.len() == 14);
    if vstd::utf8::encode_utf8(":status"@) == vstd::utf8::encode_utf8("server"@) {
        lemma_bytes_tell_texts_apart(":status"@, "server"@);
    }
    if vstd::utf8::encode_utf8(":status"@) == vstd::utf8::encode_utf8("capsule-protocol"@) {
        lemma_bytes_tell_texts_apart(":status"@, "capsule-protocol"@);
    }
    if vstd::utf8::encode_utf8(":status"@) == vstd::utf8::encode_utf8("content-length"@) {
        lemma_bytes_tell_texts_apart(":status"@, "content-length"@);
    }
    if vstd::utf8::encode_utf8("server"@) == vstd::utf8::encode_utf8("capsule-protocol"@) {
        lemma_bytes_tell_texts_apart("server"@, "capsule-protocol"@);
    }
    if vstd::utf8::encode_utf8("server"@) == vstd::utf8::encode_utf8("content-length"@) {
        lemma_bytes_tell_texts_apart("server"@, "content-length"@);
    }
    if vstd::utf8::encode_utf8("capsule-protocol"@) == vstd::utf8::encode_utf8(
        "content-length"@,
    ) {
        lemma_bytes_tell_texts_apart("capsule-protocol"@, "content-length"@);
    }
}

/// A response has exactly one status header, whose value stands for the status
/// that was asked for, exactly one for the length of the body, whose value stands
/// for that length, and one each for the server and the capsule protocol.
pub proof fn law_response_tells_status_and_length(status: u16, body_len: nat)
    ensures
        ({
            let h = response_headers(status, body_len);
            &&& h.len() == 4
            &&& forall|i: int, j: int|
                0 <= i < j < h.len() ==> (#[trigger] h[i]).name != (#[trigger] h[j]).name
            &&& exists|i: int|
                0 <= i < h.len() && (#[trigger] h[i]).name == vstd::utf8::encode_utf8(":status"@)
            &&& exists|i: int|
                0 <= i < h.len() && (#[trigger] h[i]).name == vstd::utf8::encode_utf8(
                    "content-length"@,
                )
            &&& forall|i: int|
                0 <= i < h.len() ==> {
                    &&& (#[trigger] h[i]).name == vstd::utf8::encode_utf8(":status"@)
                        ==> crate::text::decimal_value(vstd::utf8::decode_utf8(h[i].value))
                        == status
                    &&& h[i].name == vstd::utf8::encode_utf8("content-length"@)
                        ==> crate::text::decimal_value(vstd::utf8::decode_utf8(h[i].value))
                        == body_len
                    &&& h[i].name == vstd::utf8::encode_utf8("server"@) ==> h[i].value
                        == vstd::utf8::encode_utf8("pasque/"@ + VERSION_IDENTIFICATION@)
                    &&& h[i].name == vstd::utf8::encode_utf8("capsule-protocol"@) ==> h[i].value
                        == vstd::utf8::encode_utf8("?1"@)
                }
        }),
{
    let h = response_headers(status, body_len);
    lemma_names_differ();
    crate::text::law_decimal_reads_back(status as nat);
    crate::text::law_decimal_reads_back(body_len);
    vstd::utf8::encode_utf8_decode_utf8(crate::text::decimal(status as nat));
    vstd::utf8::encode_utf8_decode_utf8(crate::text::decimal(body_len));
    assert(h[0].name == vstd::utf8::encode_utf8(":status"@));
    assert(h[1].name == vstd::utf8::encode_utf8("server"@));
    assert(h[2].name == vstd::utf8::encode_utf8("capsule-protocol"@));
    assert(h[3].name == vstd::utf8::encode_utf8("content-length"@));
}

/// Responses with different statuses, or with bodies of different lengths, have
/// different headers.
pub proof fn law_headers_tell_responses_apart(a: u16, b: u16, m: nat, n: nat)
    requires
        response_headers(a, m) == response_headers(b, n),
    ensures
        a == b,
        m == n,
{
    law_response_tells_status_and_length(a, m);
    law_response_tells_status_and_length(b, n);
    let h = response_headers(a, m);
    let i = choose|i: int|
        0 <= i < h.len() && (#[trigger] h[i]).name == vstd::utf8::encode_utf8(":status"@);
    let j = choose|i: int|
        0 <= i < h.len() && (#[trigger] h[i]).name == vstd::utf8::encode_utf8("content-length"@);
    assert(crate::text::decimal_value(vstd::utf8::decode_utf8(h[i].value)) == a);
    assert(crate::text::decimal_value(vstd::utf8::decode_utf8(h[j].value)) == m);
}

/// The models of headers are the bytes of their names and values, one for each.
pub proof fn law_header_models_keep_all_headers(headers: Seq<Header>, i: int)
    ensures
        headers_view(headers).len() == headers.len(),
        0 <= i < headers.len() ==> headers_view(headers)[i].name == headers[i].name@
            && headers_view(headers)[i].value == headers[i].value@,
{
}

} // verus!
