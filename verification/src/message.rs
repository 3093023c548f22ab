//! Plain models of the HTTP messages the proxy moves around.
//!
//! The proxy never interprets bodies; it reads the method and the headers,
//! appends a forwarding-address entry, and builds small synthetic error
//! replies. Reading messages off a byte stream and writing them back is codec
//! work left to the caller.

use vstd::prelude::*;

verus! {

pub const STATUS_OK: u16 = 200;

pub const STATUS_BAD_REQUEST: u16 = 400;

pub const STATUS_PAYLOAD_TOO_LARGE: u16 = 413;

pub const STATUS_TOO_MANY_REQUESTS: u16 = 429;

pub const STATUS_BAD_GATEWAY: u16 = 502;

pub const STATUS_SERVICE_UNAVAILABLE: u16 = 503;

/// One request: method, target, header entries in order, opaque body bytes.
/// A header name may occur on several entries; the entries of one name form
/// its value chain, in order.
pub struct HttpRequest {
    pub method: String,
    pub uri: String,
    pub headers: Vec<(String, String)>,
    pub body: Vec<u8>,
}

/// One response: status code, reason phrase, headers, opaque body bytes.
pub struct HttpResponse {
    pub status: u16,
    pub reason: String,
    pub headers: Vec<(String, String)>,
    pub body: Vec<u8>,
}

/// The values carried by header `name`, in entry order.
pub open spec fn header_values_of(
    headers: Seq<(Seq<char>, Seq<char>)>,
    name: Seq<char>,
) -> Seq<Seq<char>>
    decreases headers.len(),
{
    if headers.len() == 0 {
        Seq::empty()
    } else {
        let rest = header_values_of(headers.drop_last(), name);
        if headers.last().0 == name {
            rest.push(headers.last().1)
        } else {
            rest
        }
    }
}

impl HttpRequest {
    /// The header entries as character sequences.
    pub open spec fn header_seq(&self) -> Seq<(Seq<char>, Seq<char>)> {
        self.headers.deep_view()
    }

    /// The value chain of header `name`.
    pub open spec fn header_values(&self, name: Seq<char>) -> Seq<Seq<char>> {
        header_values_of(self.header_seq(), name)
    }
}

/// Append `value` as a further entry of header `name`. Never overwrites:
/// every existing entry is retained and order is preserved, so the value
/// chain of `name` grows by exactly this value at the end.
pub fn extend_header_value(req: &mut HttpRequest, name: &str, value: &str)
    ensures
        final(req).method == old(req).method,
        final(req).uri == old(req).uri,
        final(req).body == old(req).body,
        final(req).header_seq() == old(req).header_seq().push((name@, value@)),
{
    req.headers.push((name.to_owned(), value.to_owned()));
    proof {
        assert(req.header_seq() =~= old(req).header_seq().push((name@, value@)));
    }
}

/// Appending an entry extends exactly the chain of its own name, by exactly
/// its value; every other name's chain is untouched.
pub proof fn lemma_header_append(
    headers: Seq<(Seq<char>, Seq<char>)>,
    name: Seq<char>,
    value: Seq<char>,
)
    ensures
        header_values_of(headers.push((name, value)), name) == header_values_of(
            headers,
            name,
        ).push(value),
        forall|other: Seq<char>|
            other != name ==> header_values_of(headers.push((name, value)), other)
                == header_values_of(headers, other),
{
    let pushed = headers.push((name, value));
    assert(pushed.drop_last() =~= headers);
    assert(header_values_of(pushed, name) == header_values_of(headers, name).push(value));
    assert forall|other: Seq<char>| other != name implies header_values_of(pushed, other)
        == header_values_of(headers, other) by {
        assert(pushed.last().0 != other);
    }
}

/// Annotation is chaining, not overwriting: appending two forwarding entries
/// in turn — as when a request passes through two proxies — leaves the
/// original chain intact and adds the two values at its end, in order.
pub proof fn lemma_annotation_chain(
    headers: Seq<(Seq<char>, Seq<char>)>,
    name: Seq<char>,
    first: Seq<char>,
    second: Seq<char>,
)
    ensures
        header_values_of(headers.push((name, first)).push((name, second)), name)
            == header_values_of(headers, name).push(first).push(second),
        forall|other: Seq<char>|
            other != name ==> header_values_of(
                headers.push((name, first)).push((name, second)),
                other,
            ) == header_values_of(headers, other),
{
    lemma_header_append(headers, name, first);
    lemma_header_append(headers.push((name, first)), name, second);
}

/// The canonical reason phrase for the status codes the proxy itself emits.
pub open spec fn spec_reason(status: u16) -> Seq<char> {
    if status == STATUS_BAD_REQUEST {
        "Bad Request"@
    } else if status == STATUS_PAYLOAD_TOO_LARGE {
        "Payload Too Large"@
    } else if status == STATUS_TOO_MANY_REQUESTS {
        "Too Many Requests"@
    } else if status == STATUS_BAD_GATEWAY {
        "Bad Gateway"@
    } else if status == STATUS_SERVICE_UNAVAILABLE {
        "Service Unavailable"@
    } else {
        "Error"@
    }
}

/// A synthetic error reply: the given status, its reason phrase, no headers,
/// no body.
pub fn make_http_error(status: u16) -> (r: HttpResponse)
    ensures
        r.status == status,
        r.reason@ == spec_reason(status),
        r.headers@.len() == 0,
        r.body@.len() == 0,
{
    let reason: String = if status == STATUS_BAD_REQUEST {
        "Bad Request".to_owned()
    } else if status == STATUS_PAYLOAD_TOO_LARGE {
        "Payload Too Large".to_owned()
    } else if status == STATUS_TOO_MANY_REQUESTS {
        "Too Many Requests".to_owned()
    } else if status == STATUS_BAD_GATEWAY {
        "Bad Gateway".to_owned()
    } else if status == STATUS_SERVICE_UNAVAILABLE {
        "Service Unavailable".to_owned()
    } else {
        "Error".to_owned()
    };
    HttpResponse { status, reason, headers: Vec::new(), body: Vec::new() }
}

} // verus!
