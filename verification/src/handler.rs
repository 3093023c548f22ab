//! Per-connection decisions of the request loop.
//!
//! The caller owns the sockets: it reads requests, writes replies, and
//! forwards bytes. Each step hands its outcome to these functions, which
//! decide — per the error taxonomy — what is owed to the client and whether
//! the connection lives on.

use crate::message::extend_header_value;
use crate::message::HttpRequest;
use crate::message::STATUS_BAD_REQUEST;
use crate::message::STATUS_PAYLOAD_TOO_LARGE;
use crate::rate_limit::bump;
use crate::rate_limit::count_of;
use crate::rate_limit::rate_limit_step;
use crate::rate_limit::RateDecision;
use crate::rate_limit::RateLimitTable;
use vstd::prelude::*;

verus! {

/// Why a request could not be read off the client stream.
#[derive(Clone, Copy, PartialEq, Eq, Structural, Debug)]
pub enum RequestError {
    /// Fewer bytes arrived than a whole request; the count is how many came.
    /// Zero bytes is a clean end of stream: the client is simply done.
    Incomplete(usize),
    /// The bytes do not parse as a request.
    Malformed,
    /// A content-length header that is not a number.
    InvalidContentLength,
    /// The body does not match its declared length.
    ContentLengthMismatch,
    /// The body exceeds the size the proxy accepts.
    BodyTooLarge,
    /// Transport-level failure while reading.
    Connection,
}

/// What the handler does with one read off the client stream.
pub enum ReadAction {
    /// A well-formed request: rate-limit it, annotate it, forward it.
    Handle(HttpRequest),
    /// The client is done, or the transport failed: close without a reply.
    CloseQuietly,
    /// A per-request protocol error: send this status, keep the connection.
    RespondAndContinue(u16),
}

/// The reply owed for each way a read can fail: a clean end of stream and a
/// transport error close the connection with no reply; an oversized body
/// earns 413; every other protocol error earns 400. After a 400 or 413 the
/// connection keeps serving further requests.
pub open spec fn spec_read_action(e: RequestError) -> ReadAction {
    match e {
        RequestError::Incomplete(n) => if n == 0 {
            ReadAction::CloseQuietly
        } else {
            ReadAction::RespondAndContinue(STATUS_BAD_REQUEST)
        },
        RequestError::Connection => ReadAction::CloseQuietly,
        RequestError::BodyTooLarge => ReadAction::RespondAndContinue(STATUS_PAYLOAD_TOO_LARGE),
        RequestError::Malformed => ReadAction::RespondAndContinue(STATUS_BAD_REQUEST),
        RequestError::InvalidContentLength => ReadAction::RespondAndContinue(STATUS_BAD_REQUEST),
        RequestError::ContentLengthMismatch => ReadAction::RespondAndContinue(STATUS_BAD_REQUEST),
    }
}

/// Decide what one read outcome means for the connection.
pub fn classify_read(r: Result<HttpRequest, RequestError>) -> (a: ReadAction)
    ensures
        match r {
            Ok(req) => a == ReadAction::Handle(req),
            Err(e) => a == spec_read_action(e),
        },
{
    match r {
        Ok(req) => ReadAction::Handle(req),
        Err(e) => match e {
            RequestError::Incomplete(n) => {
                if n == 0 {
                    ReadAction::CloseQuietly
                } else {
                    ReadAction::RespondAndContinue(STATUS_BAD_REQUEST)
                }
            },
            RequestError::Connection => ReadAction::CloseQuietly,
            RequestError::BodyTooLarge => ReadAction::RespondAndContinue(STATUS_PAYLOAD_TOO_LARGE),
            RequestError::Malformed => ReadAction::RespondAndContinue(STATUS_BAD_REQUEST),
            RequestError::InvalidContentLength => ReadAction::RespondAndContinue(
                STATUS_BAD_REQUEST,
            ),
            RequestError::ContentLengthMismatch => ReadAction::RespondAndContinue(
                STATUS_BAD_REQUEST,
            ),
        },
    }
}

/// A failed read earns the client nothing but a 400 or a 413; every other
/// outcome either closes the connection quietly or handles the request. The
/// remaining synthetic replies — 429 on a rate refusal, 502 when no upstream
/// answers — are fixed at their call sites.
pub proof fn lemma_read_reply_statuses(e: RequestError)
    ensures
        match spec_read_action(e) {
            ReadAction::RespondAndContinue(s) => s == STATUS_BAD_REQUEST || s
                == STATUS_PAYLOAD_TOO_LARGE,
            _ => true,
        },
{
}

/// The header that carries the chain of client addresses a request passed
/// through on its way here.
pub const FORWARDED_FOR: &'static str = "x-forwarded-for";

/// Count one well-formed request against its client's window and, when it is
/// allowed through, append the client address to the forwarding chain.
///
/// On a refusal the request is left untouched; the caller replies 429 and
/// closes the connection. A limit of zero lets everything through without
/// counting.
pub fn prepare_forward(
    req: &mut HttpRequest,
    table: &mut RateLimitTable,
    client_ip: &String,
    limit: u64,
) -> (d: RateDecision)
    requires
        old(table).wf(),
    ensures
        final(table).wf(),
        limit == 0 ==> *final(table) == *old(table),
        limit > 0 ==> final(table).counts() == old(table).counts().insert(
            client_ip@,
            bump(count_of(old(table).counts(), client_ip@)),
        ),
        (d == RateDecision::LimitExceeded <==> limit > 0 && bump(
            count_of(old(table).counts(), client_ip@),
        ) > limit),
        d == RateDecision::Allowed ==> {
            &&& final(req).header_seq() == old(req).header_seq().push(
                (FORWARDED_FOR@, client_ip@),
            )
            &&& final(req).method == old(req).method
            &&& final(req).uri == old(req).uri
            &&& final(req).body == old(req).body
        },
        d == RateDecision::LimitExceeded ==> *final(req) == *old(req),
{
    let d = rate_limit_step(table, client_ip, limit);
    match d {
        RateDecision::Allowed => {
            extend_header_value(req, FORWARDED_FOR, client_ip.as_str());
            RateDecision::Allowed
        },
        RateDecision::LimitExceeded => RateDecision::LimitExceeded,
    }
}

} // verus!
