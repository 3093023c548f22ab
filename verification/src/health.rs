//! Active health checking: how a probe result updates the registry.
//!
//! A background loop probes every configured address each tick. The probe
//! itself (connect, send a GET, read the reply) is network work done by the
//! caller; what it learned comes back as a `ProbeOutcome`, and `apply_probe`
//! turns that into the one registry update the tick is allowed to make.

use crate::message::HttpRequest;
use crate::message::STATUS_OK;
use crate::registry::UpstreamRegistry;
use vstd::prelude::*;

verus! {

/// The minimal probe: a GET of the health-check path, with a Host header
/// naming the upstream, and no body.
pub fn build_probe_request(path: &String, host: &String) -> (r: HttpRequest)
    ensures
        r.method@ == "GET"@,
        r.uri@ == path@,
        r.header_seq() == seq![("Host"@, host@)],
        r.body@.len() == 0,
{
    let mut headers: Vec<(String, String)> = Vec::new();
    headers.push(("Host".to_owned(), host.clone()));
    let r = HttpRequest { method: "GET".to_owned(), uri: path.clone(), headers, body: Vec::new() };
    proof {
        assert(r.header_seq() =~= seq![("Host"@, host@)]);
    }
    r
}

/// What one probe of one upstream learned.
#[derive(Clone, Copy, PartialEq, Eq, Structural, Debug)]
pub enum ProbeOutcome {
    /// A response came back with this status code.
    Status(u16),
    /// The upstream could not be reached, or its response could not be read.
    Failed,
}

/// The dead set after a probe of `addr`: a 200 takes the address out, any
/// other status — or no response at all — puts it in.
pub open spec fn probe_dead_set(
    dead: Set<Seq<char>>,
    addr: Seq<char>,
    outcome: ProbeOutcome,
) -> Set<Seq<char>> {
    if outcome == ProbeOutcome::Status(STATUS_OK) {
        dead.remove(addr)
    } else {
        dead.insert(addr)
    }
}

/// Apply one probe result to the registry.
pub fn apply_probe(reg: &mut UpstreamRegistry, addr: &String, outcome: ProbeOutcome)
    requires
        old(reg).wf(),
        old(reg).addrs().contains(addr@),
    ensures
        final(reg).wf(),
        final(reg).addrs() == old(reg).addrs(),
        final(reg).dead_set() == probe_dead_set(old(reg).dead_set(), addr@, outcome),
{
    match outcome {
        ProbeOutcome::Status(code) => {
            if code == STATUS_OK {
                reg.mark_live(addr);
            } else {
                reg.mark_dead(addr);
            }
        },
        ProbeOutcome::Failed => {
            reg.mark_dead(addr);
        },
    }
}

/// Health-check convergence: after a probe of an address, its membership in
/// the dead set is decided by that probe alone — in after a non-200 or failed
/// probe, out after a 200 — and no other address is touched. In particular,
/// over any sequence of probes the dead set reflects only the most recent
/// probe result per address.
pub proof fn lemma_probe_last_wins(
    dead: Set<Seq<char>>,
    addr: Seq<char>,
    first: ProbeOutcome,
    second: ProbeOutcome,
)
    ensures
        probe_dead_set(dead, addr, second).contains(addr) <==> second != ProbeOutcome::Status(
            STATUS_OK,
        ),
        forall|b: Seq<char>|
            b != addr ==> (probe_dead_set(dead, addr, second).contains(b) == dead.contains(b)),
        probe_dead_set(probe_dead_set(dead, addr, first), addr, second) == probe_dead_set(
            dead,
            addr,
            second,
        ),
{
    assert(probe_dead_set(probe_dead_set(dead, addr, first), addr, second) =~= probe_dead_set(
        dead,
        addr,
        second,
    ));
}

} // verus!
