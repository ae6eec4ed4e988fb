//! Verdicts and the action codes they map to.

use aya_ebpf_bindings::bindings::xdp_action;
use vstd::prelude::*;

verus! {

/// The outcome of one packet decision.
///
/// `Pass` and `Drop` are policy outcomes. `Abort` reports a structural
/// parsing fault and is never merged with `Drop`.
#[derive(Clone, Copy, Debug, PartialEq, Eq, Structural)]
pub enum Verdict {
    /// The packet goes on to the host networking stack.
    Pass,
    /// The packet is discarded by policy.
    Drop,
    /// The packet could not be parsed; it is discarded as malformed.
    Abort,
}

/// The action code of each verdict, as the packet-receive path knows it:
/// 2 to pass, 1 to drop, 0 to abort.
pub open spec fn action_code_of(verdict: Verdict) -> u32 {
    match verdict {
        Verdict::Pass => 2,
        Verdict::Drop => 1,
        Verdict::Abort => 0,
    }
}

/// `aya_ebpf_bindings::bindings::xdp_action::XDP_PASS`, the constant 2.
#[verifier::external_body]
fn xdp_pass() -> (code: u32)
    ensures
        code == 2,
{
    xdp_action::XDP_PASS
}

/// `aya_ebpf_bindings::bindings::xdp_action::XDP_DROP`, the constant 1.
#[verifier::external_body]
fn xdp_drop() -> (code: u32)
    ensures
        code == 1,
{
    xdp_action::XDP_DROP
}

/// `aya_ebpf_bindings::bindings::xdp_action::XDP_ABORTED`, the constant 0.
#[verifier::external_body]
fn xdp_aborted() -> (code: u32)
    ensures
        code == 0,
{
    xdp_action::XDP_ABORTED
}

/// Translates a verdict into the action code handed back to the receive path.
pub fn action_code(verdict: Verdict) -> (code: u32)
    ensures
        code == action_code_of(verdict),
{
    match verdict {
        Verdict::Pass => xdp_pass(),
        Verdict::Drop => xdp_drop(),
        Verdict::Abort => xdp_aborted(),
    }
}

/// Distinct verdicts have distinct action codes, so an abort can always be
/// told apart from a policy drop by its code.
pub proof fn lemma_action_codes_distinct(a: Verdict, b: Verdict)
    ensures
        action_code_of(a) == action_code_of(b) <==> a == b,
{
}

} // verus!
