//! What the tracer of a process waits for.
use core::cmp::Ordering;
use vstd::prelude::*;

use crate::entries::key_at;
use crate::futures::{has_room, AsyncRuntime};
use crate::order::{key_eq, key_lt, obeys_order};
use crate::ptrace::WaitStatus;

verus! {

/// The reasons that the tracer of a process can wait for.
#[derive(Copy, Clone, Debug, Hash, Eq, Ord)]
pub enum PtraceFutureTypes {
    /// A system call that a filter reports.
    WaitForPtraceSeccomp,
    /// A stop at a system call: at its entry as well as at its exit.
    WaitForPtraceSyscall,
    /// Any other event that tracing reports.
    WaitForPtraceEvent,
    /// A signal.
    WaitForSignal,
}

impl PtraceFutureTypes {
    /// The place of the reason in their order.
    pub open spec fn spec_place(&self) -> u8 {
        match self {
            PtraceFutureTypes::WaitForPtraceSeccomp => 0,
            PtraceFutureTypes::WaitForPtraceSyscall => 1,
            PtraceFutureTypes::WaitForPtraceEvent => 2,
            PtraceFutureTypes::WaitForSignal => 3,
        }
    }

    /// The place of the reason in their order.
    fn place(&self) -> (r: u8)
        ensures
            r == self.spec_place(),
    {
        match self {
            PtraceFutureTypes::WaitForPtraceSeccomp => 0,
            PtraceFutureTypes::WaitForPtraceSyscall => 1,
            PtraceFutureTypes::WaitForPtraceEvent => 2,
            PtraceFutureTypes::WaitForSignal => 3,
        }
    }
}

impl PartialEq for PtraceFutureTypes {
    fn eq(&self, other: &Self) -> (r: bool) {
        self.place() == other.place()
    }
}

impl vstd::std_specs::cmp::PartialEqSpecImpl for PtraceFutureTypes {
    open spec fn obeys_eq_spec() -> bool {
        true
    }

    open spec fn eq_spec(&self, other: &Self) -> bool {
        self.spec_place() == other.spec_place()
    }
}

impl PartialOrd for PtraceFutureTypes {
    fn partial_cmp(&self, other: &Self) -> (r: Option<Ordering>) {
        self.place().partial_cmp(&other.place())
    }
}

impl vstd::std_specs::cmp::PartialOrdSpecImpl for PtraceFutureTypes {
    open spec fn obeys_partial_cmp_spec() -> bool {
        true
    }

    open spec fn partial_cmp_spec(&self, other: &Self) -> Option<Ordering> {
        vstd::std_specs::cmp::PartialOrdSpec::partial_cmp_spec(
            &self.spec_place(),
            &other.spec_place(),
        )
    }
}

/// The order of the reasons is a total order, and equal reasons are one and the same.
pub proof fn lemma_reasons_ordered()
    ensures
        obeys_order::<PtraceFutureTypes>(),
        forall|a: PtraceFutureTypes, b: PtraceFutureTypes|
            key_eq(a, b) <==> a == b,
{
}

/// What the tracer is told when a reason is unblocked.
#[derive(Copy, Clone, Debug, PartialEq, Eq, Structural)]
pub struct PtraceStatus {
    /// The state that the process was found in.
    pub wait_status: WaitStatus,
}

/// The runtime of the tracer of one process. It has a place for each of the reasons.
pub type PtraceAsyncRuntime = AsyncRuntime<PtraceFutureTypes, PtraceStatus, 4>;

/// The tracer's runtime never runs out of room: no future of the tracer fails for want of it.
pub proof fn lemma_room_for_every_reason(runtime: PtraceAsyncRuntime, reason: PtraceFutureTypes)
    requires
        runtime.wf(),
    ensures
        has_room(runtime.pending(), reason, 4),
{
    let s = runtime.pending();
    if s.len() >= 4 {
        assert(key_lt(s[0].0, s[1].0));
        assert(key_lt(s[1].0, s[2].0));
        assert(key_lt(s[2].0, s[3].0));
        assert(key_at(s, reason.spec_place() as int, reason));
    }
}

} // verus!
