//! What the event loop of a tracee is for, stated of the calls that a thread makes.
use vstd::prelude::*;

use crate::event_loop::{
    gdb_exit_code, get_tracee_maybe_signal, has_crashed, needs_siginfo, unblocked_reason, EventLoop,
    LoopEvent, SysAugError, EINVAL, PTRACE_EVENT_SECCOMP,
};
use crate::executor::{PtraceAsyncRuntime, PtraceFutureTypes, PtraceStatus};
use crate::ptrace::{Pid, Signal, WaitStatus, SIGTRAP};

verus! {

/// A tracee is attached to, found alive and given its options before the first step, and nothing is
/// unblocked until then. One that has exited before that counts as crashed.
pub proof fn lemma_set_up_before_first_step(status: WaitStatus)
    ensures
        forall|r: EventLoop| #[trigger] call_ensures(EventLoop::new, (), r) ==> r
            == EventLoop::Attach,
        forall|rt: &mut PtraceAsyncRuntime, r: EventLoop| #[trigger]
            call_ensures(EventLoop::next, (EventLoop::Attach, LoopEvent::Done, rt), r) ==> {
                &&& r == EventLoop::AwaitAttached
                &&& final(rt).unblocked() is None
            },
        forall|rt: &mut PtraceAsyncRuntime, r: EventLoop| #[trigger]
            call_ensures(
                EventLoop::next,
                (EventLoop::AwaitAttached, LoopEvent::Waited(status), rt),
                r,
            ) ==> {
                &&& status is Exited ==> r == EventLoop::End(Err(SysAugError::TraceeCrashed))
                &&& !(status is Exited) ==> r == EventLoop::SetOptions
                &&& final(rt).unblocked() is None
            },
        forall|rt: &mut PtraceAsyncRuntime, r: EventLoop| #[trigger]
            call_ensures(EventLoop::next, (EventLoop::SetOptions, LoopEvent::Done, rt), r) ==> {
                &&& r == EventLoop::RunStep
                &&& final(rt).unblocked() is None
            },
{
}

/// The signal that the asynchronous part hands over is delivered on the first resume after its
/// step, and the tracee is resumed in the way that it asks for. Until the tracee stops, that way is
/// kept.
pub proof fn lemma_signal_delivered(through_syscall: bool, signal: Option<Signal>)
    ensures
        forall|rt: &mut PtraceAsyncRuntime, r: EventLoop| #[trigger]
            call_ensures(
                EventLoop::next,
                (EventLoop::RunStep, LoopEvent::Yielded { through_syscall, signal }, rt),
                r,
            ) ==> {
                &&& r is Resume
                &&& r->Resume_signal == signal
                &&& r->Resume_through_syscall == through_syscall
                &&& final(rt).unblocked() is None
            },
        forall|rt: &mut PtraceAsyncRuntime, r: EventLoop| #[trigger]
            call_ensures(
                EventLoop::next,
                (EventLoop::Resume { through_syscall, signal }, LoopEvent::Done, rt),
                r,
            ) ==> {
                &&& r is AwaitStop
                &&& r->AwaitStop_through_syscall == through_syscall
                &&& final(rt).unblocked() is None
            },
{
}

/// What the asynchronous part finishes with is what the loop returns, unless the tracee is left to
/// the debugger.
pub proof fn lemma_result_returned(result: Result<u8, SysAugError>, transfer_to_gdb: bool)
    ensures
        forall|rt: &mut PtraceAsyncRuntime, r: EventLoop| #[trigger]
            call_ensures(
                EventLoop::next,
                (EventLoop::RunStep, LoopEvent::Finished { result, transfer_to_gdb }, rt),
                r,
            ) ==> {
                &&& !transfer_to_gdb ==> r == EventLoop::End(result)
                &&& transfer_to_gdb ==> r == EventLoop::DetachForGdb
                &&& final(rt).unblocked() is None
            },
{
}

/// The debugger is run once the tracee is detached from, and the loop returns the lowest byte of
/// its exit code: the only byte that differs from the code by a multiple of 256. A debugger that a
/// signal has ended counts as one that ended with -1.
pub proof fn lemma_debugger_takes_over(code: Option<i32>)
    ensures
        forall|rt: &mut PtraceAsyncRuntime, r: EventLoop| #[trigger]
            call_ensures(EventLoop::next, (EventLoop::DetachForGdb, LoopEvent::Done, rt), r) ==> {
                &&& r == EventLoop::RunGdb
                &&& final(rt).unblocked() is None
            },
        forall|rt: &mut PtraceAsyncRuntime, r: EventLoop| #[trigger]
            call_ensures(EventLoop::next, (EventLoop::RunGdb, LoopEvent::GdbExited(code), rt), r)
                ==> {
                &&& r matches EventLoop::End(Ok(byte)) && is_low_byte(byte, code)
                &&& final(rt).unblocked() is None
            },
        forall|byte: u8| #[trigger] call_ensures(gdb_exit_code, (code,), byte) ==> is_low_byte(
            byte,
            code,
        ),
{
}

/// `byte` differs by a multiple of 256 from the code, or from -1 if there is none.
pub open spec fn is_low_byte(byte: u8, code: Option<i32>) -> bool {
    match code {
        Some(c) => (c - byte) % 256 == 0,
        None => byte == 255,
    }
}

/// Whatever is asked about a signal, an event of the tracing is told apart by its number alone: a
/// filtered system call unblocks those who wait for one, every other event those who wait for
/// events. The loop hands over that very status, and runs a step.
pub proof fn lemma_events_reported(
    through_syscall: bool,
    pid: Pid,
    signal: Signal,
    number: i32,
    siginfo_error: Option<i32>,
)
    ensures
        ({
            let status = WaitStatus::PtraceEvent(pid, signal, number);
            let reason = if number == PTRACE_EVENT_SECCOMP {
                PtraceFutureTypes::WaitForPtraceSeccomp
            } else {
                PtraceFutureTypes::WaitForPtraceEvent
            };
            &&& forall|r: Option<PtraceFutureTypes>| #[trigger]
                call_ensures(unblocked_reason, (&status, siginfo_error), r) ==> r == Some(reason)
            &&& forall|rt: &mut PtraceAsyncRuntime, r: EventLoop| #[trigger]
                call_ensures(
                    EventLoop::next,
                    (EventLoop::AwaitStop { through_syscall }, LoopEvent::Waited(status), rt),
                    r,
                ) ==> {
                    &&& r == EventLoop::RunStep
                    &&& final(rt).unblocked() == Some(
                        (reason, PtraceStatus { wait_status: status }),
                    )
                    &&& final(rt).table() == rt.table()
                }
        }),
{
}

/// A stop at a system call unblocks those who wait for one, whatever is asked about a signal.
pub proof fn lemma_system_calls_reported(
    through_syscall: bool,
    pid: Pid,
    siginfo_error: Option<i32>,
)
    ensures
        ({
            let status = WaitStatus::PtraceSyscall(pid);
            &&& forall|r: Option<PtraceFutureTypes>| #[trigger]
                call_ensures(unblocked_reason, (&status, siginfo_error), r) ==> r == Some(
                    PtraceFutureTypes::WaitForPtraceSyscall,
                )
            &&& forall|rt: &mut PtraceAsyncRuntime, r: EventLoop| #[trigger]
                call_ensures(
                    EventLoop::next,
                    (EventLoop::AwaitStop { through_syscall }, LoopEvent::Waited(status), rt),
                    r,
                ) ==> {
                    &&& r == EventLoop::RunStep
                    &&& final(rt).unblocked() == Some(
                        (
                            PtraceFutureTypes::WaitForPtraceSyscall,
                            PtraceStatus { wait_status: status },
                        ),
                    )
                    &&& final(rt).table() == rt.table()
                }
        }),
{
}

/// A stop by any signal but `SIGTRAP` is asked about. Only if the system answers that there is
/// nothing to tell is the tracee resumed as before, without a signal; otherwise those are unblocked
/// who wait for signals, with the status that was asked about.
pub proof fn lemma_signal_stops_reported(
    through_syscall: bool,
    pid: Pid,
    signal: Signal,
    siginfo_error: Option<i32>,
)
    requires
        signal.0 != SIGTRAP,
    ensures
        ({
            let status = WaitStatus::Stopped(pid, signal);
            let query = EventLoop::QuerySignal { through_syscall, status };
            let answer = match siginfo_error {
                Some(error) => LoopEvent::Failed(error),
                None => LoopEvent::Done,
            };
            &&& forall|r: bool| #[trigger] call_ensures(needs_siginfo, (&status,), r) ==> r
            &&& forall|r: Option<Signal>| #[trigger]
                call_ensures(get_tracee_maybe_signal, (&status, siginfo_error), r) ==> {
                    &&& siginfo_error == Some(EINVAL) ==> r is None
                    &&& siginfo_error != Some(EINVAL) ==> r == Some(signal)
                }
            &&& forall|r: Option<PtraceFutureTypes>| #[trigger]
                call_ensures(unblocked_reason, (&status, siginfo_error), r) ==> {
                    &&& siginfo_error == Some(EINVAL) ==> r is None
                    &&& siginfo_error != Some(EINVAL) ==> r == Some(
                        PtraceFutureTypes::WaitForSignal,
                    )
                }
            &&& forall|rt: &mut PtraceAsyncRuntime, r: EventLoop| #[trigger]
                call_ensures(
                    EventLoop::next,
                    (EventLoop::AwaitStop { through_syscall }, LoopEvent::Waited(status), rt),
                    r,
                ) ==> r == query && final(rt).unblocked() is None
            &&& forall|rt: &mut PtraceAsyncRuntime, r: EventLoop| #[trigger]
                call_ensures(EventLoop::next, (query, answer, rt), r) ==> {
                    if siginfo_error == Some(EINVAL) {
                        &&& r == (EventLoop::Resume { through_syscall, signal: None })
                        &&& final(rt).unblocked() is None
                    } else {
                        &&& r == EventLoop::RunStep
                        &&& final(rt).unblocked() == Some(
                            (
                                PtraceFutureTypes::WaitForSignal,
                                PtraceStatus { wait_status: status },
                            ),
                        )
                    }
                }
        }),
{
}

/// A status that nobody can wait for unblocks nothing: the tracee is resumed as before, without a
/// signal.
pub proof fn lemma_other_stops_passed_over(
    through_syscall: bool,
    status: WaitStatus,
    siginfo_error: Option<i32>,
)
    requires
        status is Signaled || status is Continued || status is StillAlive || (
        status matches WaitStatus::Stopped(_, signal) && signal.0 == SIGTRAP),
    ensures
        forall|r: bool| #[trigger] call_ensures(needs_siginfo, (&status,), r) ==> !r,
        forall|r: Option<Signal>| #[trigger]
            call_ensures(get_tracee_maybe_signal, (&status, siginfo_error), r) ==> r is None,
        forall|r: Option<PtraceFutureTypes>| #[trigger]
            call_ensures(unblocked_reason, (&status, siginfo_error), r) ==> r is None,
        forall|rt: &mut PtraceAsyncRuntime, r: EventLoop| #[trigger]
            call_ensures(
                EventLoop::next,
                (EventLoop::AwaitStop { through_syscall }, LoopEvent::Waited(status), rt),
                r,
            ) ==> {
                &&& r == (EventLoop::Resume { through_syscall, signal: None })
                &&& final(rt).unblocked() is None
            },
{
}

/// Only an exit is a crash. It unblocks nothing: the tracee is detached from, and the loop ends
/// with an error.
pub proof fn lemma_exit_is_crash(through_syscall: bool, status: WaitStatus)
    ensures
        forall|r: bool| #[trigger]
            call_ensures(has_crashed, (&status,), r) ==> (r <==> status is Exited),
        forall|rt: &mut PtraceAsyncRuntime, r: EventLoop| #[trigger]
            call_ensures(
                EventLoop::next,
                (EventLoop::AwaitStop { through_syscall }, LoopEvent::Waited(status), rt),
                r,
            ) ==> {
                &&& r == EventLoop::Detach <==> status is Exited
                &&& status is Exited ==> final(rt).unblocked() is None
                &&& !(r is End)
            },
        forall|rt: &mut PtraceAsyncRuntime, r: EventLoop| #[trigger]
            call_ensures(EventLoop::next, (EventLoop::Detach, LoopEvent::Done, rt), r) ==> {
                &&& r == EventLoop::End(Err(SysAugError::TraceeCrashed))
                &&& final(rt).unblocked() is None
            },
{
}

/// Whatever fails ends the loop with the error that belongs to it and with the number that the
/// system reported; nothing is unblocked.
pub proof fn lemma_failures_end_loop(error: i32)
    ensures
        forall|state: EventLoop, rt: &mut PtraceAsyncRuntime, r: EventLoop| #[trigger]
            call_ensures(EventLoop::next, (state, LoopEvent::Failed(error), rt), r) && !(
            state is QuerySignal || state is RunStep || state is End) ==> {
                &&& r matches EventLoop::End(Err(e)) && (e == SysAugError::PtraceAttach(error)
                    <==> state is Attach) && (e == SysAugError::Waitpid(error)
                    <==> state is AwaitAttached || state is AwaitStop) && (e
                    == SysAugError::PtraceSetOptions(error) <==> state is SetOptions) && (e
                    == SysAugError::PtraceSyscall(error) <==> state is Resume
                    && state->Resume_through_syscall) && (e == SysAugError::PtraceContinue(error)
                    <==> state is Resume && !state->Resume_through_syscall) && (e
                    == SysAugError::PtraceDetach(error) <==> state is Detach) && (e
                    == SysAugError::GDBDetach(error) <==> state is DetachForGdb) && (e
                    == SysAugError::GDB(error) <==> state is RunGdb)
                &&& final(rt).unblocked() is None
            },
{
}

/// Every answer to what the loop asks for is taken, and no other: what a request can come to does
/// not depend on anything but the request.
pub proof fn lemma_answers_taken(state: EventLoop, event: LoopEvent)
    ensures
        state.expects(event) <==> match event {
            LoopEvent::Done => {
                ||| state is Attach
                ||| state is SetOptions
                ||| state is Resume
                ||| state is QuerySignal
                ||| state is Detach
                ||| state is DetachForGdb
            },
            LoopEvent::Failed(_) => !(state is RunStep) && !(state is End),
            LoopEvent::Waited(_) => state is AwaitAttached || state is AwaitStop,
            LoopEvent::Yielded { .. } => state is RunStep,
            LoopEvent::Finished { .. } => state is RunStep,
            LoopEvent::GdbExited(_) => state is RunGdb,
        },
        forall|rt: &mut PtraceAsyncRuntime|
            rt.unblocked() is None && state.expects(event) ==> #[trigger] call_requires(
                EventLoop::next,
                (state, event, rt),
            ),
{
}

/// A reason is only ever unblocked with the status that the tracee was found in, and the table of
/// those who wait is left alone.
pub proof fn lemma_status_handed_over(state: EventLoop, event: LoopEvent)
    ensures
        forall|rt: &mut PtraceAsyncRuntime, r: EventLoop| #[trigger]
            call_ensures(EventLoop::next, (state, event, rt), r) ==> {
                &&& final(rt).table() == rt.table()
                &&& final(rt).new_blockage() == rt.new_blockage()
                &&& final(rt).unblocked() matches Some((_, given)) ==> {
                    ||| state is AwaitStop && event == LoopEvent::Waited(given.wait_status)
                    ||| state is QuerySignal && state->QuerySignal_status == given.wait_status
                }
            },
{
}

} // verus!
