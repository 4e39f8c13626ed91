//! The synchronous event loop that drives the tracer of one process.
//!
//! The loop asks for something to be done, and is told what came of it. It never does it itself.
use vstd::prelude::*;

use crate::common::AsyncRuntimeError;
use crate::executor::{PtraceAsyncRuntime, PtraceFutureTypes, PtraceStatus};
use crate::ptrace::{is_still_alive, is_trace_stop, Pid, Signal, WaitStatus, SIGTRAP};

verus! {

/// The event that a system call filter causes.
pub const PTRACE_EVENT_SECCOMP: i32 = 7;

/// The error that there is no signal to ask about.
pub const EINVAL: i32 = 22;

/// Tells the stops at system calls from other stops.
pub const PTRACE_O_TRACESYSGOOD: i32 = 0x01;

/// Traces the children that `fork` makes.
pub const PTRACE_O_TRACEFORK: i32 = 0x02;

/// Traces the children that `vfork` makes.
pub const PTRACE_O_TRACEVFORK: i32 = 0x04;

/// Traces the children that `clone` makes.
pub const PTRACE_O_TRACECLONE: i32 = 0x08;

/// Stops the tracee when it exits.
pub const PTRACE_O_TRACEEXIT: i32 = 0x40;

/// Stops the tracee when a system call filter asks for it.
pub const PTRACE_O_TRACESECCOMP: i32 = 0x80;

/// The options that every tracee is traced with.
pub const TRACE_OPTIONS: i32 = PTRACE_O_TRACESYSGOOD | PTRACE_O_TRACEEXIT | PTRACE_O_TRACECLONE
    | PTRACE_O_TRACEFORK | PTRACE_O_TRACEVFORK | PTRACE_O_TRACESECCOMP;

/// What can go wrong in the tracer of a process. A number is the error that the system reported.
#[derive(Debug, PartialEq, Eq)]
pub enum SysAugError {
    /// The version of the kernel cannot be read.
    ReadKernelVersion(i32),
    /// This version of the kernel does not start with two numbers.
    ParseKernelVersion(String),
    /// The tracee cannot be attached to.
    PtraceAttach(i32),
    /// The tracee cannot be waited for.
    Waitpid(i32),
    /// The options cannot be set.
    PtraceSetOptions(i32),
    /// The tracee cannot be resumed up to its next system call.
    PtraceSyscall(i32),
    /// The tracee cannot be resumed.
    PtraceContinue(i32),
    /// The tracee cannot be detached from.
    PtraceDetach(i32),
    /// The tracee cannot be detached from, so that the debugger cannot have it.
    GDBDetach(i32),
    /// The debugger cannot be run.
    GDB(i32),
    /// The tracee is gone, though nobody asked it to.
    TraceeCrashed,
    /// The thread that sends the requests to the tracee is gone.
    PtraceClient,
    /// A thread died while it held a lock.
    Lock,
    /// The asynchronous part of the tracer failed.
    AsyncRuntime(AsyncRuntimeError),
}

/// The tracee may have been stopped by a signal that is meant for it.
pub open spec fn may_be_signal(status: WaitStatus) -> bool {
    status matches WaitStatus::Stopped(_, signal) && signal.0 != SIGTRAP
}

/// The signal that the tracee was stopped by, given the error that came from asking for details of
/// it.
pub open spec fn signal_of(status: WaitStatus, siginfo_error: Option<i32>) -> Option<Signal> {
    match status {
        WaitStatus::Stopped(_, signal) => if signal.0 != SIGTRAP && siginfo_error != Some(EINVAL) {
            Some(signal)
        } else {
            None
        },
        _ => None,
    }
}

/// The reason that a status unblocks, given the error that came from asking for details of a
/// signal.
pub open spec fn reason_of(status: WaitStatus, siginfo_error: Option<i32>) -> Option<
    PtraceFutureTypes,
> {
    if signal_of(status, siginfo_error) is Some {
        Some(PtraceFutureTypes::WaitForSignal)
    } else {
        match status {
            WaitStatus::PtraceEvent(_, _, event) => if event == PTRACE_EVENT_SECCOMP {
                Some(PtraceFutureTypes::WaitForPtraceSeccomp)
            } else {
                Some(PtraceFutureTypes::WaitForPtraceEvent)
            },
            WaitStatus::PtraceSyscall(_) => Some(PtraceFutureTypes::WaitForPtraceSyscall),
            _ => None,
        }
    }
}

/// Whether the details of the signal have to be asked for before `get_tracee_maybe_signal`.
pub fn needs_siginfo(status: &WaitStatus) -> (r: bool)
    ensures
        r == may_be_signal(*status),
{
    match status {
        WaitStatus::Stopped(_, signal) => signal.0 != SIGTRAP,
        _ => false,
    }
}

/// The signal that the tracee was stopped by. `siginfo_error` is the error that came from asking
/// for details of it.
pub fn get_tracee_maybe_signal(status: &WaitStatus, siginfo_error: Option<i32>) -> (r: Option<
    Signal,
>)
    ensures
        r == signal_of(*status, siginfo_error),
{
    if let WaitStatus::Stopped(_, signal) = status {
        if signal.0 == SIGTRAP {
            return None;
        }
        if let Some(error) = siginfo_error {
            if error == EINVAL {
                return None;
            }
        }
        return Some(*signal);
    }
    None
}

/// The reason that a status unblocks. `siginfo_error` is the error that came from asking for
/// details of a signal.
pub fn unblocked_reason(status: &WaitStatus, siginfo_error: Option<i32>) -> (r: Option<
    PtraceFutureTypes,
>)
    ensures
        r == reason_of(*status, siginfo_error),
{
    if get_tracee_maybe_signal(status, siginfo_error).is_some() {
        return Some(PtraceFutureTypes::WaitForSignal);
    }
    match status {
        WaitStatus::PtraceEvent(_, _, event) => if *event == PTRACE_EVENT_SECCOMP {
            Some(PtraceFutureTypes::WaitForPtraceSeccomp)
        } else {
            Some(PtraceFutureTypes::WaitForPtraceEvent)
        },
        WaitStatus::PtraceSyscall(_) => Some(PtraceFutureTypes::WaitForPtraceSyscall),
        _ => None,
    }
}

/// Whether the tracee is gone.
pub fn has_crashed(status: &WaitStatus) -> (r: bool)
    ensures
        r == (*status is Exited),
{
    !is_trace_stop(status) && !is_still_alive(status)
}

/// The lowest byte of the code that the debugger ended with, or 255 if a signal ended it.
pub open spec fn gdb_code(code: Option<i32>) -> u8 {
    match code {
        Some(c) => (c as int % 256) as u8,
        None => 255,
    }
}

/// The exit code of the loop, if the debugger ended with `code`. `None` means that a signal ended
/// it.
pub fn gdb_exit_code(code: Option<i32>) -> (r: u8)
    ensures
        r == gdb_code(code),
{
    let code: i32 = match code {
        Some(c) => c,
        None => -1,
    };
    assert(code as u8 == code as int % 256) by (bit_vector);
    code as u8
}

/// Where the event loop of a tracee stands: what its thread has to do next.
#[derive(Debug, PartialEq, Eq)]
pub enum EventLoop {
    /// Attach to the tracee.
    Attach,
    /// Wait until the tracee has stopped for the first time.
    AwaitAttached,
    /// Set `TRACE_OPTIONS`.
    SetOptions,
    /// Run a step of the asynchronous part, with the runtime.
    RunStep,
    /// Resume the tracee and deliver the signal to it. With `through_syscall` it is to stop at its
    /// next system call, as `PTRACE_SYSCALL` has it; otherwise `PTRACE_CONT` does.
    Resume { through_syscall: bool, signal: Option<Signal> },
    /// Wait until the tracee has stopped again.
    AwaitStop { through_syscall: bool },
    /// Ask for details of the signal that has stopped the tracee.
    QuerySignal { through_syscall: bool, status: WaitStatus },
    /// Detach from the tracee, which has crashed.
    Detach,
    /// Detach from the tracee and leave it stopped by `SIGSTOP`.
    DetachForGdb,
    /// Run the debugger on the tracee.
    RunGdb,
    /// Return this.
    End(Result<u8, SysAugError>),
}

/// What came of something that the event loop has asked for.
#[derive(Debug, PartialEq, Eq)]
pub enum LoopEvent {
    /// It was done.
    Done,
    /// It failed, and the system reported this error.
    Failed(i32),
    /// The tracee was found in this state.
    Waited(WaitStatus),
    /// The asynchronous part has yielded. It tells how to resume the tracee, and which signal to
    /// deliver.
    Yielded { through_syscall: bool, signal: Option<Signal> },
    /// The asynchronous part has finished with this, and may have left the tracee to the debugger.
    Finished { result: Result<u8, SysAugError>, transfer_to_gdb: bool },
    /// The debugger ended with this code, or was killed by a signal.
    GdbExited(Option<i32>),
}

impl EventLoop {
    /// The event is an answer to what the loop asks for.
    pub open spec fn expects(self, event: LoopEvent) -> bool {
        match self {
            EventLoop::AwaitAttached | EventLoop::AwaitStop { .. } => {
                event is Waited || event is Failed
            },
            EventLoop::RunStep => event is Yielded || event is Finished,
            EventLoop::RunGdb => event is GdbExited || event is Failed,
            EventLoop::End(_) => false,
            _ => event is Done || event is Failed,
        }
    }

    /// The error that the loop ends with if what it asks for fails. That there are no details of a
    /// signal is no failure.
    pub open spec fn failure(self, error: i32) -> Option<SysAugError> {
        match self {
            EventLoop::Attach => Some(SysAugError::PtraceAttach(error)),
            EventLoop::AwaitAttached => Some(SysAugError::Waitpid(error)),
            EventLoop::SetOptions => Some(SysAugError::PtraceSetOptions(error)),
            EventLoop::RunStep => None,
            EventLoop::Resume { through_syscall, .. } => if through_syscall {
                Some(SysAugError::PtraceSyscall(error))
            } else {
                Some(SysAugError::PtraceContinue(error))
            },
            EventLoop::AwaitStop { .. } => Some(SysAugError::Waitpid(error)),
            EventLoop::QuerySignal { .. } => None,
            EventLoop::Detach => Some(SysAugError::PtraceDetach(error)),
            EventLoop::DetachForGdb => Some(SysAugError::GDBDetach(error)),
            EventLoop::RunGdb => Some(SysAugError::GDB(error)),
            EventLoop::End(_) => None,
        }
    }

    /// What the loop unblocks on an event: a reason, and the status that goes with it.
    pub open spec fn unblocks(self, event: LoopEvent) -> Option<(PtraceFutureTypes, PtraceStatus)> {
        match (self, event) {
            (EventLoop::AwaitStop { .. }, LoopEvent::Waited(status)) => if may_be_signal(status) {
                None
            } else {
                match reason_of(status, None) {
                    Some(reason) => Some((reason, PtraceStatus { wait_status: status })),
                    None => None,
                }
            },
            (EventLoop::QuerySignal { status, .. }, _) => {
                let error = match event {
                    LoopEvent::Failed(error) => Some(error),
                    _ => None,
                };
                match reason_of(status, error) {
                    Some(reason) => Some((reason, PtraceStatus { wait_status: status })),
                    None => None,
                }
            },
            _ => None,
        }
    }

    /// What the loop asks for after an event.
    pub open spec fn after(self, event: LoopEvent) -> EventLoop {
        if event is Failed && self.failure(event->Failed_0) is Some {
            EventLoop::End(Err(self.failure(event->Failed_0)->0))
        } else if self.unblocks(event) is Some {
            EventLoop::RunStep
        } else {
            match (self, event) {
                (EventLoop::Attach, _) => EventLoop::AwaitAttached,
                (EventLoop::AwaitAttached, LoopEvent::Waited(status)) => if status is Exited {
                    EventLoop::End(Err(SysAugError::TraceeCrashed))
                } else {
                    EventLoop::SetOptions
                },
                (EventLoop::SetOptions, _) => EventLoop::RunStep,
                (EventLoop::RunStep, LoopEvent::Yielded { through_syscall, signal }) => {
                    EventLoop::Resume { through_syscall, signal }
                },
                (EventLoop::RunStep, LoopEvent::Finished { result, transfer_to_gdb }) => {
                    if transfer_to_gdb {
                        EventLoop::DetachForGdb
                    } else {
                        EventLoop::End(result)
                    }
                },
                (EventLoop::Resume { through_syscall, .. }, _) => {
                    EventLoop::AwaitStop { through_syscall }
                },
                (EventLoop::AwaitStop { through_syscall }, LoopEvent::Waited(status)) => {
                    if status is Exited {
                        EventLoop::Detach
                    } else if may_be_signal(status) {
                        EventLoop::QuerySignal { through_syscall, status }
                    } else {
                        EventLoop::Resume { through_syscall, signal: None }
                    }
                },
                (EventLoop::QuerySignal { through_syscall, .. }, _) => {
                    EventLoop::Resume { through_syscall, signal: None }
                },
                (EventLoop::Detach, _) => EventLoop::End(Err(SysAugError::TraceeCrashed)),
                (EventLoop::DetachForGdb, _) => EventLoop::RunGdb,
                (EventLoop::RunGdb, LoopEvent::GdbExited(code)) => EventLoop::End(
                    Ok(gdb_code(code)),
                ),
                (other, _) => other,
            }
        }
    }

    /// The loop of a tracee that has not been attached to yet.
    pub fn new() -> (r: Self)
        ensures
            r is Attach,
    {
        EventLoop::Attach
    }

    /// Goes on after an event. A status that the asynchronous part can wait for is handed to the
    /// runtime; the loop then asks for a step.
    pub fn next(self, event: LoopEvent, runtime: &mut PtraceAsyncRuntime) -> (r: Self)
        requires
            self.expects(event),
            old(runtime).unblocked() is None,
        ensures
            r == self.after(event),
            final(runtime).unblocked() == self.unblocks(event),
            final(runtime).table() == old(runtime).table(),
            final(runtime).new_blockage() == old(runtime).new_blockage(),
    {
        match (self, event) {
            (EventLoop::Attach, LoopEvent::Done) => EventLoop::AwaitAttached,
            (EventLoop::Attach, LoopEvent::Failed(error)) => EventLoop::End(
                Err(SysAugError::PtraceAttach(error)),
            ),
            (EventLoop::AwaitAttached, LoopEvent::Waited(status)) => if has_crashed(&status) {
                EventLoop::End(Err(SysAugError::TraceeCrashed))
            } else {
                EventLoop::SetOptions
            },
            (EventLoop::AwaitAttached, LoopEvent::Failed(error)) => EventLoop::End(
                Err(SysAugError::Waitpid(error)),
            ),
            (EventLoop::SetOptions, LoopEvent::Done) => EventLoop::RunStep,
            (EventLoop::SetOptions, LoopEvent::Failed(error)) => EventLoop::End(
                Err(SysAugError::PtraceSetOptions(error)),
            ),
            (EventLoop::RunStep, LoopEvent::Yielded { through_syscall, signal }) => {
                EventLoop::Resume { through_syscall, signal }
            },
            (EventLoop::RunStep, LoopEvent::Finished { result, transfer_to_gdb }) => {
                if transfer_to_gdb {
                    EventLoop::DetachForGdb
                } else {
                    EventLoop::End(result)
                }
            },
            (EventLoop::Resume { through_syscall, .. }, LoopEvent::Done) => {
                EventLoop::AwaitStop { through_syscall }
            },
            (EventLoop::Resume { through_syscall, .. }, LoopEvent::Failed(error)) => {
                if through_syscall {
                    EventLoop::End(Err(SysAugError::PtraceSyscall(error)))
                } else {
                    EventLoop::End(Err(SysAugError::PtraceContinue(error)))
                }
            },
            (EventLoop::AwaitStop { through_syscall }, LoopEvent::Waited(status)) => {
                if has_crashed(&status) {
                    EventLoop::Detach
                } else if needs_siginfo(&status) {
                    EventLoop::QuerySignal { through_syscall, status }
                } else {
                    Self::hand_over(through_syscall, status, None, runtime)
                }
            },
            (EventLoop::AwaitStop { .. }, LoopEvent::Failed(error)) => EventLoop::End(
                Err(SysAugError::Waitpid(error)),
            ),
            (EventLoop::QuerySignal { through_syscall, status }, LoopEvent::Done) => {
                Self::hand_over(through_syscall, status, None, runtime)
            },
            (EventLoop::QuerySignal { through_syscall, status }, LoopEvent::Failed(error)) => {
                Self::hand_over(through_syscall, status, Some(error), runtime)
            },
            (EventLoop::Detach, LoopEvent::Done) => EventLoop::End(Err(SysAugError::TraceeCrashed)),
            (EventLoop::Detach, LoopEvent::Failed(error)) => EventLoop::End(
                Err(SysAugError::PtraceDetach(error)),
            ),
            (EventLoop::DetachForGdb, LoopEvent::Done) => EventLoop::RunGdb,
            (EventLoop::DetachForGdb, LoopEvent::Failed(error)) => EventLoop::End(
                Err(SysAugError::GDBDetach(error)),
            ),
            (EventLoop::RunGdb, LoopEvent::GdbExited(code)) => EventLoop::End(
                Ok(gdb_exit_code(code)),
            ),
            (EventLoop::RunGdb, LoopEvent::Failed(error)) => EventLoop::End(
                Err(SysAugError::GDB(error)),
            ),
            (other, _) => other,
        }
    }

    /// Unblocks the reason that belongs to the status, or resumes the tracee if there is none.
    fn hand_over(
        through_syscall: bool,
        status: WaitStatus,
        siginfo_error: Option<i32>,
        runtime: &mut PtraceAsyncRuntime,
    ) -> (r: Self)
        requires
            old(runtime).unblocked() is None,
        ensures
            match reason_of(status, siginfo_error) {
                Some(reason) => {
                    &&& r is RunStep
                    &&& final(runtime).unblocked() == Some(
                        (reason, PtraceStatus { wait_status: status }),
                    )
                },
                None => {
                    &&& r == (EventLoop::Resume { through_syscall, signal: None })
                    &&& final(runtime).unblocked() is None
                },
            },
            final(runtime).table() == old(runtime).table(),
            final(runtime).new_blockage() == old(runtime).new_blockage(),
    {
        match unblocked_reason(&status, siginfo_error) {
            Some(reason) => {
                runtime.unblock_futures(reason, PtraceStatus { wait_status: status });
                EventLoop::RunStep
            },
            None => EventLoop::Resume { through_syscall, signal: None },
        }
    }
}

/// Where the loop stands after a row of events.
pub open spec fn reached(state: EventLoop, events: Seq<LoopEvent>) -> EventLoop
    decreases events.len(),
{
    if events.len() == 0 {
        state
    } else {
        reached(state, events.drop_last()).after(events.last())
    }
}

/// Until the next step of the asynchronous part the tracee is resumed in the same way each time,
/// but its signal is delivered only the first time.
pub proof fn lemma_signal_sent_once(
    through_syscall: bool,
    signal: Option<Signal>,
    events: Seq<LoopEvent>,
)
    requires
        events.len() > 0,
        forall|i: int|
            0 <= i <= events.len() ==> !(reached(
                EventLoop::Resume { through_syscall, signal },
                #[trigger] events.take(i),
            ) is RunStep),
    ensures
        match reached(EventLoop::Resume { through_syscall, signal }, events) {
            EventLoop::Resume { through_syscall: again, signal: more } => again == through_syscall
                && more is None,
            EventLoop::AwaitStop { through_syscall: again } => again == through_syscall,
            EventLoop::QuerySignal { through_syscall: again, .. } => again == through_syscall,
            other => other is Detach || other is End,
        },
    decreases events.len(),
{
    let start = EventLoop::Resume { through_syscall, signal };
    let front = events.drop_last();
    assert(events.take(events.len() as int) =~= events);
    assert(events.take(events.len() - 1) =~= front);
    if front.len() > 0 {
        assert forall|i: int| 0 <= i <= front.len() implies !(reached(
            start,
            #[trigger] front.take(i),
        ) is RunStep) by {
            assert(front.take(i) =~= events.take(i));
        }
        lemma_signal_sent_once(through_syscall, signal, front);
    }
}

/// The asynchronous part runs its first step once the tracee is set up. Before every other step
/// exactly one reason is unblocked, and none is unblocked at any other time.
pub proof fn lemma_one_reason_per_step(state: EventLoop, event: LoopEvent)
    requires
        state.expects(event),
    ensures
        state.after(event) is RunStep <==> state is SetOptions && event is Done || state.unblocks(
            event,
        ) is Some,
        state is SetOptions ==> state.unblocks(event) is None,
        state is RunStep ==> state.unblocks(event) is None,
{
}

/// A signal reaches the asynchronous part as such, unless the system knows no details of it.
pub proof fn lemma_signals_reported(
    through_syscall: bool,
    pid: Pid,
    signal: Signal,
    error: Option<i32>,
)
    requires
        signal.0 != SIGTRAP,
    ensures
        ({
            let status = WaitStatus::Stopped(pid, signal);
            let query = EventLoop::AwaitStop { through_syscall }.after(LoopEvent::Waited(status));
            let answer = match error {
                Some(e) => LoopEvent::Failed(e),
                None => LoopEvent::Done,
            };
            if error == Some(EINVAL) {
                &&& query.unblocks(answer) is None
                &&& query.after(answer) == (EventLoop::Resume { through_syscall, signal: None })
            } else {
                &&& query.unblocks(answer) == Some(
                    (
                        PtraceFutureTypes::WaitForSignal,
                        (PtraceStatus { wait_status: status }),
                    ),
                )
                &&& query.after(answer) is RunStep
            }
        }),
{
}

/// Once the tracee has exited it is detached from, and the loop ends with an error.
pub proof fn lemma_crash_ends_loop(through_syscall: bool, pid: Pid, code: i32)
    ensures
        reached(
            EventLoop::AwaitStop { through_syscall },
            seq![LoopEvent::Waited(WaitStatus::Exited(pid, code))],
        ) is Detach,
        reached(
            EventLoop::AwaitStop { through_syscall },
            seq![LoopEvent::Waited(WaitStatus::Exited(pid, code)), LoopEvent::Done],
        ) == EventLoop::End(Err(SysAugError::TraceeCrashed)),
{
    let exited = LoopEvent::Waited(WaitStatus::Exited(pid, code));
    reveal_with_fuel(reached, 3);
    assert(seq![exited, LoopEvent::Done].drop_last() =~= seq![exited]);
    assert(seq![exited].drop_last() =~= Seq::<LoopEvent>::empty());
}

} // verus!
