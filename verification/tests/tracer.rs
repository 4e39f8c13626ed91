use pocker::event_loop::{
    gdb_exit_code, get_tracee_maybe_signal, has_crashed, needs_siginfo, unblocked_reason,
    EventLoop, LoopEvent, SysAugError, EINVAL, PTRACE_EVENT_SECCOMP, PTRACE_O_TRACECLONE,
    PTRACE_O_TRACEEXIT, PTRACE_O_TRACEFORK, PTRACE_O_TRACESECCOMP, PTRACE_O_TRACESYSGOOD,
    PTRACE_O_TRACEVFORK, TRACE_OPTIONS,
};
use pocker::executor::{PtraceAsyncRuntime, PtraceFutureTypes, PtraceStatus};
use pocker::handler_sync::{
    thread_end, ThreadEnd, TraceeHandler, TraceeHandlerConsts, SIGKILL,
};
use pocker::kernel::is_legacy_seccomp;
use pocker::ptrace::{
    found_stack_ptr, is_still_alive, is_syscall_stop, is_trace_stop, pid, set_syscall_num,
    stack_ptr, GenericPurposeRegs, Pid, PtraceError, PtraceSyscallInfo, Signal, WaitStatus, SIGTRAP,
};
use pocker::AsyncRuntimeError;
use std::sync::Arc;

const TRACEE: Pid = Pid(77);
const SIGUSR1: Signal = Signal(10);

fn stopped(signal: i32) -> WaitStatus {
    WaitStatus::Stopped(TRACEE, Signal(signal))
}

fn event(number: i32) -> WaitStatus {
    WaitStatus::PtraceEvent(TRACEE, Signal(SIGTRAP), number)
}

fn awaiting() -> EventLoop {
    EventLoop::AwaitStop { through_syscall: true }
}

/// The loop after one event, with a runtime that has nothing unblocked.
fn after(state: EventLoop, event: LoopEvent) -> EventLoop {
    let mut runtime = PtraceAsyncRuntime::new();
    let next = state.next(event, &mut runtime);
    assert!(!runtime.has_unblocked());
    next
}

/// What is unblocked by an event.
fn unblocked(state: EventLoop, event: LoopEvent) -> Option<(PtraceFutureTypes, PtraceStatus)> {
    let mut runtime = PtraceAsyncRuntime::new();
    let next = state.next(event, &mut runtime);
    if !runtime.has_unblocked() {
        return None;
    }
    assert_eq!(next, EventLoop::RunStep);
    for reason in [
        PtraceFutureTypes::WaitForPtraceSeccomp,
        PtraceFutureTypes::WaitForPtraceSyscall,
        PtraceFutureTypes::WaitForPtraceEvent,
        PtraceFutureTypes::WaitForSignal,
    ] {
        let mut future = runtime.new_pending_future(reason);
        if let Some(answer) = future.poll(&mut runtime) {
            return Some((reason, answer.unwrap()));
        }
    }
    unreachable!()
}

#[test]
fn constants_are_those_of_the_system() {
    assert_eq!(SIGTRAP, libc::SIGTRAP);
    assert_eq!(SIGKILL, libc::SIGKILL);
    assert_eq!(EINVAL, libc::EINVAL);
    assert_eq!(PTRACE_EVENT_SECCOMP, libc::PTRACE_EVENT_SECCOMP);
    assert_eq!(PTRACE_O_TRACESYSGOOD, libc::PTRACE_O_TRACESYSGOOD);
    assert_eq!(PTRACE_O_TRACEFORK, libc::PTRACE_O_TRACEFORK);
    assert_eq!(PTRACE_O_TRACEVFORK, libc::PTRACE_O_TRACEVFORK);
    assert_eq!(PTRACE_O_TRACECLONE, libc::PTRACE_O_TRACECLONE);
    assert_eq!(PTRACE_O_TRACEEXIT, libc::PTRACE_O_TRACEEXIT);
    assert_eq!(PTRACE_O_TRACESECCOMP, libc::PTRACE_O_TRACESECCOMP);
    assert_eq!(
        TRACE_OPTIONS,
        (nix::sys::ptrace::Options::PTRACE_O_TRACESYSGOOD
            | nix::sys::ptrace::Options::PTRACE_O_TRACEEXIT
            | nix::sys::ptrace::Options::PTRACE_O_TRACECLONE
            | nix::sys::ptrace::Options::PTRACE_O_TRACEFORK
            | nix::sys::ptrace::Options::PTRACE_O_TRACEVFORK
            | nix::sys::ptrace::Options::PTRACE_O_TRACESECCOMP)
            .bits()
    );
}

#[test]
fn statuses_are_told_apart() {
    assert!(is_trace_stop(&event(1)));
    assert!(is_trace_stop(&stopped(SIGTRAP)));
    assert!(!is_trace_stop(&stopped(libc::SIGSTOP)));
    assert!(!is_trace_stop(&WaitStatus::StillAlive));
    assert!(!is_trace_stop(&WaitStatus::PtraceSyscall(TRACEE)));
    assert!(is_syscall_stop(&WaitStatus::PtraceSyscall(TRACEE)));
    assert!(!is_syscall_stop(&event(1)));
    assert!(is_still_alive(&WaitStatus::StillAlive));
    assert!(is_still_alive(&WaitStatus::Signaled(TRACEE, Signal(9), false)));
    assert!(is_still_alive(&WaitStatus::Continued(TRACEE)));
    assert!(!is_still_alive(&WaitStatus::Exited(TRACEE, 0)));
    assert!(has_crashed(&WaitStatus::Exited(TRACEE, 0)));
    assert!(!has_crashed(&stopped(SIGTRAP)));
    assert!(!has_crashed(&WaitStatus::Signaled(TRACEE, Signal(9), false)));
}

#[test]
fn process_numbers_have_to_fit() {
    assert_eq!(pid(0), Ok(Pid(0)));
    assert_eq!(pid(2147483647), Ok(Pid(2147483647)));
    assert_eq!(pid(2147483648), Err(PtraceError::ParsePid(2147483648)));
    assert_eq!(pid(u64::MAX), Err(PtraceError::ParsePid(u64::MAX)));
}

#[test]
fn only_the_system_call_is_replaced() {
    let regs = GenericPurposeRegs { syscall_num: 1, arg0: 2, arg1: 3, arg2: 4 };
    assert_eq!(
        set_syscall_num(regs, 39),
        GenericPurposeRegs { syscall_num: 39, arg0: 2, arg1: 3, arg2: 4 }
    );
}

#[test]
fn syscall_infos_start_zeroed() {
    let info = PtraceSyscallInfo::default();
    assert_eq!(info.op, 0);
    assert_eq!(info.clone().op, 0);
    assert!(format!("{:?}", info).contains("stack_pointer: 0"));
}

#[test]
fn the_stack_pointer_is_found() {
    assert_eq!(found_stack_ptr(Some(4096)), 4096);
    assert_eq!(found_stack_ptr(None), 0);
    let sp = stack_ptr();
    assert_ne!(sp, 0);
    // Both calls are made on the same stack.
    assert!(sp.abs_diff(stack_ptr()) < 1 << 20);
}

#[test]
fn reasons_are_ordered_as_they_are_listed() {
    let reasons = [
        PtraceFutureTypes::WaitForPtraceSeccomp,
        PtraceFutureTypes::WaitForPtraceSyscall,
        PtraceFutureTypes::WaitForPtraceEvent,
        PtraceFutureTypes::WaitForSignal,
    ];
    for i in 0..4 {
        for j in 0..4 {
            assert_eq!(reasons[i] == reasons[j], i == j);
            assert_eq!(reasons[i] < reasons[j], i < j);
            assert_eq!(reasons[i].cmp(&reasons[j]), i.cmp(&j));
        }
    }
}

#[test]
fn the_tracer_has_room_for_every_reason() {
    let mut runtime = PtraceAsyncRuntime::new();
    for reason in [
        PtraceFutureTypes::WaitForSignal,
        PtraceFutureTypes::WaitForPtraceEvent,
        PtraceFutureTypes::WaitForPtraceSyscall,
        PtraceFutureTypes::WaitForPtraceSeccomp,
        PtraceFutureTypes::WaitForSignal,
    ] {
        assert_eq!(runtime.new_pending_future(reason).poll(&mut runtime), None);
    }
    assert_eq!(runtime._pending_futures_size(), 4);
}

#[test]
fn signals_are_told_from_stops() {
    assert!(needs_siginfo(&stopped(10)));
    assert!(!needs_siginfo(&stopped(SIGTRAP)));
    assert!(!needs_siginfo(&event(1)));
    assert_eq!(get_tracee_maybe_signal(&stopped(10), None), Some(SIGUSR1));
    assert_eq!(get_tracee_maybe_signal(&stopped(10), Some(3)), Some(SIGUSR1));
    assert_eq!(get_tracee_maybe_signal(&stopped(10), Some(EINVAL)), None);
    assert_eq!(get_tracee_maybe_signal(&stopped(SIGTRAP), None), None);
    assert_eq!(get_tracee_maybe_signal(&event(1), None), None);
}

#[test]
fn statuses_unblock_their_reasons() {
    assert_eq!(
        unblocked_reason(&stopped(10), None),
        Some(PtraceFutureTypes::WaitForSignal)
    );
    assert_eq!(unblocked_reason(&stopped(10), Some(EINVAL)), None);
    assert_eq!(
        unblocked_reason(&event(PTRACE_EVENT_SECCOMP), None),
        Some(PtraceFutureTypes::WaitForPtraceSeccomp)
    );
    assert_eq!(
        unblocked_reason(&event(6), None),
        Some(PtraceFutureTypes::WaitForPtraceEvent)
    );
    assert_eq!(
        unblocked_reason(&WaitStatus::PtraceSyscall(TRACEE), None),
        Some(PtraceFutureTypes::WaitForPtraceSyscall)
    );
    assert_eq!(unblocked_reason(&stopped(SIGTRAP), None), None);
    assert_eq!(unblocked_reason(&WaitStatus::StillAlive, None), None);
}

#[test]
fn the_loop_sets_the_tracee_up() {
    let state = EventLoop::new();
    assert_eq!(state, EventLoop::Attach);
    let state = after(state, LoopEvent::Done);
    assert_eq!(state, EventLoop::AwaitAttached);
    let state = after(state, LoopEvent::Waited(stopped(libc::SIGSTOP)));
    assert_eq!(state, EventLoop::SetOptions);
    let state = after(state, LoopEvent::Done);
    assert_eq!(state, EventLoop::RunStep);
    assert_eq!(
        after(EventLoop::AwaitAttached, LoopEvent::Waited(WaitStatus::Exited(TRACEE, 1))),
        EventLoop::End(Err(SysAugError::TraceeCrashed))
    );
}

#[test]
fn a_signal_is_delivered_once() {
    let state = after(
        EventLoop::RunStep,
        LoopEvent::Yielded { through_syscall: false, signal: Some(SIGUSR1) },
    );
    assert_eq!(state, EventLoop::Resume { through_syscall: false, signal: Some(SIGUSR1) });
    let state = after(state, LoopEvent::Done);
    assert_eq!(state, EventLoop::AwaitStop { through_syscall: false });
    // Nobody waits for a stop of this kind.
    let state = after(state, LoopEvent::Waited(stopped(SIGTRAP)));
    assert_eq!(state, EventLoop::Resume { through_syscall: false, signal: None });
    let state = after(state, LoopEvent::Done);
    let state = after(state, LoopEvent::Waited(stopped(12)));
    assert_eq!(
        state,
        EventLoop::QuerySignal { through_syscall: false, status: stopped(12) }
    );
    let state = after(state, LoopEvent::Failed(EINVAL));
    assert_eq!(state, EventLoop::Resume { through_syscall: false, signal: None });
}

#[test]
fn one_reason_is_unblocked_for_each_stop() {
    for (status, reason) in [
        (event(PTRACE_EVENT_SECCOMP), PtraceFutureTypes::WaitForPtraceSeccomp),
        (event(1), PtraceFutureTypes::WaitForPtraceEvent),
        (WaitStatus::PtraceSyscall(TRACEE), PtraceFutureTypes::WaitForPtraceSyscall),
    ] {
        assert_eq!(
            unblocked(awaiting(), LoopEvent::Waited(status)),
            Some((reason, PtraceStatus { wait_status: status }))
        );
    }
    assert_eq!(unblocked(awaiting(), LoopEvent::Waited(stopped(10))), None);
    for answer in [LoopEvent::Done, LoopEvent::Failed(3)] {
        let query = EventLoop::QuerySignal { through_syscall: true, status: stopped(10) };
        assert_eq!(
            unblocked(query, answer),
            Some((
                PtraceFutureTypes::WaitForSignal,
                PtraceStatus { wait_status: stopped(10) }
            ))
        );
    }
}

#[test]
fn a_crash_ends_the_loop() {
    let state = after(awaiting(), LoopEvent::Waited(WaitStatus::Exited(TRACEE, 3)));
    assert_eq!(state, EventLoop::Detach);
    assert_eq!(
        after(state, LoopEvent::Done),
        EventLoop::End(Err(SysAugError::TraceeCrashed))
    );
}

#[test]
fn the_end_of_the_machine_ends_the_loop() {
    let finished = |result, transfer_to_gdb| LoopEvent::Finished { result, transfer_to_gdb };
    assert_eq!(
        after(EventLoop::RunStep, finished(Ok(3), false)),
        EventLoop::End(Ok(3))
    );
    assert_eq!(
        after(
            EventLoop::RunStep,
            finished(Err(SysAugError::AsyncRuntime(AsyncRuntimeError::TooManyPending)), false)
        ),
        EventLoop::End(Err(SysAugError::AsyncRuntime(AsyncRuntimeError::TooManyPending)))
    );
    let state = after(EventLoop::RunStep, finished(Err(SysAugError::Lock), true));
    assert_eq!(state, EventLoop::DetachForGdb);
    let state = after(state, LoopEvent::Done);
    assert_eq!(state, EventLoop::RunGdb);
    assert_eq!(after(state, LoopEvent::GdbExited(Some(2))), EventLoop::End(Ok(2)));
}

#[test]
fn every_failure_has_its_error() {
    for (state, error) in [
        (EventLoop::Attach, SysAugError::PtraceAttach(1)),
        (EventLoop::AwaitAttached, SysAugError::Waitpid(1)),
        (EventLoop::SetOptions, SysAugError::PtraceSetOptions(1)),
        (
            EventLoop::Resume { through_syscall: true, signal: None },
            SysAugError::PtraceSyscall(1),
        ),
        (
            EventLoop::Resume { through_syscall: false, signal: None },
            SysAugError::PtraceContinue(1),
        ),
        (awaiting(), SysAugError::Waitpid(1)),
        (EventLoop::Detach, SysAugError::PtraceDetach(1)),
        (EventLoop::DetachForGdb, SysAugError::GDBDetach(1)),
        (EventLoop::RunGdb, SysAugError::GDB(1)),
    ] {
        assert_eq!(after(state, LoopEvent::Failed(1)), EventLoop::End(Err(error)));
    }
}

#[test]
fn exit_codes_of_the_debugger_are_cut_to_a_byte() {
    assert_eq!(gdb_exit_code(Some(0)), 0);
    assert_eq!(gdb_exit_code(Some(255)), 255);
    assert_eq!(gdb_exit_code(Some(258)), 2);
    assert_eq!(gdb_exit_code(Some(-2)), 254);
    assert_eq!(gdb_exit_code(None), 255);
}

#[test]
fn releases_are_compared_number_by_number() {
    assert_eq!(is_legacy_seccomp("4.7.10-generic"), Ok(true));
    assert_eq!(is_legacy_seccomp("4.7"), Ok(true));
    assert_eq!(is_legacy_seccomp("4.8.0"), Ok(false));
    assert_eq!(is_legacy_seccomp("3.10.0"), Ok(false));
    assert_eq!(is_legacy_seccomp("2.6.32"), Ok(true));
    assert_eq!(is_legacy_seccomp("5.4.0"), Ok(false));
    assert_eq!(is_legacy_seccomp("+4.0007.1"), Ok(true));
    assert_eq!(is_legacy_seccomp("18446744073709551615.0"), Ok(false));
}

#[test]
fn releases_without_two_numbers_are_refused() {
    for release in [
        "", "linux", "x.7", "4.7-rc1", "4.", ".7", "4. 7", "-4.7", "+.7", "4.+",
        "18446744073709551616.0", "4.99999999999999999999",
    ] {
        assert_eq!(
            is_legacy_seccomp(release),
            Err(SysAugError::ParseKernelVersion(release.to_string()))
        );
    }
}

fn handler() -> Arc<TraceeHandler<String, u8, u16>> {
    let consts = TraceeHandlerConsts { args: 1, config: 2, root_pid: Pid(5) };
    TraceeHandler::new(TRACEE, "client".to_string(), Some(Arc::new(consts)), None, 30, 4096)
        .unwrap()
}

#[test]
fn a_handler_keeps_what_it_is_given() {
    let handler = handler();
    assert_eq!(handler.pid, TRACEE);
    assert_eq!(handler.ptrace_client, "client");
    assert_eq!(handler.shared_fd, 30);
    assert_eq!(handler.mmap_tracer_addr, 4096);
    assert_eq!((handler.consts.args, handler.consts.config), (1, 2));
    assert_eq!(handler.consts.root_pid, Pid(5));
    assert!(handler.parent.is_none());

    let plain: Arc<TraceeHandler<u8, u8, u16>> =
        TraceeHandler::new(TRACEE, 0, None, None, 1, 2).unwrap();
    assert_eq!((plain.consts.args, plain.consts.config), (0, 0));
    assert_eq!(plain.consts.root_pid, Pid(0));
}

#[test]
fn a_child_inherits_from_its_parent() {
    let parent = handler();
    let child = parent.fork(Pid(78)).unwrap();
    assert_eq!(child.pid, Pid(78));
    assert_eq!(child.ptrace_client, "client");
    assert_eq!(child.shared_fd, 30);
    assert_eq!(child.mmap_tracer_addr, 4096);
    assert_eq!(child.consts.root_pid, Pid(5));
    assert!(!Arc::ptr_eq(&child.consts, &parent.consts));
    assert!(Arc::ptr_eq(child.parent.as_ref().unwrap(), &parent));
}

#[test]
fn the_kernel_is_asked_before_the_tracee_is_attached_to() {
    let handler = handler();
    assert_eq!(handler.event_loop(Ok("4.4.0")), Ok((EventLoop::Attach, true)));
    assert_eq!(handler.event_loop(Ok("6.1.0")), Ok((EventLoop::Attach, false)));
    assert_eq!(
        handler.event_loop(Ok("six")),
        Err(SysAugError::ParseKernelVersion("six".to_string()))
    );
    assert_eq!(
        handler.event_loop(Err(14)),
        Err(SysAugError::ReadKernelVersion(14))
    );
}

#[test]
fn a_failed_loop_kills_the_tracee() {
    assert_eq!(
        thread_end(Ok(3)),
        ThreadEnd { kill: None, failed: false, exit_code: Some(3) }
    );
    assert_eq!(
        thread_end(Err(SysAugError::TraceeCrashed)),
        ThreadEnd { kill: Some(Signal(SIGKILL)), failed: true, exit_code: None }
    );
}
