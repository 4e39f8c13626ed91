//! What the other parts of the tracer are for, stated of their calls.
use std::sync::Arc;
use vstd::prelude::*;

use crate::event_loop::SysAugError;
use crate::executor::PtraceFutureTypes;
use crate::handler_sync::{thread_end, ThreadEnd, TraceeHandler, TraceeHandlerConsts, SIGKILL};
use crate::order::{key_eq, key_lt};
use crate::ptrace::{
    found_stack_ptr, is_still_alive, is_syscall_stop, is_trace_stop, pid, set_syscall_num,
    GenericPurposeRegs, Pid, PtraceError, PtraceSyscallInfo, Signal, WaitStatus, SIGTRAP,
};

verus! {

/// The tracing stops a process by an event or by `SIGTRAP`, and at a system call. A process is gone
/// exactly if it exited; one that the tracing has stopped is not.
pub proof fn lemma_statuses_told_apart(
    status: WaitStatus,
    trace_stop: bool,
    syscall_stop: bool,
    alive: bool,
)
    requires
        call_ensures(is_trace_stop, (&status,), trace_stop),
        call_ensures(is_syscall_stop, (&status,), syscall_stop),
        call_ensures(is_still_alive, (&status,), alive),
    ensures
        match status {
            WaitStatus::PtraceEvent(_, _, _) => trace_stop && !syscall_stop && alive,
            WaitStatus::PtraceSyscall(_) => !trace_stop && syscall_stop && alive,
            WaitStatus::Stopped(_, signal) => trace_stop == (signal.0 == SIGTRAP) && !syscall_stop
                && alive,
            WaitStatus::Exited(_, _) => !trace_stop && !syscall_stop && !alive,
            _ => !trace_stop && !syscall_stop && alive,
        },
{
}

/// The number of a process is kept as it is, or refused with that number: exactly if it is none
/// that a process can have.
pub proof fn lemma_pid_keeps_number(raw_id: u64, r: Result<Pid, PtraceError>)
    requires
        call_ensures(pid, (raw_id,), r),
    ensures
        match r {
            Ok(process) => process.0 == raw_id,
            Err(e) => e == PtraceError::ParsePid(raw_id) && forall|process: Pid|
                (#[trigger] process.0) != raw_id,
        },
{
}

/// The system call is replaced and its arguments are kept. Of two replacements the second counts.
pub proof fn lemma_syscall_replaced(
    regs: GenericPurposeRegs,
    first: usize,
    once: GenericPurposeRegs,
    second: usize,
    twice: GenericPurposeRegs,
)
    requires
        call_ensures(set_syscall_num, (regs, first), once),
        call_ensures(set_syscall_num, (once, second), twice),
    ensures
        once.syscall_num == first,
        once.arg0 == regs.arg0,
        once.arg1 == regs.arg1,
        once.arg2 == regs.arg2,
        twice.syscall_num == second,
        twice.arg0 == regs.arg0,
        twice.arg1 == regs.arg1,
        twice.arg2 == regs.arg2,
{
}

/// A stack pointer that was found is the one that is used; there is none at zero.
pub proof fn lemma_found_stack_ptr_used(sp: usize, r: usize, none: usize)
    requires
        call_ensures(found_stack_ptr, (Some(sp),), r),
        call_ensures(found_stack_ptr, (None,), none),
    ensures
        r == sp,
        none == 0,
{
}

/// The constants of a handler start with their default values, and are cloned part by part.
pub proof fn lemma_consts_cloned<Args: Clone + Default, Config: Clone + Default>(
    plain: TraceeHandlerConsts<Args, Config>,
    consts: TraceeHandlerConsts<Args, Config>,
    copy: TraceeHandlerConsts<Args, Config>,
)
    requires
        call_ensures(TraceeHandlerConsts::<Args, Config>::default, (), plain),
        call_ensures(TraceeHandlerConsts::<Args, Config>::clone, (&consts,), copy),
    ensures
        plain.root_pid == Pid(0),
        call_ensures(Args::default, (), plain.args),
        call_ensures(Config::default, (), plain.config),
        copy.root_pid == consts.root_pid,
        cloned(consts.args, copy.args),
        cloned(consts.config, copy.config),
{
}

/// What the kernel has told nothing of is zero, and a clone tells the same.
pub proof fn lemma_syscall_info_zeroed(
    plain: PtraceSyscallInfo,
    info: PtraceSyscallInfo,
    copy: PtraceSyscallInfo,
)
    requires
        call_ensures(PtraceSyscallInfo::default, (), plain),
        call_ensures(PtraceSyscallInfo::clone, (&info,), copy),
    ensures
        plain.fields() == (0u8, 0u8, 0u16, 0u32, 0u64, 0u64),
        plain.reserved() == seq![0u64, 0u64, 0u64],
        plain.kind() == 0,
        copy == info,
{
    plain.lemma_zeroed();
}

/// The reasons are ordered by urgency: filtered system calls, system calls, events, signals.
pub proof fn lemma_reasons_by_urgency()
    ensures
        key_lt(PtraceFutureTypes::WaitForPtraceSeccomp, PtraceFutureTypes::WaitForPtraceSyscall),
        key_lt(PtraceFutureTypes::WaitForPtraceSyscall, PtraceFutureTypes::WaitForPtraceEvent),
        key_lt(PtraceFutureTypes::WaitForPtraceEvent, PtraceFutureTypes::WaitForSignal),
        forall|a: PtraceFutureTypes, b: PtraceFutureTypes| #[trigger] key_eq(a, b) <==> a == b,
        forall|a: PtraceFutureTypes, b: PtraceFutureTypes|
            #![trigger key_lt(a, b)]
            !(key_lt(a, b) && key_lt(b, a)),
{
}

/// A thread whose loop returned a code returns it and does no harm. One whose loop failed, with
/// whatever error, kills the tracee, counts it as failed and returns nothing.
pub proof fn lemma_failed_tracee_killed(result: Result<u8, SysAugError>, r: ThreadEnd)
    requires
        call_ensures(thread_end, (result,), r),
    ensures
        r.exit_code is Some <==> result is Ok,
        result matches Ok(code) ==> r.exit_code == Some(code),
        r.failed <==> result is Err,
        r.kill is Some <==> result is Err,
        r.kill matches Some(signal) ==> signal == Signal(SIGKILL),
{
}

/// A handler keeps all that it is given, and a handler that is forked from it shares the file and
/// the memory, has clones of the rest, and knows where it came from.
pub proof fn lemma_fork_inherits<
    PtraceClient: Clone,
    Args: Clone + Default,
    Config: Clone + Default,
>(
    tracee: Pid,
    client: PtraceClient,
    consts: Arc<TraceeHandlerConsts<Args, Config>>,
    parent: Option<Arc<TraceeHandler<PtraceClient, Args, Config>>>,
    shared_fd: i32,
    mmap_addr: usize,
    made: Result<Arc<TraceeHandler<PtraceClient, Args, Config>>, SysAugError>,
    child_pid: Pid,
    forked: Result<Arc<TraceeHandler<PtraceClient, Args, Config>>, SysAugError>,
)
    requires
        call_ensures(
            TraceeHandler::<PtraceClient, Args, Config>::new,
            (tracee, client, Some(consts), parent, shared_fd, mmap_addr),
            made,
        ),
        made matches Ok(handler) ==> call_ensures(
            TraceeHandler::<PtraceClient, Args, Config>::fork,
            (&handler, child_pid),
            forked,
        ),
    ensures
        made matches Ok(handler) && handler.pid == tracee && handler.ptrace_client == client
            && handler.parent == parent && handler.shared_fd == shared_fd
            && handler.mmap_tracer_addr == mmap_addr && handler.consts.root_pid == consts.root_pid
            && cloned(consts.args, handler.consts.args) && cloned(
            consts.config,
            handler.consts.config,
        ),
        forked matches Ok(child) && child.pid == child_pid && child.parent == Some(made->Ok_0)
            && child.shared_fd == shared_fd && child.mmap_tracer_addr == mmap_addr
            && child.consts.root_pid == consts.root_pid && cloned(client, child.ptrace_client)
            && cloned(made->Ok_0.consts.args, child.consts.args) && cloned(
            made->Ok_0.consts.config,
            child.consts.config,
        ),
{
}

/// Any handler that is forked shares the file and the memory of the handler that it comes from, has
/// clones of its client and its constants, and knows where it came from.
pub proof fn lemma_child_of<
    PtraceClient: Clone,
    Args: Clone + Default,
    Config: Clone + Default,
>(
    handler: Arc<TraceeHandler<PtraceClient, Args, Config>>,
    child_pid: Pid,
    forked: Result<Arc<TraceeHandler<PtraceClient, Args, Config>>, SysAugError>,
)
    requires
        call_ensures(
            TraceeHandler::<PtraceClient, Args, Config>::fork,
            (&handler, child_pid),
            forked,
        ),
    ensures
        forked matches Ok(child) && child.pid == child_pid && child.parent == Some(handler)
            && child.shared_fd == handler.shared_fd && child.mmap_tracer_addr
            == handler.mmap_tracer_addr && child.consts.root_pid == handler.consts.root_pid
            && cloned(handler.ptrace_client, child.ptrace_client) && cloned(
            handler.consts.args,
            child.consts.args,
        ) && cloned(handler.consts.config, child.consts.config),
{
}

/// Without constants a handler has the default ones, whose root process is the number zero. It
/// keeps all else that it is given.
pub proof fn lemma_default_consts<
    PtraceClient: Clone,
    Args: Clone + Default,
    Config: Clone + Default,
>(
    tracee: Pid,
    client: PtraceClient,
    parent: Option<Arc<TraceeHandler<PtraceClient, Args, Config>>>,
    shared_fd: i32,
    mmap_addr: usize,
    made: Result<Arc<TraceeHandler<PtraceClient, Args, Config>>, SysAugError>,
)
    requires
        call_ensures(
            TraceeHandler::<PtraceClient, Args, Config>::new,
            (tracee, client, None, parent, shared_fd, mmap_addr),
            made,
        ),
    ensures
        made matches Ok(handler) && handler.consts.root_pid == Pid(0) && handler.pid == tracee
            && handler.ptrace_client == client && handler.parent == parent && handler.shared_fd
            == shared_fd && handler.mmap_tracer_addr == mmap_addr,
        exists|args: Args, config: Config|
            {
                &&& #[trigger] call_ensures(Args::default, (), args)
                &&& #[trigger] call_ensures(Config::default, (), config)
                &&& cloned(args, made->Ok_0.consts.args)
                &&& cloned(config, made->Ok_0.consts.config)
            },
{
    let given = choose|given: TraceeHandlerConsts<Args, Config>| #[trigger]
        given.is_default() && given.cloned_to(*made->Ok_0.consts);
    assert(call_ensures(Args::default, (), given.args));
    assert(call_ensures(Config::default, (), given.config));
}

} // verus!
