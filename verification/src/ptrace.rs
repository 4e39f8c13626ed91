//! What the tracer knows of a traced process: its states, its registers, the memory shared with it.
use vstd::prelude::*;

verus! {

/// The signal that a process gets when its tracing has something to report.
pub const SIGTRAP: i32 = 5;

/// The number of a process.
#[derive(Copy, Clone, Debug, PartialEq, Eq, Structural)]
pub struct Pid(pub i32);

/// The number of a signal.
#[derive(Copy, Clone, Debug, PartialEq, Eq, Structural)]
pub struct Signal(pub i32);

/// What waiting for a process reports of it.
#[derive(Copy, Clone, Debug, PartialEq, Eq, Structural)]
pub enum WaitStatus {
    /// It exited, with this code.
    Exited(Pid, i32),
    /// A signal killed it, and it left a core dump or not.
    Signaled(Pid, Signal, bool),
    /// A signal stopped it.
    Stopped(Pid, Signal),
    /// It is stopped by an event of its tracing, with this number.
    PtraceEvent(Pid, Signal, i32),
    /// It is stopped at a system call.
    PtraceSyscall(Pid),
    /// It was stopped and goes on.
    Continued(Pid),
    /// There is nothing to report.
    StillAlive,
}

/// The tracing itself has stopped the process.
pub open spec fn trace_stop(status: WaitStatus) -> bool {
    status is PtraceEvent || (status matches WaitStatus::Stopped(_, signal) && signal.0 == SIGTRAP)
}

/// Whether the tracing itself has stopped the process.
pub fn is_trace_stop(status: &WaitStatus) -> (r: bool)
    ensures
        r == trace_stop(*status),
{
    match status {
        WaitStatus::PtraceEvent(_, _, _) => true,
        WaitStatus::Stopped(_, signal) => signal.0 == SIGTRAP,
        _ => false,
    }
}

/// Whether the process is stopped at a system call.
pub fn is_syscall_stop(status: &WaitStatus) -> (r: bool)
    ensures
        r == (*status is PtraceSyscall),
{
    matches!(status, WaitStatus::PtraceSyscall(_))
}

/// Whether the process has not exited.
pub fn is_still_alive(status: &WaitStatus) -> (r: bool)
    ensures
        r == !(*status is Exited),
{
    !matches!(status, WaitStatus::Exited(_, _))
}

/// What can go wrong with a traced process. Where there is a number of type `i32`, it is the error
/// that the system reported.
#[derive(Copy, Clone, Debug, PartialEq, Eq, Structural)]
pub enum PtraceError {
    /// This is too large for the number of a process.
    ParsePid(u64),
    /// The memory that is shared with the tracees cannot be made.
    CreateMemoryFile(i32),
    /// A thread died while it held the lock of a region of the shared memory.
    LockGlobalMmap,
    /// The first tracee cannot be forked off.
    StartInitCmd(i32),
    /// The first tracee cannot run its command.
    InitCmdFailed(i32),
}

/// The process with the number that the standard library reports.
pub fn pid(raw_id: u64) -> (r: Result<Pid, PtraceError>)
    ensures
        r == if raw_id <= i32::MAX {
            Ok::<Pid, PtraceError>(Pid(raw_id as i32))
        } else {
            Err(PtraceError::ParsePid(raw_id))
        },
{
    if raw_id <= 0x7fff_ffff {
        Ok(Pid(raw_id as i32))
    } else {
        Err(PtraceError::ParsePid(raw_id))
    }
}

/// What the kernel tells of the system call that a process is stopped at.
#[derive(Debug)]
pub struct PtraceSyscallInfo {
    /// What kind of stop this is.
    pub op: u8,
    _reserved1: u8,
    flags: u16,
    arch: u32,
    instruction_pointer: u64,
    stack_pointer: u64,
    _reserved2: [u64; 3],
}

impl PtraceSyscallInfo {
    /// What kind of stop this is.
    pub closed spec fn kind(&self) -> u8 {
        self.op
    }

    /// The fields, in their order, up to the last.
    pub closed spec fn fields(&self) -> (u8, u8, u16, u32, u64, u64) {
        (
            self.op,
            self._reserved1,
            self.flags,
            self.arch,
            self.instruction_pointer,
            self.stack_pointer,
        )
    }

    /// The last field.
    pub closed spec fn reserved(&self) -> Seq<u64> {
        self._reserved2@
    }

    /// Where every field is zero, each of them is.
    pub proof fn lemma_zeroed(&self)
        requires
            self.is_zeroed(),
        ensures
            self.fields() == (0u8, 0u8, 0u16, 0u32, 0u64, 0u64),
            self.reserved() == seq![0u64, 0u64, 0u64],
    {
    }

    /// Every field is zero.
    pub closed spec fn is_zeroed(&self) -> bool {
        &&& self.op == 0
        &&& self._reserved1 == 0
        &&& self.flags == 0
        &&& self.arch == 0
        &&& self.instruction_pointer == 0
        &&& self.stack_pointer == 0
        &&& self._reserved2@ =~= seq![0u64, 0, 0]
    }
}

impl Default for PtraceSyscallInfo {
    fn default() -> (r: Self)
        ensures
            r.is_zeroed(),
            r.kind() == 0,
    {
        PtraceSyscallInfo {
            op: 0,
            _reserved1: 0,
            flags: 0,
            arch: 0,
            instruction_pointer: 0,
            stack_pointer: 0,
            _reserved2: [0, 0, 0],
        }
    }
}

impl Clone for PtraceSyscallInfo {
    fn clone(&self) -> (r: Self)
        ensures
            r == *self,
    {
        PtraceSyscallInfo {
            op: self.op,
            _reserved1: self._reserved1,
            flags: self.flags,
            arch: self.arch,
            instruction_pointer: self.instruction_pointer,
            stack_pointer: self.stack_pointer,
            _reserved2: self._reserved2,
        }
    }
}

/// The registers that hold the number of a system call and its first arguments.
#[derive(Copy, Clone, Debug, PartialEq, Eq, Structural)]
pub struct GenericPurposeRegs {
    pub syscall_num: usize,
    pub arg0: usize,
    pub arg1: usize,
    pub arg2: usize,
}

/// The registers with another system call in place of the one that the process asked for.
pub fn set_syscall_num(regs: GenericPurposeRegs, val: usize) -> (r: GenericPurposeRegs)
    ensures
        r == (GenericPurposeRegs { syscall_num: val, ..regs }),
{
    GenericPurposeRegs { syscall_num: val, ..regs }
}

/// The stack pointer of the first frame that `backtrace::trace` reports, or `None` if it reports
/// none. The walk ends there, as the callback answers false.
///
/// Where the stack lies depends on the machine, so nothing is claimed of the value.
#[verifier::external_body]
fn first_frame_sp() -> (r: Option<usize>) {
    let mut sp: Option<usize> = None;
    backtrace::trace(|frame| {
        sp.replace(frame.sp() as usize);
        false
    });
    sp
}

/// The stack pointer that a walk over the stack has found, or zero if it found none.
pub fn found_stack_ptr(found: Option<usize>) -> (r: usize)
    ensures
        r == match found {
            Some(sp) => sp,
            None => 0,
        },
{
    found.unwrap_or(0)
}

/// A walk over the stack can come to this.
pub closed spec fn walk_finds(found: Option<usize>) -> bool {
    call_ensures(first_frame_sp, (), found)
}

/// The stack pointer of the current thread, as a walk over the stack has found it, or zero if it
/// has found none. Which of them, and where the stack lies, depends on the machine.
pub fn stack_ptr() -> (r: usize)
    ensures
        exists|found: Option<usize>| #[trigger]
            walk_finds(found) && r == match found {
                Some(sp) => sp,
                None => 0,
            },
{
    let walk = first_frame_sp;
    let found = walk();
    assert(walk_finds(found));
    found_stack_ptr(found)
}

} // verus!
