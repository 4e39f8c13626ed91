//! What the tracer keeps of each tracee, and the thread that traces it.
use std::sync::Arc;
use vstd::prelude::*;

use crate::event_loop::{EventLoop, SysAugError};
use crate::kernel::{first_part, is_legacy_seccomp, number, second_part};
use crate::ptrace::{Pid, Signal};

verus! {

/// The signal that ends a process at once.
pub const SIGKILL: i32 = 9;

/// What a thread does once the event loop of its tracee has returned.
#[derive(Copy, Clone, Debug, PartialEq, Eq, Structural)]
pub struct ThreadEnd {
    /// The signal to send to the tracee.
    pub kill: Option<Signal>,
    /// The tracee counts as crashed because of the tracer.
    pub failed: bool,
    /// What the thread returns.
    pub exit_code: Option<u8>,
}

/// What is the same for a tracee all along. A child of it can have other values.
#[derive(Debug)]
pub struct TraceeHandlerConsts<Args, Config> {
    pub args: Args,
    pub config: Config,
    pub root_pid: Pid,
}

impl<Args, Config> TraceeHandlerConsts<Args, Config> {
    /// `other` is a clone of this.
    pub open spec fn cloned_to(self, other: Self) -> bool where Args: Clone, Config: Clone {
        &&& cloned(self.args, other.args)
        &&& cloned(self.config, other.config)
        &&& self.root_pid == other.root_pid
    }

    /// Everything has its default value.
    pub open spec fn is_default(self) -> bool where Args: Default, Config: Default {
        &&& call_ensures(Args::default, (), self.args)
        &&& call_ensures(Config::default, (), self.config)
        &&& self.root_pid == Pid(0)
    }
}

impl<Args: Clone, Config: Clone> Clone for TraceeHandlerConsts<Args, Config> {
    fn clone(&self) -> (r: Self)
        ensures
            self.cloned_to(r),
    {
        TraceeHandlerConsts {
            args: self.args.clone(),
            config: self.config.clone(),
            root_pid: self.root_pid,
        }
    }
}

impl<Args: Default, Config: Default> Default for TraceeHandlerConsts<Args, Config> {
    fn default() -> (r: Self)
        ensures
            r.is_default(),
    {
        TraceeHandlerConsts { args: Args::default(), config: Config::default(), root_pid: Pid(0) }
    }
}

/// What the tracer keeps of one tracee.
#[derive(Debug)]
pub struct TraceeHandler<PtraceClient, Args, Config> {
    pub pid: Pid,
    /// Sends the requests to the tracee.
    pub ptrace_client: PtraceClient,
    /// The file that is shared with the tracee.
    pub shared_fd: i32,
    /// Where that file stands in the memory of the tracer.
    pub mmap_tracer_addr: usize,
    pub consts: Arc<TraceeHandlerConsts<Args, Config>>,
    /// The handler that this one was forked from.
    pub parent: Option<Arc<TraceeHandler<PtraceClient, Args, Config>>>,
}

impl<
    PtraceClient: Clone,
    Args: Clone + Default,
    Config: Clone + Default,
> TraceeHandler<PtraceClient, Args, Config> {
    /// A handler for the tracee `pid`, without an event loop.
    pub fn new(
        pid: Pid,
        ptrace_client: PtraceClient,
        consts: Option<Arc<TraceeHandlerConsts<Args, Config>>>,
        parent: Option<Arc<TraceeHandler<PtraceClient, Args, Config>>>,
        shared_fd: i32,
        mmap_addr: usize,
    ) -> (r: Result<Arc<TraceeHandler<PtraceClient, Args, Config>>, SysAugError>)
        ensures
            r is Ok,
            r->Ok_0.pid == pid,
            r->Ok_0.ptrace_client == ptrace_client,
            r->Ok_0.shared_fd == shared_fd,
            r->Ok_0.mmap_tracer_addr == mmap_addr,
            r->Ok_0.parent == parent,
            match consts {
                Some(given) => given.cloned_to(*r->Ok_0.consts),
                None => exists|plain: TraceeHandlerConsts<Args, Config>|
                    #![trigger plain.is_default()]
                    plain.is_default() && plain.cloned_to(*r->Ok_0.consts),
            },
    {
        let given: Arc<TraceeHandlerConsts<Args, Config>> = match consts {
            Some(given) => given,
            None => Arc::new(TraceeHandlerConsts::default()),
        };
        let copy: TraceeHandlerConsts<Args, Config> = (*given).clone();
        assert(consts is None ==> given.is_default());
        Ok(
            Arc::new(
                TraceeHandler {
                    pid,
                    ptrace_client,
                    shared_fd,
                    mmap_tracer_addr: mmap_addr,
                    consts: Arc::new(copy),
                    parent,
                },
            ),
        )
    }

    /// A handler for a child of the tracee, without an event loop.
    pub fn fork(
        self: &Arc<TraceeHandler<PtraceClient, Args, Config>>,
        child_pid: Pid,
    ) -> (r: Result<Arc<TraceeHandler<PtraceClient, Args, Config>>, SysAugError>)
        ensures
            r is Ok,
            r->Ok_0.pid == child_pid,
            cloned(self.ptrace_client, r->Ok_0.ptrace_client),
            r->Ok_0.shared_fd == self.shared_fd,
            r->Ok_0.mmap_tracer_addr == self.mmap_tracer_addr,
            r->Ok_0.parent == Some(*self),
            self.consts.cloned_to(*r->Ok_0.consts),
    {
        TraceeHandler::new(
            child_pid,
            self.ptrace_client.clone(),
            Some(self.consts.clone()),
            Some(Arc::clone(self)),
            self.shared_fd,
            self.mmap_tracer_addr,
        )
    }

    /// Begins the event loop of the tracee. `release` is the release of the kernel, or the error
    /// that came from asking for it. The flag tells how this kernel reports filtered system calls.
    pub fn event_loop(&self, release: Result<&str, i32>) -> (r: Result<
        (EventLoop, bool),
        SysAugError,
    >)
        requires
            release matches Ok(text) ==> number(first_part(text@)) is Some ==> text@.contains('.'),
        ensures
            match release {
                Ok(text) => match (number(first_part(text@)), number(second_part(text@))) {
                    (Some(major), Some(minor)) => r == Ok::<(EventLoop, bool), SysAugError>(
                        (EventLoop::Attach, major <= 4 && minor <= 7),
                    ),
                    _ => r matches Err(SysAugError::ParseKernelVersion(named)) && named@ == text@,
                },
                Err(error) => r == Err::<(EventLoop, bool), SysAugError>(
                    SysAugError::ReadKernelVersion(error),
                ),
            },
    {
        match release {
            Ok(text) => match is_legacy_seccomp(text) {
                Ok(is_legacy) => Ok((EventLoop::new(), is_legacy)),
                Err(e) => Err(e),
            },
            Err(error) => Err(SysAugError::ReadKernelVersion(error)),
        }
    }
}

/// What a thread does once the event loop of its tracee has returned `result`.
pub fn thread_end(result: Result<u8, SysAugError>) -> (r: ThreadEnd)
    ensures
        r == match result {
            Ok(exit_code) => ThreadEnd { kill: None, failed: false, exit_code: Some(exit_code) },
            Err(_) => ThreadEnd { kill: Some(Signal(SIGKILL)), failed: true, exit_code: None },
        },
{
    match result {
        Ok(exit_code) => ThreadEnd { kill: None, failed: false, exit_code: Some(exit_code) },
        Err(_) => ThreadEnd { kill: Some(Signal(SIGKILL)), failed: true, exit_code: None },
    }
}

} // verus!
