//! How the first tracee is started.
//!
//! As the event loop does, the startup asks for something to be done and is told what came of it.
//! After the fork it goes on in both processes.
use vstd::prelude::*;

use crate::ptrace::{Pid, PtraceError};

verus! {

/// How many files are opened, and closed again, before the shared one. The descriptor of the
/// shared file is then too high to clash with those that shell scripts use.
pub const FILLER_FDS: usize = 27;

/// Which of the two processes a fork has returned in.
#[derive(Copy, Clone, Debug, PartialEq, Eq, Structural)]
pub enum ForkResult {
    /// The parent, which is told the number of the child.
    Parent(Pid),
    /// The child.
    Child,
}

/// What a startup depends on.
#[derive(Copy, Clone, Debug, PartialEq, Eq, Structural)]
pub struct StartConfig {
    /// The tracee asks to be traced, and does not wait to be attached to.
    pub no_attach: bool,
    /// How many tracees share the memory.
    pub max_num_tracees: usize,
    /// How many bytes of it each tracee has.
    pub zone_size: usize,
}

impl StartConfig {
    /// The memory of every tracee has an address, if all of it starts at `mmap_addr`.
    pub open spec fn maps_at(self, mmap_addr: usize) -> bool {
        self.max_num_tracees > 0 ==> mmap_addr + (self.max_num_tracees - 1) * self.zone_size
            <= usize::MAX
    }
}

/// Where a startup stands: what has to be done next.
#[derive(Copy, Clone, Debug, PartialEq, Eq)]
pub enum Startup {
    /// Create a file in memory. It is closed again once there is the shared one. This many are
    /// missing.
    CreateFiller { missing: usize },
    /// Create the file in memory that is shared with the tracees.
    CreateShared,
    /// Give the shared file its size.
    Truncate { shared_fd: i32 },
    /// Map the shared file, so that it can be read and written.
    MapShared { shared_fd: i32 },
    /// Make the memory of a tracee available, which starts at `addr`.
    InitRegion { shared_fd: i32, mmap_addr: usize, index: usize, addr: usize },
    /// Fork.
    Fork { shared_fd: i32, mmap_addr: usize },
    /// Ask to be traced by the parent.
    TraceMe,
    /// Stop until the tracer attaches.
    StopSelf,
    /// Become the command.
    Exec,
    /// Return this: the tracee, the shared file, and where that is mapped.
    End(Result<(Pid, i32, usize), PtraceError>),
}

/// What came of something that a startup has asked for.
#[derive(Copy, Clone, Debug, PartialEq, Eq, Structural)]
pub enum StartEvent {
    /// It was done.
    Done,
    /// It failed, and the system reported this error.
    Failed(i32),
    /// The file has this descriptor.
    Created(i32),
    /// The file is mapped to this address.
    Mapped(usize),
    /// The process was forked.
    Forked(ForkResult),
}

impl Startup {
    /// The regions that are still to come have addresses.
    pub open spec fn wf(self, config: StartConfig) -> bool {
        self matches Startup::InitRegion { mmap_addr, index, addr, .. } ==> {
            &&& config.maps_at(mmap_addr)
            &&& index < config.max_num_tracees
            &&& addr == mmap_addr + index * config.zone_size
        }
    }

    /// The event is an answer to what the startup asks for.
    pub open spec fn expects(self, config: StartConfig, event: StartEvent) -> bool {
        match self {
            Startup::CreateShared => event is Created || event is Failed,
            Startup::MapShared { .. } => event is Failed || (event matches StartEvent::Mapped(addr)
                && config.maps_at(addr)),
            Startup::Fork { .. } => event is Forked || event is Failed,
            // These do not return, or are not expected to fail.
            Startup::TraceMe | Startup::StopSelf => event is Done,
            Startup::Exec => event is Failed,
            Startup::End(_) => false,
            _ => event is Done || event is Failed,
        }
    }

    /// The error that the startup ends with if what it asks for fails.
    pub open spec fn failure(self, error: i32) -> PtraceError {
        match self {
            Startup::InitRegion { .. } => PtraceError::LockGlobalMmap,
            Startup::Fork { .. } => PtraceError::StartInitCmd(error),
            Startup::Exec => PtraceError::InitCmdFailed(error),
            _ => PtraceError::CreateMemoryFile(error),
        }
    }

    /// What is asked for once the memory of the first `index` tracees is available.
    pub open spec fn region(
        config: StartConfig,
        shared_fd: i32,
        mmap_addr: usize,
        index: int,
    ) -> Startup {
        if index < config.max_num_tracees {
            Startup::InitRegion {
                shared_fd,
                mmap_addr,
                index: index as usize,
                addr: (mmap_addr + index * config.zone_size) as usize,
            }
        } else {
            Startup::Fork { shared_fd, mmap_addr }
        }
    }

    /// What the startup asks for after an event.
    pub open spec fn after(self, config: StartConfig, event: StartEvent) -> Startup {
        match (self, event) {
            (_, StartEvent::Failed(error)) => Startup::End(Err(self.failure(error))),
            (Startup::CreateFiller { missing }, _) => if missing > 1 {
                Startup::CreateFiller { missing: (missing - 1) as usize }
            } else {
                Startup::CreateShared
            },
            (Startup::CreateShared, StartEvent::Created(shared_fd)) => Startup::Truncate {
                shared_fd,
            },
            (Startup::Truncate { shared_fd }, _) => Startup::MapShared { shared_fd },
            (Startup::MapShared { shared_fd }, StartEvent::Mapped(mmap_addr)) => Self::region(
                config,
                shared_fd,
                mmap_addr,
                0,
            ),
            (Startup::InitRegion { shared_fd, mmap_addr, index, .. }, _) => Self::region(
                config,
                shared_fd,
                mmap_addr,
                index + 1,
            ),
            (
                Startup::Fork { shared_fd, mmap_addr },
                StartEvent::Forked(ForkResult::Parent(child)),
            ) => Startup::End(Ok((child, shared_fd, mmap_addr))),
            (Startup::Fork { .. }, StartEvent::Forked(ForkResult::Child)) => if config.no_attach {
                Startup::TraceMe
            } else {
                Startup::StopSelf
            },
            (Startup::TraceMe, _) => Startup::Exec,
            (Startup::StopSelf, _) => Startup::Exec,
            (other, _) => other,
        }
    }

    /// Goes on after an event.
    pub fn next(self, config: StartConfig, event: StartEvent) -> (r: Self)
        requires
            self.wf(config),
            self.expects(config, event),
        ensures
            r == self.after(config, event),
            r.wf(config),
    {
        match (self, event) {
            (_, StartEvent::Failed(error)) => Startup::End(Err(self.error(error))),
            (Startup::CreateFiller { missing }, _) => if missing > 1 {
                Startup::CreateFiller { missing: missing - 1 }
            } else {
                Startup::CreateShared
            },
            (Startup::CreateShared, StartEvent::Created(shared_fd)) => Startup::Truncate {
                shared_fd,
            },
            (Startup::Truncate { shared_fd }, _) => Startup::MapShared { shared_fd },
            (Startup::MapShared { shared_fd }, StartEvent::Mapped(mmap_addr)) => Self::next_region(
                config,
                shared_fd,
                mmap_addr,
                0,
            ),
            (Startup::InitRegion { shared_fd, mmap_addr, index, .. }, _) => Self::next_region(
                config,
                shared_fd,
                mmap_addr,
                index + 1,
            ),
            (
                Startup::Fork { shared_fd, mmap_addr },
                StartEvent::Forked(ForkResult::Parent(child)),
            ) => Startup::End(Ok((child, shared_fd, mmap_addr))),
            (Startup::Fork { .. }, StartEvent::Forked(ForkResult::Child)) => if config.no_attach {
                Startup::TraceMe
            } else {
                Startup::StopSelf
            },
            (Startup::TraceMe, _) => Startup::Exec,
            (Startup::StopSelf, _) => Startup::Exec,
            (other, _) => other,
        }
    }

    /// The error that the startup ends with if what it asks for fails.
    fn error(&self, error: i32) -> (r: PtraceError)
        ensures
            r == self.failure(error),
    {
        match self {
            Startup::InitRegion { .. } => PtraceError::LockGlobalMmap,
            Startup::Fork { .. } => PtraceError::StartInitCmd(error),
            Startup::Exec => PtraceError::InitCmdFailed(error),
            _ => PtraceError::CreateMemoryFile(error),
        }
    }

    /// Asks for the memory of the tracee `index`, or for the fork if all of them have theirs.
    fn next_region(config: StartConfig, shared_fd: i32, mmap_addr: usize, index: usize) -> (r: Self)
        requires
            config.maps_at(mmap_addr),
        ensures
            r == Self::region(config, shared_fd, mmap_addr, index as int),
            r.wf(config),
    {
        if index < config.max_num_tracees {
            assert(0 <= index * config.zone_size <= (config.max_num_tracees - 1) * config.zone_size)
                by (nonlinear_arith)
                requires
                    0 <= index <= config.max_num_tracees - 1,
                    config.zone_size >= 0,
            ;
            Startup::InitRegion {
                shared_fd,
                mmap_addr,
                index,
                addr: mmap_addr + index * config.zone_size,
            }
        } else {
            Startup::Fork { shared_fd, mmap_addr }
        }
    }
}

/// Begins to start the first tracee.
pub fn start() -> (r: Startup)
    ensures
        r == (Startup::CreateFiller { missing: FILLER_FDS }),
        forall|config: StartConfig| #[trigger] r.wf(config),
{
    Startup::CreateFiller { missing: FILLER_FDS }
}

/// Where a startup stands after something was done `n` times.
pub open spec fn done_times(state: Startup, config: StartConfig, n: nat) -> Startup
    decreases n,
{
    if n == 0 {
        state
    } else {
        done_times(state, config, (n - 1) as nat).after(config, StartEvent::Done)
    }
}

/// Exactly as many files are opened before the shared one as there are to be fillers.
pub proof fn lemma_fillers_first(config: StartConfig, n: nat)
    requires
        n <= FILLER_FDS,
    ensures
        done_times(Startup::CreateFiller { missing: FILLER_FDS }, config, n) == if n < FILLER_FDS {
            Startup::CreateFiller { missing: (FILLER_FDS - n) as usize }
        } else {
            Startup::CreateShared
        },
    decreases n,
{
    if n > 0 {
        lemma_fillers_first(config, (n - 1) as nat);
    }
}

/// Every tracee gets its part of the shared memory before the fork: one after the other, each
/// behind the one before.
pub proof fn lemma_regions_before_fork(
    config: StartConfig,
    shared_fd: i32,
    mmap_addr: usize,
    n: nat,
)
    requires
        n <= config.max_num_tracees,
    ensures
        done_times(Startup::region(config, shared_fd, mmap_addr, 0), config, n) == Startup::region(
            config,
            shared_fd,
            mmap_addr,
            n as int,
        ),
    decreases n,
{
    if n > 0 {
        lemma_regions_before_fork(config, shared_fd, mmap_addr, (n - 1) as nat);
    }
}

} // verus!
