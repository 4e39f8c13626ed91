//! What the startup of the first tracee is for, stated of the calls that a thread makes.
use vstd::prelude::*;

use crate::ptrace::{Pid, PtraceError};
use crate::startup::{
    done_times, start, ForkResult, StartConfig, StartEvent, Startup,
};

verus! {

/// The shared file comes after the fillers, of which there are as many as asked for; it is given
/// its size, and is then mapped, with the descriptor that it was created with.
pub proof fn lemma_shared_file_made(config: StartConfig, missing: usize, shared_fd: i32)
    ensures
        forall|r: Startup| #[trigger] call_ensures(start, (), r) ==> r == (Startup::CreateFiller {
            missing: 27,
        }),
        forall|r: Startup| #[trigger]
            call_ensures(
                Startup::next,
                (Startup::CreateFiller { missing }, config, StartEvent::Done),
                r,
            ) ==> {
                &&& missing > 1 ==> r is CreateFiller && r->CreateFiller_missing + 1 == missing
                &&& missing <= 1 ==> r == Startup::CreateShared
            },
        forall|r: Startup| #[trigger]
            call_ensures(
                Startup::next,
                (Startup::CreateShared, config, StartEvent::Created(shared_fd)),
                r,
            ) ==> r == (Startup::Truncate { shared_fd }),
        forall|r: Startup| #[trigger]
            call_ensures(
                Startup::next,
                (Startup::Truncate { shared_fd }, config, StartEvent::Done),
                r,
            ) ==> r == (Startup::MapShared { shared_fd }),
{
}

/// Once the shared file is mapped, every tracee gets its region before the fork, whether tracees
/// are attached to or not: after `n` regions the next one is that of the tracee `n`, `n` zones
/// behind the start of the memory.
pub proof fn lemma_region_of_each_tracee(
    config: StartConfig,
    shared_fd: i32,
    mmap_addr: usize,
    n: nat,
)
    requires
        n < config.max_num_tracees,
        config.maps_at(mmap_addr),
    ensures
        ({
            let mapped = Startup::MapShared { shared_fd }.after(
                config,
                StartEvent::Mapped(mmap_addr),
            );
            let now = done_times(mapped, config, n);
            &&& now is InitRegion
            &&& now->InitRegion_shared_fd == shared_fd
            &&& now->InitRegion_mmap_addr == mmap_addr
            &&& now->InitRegion_index == n
            &&& now->InitRegion_addr == mmap_addr + n * config.zone_size
        }),
    decreases n,
{
    lemma_region_fits(config, mmap_addr, n);
    if n > 0 {
        lemma_region_of_each_tracee(config, shared_fd, mmap_addr, (n - 1) as nat);
    }
}

/// A region that a tracee can have starts at an address.
proof fn lemma_region_fits(config: StartConfig, mmap_addr: usize, n: nat)
    requires
        n < config.max_num_tracees,
        config.maps_at(mmap_addr),
    ensures
        mmap_addr + n * config.zone_size <= usize::MAX,
{
    assert(n * config.zone_size <= (config.max_num_tracees - 1) * config.zone_size)
        by (nonlinear_arith)
        requires
            n <= config.max_num_tracees - 1,
            config.zone_size >= 0,
    ;
}

/// The fork follows when every tracee has its region, and not before.
pub proof fn lemma_fork_after_all_regions(
    config: StartConfig,
    shared_fd: i32,
    mmap_addr: usize,
    n: nat,
)
    requires
        n <= config.max_num_tracees,
        config.maps_at(mmap_addr),
    ensures
        ({
            let mapped = Startup::MapShared { shared_fd }.after(
                config,
                StartEvent::Mapped(mmap_addr),
            );
            &&& done_times(mapped, config, n) is Fork <==> n == config.max_num_tracees
            &&& n == config.max_num_tracees ==> done_times(mapped, config, n) == (Startup::Fork {
                shared_fd,
                mmap_addr,
            })
        }),
{
    if n < config.max_num_tracees {
        lemma_region_of_each_tracee(config, shared_fd, mmap_addr, n);
    } else if n > 0 {
        lemma_region_of_each_tracee(config, shared_fd, mmap_addr, (n - 1) as nat);
    }
}

/// The mapping leads to the region of the first tracee, which starts where the memory does. Only
/// without any tracee it leads to the fork.
pub proof fn lemma_first_region(config: StartConfig, shared_fd: i32, mmap_addr: usize, r: Startup)
    requires
        call_ensures(
            Startup::next,
            (Startup::MapShared { shared_fd }, config, StartEvent::Mapped(mmap_addr)),
            r,
        ),
    ensures
        config.max_num_tracees > 0 ==> r == (Startup::InitRegion {
            shared_fd,
            mmap_addr,
            index: 0,
            addr: mmap_addr,
        }),
        config.max_num_tracees == 0 ==> r == (Startup::Fork { shared_fd, mmap_addr }),
{
}

/// Each region leads to that of the next tracee, one zone further on. Only without a next tracee it
/// leads to the fork.
pub proof fn lemma_next_region(
    config: StartConfig,
    shared_fd: i32,
    mmap_addr: usize,
    index: usize,
    addr: usize,
    r: Startup,
)
    requires
        config.maps_at(mmap_addr),
        addr == mmap_addr + index * config.zone_size,
        call_ensures(
            Startup::next,
            (Startup::InitRegion { shared_fd, mmap_addr, index, addr }, config, StartEvent::Done),
            r,
        ),
    ensures
        index + 1 < config.max_num_tracees ==> {
            &&& r is InitRegion
            &&& r->InitRegion_shared_fd == shared_fd
            &&& r->InitRegion_mmap_addr == mmap_addr
            &&& r->InitRegion_index == index + 1
            &&& r->InitRegion_addr == addr + config.zone_size
        },
        index + 1 >= config.max_num_tracees ==> r == (Startup::Fork { shared_fd, mmap_addr }),
{
    if index + 1 < config.max_num_tracees {
        lemma_region_fits(config, mmap_addr, (index + 1) as nat);
        assert((index + 1) * config.zone_size == index * config.zone_size + config.zone_size)
            by (nonlinear_arith);
    }
}

/// The parent reports the child, with the file and the memory that they share. The child asks to be
/// traced exactly if it is not to be attached to, and otherwise stops; then it becomes the command.
pub proof fn lemma_fork_goes_on_in_both(
    config: StartConfig,
    shared_fd: i32,
    mmap_addr: usize,
    child: Pid,
)
    ensures
        forall|r: Startup| #[trigger]
            call_ensures(
                Startup::next,
                (
                    Startup::Fork { shared_fd, mmap_addr },
                    config,
                    StartEvent::Forked(ForkResult::Parent(child)),
                ),
                r,
            ) ==> r == Startup::End(Ok((child, shared_fd, mmap_addr))),
        forall|r: Startup| #[trigger]
            call_ensures(
                Startup::next,
                (
                    Startup::Fork { shared_fd, mmap_addr },
                    config,
                    StartEvent::Forked(ForkResult::Child),
                ),
                r,
            ) ==> {
                &&& r == Startup::TraceMe <==> config.no_attach
                &&& r == Startup::StopSelf <==> !config.no_attach
            },
        forall|state: Startup, r: Startup| #[trigger]
            call_ensures(Startup::next, (state, config, StartEvent::Done), r) && (state is TraceMe
                || state is StopSelf) ==> r == Startup::Exec,
{
}

/// Whatever fails ends the startup, with the error that belongs to it and the number that the
/// system reported.
pub proof fn lemma_startup_failures(config: StartConfig, error: i32)
    ensures
        forall|state: Startup, r: Startup| #[trigger]
            call_ensures(Startup::next, (state, config, StartEvent::Failed(error)), r) ==> {
                &&& state is CreateFiller || state is CreateShared || state is Truncate
                    || state is MapShared ==> r == Startup::End(
                    Err(PtraceError::CreateMemoryFile(error)),
                )
                &&& state is InitRegion ==> r == Startup::End(Err(PtraceError::LockGlobalMmap))
                &&& state is Fork ==> r == Startup::End(Err(PtraceError::StartInitCmd(error)))
                &&& state is Exec ==> r == Startup::End(Err(PtraceError::InitCmdFailed(error)))
            },
{
}

/// Every answer to what the startup asks for is taken, and no other. Of a mapping it is only asked
/// that the last region has an address.
pub proof fn lemma_startup_answers_taken(config: StartConfig, state: Startup, event: StartEvent)
    ensures
        state.expects(config, event) <==> match event {
            StartEvent::Done => {
                ||| state is CreateFiller
                ||| state is Truncate
                ||| state is InitRegion
                ||| state is TraceMe
                ||| state is StopSelf
            },
            StartEvent::Failed(_) => !(state is TraceMe) && !(state is StopSelf) && !(
            state is End),
            StartEvent::Created(_) => state is CreateShared,
            StartEvent::Mapped(addr) => state is MapShared && (config.max_num_tracees == 0 || addr
                + (config.max_num_tracees - 1) * config.zone_size <= usize::MAX),
            StartEvent::Forked(_) => state is Fork,
        },
        state.wf(config) && state.expects(config, event) ==> call_requires(
            Startup::next,
            (state, config, event),
        ),
        !(state is InitRegion) ==> state.wf(config),
        forall|r: Startup| #[trigger]
            call_ensures(Startup::next, (state, config, event), r) ==> r.wf(config),
{
}

} // verus!
