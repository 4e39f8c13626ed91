use pocker::ptrace::{Pid, PtraceError};
use pocker::startup::{start, ForkResult, StartConfig, StartEvent, Startup, FILLER_FDS};

const CONFIG: StartConfig = StartConfig { no_attach: false, max_num_tracees: 3, zone_size: 512 };

/// A startup whose shared file 30 has just been mapped to 4096.
fn mapped(config: StartConfig) -> Startup {
    Startup::MapShared { shared_fd: 30 }.next(config, StartEvent::Mapped(4096))
}

#[test]
fn fillers_come_before_the_shared_file() {
    assert_eq!(FILLER_FDS, 27);
    let mut state = start();
    for done in 0..27 {
        assert_eq!(state, Startup::CreateFiller { missing: 27 - done });
        state = state.next(CONFIG, StartEvent::Done);
    }
    assert_eq!(state, Startup::CreateShared);
    let state = state.next(CONFIG, StartEvent::Created(30));
    assert_eq!(state, Startup::Truncate { shared_fd: 30 });
    let state = state.next(CONFIG, StartEvent::Done);
    assert_eq!(state, Startup::MapShared { shared_fd: 30 });
}

#[test]
fn every_tracee_gets_its_region() {
    let mut state = mapped(CONFIG);
    for (index, addr) in [(0, 4096), (1, 4608), (2, 5120)] {
        assert_eq!(
            state,
            Startup::InitRegion { shared_fd: 30, mmap_addr: 4096, index, addr }
        );
        state = state.next(CONFIG, StartEvent::Done);
    }
    assert_eq!(state, Startup::Fork { shared_fd: 30, mmap_addr: 4096 });
    let nobody = StartConfig { max_num_tracees: 0, ..CONFIG };
    assert_eq!(mapped(nobody), Startup::Fork { shared_fd: 30, mmap_addr: 4096 });
}

#[test]
fn the_fork_decides_how_to_go_on() {
    let fork = Startup::Fork { shared_fd: 30, mmap_addr: 4096 };
    assert_eq!(
        fork.next(CONFIG, StartEvent::Forked(ForkResult::Parent(Pid(7)))),
        Startup::End(Ok((Pid(7), 30, 4096)))
    );
    let child = StartEvent::Forked(ForkResult::Child);
    assert_eq!(fork.next(CONFIG, child), Startup::StopSelf);
    let no_attach = StartConfig { no_attach: true, ..CONFIG };
    assert_eq!(fork.next(no_attach, child), Startup::TraceMe);
    assert_eq!(Startup::StopSelf.next(CONFIG, StartEvent::Done), Startup::Exec);
    assert_eq!(Startup::TraceMe.next(CONFIG, StartEvent::Done), Startup::Exec);
}

#[test]
fn every_failure_ends_the_startup() {
    for (state, error) in [
        (Startup::CreateFiller { missing: 4 }, PtraceError::CreateMemoryFile(9)),
        (Startup::CreateShared, PtraceError::CreateMemoryFile(9)),
        (Startup::Truncate { shared_fd: 30 }, PtraceError::CreateMemoryFile(9)),
        (Startup::MapShared { shared_fd: 30 }, PtraceError::CreateMemoryFile(9)),
        (mapped(CONFIG), PtraceError::LockGlobalMmap),
        (Startup::Fork { shared_fd: 30, mmap_addr: 4096 }, PtraceError::StartInitCmd(9)),
        (Startup::Exec, PtraceError::InitCmdFailed(9)),
    ] {
        assert_eq!(state.next(CONFIG, StartEvent::Failed(9)), Startup::End(Err(error)));
    }
}
