use autonice::probe::{
    autonice, autonice_fork, start_autonice, start_fork, try_autonice, try_fork, ExecCall,
    ExecProbe, ForkCall, ForkProbe, Reply,
};

#[test]
fn exec_probe_reports_the_record() {
    let (state, call) = start_autonice();
    assert_eq!(call, ExecCall::ReadWord { at: 8 });
    let (state, call) = try_autonice(state, Reply::Word(Ok(0x0012_0034)));
    assert_eq!(call, ExecCall::ReadWord { at: 12 });
    let (state, call) = try_autonice(state, Reply::Word(Ok(4711)));
    assert_eq!(call, ExecCall::Reserve);
    let (state, call) = try_autonice(state, Reply::Entry(true));
    assert_eq!(call, ExecCall::ReadName { at: 0x34 });
    let (state, call) = try_autonice(state, Reply::Name(Ok(9)));
    assert_eq!(call, ExecCall::Submit { pid: 4711, filename_len: 9 });
    assert_eq!(state, ExecProbe::Over);
}

#[test]
fn exec_probe_drops_an_event_without_room() {
    let state = ExecProbe::Entry { name_at: 3, pid: 1 };
    assert_eq!(try_autonice(state, Reply::Entry(false)).1, ExecCall::Exit { result: Ok(0) });
}

#[test]
fn exec_probe_submits_though_the_path_cannot_be_read() {
    let state = ExecProbe::Name { pid: 1 };
    assert_eq!(try_autonice(state, Reply::Name(Err(-14))).1, ExecCall::Submit { pid: 1, filename_len: 0 });
}

#[test]
fn exec_probe_passes_errors_on() {
    let failed = ExecCall::Exit { result: Err(-14) };
    assert_eq!(try_autonice(ExecProbe::DataLoc, Reply::Word(Err(-14))).1, failed);
    assert_eq!(try_autonice(ExecProbe::Pid { name_at: 0 }, Reply::Word(Err(-14))).1, failed);
}

#[test]
fn fork_probe_reports_the_record() {
    let (state, call) = start_fork();
    assert_eq!(call, ForkCall::ReadWord { at: 24 });
    let (state, call) = try_fork(state, Reply::Word(Ok(7)));
    assert_eq!(call, ForkCall::ReadWord { at: 44 });
    let (state, call) = try_fork(state, Reply::Word(Ok(8)));
    assert_eq!(call, ForkCall::Reserve);
    let (state, call) = try_fork(state, Reply::Entry(true));
    assert_eq!(call, ForkCall::Submit { parent_pid: 7, child_pid: 8 });
    assert_eq!(state, ForkProbe::Over);
}

#[test]
fn fork_probe_drops_and_fails() {
    let entry = ForkProbe::Entry { parent_pid: 7, child_pid: 8 };
    assert_eq!(try_fork(entry, Reply::Entry(false)).1, ForkCall::Exit { result: Ok(0) });
    let failed = ForkCall::Exit { result: Err(-1) };
    assert_eq!(try_fork(ForkProbe::ParentPid, Reply::Word(Err(-1))).1, failed);
    assert_eq!(try_fork(ForkProbe::ChildPid { parent_pid: 7 }, Reply::Word(Err(-1))).1, failed);
}

#[test]
fn exit_codes() {
    assert_eq!(autonice(Ok(0)), 0);
    assert_eq!(autonice(Ok(5)), 5);
    assert_eq!(autonice(Err(-14)), 1);
    assert_eq!(autonice_fork(Ok(0)), 0);
    assert_eq!(autonice_fork(Err(-14)), 1);
}
