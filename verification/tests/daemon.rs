use autonice::config::Config;
use autonice::daemon::{Action, Daemon, Exec, Step, PRUNE_INTERVAL};
use autonice::event::{ByteOrder, ExecEvent, ForkEvent, EXEC_EVENT_LEN, FORK_EVENT_LEN};
use autonice::probe::FILENAME_LEN;
use autonice::procfs::parent_pid;

const LITTLE: ByteOrder = ByteOrder::Little;

const SUBTREE: &str = "[subtree]\nnice = 19\nroots = [\"cargo\", \"make\"]\n[rules]\ndd = 7\n";

fn exec_item(pid: u32, path: &[u8]) -> Vec<u8> {
    exec_item_with_len(pid, path.len() as u32, path)
}

fn exec_item_with_len(pid: u32, len: u32, path: &[u8]) -> Vec<u8> {
    let mut bytes = Vec::new();
    bytes.extend_from_slice(&pid.to_le_bytes());
    bytes.extend_from_slice(&len.to_le_bytes());
    bytes.extend_from_slice(path);
    bytes.resize(EXEC_EVENT_LEN, 0);
    bytes
}

fn fork_item(parent: u32, child: u32) -> Vec<u8> {
    let mut bytes = parent.to_le_bytes().to_vec();
    bytes.extend_from_slice(&child.to_le_bytes());
    bytes
}

fn daemon(text: &str) -> Daemon {
    Daemon::new(Config::parse(text).unwrap())
}

/// Runs one exec, with `stat` as what `/proc` would say, and returns the
/// renices as (pid, nice, path, why).
fn exec(d: &mut Daemon, pid: u32, path: &str, stat: Option<&str>) -> Vec<(u32, i32, String, String)> {
    let actions = match d.handle(&exec_item(pid, path.as_bytes()), LITTLE) {
        Step::Ignored => panic!("not ignored"),
        Step::NeedParent(e) => d.handle_parent(&e, stat),
        Step::Done(actions) => actions,
    };
    actions
        .into_iter()
        .filter_map(|a| match a {
            Action::Renice(r) => Some((r.pid, r.nice, r.path, r.why)),
            Action::Sweep(_) => None,
        })
        .collect()
}

fn reniced(pid: u32, nice: i32, path: &str, why: &str) -> Vec<(u32, i32, String, String)> {
    vec![(pid, nice, path.to_string(), why.to_string())]
}

#[test]
fn short_items_are_ignored() {
    let mut d = daemon(SUBTREE);
    assert!(matches!(d.handle(&[], LITTLE), Step::Ignored));
    assert!(matches!(d.handle(&exec_item(1, b"/bin/cargo")[..EXEC_EVENT_LEN - 1], LITTLE), Step::Ignored));
    assert!(d.handle_fork(&fork_item(1, 2)[..FORK_EVENT_LEN - 1], LITTLE).is_empty());
}

#[test]
fn rules_without_a_subtree() {
    let mut d = daemon("[rules]\ndd = 7\n");
    assert!(matches!(d.handle(&exec_item(5, b"/bin/dd"), LITTLE), Step::Done(_)));
    assert_eq!(exec(&mut d, 5, "/bin/dd", None), reniced(5, 7, "/bin/dd", "rule"));
    assert_eq!(exec(&mut d, 6, "/bin/cargo", None), vec![]);
    assert!(d.handle_fork(&fork_item(6, 7), LITTLE).is_empty());
}

#[test]
fn roots_start_a_subtree() {
    let mut d = daemon(SUBTREE);
    assert_eq!(exec(&mut d, 10, "/usr/bin/cargo", None), reniced(10, 19, "/usr/bin/cargo", "subtree"));
    assert_eq!(exec(&mut d, 11, "make", None), reniced(11, 19, "make", "subtree"));
    assert_eq!(exec(&mut d, 12, "/usr/bin/make/x", Some("12 (x) S 1 0")), vec![]);
}

#[test]
fn children_are_found_by_parent() {
    let mut d = daemon(SUBTREE);
    exec(&mut d, 10, "/usr/bin/cargo", None);
    assert_eq!(exec(&mut d, 20, "/usr/bin/rustc", Some("20 (rustc) S 10 20 20")), reniced(20, 19, "/usr/bin/rustc", "subtree"));
    // and so on, transitively
    assert_eq!(exec(&mut d, 30, "/usr/bin/dd", Some("30 (a) b) S 20 1")), reniced(30, 19, "/usr/bin/dd", "subtree"));
}

#[test]
fn outsiders_are_left_alone() {
    let mut d = daemon(SUBTREE);
    exec(&mut d, 10, "/usr/bin/cargo", None);
    assert_eq!(exec(&mut d, 20, "/usr/bin/rustc", Some("20 (rustc) S 1 20 20")), vec![]);
    assert_eq!(exec(&mut d, 21, "/usr/bin/rustc", None), vec![]);
    assert_eq!(exec(&mut d, 22, "/usr/bin/dd", Some("22 (dd) S 20 0")), reniced(22, 7, "/usr/bin/dd", "rule"));
}

#[test]
fn forked_children_need_no_lookup() {
    let mut d = daemon(SUBTREE);
    exec(&mut d, 10, "/usr/bin/cargo", None);
    assert!(d.handle_fork(&fork_item(10, 40), LITTLE).is_empty());
    assert!(d.handle_fork(&fork_item(1, 41), LITTLE).is_empty());
    assert!(matches!(d.handle(&exec_item(40, b"/bin/cc"), LITTLE), Step::Done(_)));
    assert_eq!(exec(&mut d, 40, "/bin/cc", None), reniced(40, 19, "/bin/cc", "subtree"));
    assert!(matches!(d.handle(&exec_item(41, b"/bin/cc"), LITTLE), Step::NeedParent(_)));
}

#[test]
fn need_parent_hands_out_the_exec() {
    let mut d = daemon(SUBTREE);
    match d.handle(&exec_item(77, b"/bin/sh"), LITTLE) {
        Step::NeedParent(e) => {
            assert_eq!(e.pid, 77);
            assert_eq!(e.path, "/bin/sh");
        }
        _ => panic!("the parent decides"),
    }
    let e = Exec { pid: 78, path: "/bin/make".to_string() };
    assert!(matches!(&d.handle_parent(&e, None)[0], Action::Renice(r) if r.nice == 19));
}

#[test]
fn cargo_section_follows_cargo() {
    let mut d = daemon("[cargo]\nnice = 4\n");
    assert_eq!(exec(&mut d, 10, "/usr/bin/cargo", None), reniced(10, 4, "/usr/bin/cargo", "cargo"));
    assert_eq!(exec(&mut d, 11, "/bin/make", Some("11 (make) S 1 0")), vec![]);
    assert_eq!(exec(&mut d, 12, "/bin/rustc", Some("12 (rustc) S 10 0")), reniced(12, 4, "/bin/rustc", "cargo"));
}

#[test]
fn cargo_comes_before_the_roots() {
    let mut d = daemon("[cargo]\nnice = 1\n[subtree]\nnice = 2\nroots = [\"make\"]\n");
    assert_eq!(exec(&mut d, 10, "/bin/cargo", None), reniced(10, 1, "/bin/cargo", "cargo"));
    assert_eq!(exec(&mut d, 20, "/bin/make", Some("20 (make) S 1 0")), reniced(20, 2, "/bin/make", "subtree"));
    assert_eq!(exec(&mut d, 11, "/bin/rustc", Some("11 (rustc) S 10 0")), reniced(11, 1, "/bin/rustc", "cargo"));
    assert_eq!(exec(&mut d, 21, "/bin/cc", Some("21 (cc) S 20 0")), reniced(21, 2, "/bin/cc", "subtree"));
    // make under cargo belongs to cargo; cargo under make too
    assert_eq!(exec(&mut d, 12, "/bin/make", Some("12 (make) S 10 0")), reniced(12, 1, "/bin/make", "cargo"));
    assert_eq!(exec(&mut d, 22, "/bin/cargo", Some("22 (cargo) S 20 0")), reniced(22, 1, "/bin/cargo", "cargo"));
    assert_eq!(exec(&mut d, 23, "/bin/ld", Some("23 (ld) S 22 0")), reniced(23, 1, "/bin/ld", "cargo"));
    assert_eq!(exec(&mut d, 24, "/bin/ld", Some("24 (ld) S 1 0")), vec![]);
}

#[test]
fn reused_pid_is_not_its_predecessor() {
    let mut d = daemon("[cargo]\nnice = 19\n");
    exec(&mut d, 20, "/usr/bin/cargo", None);
    // the pid alone says nothing
    assert_eq!(exec(&mut d, 20, "/usr/bin/rustc", Some("20 (rustc) S 1 0")), vec![]);
    // one that a tracked process forked counts, until another forks it
    assert!(d.handle_fork(&fork_item(20, 30), LITTLE).is_empty());
    assert_eq!(exec(&mut d, 30, "/bin/cc", None), reniced(30, 19, "/bin/cc", "cargo"));
    assert!(d.handle_fork(&fork_item(1, 30), LITTLE).is_empty());
    assert_eq!(exec(&mut d, 30, "/bin/cc", Some("30 (cc) S 1 0")), vec![]);
    assert_eq!(exec(&mut d, 30, "/bin/cc", None), vec![]);
}

#[test]
fn late_forks_take_nobody_away() {
    let mut d = daemon(SUBTREE);
    // the fork that brought cargo forth comes in after its exec
    exec(&mut d, 10, "/usr/bin/cargo", None);
    assert!(d.handle_fork(&fork_item(5, 10), LITTLE).is_empty());
    assert_eq!(exec(&mut d, 11, "/bin/cc", Some("11 (cc) S 10 0")), reniced(11, 19, "/bin/cc", "subtree"));
    // so does the fork from a thread, after its child was found by its parent
    assert!(d.handle_fork(&fork_item(999, 11), LITTLE).is_empty());
    assert_eq!(exec(&mut d, 12, "/bin/as", Some("12 (as) S 11 0")), reniced(12, 19, "/bin/as", "subtree"));
}

#[test]
fn sweep_is_due_on_every_interval() {
    let mut d = daemon("[cargo]\nnice = 1\n[subtree]\nnice = 2\nroots = [\"cargo\", \"make\"]\n");
    exec(&mut d, 10, "/usr/bin/cargo", None);
    exec(&mut d, 11, "/usr/bin/make", None);
    for _ in 2..PRUNE_INTERVAL - 1 {
        assert!(d.handle_fork(&fork_item(1, 2), LITTLE).is_empty());
    }
    let actions = d.handle_fork(&fork_item(10, 12), LITTLE);
    assert_eq!(actions.len(), 1);
    match &actions[0] {
        Action::Sweep(pids) => {
            let mut pids = pids.clone();
            pids.sort();
            assert_eq!(pids, vec![10, 11, 12]);
        }
        _ => panic!("a sweep is due"),
    }
}

#[test]
fn sweep_drops_exactly_the_dead() {
    let mut d = daemon("[cargo]\nnice = 1\n");
    for pid in [10, 11, 12] {
        exec(&mut d, pid, "/usr/bin/cargo", None);
    }
    d.sweep(&vec![11, 99]);
    assert_eq!(exec(&mut d, 20, "/bin/sh", Some("20 (sh) S 10 0")), reniced(20, 1, "/bin/sh", "cargo"));
    assert_eq!(exec(&mut d, 21, "/bin/sh", Some("21 (sh) S 11 0")), vec![]);
    assert_eq!(exec(&mut d, 22, "/bin/sh", Some("22 (sh) S 12 0")), reniced(22, 1, "/bin/sh", "cargo"));
    // seeds go with them
    d.handle_fork(&fork_item(10, 30), LITTLE);
    d.sweep(&vec![30]);
    assert!(matches!(d.handle(&exec_item(30, b"/bin/sh"), LITTLE), Step::NeedParent(_)));
}

#[test]
fn prune_tick_counts() {
    let mut d = daemon(SUBTREE);
    for _ in 0..3 {
        for _ in 1..PRUNE_INTERVAL {
            assert!(d.prune_tick().is_none());
        }
        assert_eq!(d.prune_tick(), Some(Vec::new()));
    }
}

#[test]
fn sweep_comes_after_a_subtree_renice_and_before_a_rule() {
    let mut d = daemon(SUBTREE);
    for _ in 1..PRUNE_INTERVAL {
        d.prune_tick();
    }
    match d.handle(&exec_item(10, b"/bin/cargo"), LITTLE) {
        Step::Done(actions) => {
            assert!(matches!(&actions[0], Action::Renice(r) if r.why == "subtree"));
            assert!(matches!(&actions[1], Action::Sweep(pids) if *pids == vec![10]));
            assert_eq!(actions.len(), 2);
        }
        _ => panic!("a root needs no lookup"),
    }
    for _ in 1..PRUNE_INTERVAL {
        d.prune_tick();
    }
    let e = Exec { pid: 50, path: "/bin/dd".to_string() };
    let actions = d.handle_parent(&e, Some("50 (dd) R 2 0"));
    assert!(matches!(&actions[0], Action::Sweep(pids) if *pids == vec![10]));
    assert!(matches!(&actions[1], Action::Renice(r) if r.why == "rule" && r.nice == 7));
    assert_eq!(actions.len(), 2);
}

#[test]
fn apply_says_what_it_was_given() {
    let d = daemon("");
    let r = d.apply(3, -5, "/bin/x", "rule");
    assert_eq!((r.pid, r.nice, r.path.as_str(), r.why.as_str()), (3, -5, "/bin/x", "rule"));
}

#[test]
fn exec_event_is_read_in_order() {
    let event = ExecEvent::read(&exec_item(0x01020304, b"/bin/sh"), LITTLE).unwrap();
    assert_eq!(event.pid, 0x01020304);
    assert_eq!(event.filename_len, 7);
    assert_eq!(&event.filename[..8], b"/bin/sh\0");
    assert_eq!(event.path(), "/bin/sh");
    assert!(ExecEvent::read(&[0u8; 263], LITTLE).is_none());
    let mut longer = exec_item(9, b"/x");
    longer.push(1);
    assert_eq!(ExecEvent::read(&longer, LITTLE).unwrap().pid, 9);
}

#[test]
fn path_is_cut_and_trimmed() {
    // the length bounds the path
    assert_eq!(ExecEvent::read(&exec_item_with_len(1, 4, b"/bin/sh"), LITTLE).unwrap().path(), "/bin");
    // NULs at the end go, others stay
    assert_eq!(ExecEvent::read(&exec_item_with_len(1, 9, b"/b\0n\0\0\0"), LITTLE).unwrap().path(), "/b\0n");
    // a length beyond the room means all of it
    let full = [b'a'; FILENAME_LEN];
    let path = ExecEvent::read(&exec_item_with_len(1, u32::MAX, &full), LITTLE).unwrap().path();
    assert_eq!(path.len(), FILENAME_LEN);
    assert_eq!(ExecEvent::read(&exec_item_with_len(1, 0, b"/bin"), LITTLE).unwrap().path(), "");
}

#[test]
fn path_that_is_not_utf8_is_repaired() {
    assert_eq!(ExecEvent::read(&exec_item(1, b"/b\xff/sh"), LITTLE).unwrap().path(), "/b\u{fffd}/sh");
    assert_eq!(ExecEvent::read(&exec_item(1, "/h\u{e4}".as_bytes()), LITTLE).unwrap().path(), "/h\u{e4}");
}

#[test]
fn fork_event_is_read_in_order() {
    assert_eq!(
        ForkEvent::read(&fork_item(0x0a0b0c0d, 7), LITTLE),
        Some(ForkEvent { parent_pid: 0x0a0b0c0d, child_pid: 7 })
    );
    assert_eq!(ForkEvent::read(&[0u8; 7], LITTLE), None);
    assert_eq!(
        ForkEvent::read(&[1, 2, 3, 4, 0, 0, 0, 7], ByteOrder::Big),
        Some(ForkEvent { parent_pid: 0x01020304, child_pid: 7 })
    );
}

#[test]
fn words_are_in_the_order_of_the_machine() {
    let mut item = 77u32.to_be_bytes().to_vec();
    item.extend_from_slice(&4u32.to_be_bytes());
    item.extend_from_slice(b"/bin/sh");
    item.resize(EXEC_EVENT_LEN, 0);
    let event = ExecEvent::read(&item, ByteOrder::Big).unwrap();
    assert_eq!((event.pid, event.filename_len), (77, 4));
    assert_eq!(event.path(), "/bin");
    let order = if 1u32.to_ne_bytes()[0] == 1 { ByteOrder::Little } else { ByteOrder::Big };
    let mut item = 77u32.to_ne_bytes().to_vec();
    item.resize(EXEC_EVENT_LEN, 0);
    assert_eq!(ExecEvent::read(&item, order).unwrap().pid, 77);
}

#[test]
fn parent_is_the_second_field_after_the_command() {
    assert_eq!(parent_pid("42 (bash) S 41 42 42 0"), Some(41));
    assert_eq!(parent_pid("42 (a b) c) R) S 41 42"), Some(41));
    assert_eq!(parent_pid("42 (x)\tS\u{2003}7\n"), Some(7));
    assert_eq!(parent_pid("42 (x) S +7"), Some(7));
    assert_eq!(parent_pid("42 (x) S 4294967295"), Some(4294967295));
}

#[test]
fn records_without_a_parent() {
    assert_eq!(parent_pid(""), None);
    assert_eq!(parent_pid("42 bash S 41"), None);
    assert_eq!(parent_pid("42 (bash) S"), None);
    assert_eq!(parent_pid("42 (bash)"), None);
    assert_eq!(parent_pid("42 (bash) S -1"), None);
    assert_eq!(parent_pid("42 (bash) S 4294967296"), None);
    assert_eq!(parent_pid("42 (bash) S 99999999999999999999999999"), None);
    assert_eq!(parent_pid("42 (bash) S 4x"), None);
    assert_eq!(parent_pid("42 (bash) S +"), None);
}
