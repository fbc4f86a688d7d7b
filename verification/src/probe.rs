//! The decisions of the two kernel probes. A probe is a short exchange: it asks
//! the kernel for one thing at a time, and what it asks for next follows from
//! the reply. The functions here take the reply and say what comes next.
//!
//! The kernel side is built without an allocator and the standard library, so
//! this module stands on its own.

use vstd::prelude::*;

verus! {

/// Max bytes captured for an exec'd binary's path (NUL-terminated, truncated).
pub const FILENAME_LEN: usize = 256;

// Field offsets within the `sched/sched_process_exec` tracepoint record. These
// come from /sys/kernel/tracing/events/sched/sched_process_exec/format and have
// been stable for many kernel releases:
//
//   field:__data_loc char[] filename;  offset:8;   size:4;
//   field:pid_t pid;                   offset:12;  size:4;
pub const FILENAME_DATA_LOC_OFFSET: usize = 8;

pub const PID_OFFSET: usize = 12;

// Field offsets within the `sched/sched_process_fork` tracepoint record. From
// /sys/kernel/tracing/events/sched/sched_process_fork/format:
//
//   field:char  parent_comm[16];  offset:8;   size:16;
//   field:pid_t parent_pid;       offset:24;  size:4;
//   field:char  child_comm[16];   offset:28;  size:16;
//   field:pid_t child_pid;        offset:44;  size:4;
pub const PARENT_PID_OFFSET: usize = 24;

pub const CHILD_PID_OFFSET: usize = 44;

/// What the exec probe is waiting for.
#[derive(Clone, Copy, Debug, PartialEq, Eq)]
pub enum ExecProbe {
    /// The word that says where the path stands.
    DataLoc,
    /// The pid; the path stands at `name_at`.
    Pid { name_at: usize },
    /// Room in the ring buffer.
    Entry { name_at: usize, pid: u32 },
    /// The path, read into the entry.
    Name { pid: u32 },
    /// Nothing more.
    Over,
}

/// What the exec probe asks for. Positions count from the start of the
/// tracepoint record.
#[derive(Clone, Copy, Debug, PartialEq, Eq)]
pub enum ExecCall {
    /// Read a word.
    ReadWord { at: usize },
    /// Reserve an entry in the ring buffer.
    Reserve,
    /// Read a NUL-terminated string into the entry's `filename`.
    ReadName { at: usize },
    /// Complete the entry, submit it, and return 0.
    Submit { pid: u32, filename_len: u32 },
    /// Return.
    Exit { result: Result<u32, i64> },
}

/// What the fork probe is waiting for.
#[derive(Clone, Copy, Debug, PartialEq, Eq)]
pub enum ForkProbe {
    /// The pid that forked.
    ParentPid,
    /// The pid of the new process.
    ChildPid { parent_pid: u32 },
    /// Room in the ring buffer.
    Entry { parent_pid: u32, child_pid: u32 },
    /// Nothing more.
    Over,
}

/// What the fork probe asks for.
#[derive(Clone, Copy, Debug, PartialEq, Eq)]
pub enum ForkCall {
    /// Read a word.
    ReadWord { at: usize },
    /// Reserve an entry in the ring buffer.
    Reserve,
    /// Fill the entry, submit it, and return 0.
    Submit { parent_pid: u32, child_pid: u32 },
    /// Return.
    Exit { result: Result<u32, i64> },
}

/// What the kernel replied.
#[derive(Clone, Copy, Debug, PartialEq, Eq)]
pub enum Reply {
    /// A word, or the error of reading it.
    Word(Result<u32, i64>),
    /// Whether the ring buffer had room.
    Entry(bool),
    /// The length of a string without its NUL, or the error of reading it.
    Name(Result<usize, i64>),
}

/// Whether a reply is of the kind that the exec probe waits for.
pub open spec fn answers_exec(state: ExecProbe, reply: Reply) -> bool {
    match state {
        ExecProbe::DataLoc | ExecProbe::Pid { .. } => reply is Word,
        ExecProbe::Entry { .. } => reply is Entry,
        ExecProbe::Name { .. } => reply is Name,
        ExecProbe::Over => false,
    }
}

/// Whether a reply is of the kind that the fork probe waits for.
pub open spec fn answers_fork(state: ForkProbe, reply: Reply) -> bool {
    match state {
        ForkProbe::ParentPid | ForkProbe::ChildPid { .. } => reply is Word,
        ForkProbe::Entry { .. } => reply is Entry,
        ForkProbe::Over => false,
    }
}

/// Where a `__data_loc` word says that its field stands: in its low 16 bits.
/// The high ones hold the field's length.
pub open spec fn data_loc_offset(data_loc: u32) -> usize {
    (data_loc % 0x1_0000) as usize
}

/// What the exec probe does next. Both words are read before room is reserved.
/// A word that cannot be read ends the probe with that error; a full ring
/// buffer drops the event; a path that cannot be read leaves it empty.
pub open spec fn exec_next(state: ExecProbe, reply: Reply) -> (ExecProbe, ExecCall) {
    match (state, reply) {
        (ExecProbe::DataLoc, Reply::Word(Ok(data_loc))) => (
            ExecProbe::Pid { name_at: data_loc_offset(data_loc) },
            ExecCall::ReadWord { at: PID_OFFSET },
        ),
        (ExecProbe::Pid { name_at }, Reply::Word(Ok(pid))) => (
            ExecProbe::Entry { name_at, pid },
            ExecCall::Reserve,
        ),
        (_, Reply::Word(Err(e))) => (ExecProbe::Over, ExecCall::Exit { result: Err(e) }),
        (ExecProbe::Entry { name_at, pid }, Reply::Entry(true)) => (
            ExecProbe::Name { pid },
            ExecCall::ReadName { at: name_at },
        ),
        (ExecProbe::Name { pid }, Reply::Name(Ok(len))) => (
            ExecProbe::Over,
            ExecCall::Submit { pid, filename_len: len as u32 },
        ),
        (ExecProbe::Name { pid }, _) => (
            ExecProbe::Over,
            ExecCall::Submit { pid, filename_len: 0 },
        ),
        _ => (ExecProbe::Over, ExecCall::Exit { result: Ok(0) }),
    }
}

/// What the fork probe does next. Both words are read before room is reserved.
/// A word that cannot be read ends the probe with that error; a full ring
/// buffer drops the event.
pub open spec fn fork_next(state: ForkProbe, reply: Reply) -> (ForkProbe, ForkCall) {
    match (state, reply) {
        (ForkProbe::ParentPid, Reply::Word(Ok(parent_pid))) => (
            ForkProbe::ChildPid { parent_pid },
            ForkCall::ReadWord { at: CHILD_PID_OFFSET },
        ),
        (ForkProbe::ChildPid { parent_pid }, Reply::Word(Ok(child_pid))) => (
            ForkProbe::Entry { parent_pid, child_pid },
            ForkCall::Reserve,
        ),
        (_, Reply::Word(Err(e))) => (ForkProbe::Over, ForkCall::Exit { result: Err(e) }),
        (ForkProbe::Entry { parent_pid, child_pid }, Reply::Entry(true)) => (
            ForkProbe::Over,
            ForkCall::Submit { parent_pid, child_pid },
        ),
        _ => (ForkProbe::Over, ForkCall::Exit { result: Ok(0) }),
    }
}

/// How the exec probe starts.
pub fn start_autonice() -> (first: (ExecProbe, ExecCall))
    ensures
        first == (ExecProbe::DataLoc, (ExecCall::ReadWord { at: FILENAME_DATA_LOC_OFFSET })),
{
    (ExecProbe::DataLoc, ExecCall::ReadWord { at: FILENAME_DATA_LOC_OFFSET })
}

/// Takes the kernel's reply to the exec probe and says what comes next.
pub fn try_autonice(state: ExecProbe, reply: Reply) -> (next: (ExecProbe, ExecCall))
    requires
        answers_exec(state, reply),
    ensures
        next == exec_next(state, reply),
{
    match (state, reply) {
        (ExecProbe::DataLoc, Reply::Word(Ok(data_loc))) => {
            // A `__data_loc` field packs (length << 16) | offset.
            let offset: u32 = data_loc & 0xFFFF;
            assert(data_loc & 0xFFFF == data_loc % 0x1_0000) by (bit_vector);
            (ExecProbe::Pid { name_at: offset as usize }, ExecCall::ReadWord { at: PID_OFFSET })
        },
        (ExecProbe::Pid { name_at }, Reply::Word(Ok(pid))) => (
            ExecProbe::Entry { name_at, pid },
            ExecCall::Reserve,
        ),
        (_, Reply::Word(Err(e))) => (ExecProbe::Over, ExecCall::Exit { result: Err(e) }),
        (ExecProbe::Entry { name_at, pid }, Reply::Entry(true)) => (
            ExecProbe::Name { pid },
            ExecCall::ReadName { at: name_at },
        ),
        (ExecProbe::Name { pid }, Reply::Name(Ok(len))) => (
            ExecProbe::Over,
            ExecCall::Submit { pid, filename_len: len as u32 },
        ),
        (ExecProbe::Name { pid }, _) => (
            ExecProbe::Over,
            ExecCall::Submit { pid, filename_len: 0 },
        ),
        // Ring buffer full: drop this event rather than block the exec path.
        _ => (ExecProbe::Over, ExecCall::Exit { result: Ok(0) }),
    }
}

/// How the fork probe starts.
pub fn start_fork() -> (first: (ForkProbe, ForkCall))
    ensures
        first == (ForkProbe::ParentPid, (ForkCall::ReadWord { at: PARENT_PID_OFFSET })),
{
    (ForkProbe::ParentPid, ForkCall::ReadWord { at: PARENT_PID_OFFSET })
}

/// Takes the kernel's reply to the fork probe and says what comes next.
pub fn try_fork(state: ForkProbe, reply: Reply) -> (next: (ForkProbe, ForkCall))
    requires
        answers_fork(state, reply),
    ensures
        next == fork_next(state, reply),
{
    match (state, reply) {
        (ForkProbe::ParentPid, Reply::Word(Ok(parent_pid))) => (
            ForkProbe::ChildPid { parent_pid },
            ForkCall::ReadWord { at: CHILD_PID_OFFSET },
        ),
        (ForkProbe::ChildPid { parent_pid }, Reply::Word(Ok(child_pid))) => (
            ForkProbe::Entry { parent_pid, child_pid },
            ForkCall::Reserve,
        ),
        (_, Reply::Word(Err(e))) => (ForkProbe::Over, ForkCall::Exit { result: Err(e) }),
        (ForkProbe::Entry { parent_pid, child_pid }, Reply::Entry(true)) => (
            ForkProbe::Over,
            ForkCall::Submit { parent_pid, child_pid },
        ),
        // Ring buffer full: drop this event rather than block the fork path.
        _ => (ForkProbe::Over, ForkCall::Exit { result: Ok(0) }),
    }
}

/// The exit code of the exec probe.
pub fn autonice(result: Result<u32, i64>) -> (code: u32)
    ensures
        code == match result {
            Ok(ret) => ret,
            Err(_) => 1,
        },
{
    match result {
        Ok(ret) => ret,
        Err(_) => 1,
    }
}

/// The exit code of the fork probe.
pub fn autonice_fork(result: Result<u32, i64>) -> (code: u32)
    ensures
        code == match result {
            Ok(ret) => ret,
            Err(_) => 1,
        },
{
    match result {
        Ok(ret) => ret,
        Err(_) => 1,
    }
}

/// The exec probe leaks no reservation: once it has room, it submits, whatever
/// the kernel replies; and it returns an error only before it asked for room.
pub proof fn law_exec_probe_submits_what_it_reserves(state: ExecProbe, reply: Reply)
    requires
        answers_exec(state, reply),
    ensures
        state is Entry && reply == Reply::Entry(true) ==> exec_next(state, reply).0 is Name,
        exec_next(state, reply).0 is Name ==> state is Entry && reply == Reply::Entry(true),
        state is Name <==> exec_next(state, reply).1 is Submit,
        exec_next(state, reply).1 matches ExecCall::Exit { result: Err(_) } ==> state is DataLoc
            || state is Pid,
{
}

/// The fork probe leaks no reservation.
pub proof fn law_fork_probe_submits_what_it_reserves(state: ForkProbe, reply: Reply)
    requires
        answers_fork(state, reply),
    ensures
        (state is Entry && reply == Reply::Entry(true)) <==> fork_next(state, reply).1 is Submit,
        fork_next(state, reply).1 matches ForkCall::Exit { result: Err(_) }
            ==> state is ParentPid || state is ChildPid,
{
}

/// What a whole run of the exec probe does, whatever the kernel replies: the
/// first error in reading a word is its result, without room the event is
/// dropped, and else it submits the record's pid and the length of the path
/// that the record's `__data_loc` word points at, 0 if that could not be read.
pub proof fn law_exec_probe_run(
    data_loc: Result<u32, i64>,
    pid: Result<u32, i64>,
    room: bool,
    name: Result<usize, i64>,
)
    ensures
        ({
            let (s1, c1) = exec_next(ExecProbe::DataLoc, Reply::Word(data_loc));
            let (s2, c2) = exec_next(s1, Reply::Word(pid));
            let (s3, c3) = exec_next(s2, Reply::Entry(room));
            let (s4, c4) = exec_next(s3, Reply::Name(name));
            match (data_loc, pid) {
                (Err(e), _) => c1 == (ExecCall::Exit { result: Err(e) }),
                (Ok(_), Err(e)) => {
                    &&& c1 == (ExecCall::ReadWord { at: PID_OFFSET })
                    &&& c2 == (ExecCall::Exit { result: Err(e) })
                },
                (Ok(d), Ok(p)) => {
                    &&& c1 == (ExecCall::ReadWord { at: PID_OFFSET })
                    &&& c2 == ExecCall::Reserve
                    &&& !room ==> c3 == (ExecCall::Exit { result: Ok(0) })
                    &&& room ==> c3 == (ExecCall::ReadName { at: (d % 0x1_0000) as usize })
                    &&& room ==> c4 == (ExecCall::Submit {
                        pid: p,
                        filename_len: match name {
                            Ok(len) => len as u32,
                            Err(_) => 0,
                        },
                    })
                },
            }
        }),
{
}

/// What a whole run of the fork probe does, whatever the kernel replies: the
/// first error in reading a word is its result, without room the event is
/// dropped, and else it submits the record's two pids.
pub proof fn law_fork_probe_run(
    parent_pid: Result<u32, i64>,
    child_pid: Result<u32, i64>,
    room: bool,
)
    ensures
        ({
            let (s1, c1) = fork_next(ForkProbe::ParentPid, Reply::Word(parent_pid));
            let (s2, c2) = fork_next(s1, Reply::Word(child_pid));
            let (s3, c3) = fork_next(s2, Reply::Entry(room));
            match (parent_pid, child_pid) {
                (Err(e), _) => c1 == (ForkCall::Exit { result: Err(e) }),
                (Ok(_), Err(e)) => {
                    &&& c1 == (ForkCall::ReadWord { at: CHILD_PID_OFFSET })
                    &&& c2 == (ForkCall::Exit { result: Err(e) })
                },
                (Ok(p), Ok(c)) => {
                    &&& c1 == (ForkCall::ReadWord { at: CHILD_PID_OFFSET })
                    &&& c2 == ForkCall::Reserve
                    &&& c3 == if room {
                        ForkCall::Submit { parent_pid: p, child_pid: c }
                    } else {
                        ForkCall::Exit { result: Ok(0) }
                    }
                },
            }
        }),
{
}

/// Where the fields of the two tracepoint records stand, and how much of a path is
/// captured.
pub proof fn law_record_layout()
    ensures
        FILENAME_DATA_LOC_OFFSET == 8,
        PID_OFFSET == 12,
        PARENT_PID_OFFSET == 24,
        CHILD_PID_OFFSET == 44,
        FILENAME_LEN == 256,
{
}

/// A `__data_loc` word says where its field stands, whatever length it packs above.
pub proof fn law_data_loc(offset: u32, len: u32)
    requires
        offset < 0x1_0000,
        len < 0x1_0000,
    ensures
        data_loc_offset((0x1_0000 * len + offset) as u32) == offset,
{
}

/// Both words are asked for before room is, and a reply is answered by what it calls
/// for alone: what the exec probe found before is neither lost nor changed.
pub proof fn law_exec_probe_remembers(name_at: usize, pid: u32, word: u32, len: usize, e: i64)
    ensures
        exec_next(ExecProbe::Pid { name_at }, Reply::Word(Ok(word))) == (
            ExecProbe::Entry { name_at, pid: word },
            ExecCall::Reserve,
        ),
        exec_next(ExecProbe::Entry { name_at, pid }, Reply::Entry(true)) == (
            ExecProbe::Name { pid },
            (ExecCall::ReadName { at: name_at }),
        ),
        exec_next(ExecProbe::Entry { name_at, pid }, Reply::Entry(false)).1 == (ExecCall::Exit {
            result: Ok(0),
        }),
        exec_next(ExecProbe::Name { pid }, Reply::Name(Ok(len))).1 == (ExecCall::Submit {
            pid,
            filename_len: len as u32,
        }),
        exec_next(ExecProbe::Name { pid }, Reply::Name(Err(e))).1 == (ExecCall::Submit {
            pid,
            filename_len: 0,
        }),
{
}

/// What the fork probe found before is neither lost nor changed.
pub proof fn law_fork_probe_remembers(parent_pid: u32, child_pid: u32)
    ensures
        fork_next(ForkProbe::ChildPid { parent_pid }, Reply::Word(Ok(child_pid))) == (
            ForkProbe::Entry { parent_pid, child_pid },
            ForkCall::Reserve,
        ),
        fork_next(ForkProbe::Entry { parent_pid, child_pid }, Reply::Entry(true)).1 == (
        ForkCall::Submit { parent_pid, child_pid }),
        fork_next(ForkProbe::Entry { parent_pid, child_pid }, Reply::Entry(false)).1 == (
        ForkCall::Exit { result: Ok(0) }),
{
}

} // verus!
