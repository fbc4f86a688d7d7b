//! The records that the kernel probes put in the ring buffers and the daemon
//! takes out: their layout, and the path that an exec record carries. The words
//! of a record are in the byte order of the machine.

use vstd::prelude::*;
use vstd::slice::slice_subrange;

use crate::probe::FILENAME_LEN;
use crate::text;

verus! {

/// Bytes that an [`ExecEvent`] takes in the ring buffer: two words, then the
/// path, with no padding.
pub const EXEC_EVENT_LEN: usize = 264;

/// Bytes that a [`ForkEvent`] takes in the ring buffer: two words.
pub const FORK_EVENT_LEN: usize = 8;

/// How a machine lays out the bytes of a word.
#[derive(Clone, Copy, Debug, PartialEq, Eq, Structural)]
pub enum ByteOrder {
    /// Least significant byte first.
    Little,
    /// Most significant byte first.
    Big,
}

/// One process-exec event.
#[derive(Clone, Copy)]
pub struct ExecEvent {
    /// PID (tgid) of the process that just exec'd.
    pub pid: u32,
    /// Number of valid bytes in `filename` (excludes the trailing NUL).
    pub filename_len: u32,
    /// Absolute path of the exec'd binary, NUL-terminated, truncated to fit.
    pub filename: [u8; FILENAME_LEN],
}

/// One process-fork event.
#[derive(Clone, Copy, Debug, PartialEq, Eq, Structural)]
pub struct ForkEvent {
    /// PID that forked.
    pub parent_pid: u32,
    /// PID of the new process.
    pub child_pid: u32,
}

/// The word that stands in `bytes` from `at` on.
pub open spec fn word_at(order: ByteOrder, bytes: Seq<u8>, at: int) -> int {
    match order {
        ByteOrder::Little => bytes[at] + 0x100 * bytes[at + 1] + 0x1_0000 * bytes[at + 2]
            + 0x100_0000 * bytes[at + 3],
        ByteOrder::Big => bytes[at + 3] + 0x100 * bytes[at + 2] + 0x1_0000 * bytes[at + 1]
            + 0x100_0000 * bytes[at],
    }
}

/// The four bytes of a word.
pub open spec fn word_bytes(order: ByteOrder, word: u32) -> Seq<u8> {
    let little = seq![
        (word % 0x100) as u8,
        ((word / 0x100) % 0x100) as u8,
        ((word / 0x1_0000) % 0x100) as u8,
        (word / 0x100_0000) as u8,
    ];
    match order {
        ByteOrder::Little => little,
        ByteOrder::Big => seq![little[3], little[2], little[1], little[0]],
    }
}

/// The bytes of an exec event as the probe lays them out.
pub open spec fn exec_event_bytes(order: ByteOrder, event: ExecEvent) -> Seq<u8> {
    word_bytes(order, event.pid) + word_bytes(order, event.filename_len) + event.filename@
}

/// The bytes of a fork event as the probe lays them out.
pub open spec fn fork_event_bytes(order: ByteOrder, event: ForkEvent) -> Seq<u8> {
    word_bytes(order, event.parent_pid) + word_bytes(order, event.child_pid)
}

/// Whether `bytes` start with the exec event `event`.
pub open spec fn holds_exec_event(order: ByteOrder, bytes: Seq<u8>, event: ExecEvent) -> bool {
    &&& bytes.len() >= EXEC_EVENT_LEN
    &&& event.pid == word_at(order, bytes, 0)
    &&& event.filename_len == word_at(order, bytes, 4)
    &&& event.filename@ == bytes.subrange(8, EXEC_EVENT_LEN as int)
}

/// Whether `bytes` start with the fork event `event`.
pub open spec fn holds_fork_event(order: ByteOrder, bytes: Seq<u8>, event: ForkEvent) -> bool {
    &&& bytes.len() >= FORK_EVENT_LEN
    &&& event.parent_pid == word_at(order, bytes, 0)
    &&& event.child_pid == word_at(order, bytes, 4)
}

/// What `String::from_utf8_lossy` makes of `bytes`.
pub uninterp spec fn utf8_lossy(bytes: Seq<u8>) -> Seq<char>;

/// `String::from_utf8_lossy`: its text is [`utf8_lossy`] of the bytes, and
/// where they are well-formed UTF-8 it is what they encode. How malformed
/// bytes are replaced is left to the name.
#[verifier::external_body]
fn from_utf8_lossy(bytes: &[u8]) -> (text: String)
    ensures
        text@ == utf8_lossy(bytes@),
        vstd::utf8::valid_utf8(bytes@) ==> text@ == vstd::utf8::decode_utf8(bytes@),
{
    String::from_utf8_lossy(bytes).into_owned()
}

/// The pid of the exec event that `bytes` start with.
pub open spec fn exec_pid(order: ByteOrder, bytes: Seq<u8>) -> u32 {
    word_at(order, bytes, 0) as u32
}

/// The valid bytes of the path of the exec event that `bytes` start with: as
/// many as it says, and no more than it has room for.
pub open spec fn exec_name(order: ByteOrder, bytes: Seq<u8>) -> Seq<u8> {
    let len = word_at(order, bytes, 4);
    bytes.subrange(8, EXEC_EVENT_LEN as int).take(
        if len <= FILENAME_LEN {
            len
        } else {
            FILENAME_LEN as int
        },
    )
}

/// The path of the exec event that `bytes` start with, without NULs at its end.
pub open spec fn exec_path(order: ByteOrder, bytes: Seq<u8>) -> Seq<char> {
    text::trim_end(utf8_lossy(exec_name(order, bytes)), '\0')
}

/// The parent of the fork event that `bytes` start with.
pub open spec fn fork_parent(order: ByteOrder, bytes: Seq<u8>) -> u32 {
    word_at(order, bytes, 0) as u32
}

/// The child of the fork event that `bytes` start with.
pub open spec fn fork_child(order: ByteOrder, bytes: Seq<u8>) -> u32 {
    word_at(order, bytes, 4) as u32
}

impl ExecEvent {
    /// The bytes of the path that are valid: as many as the event says, and no
    /// more than it has room for.
    pub open spec fn captured(self) -> Seq<u8> {
        self.filename@.take(
            if self.filename_len <= FILENAME_LEN {
                self.filename_len as int
            } else {
                FILENAME_LEN as int
            },
        )
    }

    /// The path as text, without NULs at its end.
    pub open spec fn path_chars(self) -> Seq<char> {
        text::trim_end(utf8_lossy(self.captured()), '\0')
    }

    /// Reads an event from the front of a ring-buffer item; `None` where the
    /// item is too short to hold one.
    pub fn read(bytes: &[u8], order: ByteOrder) -> (event: Option<ExecEvent>)
        ensures
            match event {
                Some(e) => holds_exec_event(order, bytes@, e),
                None => bytes@.len() < EXEC_EVENT_LEN,
            },
    {
        if bytes.len() < EXEC_EVENT_LEN {
            return None;
        }
        let mut filename: [u8; FILENAME_LEN] = [0u8;FILENAME_LEN];
        let mut i: usize = 0;
        while i < FILENAME_LEN
            invariant
                i <= FILENAME_LEN,
                bytes@.len() >= EXEC_EVENT_LEN,
                forall|j: int| 0 <= j < i ==> #[trigger] filename@[j] == bytes@[8 + j],
            decreases FILENAME_LEN - i,
        {
            filename[i] = bytes[8 + i];
            i = i + 1;
        }
        assert(filename@ == bytes@.subrange(8, EXEC_EVENT_LEN as int));
        Some(
            ExecEvent {
                pid: read_word(bytes, order, 0),
                filename_len: read_word(bytes, order, 4),
                filename,
            },
        )
    }

    /// The path of the exec'd binary.
    pub fn path(&self) -> (path: String)
        ensures
            path@ == self.path_chars(),
            forall|chars: Seq<char>|
                self.captured() == #[trigger] vstd::utf8::encode_utf8(chars) ==> path@ == text::trim_end(chars, '\0'),
    {
        let len: usize = if self.filename_len as usize <= FILENAME_LEN {
            self.filename_len as usize
        } else {
            FILENAME_LEN
        };
        let bytes = slice_subrange(self.filename.as_slice(), 0, len);
        assert(bytes@ == self.captured());
        let decoded = from_utf8_lossy(bytes);
        proof {
            assert forall|chars: Seq<char>|
                self.captured() == #[trigger] vstd::utf8::encode_utf8(chars) implies decoded@ == chars by {
                vstd::utf8::encode_utf8_valid_utf8(chars);
                vstd::utf8::encode_utf8_decode_utf8(chars);
            }
        }
        text::trim_end_char(decoded.as_str(), '\0').to_owned()
    }
}

impl ForkEvent {
    /// Reads an event from the front of a ring-buffer item; `None` where the
    /// item is too short to hold one.
    pub fn read(bytes: &[u8], order: ByteOrder) -> (event: Option<ForkEvent>)
        ensures
            match event {
                Some(e) => holds_fork_event(order, bytes@, e),
                None => bytes@.len() < FORK_EVENT_LEN,
            },
    {
        if bytes.len() < FORK_EVENT_LEN {
            return None;
        }
        Some(
            ForkEvent {
                parent_pid: read_word(bytes, order, 0),
                child_pid: read_word(bytes, order, 4),
            },
        )
    }
}

/// The word that stands in `bytes` from `at` on.
fn read_word(bytes: &[u8], order: ByteOrder, at: usize) -> (word: u32)
    requires
        at + 4 <= bytes@.len(),
    ensures
        word == word_at(order, bytes@, at as int),
{
    let (a, b, c, d) = (bytes[at], bytes[at + 1], bytes[at + 2], bytes[at + 3]);
    let (a, b, c, d) = match order {
        ByteOrder::Little => (a, b, c, d),
        ByteOrder::Big => (d, c, b, a),
    };
    a as u32 + 0x100 * (b as u32) + 0x1_0000 * (c as u32) + 0x100_0000 * (d as u32)
}

/// A word is the sum of its four digits to the base 256.
proof fn lemma_digits(word: u32)
    ensures
        word % 0x100 < 0x100,
        (word / 0x100) % 0x100 < 0x100,
        (word / 0x1_0000) % 0x100 < 0x100,
        word / 0x100_0000 < 0x100,
        word == word % 0x100 + 0x100 * ((word / 0x100) % 0x100) + 0x1_0000 * ((word / 0x1_0000)
            % 0x100) + 0x100_0000 * (word / 0x100_0000),
{
    let a = word / 0x100;
    let b = word / 0x1_0000;
    let c = word / 0x100_0000;
    assert(word == 0x100 * a + word % 0x100);
    assert(b == a / 0x100);
    assert(a == 0x100 * b + a % 0x100);
    assert(c == b / 0x100);
    assert(b == 0x100 * c + b % 0x100);
}

#[verifier::spinoff_prover]
proof fn lemma_word_round_trip(order: ByteOrder, bytes: Seq<u8>, at: int, word: u32)
    requires
        0 <= at,
        at + 4 <= bytes.len(),
        bytes.subrange(at, at + 4) == word_bytes(order, word),
    ensures
        word_at(order, bytes, at) == word,
{
    lemma_digits(word);
    let b = bytes.subrange(at, at + 4);
    assert(b[0] == bytes[at]);
    assert(b[1] == bytes[at + 1]);
    assert(b[2] == bytes[at + 2]);
    assert(b[3] == bytes[at + 3]);
}

/// What the exec probe lays out is what the daemon reads: an event's bytes,
/// whatever follows them, hold that event and no other, with its pid and path.
pub proof fn law_exec_event_survives_the_ring(
    order: ByteOrder,
    event: ExecEvent,
    after: Seq<u8>,
    read: ExecEvent,
)
    ensures
        exec_event_bytes(order, event).len() == EXEC_EVENT_LEN,
        holds_exec_event(order, exec_event_bytes(order, event) + after, read) <==> read == event,
        exec_pid(order, exec_event_bytes(order, event) + after) == event.pid,
        exec_path(order, exec_event_bytes(order, event) + after) == event.path_chars(),
{
    broadcast use vstd::array::group_array_axioms;

    let bytes = exec_event_bytes(order, event) + after;
    assert(bytes.subrange(0, 4) == word_bytes(order, event.pid));
    assert(bytes.subrange(4, 8) == word_bytes(order, event.filename_len));
    assert(bytes.subrange(8, EXEC_EVENT_LEN as int) == event.filename@);
    lemma_word_round_trip(order, bytes, 0, event.pid);
    lemma_word_round_trip(order, bytes, 4, event.filename_len);
    if read.filename@ == event.filename@ {
        assert(read.filename =~= event.filename);
    }
}

/// What the fork probe lays out is what the daemon reads.
pub proof fn law_fork_event_survives_the_ring(
    order: ByteOrder,
    event: ForkEvent,
    after: Seq<u8>,
    read: ForkEvent,
)
    ensures
        fork_event_bytes(order, event).len() == FORK_EVENT_LEN,
        holds_fork_event(order, fork_event_bytes(order, event) + after, read) <==> read == event,
        fork_parent(order, fork_event_bytes(order, event) + after) == event.parent_pid,
        fork_child(order, fork_event_bytes(order, event) + after) == event.child_pid,
{
    let bytes = fork_event_bytes(order, event) + after;
    assert(bytes.subrange(0, 4) == word_bytes(order, event.parent_pid));
    assert(bytes.subrange(4, 8) == word_bytes(order, event.child_pid));
    lemma_word_round_trip(order, bytes, 0, event.parent_pid);
    lemma_word_round_trip(order, bytes, 4, event.child_pid);
}

/// The bytes of a word weigh 1, 256, and so on: from the first byte on a machine that
/// puts the least significant byte first, from the last on one that puts it last.
pub proof fn law_weight_of_bytes(bytes: Seq<u8>, at: int)
    ensures
        word_at(ByteOrder::Little, bytes, at) == bytes[at] + 256 * (bytes[at + 1] + 256 * (bytes[at
            + 2] + 256 * bytes[at + 3])),
        word_at(ByteOrder::Big, bytes, at) == bytes[at + 3] + 256 * (bytes[at + 2] + 256 * (bytes[at
            + 1] + 256 * bytes[at])),
{
}

/// The other machine lays a word out backwards.
pub proof fn law_byte_orders_mirror(a: u8, b: u8, c: u8, d: u8)
    ensures
        word_at(ByteOrder::Little, seq![a, b, c, d], 0) == word_at(
            ByteOrder::Big,
            seq![d, c, b, a],
            0,
        ),
        word_at(ByteOrder::Little, seq![a, 0, 0, 0], 0) == a,
{
}

/// What an exec record holds: the pid in its first four bytes, the number of valid
/// bytes in the next four, and then the path, of which at most 256 bytes are valid.
pub proof fn law_exec_record(order: ByteOrder, bytes: Seq<u8>, event: ExecEvent)
    requires
        holds_exec_event(order, bytes, event),
    ensures
        EXEC_EVENT_LEN == 264,
        bytes.len() >= 264,
        event.pid == word_at(order, bytes, 0),
        event.filename_len == word_at(order, bytes, 4),
        event.filename@ == bytes.subrange(8, 264),
        exec_pid(order, bytes) == event.pid,
        event.filename_len <= 256 ==> event.captured() == bytes.subrange(
            8,
            8 + event.filename_len,
        ),
        event.filename_len > 256 ==> event.captured() == bytes.subrange(8, 264),
        exec_name(order, bytes) == event.captured(),
        event.path_chars() == text::trim_end(utf8_lossy(event.captured()), '\0'),
        exec_path(order, bytes) == event.path_chars(),
{
    assert(bytes.subrange(8, 264).take(256) == bytes.subrange(8, 264));
    if event.filename_len <= 256 {
        assert(bytes.subrange(8, 264).take(event.filename_len as int) == bytes.subrange(
            8,
            8 + event.filename_len,
        ));
    }
}

/// What a fork record holds: the pid that forked, then the new one.
pub proof fn law_fork_record(order: ByteOrder, bytes: Seq<u8>, event: ForkEvent)
    requires
        holds_fork_event(order, bytes, event),
    ensures
        FORK_EVENT_LEN == 8,
        bytes.len() >= 8,
        event.parent_pid == word_at(order, bytes, 0),
        event.child_pid == word_at(order, bytes, 4),
        fork_parent(order, bytes) == event.parent_pid,
        fork_child(order, bytes) == event.child_pid,
{
}

} // verus!
