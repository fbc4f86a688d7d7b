//! Reading the records that `/proc` keeps of a process.

use vstd::prelude::*;

use crate::text;

verus! {

/// The parent that a `/proc/<pid>/stat` record names: the second word after the
/// last `)`, as a number.
pub open spec fn parent_in(stat: Seq<char>) -> Option<u32> {
    let fields = text::words(text::tail_after_last(stat, ')'));
    if stat.contains(')') && fields.len() > 1 {
        text::decimal_u32(fields[1])
    } else {
        None
    }
}

/// Parent pid from the text of /proc/<pid>/stat. The `comm` field can contain
/// spaces and parens, so everything after the final ')' is parsed.
pub fn parent_pid(stat: &str) -> (parent: Option<u32>)
    ensures
        parent == parent_in(stat@),
{
    if !text::contains_char(stat, ')') {
        return None;
    }
    let after_comm = text::tail_after(stat, ')');
    // fields after comm: " <state> <ppid> ..."
    match text::nth_word(after_comm, 1) {
        Some(word) => text::parse_u32(word),
        None => None,
    }
}

/// Whatever the command name holds, a record gives the parent that was written
/// after it. A record reads `<pid> (<comm>) <state> <ppid> <rest>`; `before` is
/// what stands before the `)` that ends the command name, and nothing after that
/// one holds another.
pub proof fn law_command_name_does_not_matter(
    before: Seq<char>,
    state: char,
    ppid: Seq<char>,
    rest: Seq<char>,
)
    requires
        !text::is_white_space(state),
        state != ')',
        ppid.len() > 0,
        forall|i: int|
            0 <= i < ppid.len() ==> #[trigger] ppid[i] != ')' && !text::is_white_space(ppid[i]),
        !rest.contains(')'),
        rest.len() > 0 ==> text::is_white_space(rest[0]),
    ensures
        parent_in(before + seq![')', ' ', state, ' '] + ppid + rest) == text::decimal_u32(ppid),
{
    let stat = before + seq![')', ' ', state, ' '] + ppid + rest;
    let tail = seq![' ', state, ' '] + ppid + rest;
    assert forall|i: int| 0 <= i < rest.len() implies #[trigger] rest[i] != ')' by {
        assert(rest.contains(rest[i]));
    }
    let cut = before.len() as int + 1;
    assert(stat[cut - 1] == ')');
    assert(stat.contains(')'));
    assert forall|i: int| cut <= i < stat.len() implies #[trigger] stat[i] != ')' by {
        let k = i - cut;
        if k >= 3 && k < 3 + ppid.len() {
            assert(stat[i] == ppid[k - 3]);
        } else if k >= 3 {
            assert(stat[i] == rest[k - 3 - ppid.len()]);
        }
    }
    text::lemma_after_last_is(stat, ')', cut);
    assert(text::tail_after_last(stat, ')') == tail);
    // past the blank, the state; past the next blank, the parent
    let at_state = seq![state, ' '] + ppid + rest;
    assert(tail.drop_first() == at_state);
    text::lemma_word_prefix_is(at_state, 1);
    assert(at_state.take(1) == seq![state]);
    let at_gap = seq![' '] + ppid + rest;
    assert(at_state.skip(1) == at_gap);
    let at_ppid = ppid + rest;
    assert(at_gap.drop_first() == at_ppid);
    assert forall|j: int| 0 <= j < ppid.len() implies !text::is_white_space(
        #[trigger] at_ppid[j],
    ) by {
        assert(at_ppid[j] == ppid[j]);
    }
    if rest.len() > 0 {
        assert(at_ppid[ppid.len() as int] == rest[0]);
    }
    text::lemma_word_prefix_is(at_ppid, ppid.len());
    assert(at_ppid.take(ppid.len() as int) == ppid);
    assert(text::words(at_ppid)[0] == ppid);
    assert(text::words(at_gap) == text::words(at_ppid));
    assert(text::words(at_state) == seq![seq![state]] + text::words(at_gap));
    assert(text::words(tail) == text::words(at_state));
    assert(text::words(tail)[1] == text::words(at_gap)[0]);
}

/// Only what stands behind the last `)` counts, and of that the second word: there
/// is no parent without that `)` or that word.
pub proof fn law_parent_stands_behind_the_last_paren(before: Seq<char>, fields: Seq<char>)
    requires
        !fields.contains(')'),
    ensures
        parent_in(fields) is None,
        text::words(fields).len() < 2 ==> parent_in(before.push(')') + fields) is None,
        text::words(fields).len() >= 2 ==> parent_in(before.push(')') + fields)
            == text::decimal_u32(text::words(fields)[1]),
{
    let stat = before.push(')') + fields;
    text::law_tail_after_last(before, ')', fields);
    assert(stat[before.len() as int] == ')');
    assert(stat.contains(')'));
}

} // verus!
