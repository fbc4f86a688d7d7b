//! Text as sequences of characters: the searches that matching a path and
//! reading a `/proc` record need.

use vstd::prelude::*;

verus! {

/// The length of the shortest prefix of `s` that holds every `c` of `s`: one
/// more than the position of the last `c`, or 0 where there is none.
pub open spec fn after_last(s: Seq<char>, c: char) -> int
    decreases s.len(),
{
    if s.len() == 0 {
        0
    } else if s.last() == c {
        s.len() as int
    } else {
        after_last(s.drop_last(), c)
    }
}

/// No `c` stands in `s` from [`after_last`] on, and one stands just before it.
pub proof fn lemma_after_last(s: Seq<char>, c: char)
    ensures
        0 <= after_last(s, c) <= s.len(),
        forall|i: int| after_last(s, c) <= i < s.len() ==> #[trigger] s[i] != c,
        after_last(s, c) > 0 ==> s[after_last(s, c) - 1] == c,
    decreases s.len(),
{
    if s.len() > 0 && s.last() != c {
        let rest = s.drop_last();
        lemma_after_last(rest, c);
        assert forall|i: int| after_last(s, c) <= i < s.len() implies #[trigger] s[i] != c by {
            if i < rest.len() {
                assert(rest[i] == s[i]);
            }
        }
    }
}

/// [`after_last`] is 0 where there is no `c`.
pub proof fn lemma_after_last_absent(s: Seq<char>, c: char)
    requires
        forall|i: int| 0 <= i < s.len() ==> #[trigger] s[i] != c,
    ensures
        after_last(s, c) == 0,
        tail_after_last(s, c) == s,
{
    lemma_after_last(s, c);
    assert(s.subrange(0, s.len() as int) == s);
}

/// [`after_last`] is `n` where a `c` stands just before `n` and none after.
pub proof fn lemma_after_last_is(s: Seq<char>, c: char, n: int)
    requires
        0 < n <= s.len(),
        s[n - 1] == c,
        forall|i: int| n <= i < s.len() ==> #[trigger] s[i] != c,
    ensures
        after_last(s, c) == n,
{
    lemma_after_last(s, c);
}

/// What follows the last `c` of `s`; all of `s` where it holds no `c`.
pub open spec fn tail_after_last(s: Seq<char>, c: char) -> Seq<char> {
    s.subrange(after_last(s, c), s.len() as int)
}

/// Whether `needle` stands somewhere in `hay` as one contiguous piece.
pub open spec fn occurs_in(needle: Seq<char>, hay: Seq<char>) -> bool {
    exists|at: int| #[trigger] occurs_at(needle, hay, at)
}

/// Whether `needle` stands in `hay` from position `at` on.
pub open spec fn occurs_at(needle: Seq<char>, hay: Seq<char>, at: int) -> bool {
    &&& 0 <= at
    &&& at + needle.len() <= hay.len()
    &&& hay.subrange(at, at + needle.len()) == needle
}

/// `s` without the run of `c` at its end.
pub open spec fn trim_end(s: Seq<char>, c: char) -> Seq<char>
    decreases s.len(),
{
    if s.len() > 0 && s.last() == c {
        trim_end(s.drop_last(), c)
    } else {
        s
    }
}

/// The characters that Unicode gives the property `White_Space`.
pub open spec fn is_white_space(c: char) -> bool {
    ||| '\u{9}' <= c <= '\u{d}'
    ||| c == '\u{20}'
    ||| c == '\u{85}'
    ||| c == '\u{a0}'
    ||| c == '\u{1680}'
    ||| '\u{2000}' <= c <= '\u{200a}'
    ||| c == '\u{2028}'
    ||| c == '\u{2029}'
    ||| c == '\u{202f}'
    ||| c == '\u{205f}'
    ||| c == '\u{3000}'
}

/// The length of the longest prefix of `s` free of white space.
pub open spec fn word_prefix(s: Seq<char>) -> nat
    decreases s.len(),
{
    if s.len() > 0 && !is_white_space(s[0]) {
        1 + word_prefix(s.drop_first())
    } else {
        0
    }
}

/// The words of `s`: its maximal pieces free of white space, in order.
pub open spec fn words(s: Seq<char>) -> Seq<Seq<char>>
    decreases s.len(),
{
    if s.len() == 0 {
        Seq::empty()
    } else if is_white_space(s[0]) {
        words(s.drop_first())
    } else {
        proof {
            lemma_word_prefix_fits(s);
        }
        seq![s.take(word_prefix(s) as int)] + words(s.skip(word_prefix(s) as int))
    }
}

/// The first word of `s` is no longer than `s`.
pub proof fn lemma_word_prefix_fits(s: Seq<char>)
    ensures
        word_prefix(s) <= s.len(),
    decreases s.len(),
{
    if s.len() > 0 && !is_white_space(s[0]) {
        lemma_word_prefix_fits(s.drop_first());
    }
}

/// The first word of `s` ends where its first white space stands.
pub proof fn lemma_word_prefix_is(s: Seq<char>, n: nat)
    requires
        n <= s.len(),
        forall|j: int| 0 <= j < n ==> !is_white_space(#[trigger] s[j]),
        n == s.len() || is_white_space(s[n as int]),
    ensures
        word_prefix(s) == n,
    decreases s.len(),
{
    if n > 0 {
        assert(!is_white_space(s[0]));
        let rest = s.drop_first();
        assert forall|j: int| 0 <= j < n - 1 implies !is_white_space(#[trigger] rest[j]) by {
            assert(rest[j] == s[j + 1]);
        }
        lemma_word_prefix_is(rest, (n - 1) as nat);
    }
}

/// Whether every character of `s` is a decimal digit.
pub open spec fn all_digits(s: Seq<char>) -> bool {
    forall|i: int| 0 <= i < s.len() ==> '0' <= #[trigger] s[i] <= '9'
}

/// The number that the decimal digits `s` write, most significant first.
pub open spec fn decimal_value(s: Seq<char>) -> int
    decreases s.len(),
{
    if s.len() == 0 {
        0
    } else {
        10 * decimal_value(s.drop_last()) + (s.last() as int - '0' as int)
    }
}

/// `s` read as an unsigned decimal number of 32 bits: one digit or more, with
/// at most one `+` before them.
pub open spec fn decimal_u32(s: Seq<char>) -> Option<u32> {
    let digits = if s.len() > 0 && s[0] == '+' {
        s.drop_first()
    } else {
        s
    };
    if digits.len() > 0 && all_digits(digits) && decimal_value(digits) <= u32::MAX {
        Some(decimal_value(digits) as u32)
    } else {
        None
    }
}

/// The characters of `s`, one by one.
pub fn chars_of(s: &str) -> (chars: Vec<char>)
    ensures
        chars@ == s@,
{
    let mut chars: Vec<char> = Vec::new();
    for c in it: s.chars()
        invariant
            it.seq() == s@,
            chars@ == s@.take(it.index()),
    {
        chars.push(c);
    }
    chars
}

/// Whether two texts hold the same characters.
pub fn same_text(a: &str, b: &str) -> (same: bool)
    ensures
        same == (a@ == b@),
{
    a.to_owned() == b.to_owned()
}

/// The end of a slice of text after its last `c`.
pub fn tail_after<'a>(s: &'a str, c: char) -> (tail: &'a str)
    ensures
        tail@ == tail_after_last(s@, c),
{
    let chars = chars_of(s);
    let mut end: usize = chars.len();
    assert(s@.take(end as int) == s@);
    while end > 0 && chars[end - 1] != c
        invariant
            chars@ == s@,
            end <= s@.len(),
            after_last(s@.take(end as int), c) == after_last(s@, c),
        decreases end,
    {
        assert(s@.take(end as int).drop_last() == s@.take(end - 1));
        end = end - 1;
    }
    assert(after_last(s@.take(end as int), c) == end);
    s.substring_char(end, chars.len())
}

/// Whether `c` occurs in `s`.
pub fn contains_char(s: &str, c: char) -> (found: bool)
    ensures
        found == s@.contains(c),
{
    let chars = chars_of(s);
    let mut at: usize = 0;
    while at < chars.len()
        invariant
            chars@ == s@,
            at <= s@.len(),
            forall|i: int| 0 <= i < at ==> #[trigger] s@[i] != c,
        decreases s@.len() - at,
    {
        if chars[at] == c {
            assert(s@[at as int] == c);
            return true;
        }
        at = at + 1;
    }
    false
}

/// Whether `needle` occurs in `hay`.
pub fn contains_text(hay: &str, needle: &str) -> (found: bool)
    ensures
        found == occurs_in(needle@, hay@),
{
    let h = chars_of(hay);
    let n = chars_of(needle);
    if n.len() > h.len() {
        assert forall|at: int| !#[trigger] occurs_at(needle@, hay@, at) by {}
        return false;
    }
    let last: usize = h.len() - n.len();
    let mut at: usize = 0;
    while at <= last
        invariant
            h@ == hay@,
            n@ == needle@,
            n@.len() <= h@.len() <= usize::MAX,
            last == h@.len() - n@.len(),
            at <= last + 1,
            last < usize::MAX || n@.len() == 0,
            forall|a: int| 0 <= a < at ==> !#[trigger] occurs_at(needle@, hay@, a),
        decreases last + 1 - at,
    {
        let mut k: usize = 0;
        while k < n.len() && h[at + k] == n[k]
            invariant
                h@ == hay@,
                n@ == needle@,
                at + n@.len() <= h@.len() <= usize::MAX,
                k <= n@.len(),
                forall|j: int| 0 <= j < k ==> h@[at + j] == #[trigger] n@[j],
            decreases n@.len() - k,
        {
            k = k + 1;
        }
        if k == n.len() {
            assert(hay@.subrange(at as int, at + n@.len()) == needle@);
            assert(occurs_at(needle@, hay@, at as int));
            return true;
        }
        assert(!occurs_at(needle@, hay@, at as int)) by {
            if occurs_at(needle@, hay@, at as int) {
                assert(hay@.subrange(at as int, at + n@.len())[k as int] == needle@[k as int]);
            }
        }
        at = at + 1;
    }
    assert forall|a: int| !#[trigger] occurs_at(needle@, hay@, a) by {}
    false
}

/// `s` without the run of `c` at its end.
pub fn trim_end_char<'a>(s: &'a str, c: char) -> (trimmed: &'a str)
    ensures
        trimmed@ == trim_end(s@, c),
{
    let chars = chars_of(s);
    let mut end: usize = chars.len();
    assert(s@.take(end as int) == s@);
    while end > 0 && chars[end - 1] == c
        invariant
            chars@ == s@,
            end <= s@.len(),
            trim_end(s@.take(end as int), c) == trim_end(s@, c),
        decreases end,
    {
        assert(s@.take(end as int).drop_last() == s@.take(end - 1));
        end = end - 1;
    }
    s.substring_char(0, end)
}

/// Whether `c` is white space.
pub fn white_space(c: char) -> (white: bool)
    ensures
        white == is_white_space(c),
{
    ('\u{9}' <= c && c <= '\u{d}') || c == '\u{20}' || c == '\u{85}' || c == '\u{a0}' || c
        == '\u{1680}' || ('\u{2000}' <= c && c <= '\u{200a}') || c == '\u{2028}' || c == '\u{2029}'
        || c == '\u{202f}' || c == '\u{205f}' || c == '\u{3000}'
}

/// The word of `s` that `n` words stand before, where there is one.
pub fn nth_word<'a>(s: &'a str, n: usize) -> (word: Option<&'a str>)
    ensures
        match word {
            Some(w) => n < words(s@).len() && w@ == words(s@)[n as int],
            None => words(s@).len() <= n,
        },
{
    let chars = chars_of(s);
    let len: usize = chars.len();
    let mut at: usize = 0;
    let mut passed: usize = 0;
    assert(s@.skip(0) == s@);
    assert(words(s@).skip(0) == words(s@));
    while at < len
        invariant
            chars@ == s@,
            len == chars@.len(),
            at <= s@.len(),
            passed <= n,
            passed <= words(s@).len(),
            words(s@).skip(passed as int) == words(s@.skip(at as int)),
        decreases s@.len() - at,
    {
        let ghost rest = s@.skip(at as int);
        if white_space(chars[at]) {
            assert(rest.drop_first() == s@.skip(at + 1));
            at = at + 1;
        } else {
            let mut end: usize = at + 1;
            while end < len && !white_space(chars[end])
                invariant
                    chars@ == s@,
                    len == chars@.len(),
                    at < end <= s@.len(),
                    forall|j: int| at <= j < end ==> !is_white_space(#[trigger] s@[j]),
                decreases s@.len() - end,
            {
                end = end + 1;
            }
            proof {
                lemma_word_prefix_is(rest, (end - at) as nat);
                assert(rest.take(end - at) == s@.subrange(at as int, end as int));
                assert(rest.skip(end - at) == s@.skip(end as int));
                assert(words(rest).len() > 0);
                assert(words(s@).skip(passed as int)[0] == words(s@)[passed as int]);
                assert(words(rest).skip(1) == words(s@.skip(end as int)));
                assert(words(s@).skip(passed + 1) == words(s@).skip(passed as int).skip(1));
            }
            if passed == n {
                return Some(s.substring_char(at, end));
            }
            passed = passed + 1;
            at = end;
        }
    }
    assert(words(s@).skip(passed as int).len() == 0);
    None
}

proof fn lemma_decimal_grows(s: Seq<char>, n: int)
    requires
        0 <= n <= s.len(),
        all_digits(s),
    ensures
        0 <= decimal_value(s.take(n)) <= decimal_value(s),
    decreases s.len(),
{
    if s.len() == 0 {
        assert(s.take(n) == s);
    } else if n < s.len() {
        assert(all_digits(s.drop_last()));
        lemma_decimal_grows(s.drop_last(), n);
        assert(s.drop_last().take(n) == s.take(n));
    } else {
        assert(s.take(n) == s);
        assert(all_digits(s.drop_last()));
        lemma_decimal_grows(s.drop_last(), n - 1);
    }
}

/// `s` read as an unsigned decimal number of 32 bits.
pub fn parse_u32(s: &str) -> (number: Option<u32>)
    ensures
        number == decimal_u32(s@),
{
    let chars = chars_of(s);
    let start: usize = if chars.len() > 0 && chars[0] == '+' {
        1
    } else {
        0
    };
    let ghost digits = s@.skip(start as int);
    assert(digits == if s@.len() > 0 && s@[0] == '+' {
        s@.drop_first()
    } else {
        s@
    });
    if start == chars.len() {
        return None;
    }
    let mut value: u64 = 0;
    let mut at: usize = start;
    assert(decimal_value(digits.take(0)) == 0);
    while at < chars.len()
        invariant
            chars@ == s@,
            digits == s@.skip(start as int),
            digits == if s@.len() > 0 && s@[0] == '+' {
                s@.drop_first()
            } else {
                s@
            },
            start <= at <= s@.len(),
            digits.len() > 0,
            all_digits(digits.take(at - start)),
            value == decimal_value(digits.take(at - start)),
            value <= u32::MAX,
        decreases s@.len() - at,
    {
        let c = chars[at];
        let ghost seen = digits.take(at - start);
        let ghost longer = digits.take(at + 1 - start);
        assert(longer.drop_last() == seen && longer.last() == c);
        assert(digits[at - start] == c);
        if c < '0' || '9' < c {
            return None;
        }
        assert forall|i: int| 0 <= i < longer.len() implies '0' <= #[trigger] longer[i] <= '9' by {
            if i < seen.len() {
                assert(seen[i] == longer[i]);
            }
        }
        value = value * 10 + (c as u64 - '0' as u64);
        if value > 0xffff_ffff {
            proof {
                if all_digits(digits) {
                    lemma_decimal_grows(digits, at + 1 - start);
                }
            }
            return None;
        }
        at = at + 1;
    }
    assert(digits.take(at - start) == digits);
    Some(value as u32)
}

/// A text stands in another exactly if the other is something, it, and something.
pub proof fn law_occurs_in(before: Seq<char>, needle: Seq<char>, after: Seq<char>)
    ensures
        occurs_in(needle, before + needle + after),
        forall|hay: Seq<char>| #[trigger]
            occurs_in(needle, hay) ==> exists|a: Seq<char>, b: Seq<char>|
                hay == #[trigger] (a + needle + b),
{
    let whole = before + needle + after;
    assert(whole.subrange(before.len() as int, (before.len() + needle.len()) as int) == needle);
    assert(occurs_at(needle, whole, before.len() as int));
    assert forall|hay: Seq<char>| #[trigger] occurs_in(needle, hay) implies exists|
        a: Seq<char>,
        b: Seq<char>,
    | hay == #[trigger] (a + needle + b) by {
        let at = choose|at: int| #[trigger] occurs_at(needle, hay, at);
        let a = hay.take(at);
        let b = hay.skip(at + needle.len());
        assert(hay == a + needle + b);
    }
}

/// What follows the last `c` is what was written after it; a text without one is all
/// of it.
pub proof fn law_tail_after_last(before: Seq<char>, c: char, tail: Seq<char>)
    requires
        !tail.contains(c),
    ensures
        tail_after_last(before.push(c) + tail, c) == tail,
        tail_after_last(tail, c) == tail,
{
    assert forall|i: int| 0 <= i < tail.len() implies #[trigger] tail[i] != c by {
        assert(tail.contains(tail[i]));
    }
    let s = before.push(c) + tail;
    lemma_after_last_is(s, c, before.len() as int + 1);
    lemma_after_last_absent(tail, c);
    assert(tail_after_last(s, c) == tail);
}

/// Trimming takes off what was put on: a text that does not end with `c` comes back
/// from however many `c` behind it.
pub proof fn law_trim_end(s: Seq<char>, c: char, n: nat)
    requires
        s.len() > 0 ==> s.last() != c,
    ensures
        trim_end(s + Seq::new(n, |i: int| c), c) == s,
    decreases n,
{
    let run = Seq::new(n, |i: int| c);
    if n > 0 {
        let shorter = Seq::new((n - 1) as nat, |i: int| c);
        law_trim_end(s, c, (n - 1) as nat);
        assert((s + run).drop_last() == s + shorter);
        assert((s + run).last() == c);
    } else {
        assert(s + run == s);
    }
}

/// The words of a text: white space before it changes nothing, a run without white
/// space is one word, and white space behind a word ends it.
pub proof fn law_words(word: Seq<char>, gap: char, rest: Seq<char>)
    requires
        is_white_space(gap),
        word.len() > 0,
        forall|i: int| 0 <= i < word.len() ==> !is_white_space(#[trigger] word[i]),
    ensures
        words(Seq::empty()) == Seq::<Seq<char>>::empty(),
        words(seq![gap] + rest) == words(rest),
        words(word) == seq![word],
        words(word + seq![gap] + rest) == seq![word] + words(rest),
{
    assert((seq![gap] + rest).drop_first() == rest);
    assert(!is_white_space(word[0]));
    lemma_word_prefix_is(word, word.len());
    assert(word.take(word.len() as int) == word);
    assert(word.skip(word.len() as int) == Seq::<char>::empty());
    assert(words(word) == seq![word] + words(Seq::empty()));
    let whole = word + seq![gap] + rest;
    assert(whole[0] == word[0]);
    assert forall|j: int| 0 <= j < word.len() implies !is_white_space(#[trigger] whole[j]) by {
        assert(whole[j] == word[j]);
    }
    assert(whole[word.len() as int] == gap);
    lemma_word_prefix_is(whole, word.len());
    assert(whole.take(word.len() as int) == word);
    assert(whole.skip(word.len() as int) == seq![gap] + rest);
    assert(words(seq![gap] + rest) == words(rest));
    assert(words(whole) == seq![word] + words(seq![gap] + rest));
}

/// A digit is its own number; a further digit makes it ten times that and the digit,
/// as long as 32 bits hold it; one sign may stand before.
pub proof fn law_decimal(s: Seq<char>, digit: char)
    requires
        '0' <= digit <= '9',
    ensures
        decimal_u32(seq![digit]) == Some((digit as int - '0' as int) as u32),
        decimal_u32(s) matches Some(v) ==> decimal_u32(s.push(digit)) == if 10 * v + (digit as int
            - '0' as int) <= u32::MAX {
            Some((10 * v + (digit as int - '0' as int)) as u32)
        } else {
            None
        },
        s.len() > 0 && s[0] != '+' ==> decimal_u32(seq!['+'] + s) == decimal_u32(s),
{
    reveal_with_fuel(decimal_value, 2);
    let one = seq![digit];
    assert(one.drop_last() == Seq::<char>::empty());
    if decimal_u32(s) is Some {
        let longer = s.push(digit);
        let plus = s[0] == '+';
        let digits = if plus {
            s.drop_first()
        } else {
            s
        };
        assert(longer[0] == s[0]);
        let more = if plus {
            longer.drop_first()
        } else {
            longer
        };
        assert(more == digits.push(digit));
        assert(more.drop_last() == digits);
        assert forall|i: int| 0 <= i < more.len() implies '0' <= #[trigger] more[i] <= '9' by {
            if i < digits.len() {
                assert(more[i] == digits[i]);
            }
        }
        lemma_decimal_grows(digits, digits.len() as int);
        assert(digits.take(digits.len() as int) == digits);
    }
    assert((seq!['+'] + s).drop_first() == s);
}

/// Nothing but digits makes a number, and neither does nothing.
pub proof fn law_not_decimal(s: Seq<char>, i: int)
    ensures
        s.len() == 0 ==> decimal_u32(s) is None,
        s == seq!['+'] ==> decimal_u32(s) is None,
        0 <= i < s.len() && !('0' <= s[i] <= '9') && (i > 0 || s[i] != '+') ==> decimal_u32(
            s,
        ) is None,
        decimal_u32(s) is None && s.len() > 0 && s[0] != '+' && all_digits(s) ==> decimal_value(s)
            > u32::MAX,
{
    if 0 <= i < s.len() && !('0' <= s[i] <= '9') && (i > 0 || s[i] != '+') {
        if s[0] == '+' {
            assert(s.drop_first()[i - 1] == s[i]);
        }
    }
}

/// A number that is too large stays too large with a further digit.
pub proof fn law_too_large_stays_too_large(s: Seq<char>, digit: char)
    requires
        '0' <= digit <= '9',
        s.len() > 0,
        s[0] != '+',
        decimal_u32(s) is None,
    ensures
        decimal_u32(s.push(digit)) is None,
{
    let more = s.push(digit);
    assert(more[0] == s[0]);
    assert(more.drop_last() == s);
    if all_digits(more) {
        assert forall|i: int| 0 <= i < s.len() implies '0' <= #[trigger] s[i] <= '9' by {
            assert(more[i] == s[i]);
        }
        lemma_decimal_grows(more, s.len() as int);
        assert(more.take(s.len() as int) == s);
    }
}

} // verus!
