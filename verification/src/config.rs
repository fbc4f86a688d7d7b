//! What the daemon is told to do: the rules and the tracked subtree, and which
//! rule decides for a path.

use vstd::prelude::*;

use crate::text;

verus! {

/// A `[rules]` value, in either shorthand or table form:
///   dd = 19                               # basename only
///   dd = { nice = 19, substring = true }  # also match any path substring
#[derive(Clone, Copy, Debug, PartialEq, Eq, Structural)]
pub enum Rule {
    Nice(i32),
    Table {
        nice: i32,
        /// Also match any substring of the full exec path, not just the
        /// basename. Off by default (so e.g. `dd` won't match `ssh-add`).
        substring: bool,
    },
}

impl Rule {
    pub open spec fn spec_nice(self) -> i32 {
        match self {
            Rule::Nice(n) => n,
            Rule::Table { nice, .. } => nice,
        }
    }

    pub open spec fn spec_substring(self) -> bool {
        self matches Rule::Table { substring: true, .. }
    }

    /// The nice value that the rule sets.
    pub fn nice(&self) -> (n: i32)
        ensures
            n == self.spec_nice(),
    {
        match self {
            Rule::Nice(n) => *n,
            Rule::Table { nice, .. } => *nice,
        }
    }

    /// Whether this rule may also match a path substring (not just the basename).
    pub fn substring(&self) -> (s: bool)
        ensures
            s == self.spec_substring(),
    {
        matches!(self, Rule::Table { substring: true, .. })
    }
}

/// The nice value that `cargo` and its entire process subtree get.
#[derive(Clone, Copy, Debug, PartialEq, Eq, Structural)]
pub struct CargoConfig {
    pub nice: i32,
}

/// Which process subtrees to follow, and the nice value that they get.
#[derive(Debug)]
pub struct SubtreeConfig {
    pub nice: i32,
    /// Basenames of the binaries that start a subtree.
    pub roots: Vec<String>,
}

/// What the daemon is told to do.
#[derive(Debug)]
pub struct Config {
    /// match-key -> rule. A key matches a binary's basename; a rule can opt in
    /// to also matching any substring of the full exec path with
    /// `substring = true`. No key occurs twice.
    pub rules: Vec<(String, Rule)>,
    /// If present, renice `cargo` and its entire process subtree to this nice.
    pub cargo: Option<CargoConfig>,
    /// If present, renice each root and its entire process subtree to this nice,
    /// but for what belongs to the subtree of `cargo` above.
    pub subtree: Option<SubtreeConfig>,
}

/// What a [`SubtreeConfig`] says.
pub ghost struct SubtreeModel {
    pub nice: i32,
    pub roots: Seq<Seq<char>>,
}

/// What a [`Config`] says.
pub ghost struct ConfigModel {
    pub rules: Seq<(Seq<char>, Rule)>,
    pub cargo: Option<CargoConfig>,
    pub subtree: Option<SubtreeModel>,
}

impl View for SubtreeConfig {
    type V = SubtreeModel;

    open spec fn view(&self) -> SubtreeModel {
        SubtreeModel { nice: self.nice, roots: self.roots@.map_values(|r: String| r@) }
    }
}

impl View for Config {
    type V = ConfigModel;

    open spec fn view(&self) -> ConfigModel {
        ConfigModel {
            rules: self.rules@.map_values(|e: (String, Rule)| (e.0@, e.1)),
            cargo: self.cargo,
            subtree: match self.subtree {
                Some(s) => Some(s@),
                None => None,
            },
        }
    }
}

/// Whether no key occurs twice.
pub open spec fn distinct(rules: Seq<(Seq<char>, Rule)>) -> bool {
    forall|i: int, j: int|
        0 <= i < j < rules.len() ==> #[trigger] rules[i].0 != #[trigger] rules[j].0
}

impl ConfigModel {
    /// No key occurs twice.
    pub open spec fn keys_distinct(self) -> bool {
        distinct(self.rules)
    }

    /// The subtree of `cargo`, as one with that root.
    pub open spec fn cargo_subtree(self) -> Option<SubtreeModel> {
        match self.cargo {
            Some(c) => Some(SubtreeModel { nice: c.nice, roots: seq!["cargo"@] }),
            None => None,
        }
    }
}

/// The part of a path after its last `/`.
pub open spec fn basename_of(path: Seq<char>) -> Seq<char> {
    text::tail_after_last(path, '/')
}

/// The part of a path after its last `/`; all of it where there is none.
pub fn basename(path: &str) -> (name: &str)
    ensures
        name@ == basename_of(path@),
{
    text::tail_after(path, '/')
}

/// Whether the key of an entry is the basename of `path`.
pub open spec fn names(entry: (Seq<char>, Rule), path: Seq<char>) -> bool {
    entry.0 == basename_of(path)
}

/// Whether an entry opted in to substring matching and its key occurs in `path`.
pub open spec fn found_in(entry: (Seq<char>, Rule), path: Seq<char>) -> bool {
    entry.1.spec_substring() && text::occurs_in(entry.0, path)
}

/// Whether the rule at `i` decides for `path`: its key is the basename; or no
/// key is, and it is the first that matches a substring.
pub open spec fn decides(rules: Seq<(Seq<char>, Rule)>, path: Seq<char>, i: int) -> bool {
    &&& 0 <= i < rules.len()
    &&& {
        ||| names(rules[i], path) && forall|j: int| 0 <= j < i ==> !names(#[trigger] rules[j], path)
        ||| {
            &&& forall|j: int| 0 <= j < rules.len() ==> !names(#[trigger] rules[j], path)
            &&& found_in(rules[i], path)
            &&& forall|j: int| 0 <= j < i ==> !found_in(#[trigger] rules[j], path)
        }
    }
}

/// Whether `nice` is the answer for `path`: that of the rule that decides, or
/// none where no rule matches.
pub open spec fn nice_is(
    rules: Seq<(Seq<char>, Rule)>,
    path: Seq<char>,
    nice: Option<i32>,
) -> bool {
    match nice {
        Some(n) => exists|i: int| #[trigger] decides(rules, path, i) && rules[i].1.spec_nice() == n,
        None => forall|j: int|
            0 <= j < rules.len() ==> !names(#[trigger] rules[j], path) && !found_in(rules[j], path),
    }
}

impl Config {
    /// First matching rule wins: an exact basename match (any rule form), then a
    /// path-substring match (only rules that opt in with `substring = true`).
    pub fn nice_for(&self, path: &str) -> (nice: Option<i32>)
        ensures
            nice_is(self@.rules, path@, nice),
    {
        let name = basename(path).to_owned();
        let ghost rules = self@.rules;
        let mut at: usize = 0;
        while at < self.rules.len()
            invariant
                at <= self.rules@.len(),
                rules == self@.rules,
                name@ == basename_of(path@),
                forall|j: int| 0 <= j < at ==> !names(#[trigger] rules[j], path@),
            decreases self.rules@.len() - at,
        {
            if self.rules[at].0 == name {
                assert(names(rules[at as int], path@));
                assert(decides(rules, path@, at as int));
                return Some(self.rules[at].1.nice());
            }
            at = at + 1;
        }
        at = 0;
        while at < self.rules.len()
            invariant
                at <= self.rules@.len(),
                rules == self@.rules,
                forall|j: int| 0 <= j < rules.len() ==> !names(#[trigger] rules[j], path@),
                forall|j: int| 0 <= j < at ==> !found_in(#[trigger] rules[j], path@),
            decreases self.rules@.len() - at,
        {
            if self.rules[at].1.substring() && text::contains_text(path, self.rules[at].0.as_str()) {
                assert(found_in(rules[at as int], path@));
                assert(decides(rules, path@, at as int));
                return Some(self.rules[at].1.nice());
            }
            assert(!found_in(rules[at as int], path@));
            at = at + 1;
        }
        None
    }
}

/// Where `key` first occurs among `rules`; their number where it does not.
pub open spec fn position(rules: Seq<(Seq<char>, Rule)>, key: Seq<char>) -> int
    decreases rules.len(),
{
    if rules.len() == 0 {
        0
    } else if rules[0].0 == key {
        0
    } else {
        1 + position(rules.drop_first(), key)
    }
}

/// `rules` with `key` set to `rule`: in its place if it is there, else at the end.
pub open spec fn put(
    rules: Seq<(Seq<char>, Rule)>,
    key: Seq<char>,
    rule: Rule,
) -> Seq<(Seq<char>, Rule)> {
    if position(rules, key) < rules.len() {
        rules.update(position(rules, key), (key, rule))
    } else {
        rules.push((key, rule))
    }
}

/// The position of a key is where it stands and no rule before it has it.
pub proof fn lemma_position(rules: Seq<(Seq<char>, Rule)>, key: Seq<char>, at: int)
    requires
        0 <= at <= rules.len(),
        forall|j: int| 0 <= j < at ==> (#[trigger] rules[j]).0 != key,
        at < rules.len() ==> rules[at].0 == key,
    ensures
        position(rules, key) == at,
    decreases rules.len(),
{
    if rules.len() > 0 && at > 0 {
        let rest = rules.drop_first();
        assert(rules[0].0 != key);
        assert forall|j: int| 0 <= j < at - 1 implies (#[trigger] rest[j]).0 != key by {
            assert(rest[j] == rules[j + 1]);
        }
        lemma_position(rest, key, at - 1);
    }
}

proof fn lemma_update_distinct(before: Seq<(Seq<char>, Rule)>, after: Seq<(Seq<char>, Rule)>)
    requires
        distinct(before),
        after.len() == before.len(),
        forall|k: int| 0 <= k < before.len() ==> (#[trigger] after[k]).0 == before[k].0,
    ensures
        distinct(after),
{
    assert forall|i: int, j: int| 0 <= i < j < after.len() implies #[trigger] after[i].0
        != #[trigger] after[j].0 by {
        assert(before[i].0 != before[j].0);
    }
}

proof fn lemma_push_distinct(before: Seq<(Seq<char>, Rule)>, after: Seq<(Seq<char>, Rule)>)
    requires
        distinct(before),
        after.len() == before.len() + 1,
        forall|k: int| 0 <= k < before.len() ==> #[trigger] after[k] == before[k],
        forall|k: int| 0 <= k < before.len() ==> (#[trigger] before[k]).0 != after.last().0,
    ensures
        distinct(after),
{
    assert forall|i: int, j: int| 0 <= i < j < after.len() implies #[trigger] after[i].0
        != #[trigger] after[j].0 by {
        if j < before.len() {
            assert(before[i].0 != before[j].0);
        } else {
            assert(before[i].0 != after.last().0);
        }
    }
}

impl Default for Config {
    /// A configuration without rules and without subtrees.
    fn default() -> (config: Config)
        ensures
            config@ == (ConfigModel { rules: Seq::empty(), cargo: None, subtree: None }),
            config@.keys_distinct(),
    {
        let config = Config { rules: Vec::new(), cargo: None, subtree: None };
        assert(config@.rules == Seq::<(Seq<char>, Rule)>::empty());
        config
    }
}

impl Config {
    /// Sets the rule of `key`, in place of one that it has.
    pub fn set_rule(&mut self, key: String, rule: Rule)
        requires
            old(self)@.keys_distinct(),
        ensures
            final(self)@.keys_distinct(),
            final(self)@.rules == put(old(self)@.rules, key@, rule),
            final(self)@.cargo == old(self)@.cargo,
            final(self)@.subtree == old(self)@.subtree,
    {
        let ghost before = self@;
        let ghost pair = |e: (String, Rule)| (e.0@, e.1);
        let mut at: usize = 0;
        while at < self.rules.len() && self.rules[at].0 != key
            invariant
                at <= self.rules@.len(),
                self@ == before,
                forall|j: int| 0 <= j < at ==> (#[trigger] before.rules[j]).0 != key@,
            decreases self.rules@.len() - at,
        {
            at = at + 1;
        }
        proof {
            lemma_position(before.rules, key@, at as int);
        }
        let ghost entry = (key, rule);
        if at < self.rules.len() {
            self.rules.set(at, (key, rule));
            assert(self@.rules == before.rules.update(at as int, pair(entry)));
            proof {
                lemma_update_distinct(before.rules, self@.rules);
            }
        } else {
            self.rules.push((key, rule));
            assert(self@.rules == before.rules.push(pair(entry)));
            proof {
                lemma_push_distinct(before.rules, self@.rules);
            }
        }
    }
}

/// The answer for a path is one: two answers that both fit are the same.
pub proof fn law_one_answer(
    rules: Seq<(Seq<char>, Rule)>,
    path: Seq<char>,
    a: Option<i32>,
    b: Option<i32>,
)
    requires
        nice_is(rules, path, a),
        nice_is(rules, path, b),
    ensures
        a == b,
{
    if a is Some {
        let i = choose|i: int| #[trigger]
            decides(rules, path, i) && rules[i].1.spec_nice() == a->0;
        assert(names(rules[i], path) || found_in(rules[i], path));
        if b is Some {
            let j = choose|j: int| #[trigger]
                decides(rules, path, j) && rules[j].1.spec_nice() == b->0;
            assert(names(rules[i], path) == names(rules[j], path));
            if i < j {
                assert(!names(rules[j], path) || !names(rules[i], path));
            } else if j < i {
                assert(!names(rules[i], path) || !names(rules[j], path));
            }
        }
    } else if b is Some {
        let j = choose|j: int| #[trigger]
            decides(rules, path, j) && rules[j].1.spec_nice() == b->0;
        assert(names(rules[j], path) || found_in(rules[j], path));
    }
}

/// An exact basename match wins over every substring match, in any rule form.
pub proof fn law_basename_beats_substring(config: ConfigModel, path: Seq<char>, i: int)
    requires
        config.keys_distinct(),
        0 <= i < config.rules.len(),
        config.rules[i].0 == basename_of(path),
    ensures
        nice_is(config.rules, path, Some(config.rules[i].1.spec_nice())),
{
    assert(decides(config.rules, path, i)) by {
        assert(names(config.rules[i], path));
        assert forall|j: int| 0 <= j < i implies !names(#[trigger] config.rules[j], path) by {
            assert(config.rules[j].0 != config.rules[i].0);
        }
    }
}

/// A rule that did not opt in matches its basename and nothing else: where no
/// rule opts in, a path has an answer exactly if its basename is a key.
pub proof fn law_shorthand_matches_basename_only(
    rules: Seq<(Seq<char>, Rule)>,
    path: Seq<char>,
    nice: Option<i32>,
)
    requires
        forall|i: int| 0 <= i < rules.len() ==> !(#[trigger] rules[i]).1.spec_substring(),
        nice_is(rules, path, nice),
    ensures
        nice is Some <==> exists|i: int|
            0 <= i < rules.len() && (#[trigger] rules[i]).0 == basename_of(path),
{
    if nice is Some {
        let i = choose|i: int| #[trigger]
            decides(rules, path, i) && rules[i].1.spec_nice() == nice->0;
        assert(!rules[i].1.spec_substring());
        assert(names(rules[i], path));
    } else {
        assert forall|i: int| 0 <= i < rules.len() implies (#[trigger] rules[i]).0 != basename_of(
            path,
        ) by {
            assert(!names(rules[i], path));
        }
    }
}

/// A rule that opted in matches wherever its key occurs in the path: such a
/// path always has an answer.
pub proof fn law_substring_matches_path(
    rules: Seq<(Seq<char>, Rule)>,
    path: Seq<char>,
    i: int,
    nice: Option<i32>,
)
    requires
        0 <= i < rules.len(),
        rules[i].1.spec_substring(),
        text::occurs_in(rules[i].0, path),
        nice_is(rules, path, nice),
    ensures
        nice is Some,
{
    assert(found_in(rules[i], path));
}

/// A rule that was set decides for every path with its basename.
pub proof fn law_set_rule_decides(
    config: ConfigModel,
    key: Seq<char>,
    rule: Rule,
    path: Seq<char>,
)
    requires
        config.keys_distinct(),
        basename_of(path) == key,
    ensures
        nice_is(put(config.rules, key, rule), path, Some(rule.spec_nice())),
{
    lemma_position_bounds(config.rules, key);
    let at = position(config.rules, key);
    let after = put(config.rules, key, rule);
    assert(decides(after, path, at)) by {
        assert(names(after[at], path));
        assert forall|j: int| 0 <= j < at implies !names(#[trigger] after[j], path) by {
            assert(config.rules[j].0 != key);
        }
    }
}

/// Setting a rule leaves the answer of a path whose basename is another key.
pub proof fn law_set_rule_leaves_other_keys(
    config: ConfigModel,
    key: Seq<char>,
    rule: Rule,
    path: Seq<char>,
    i: int,
)
    requires
        config.keys_distinct(),
        0 <= i < config.rules.len(),
        config.rules[i].0 == basename_of(path),
        basename_of(path) != key,
    ensures
        nice_is(put(config.rules, key, rule), path, Some(config.rules[i].1.spec_nice())),
{
    lemma_position_bounds(config.rules, key);
    let after = put(config.rules, key, rule);
    assert(after[i] == config.rules[i]);
    assert(decides(after, path, i)) by {
        assert(names(after[i], path));
        assert forall|j: int| 0 <= j < i implies !names(#[trigger] after[j], path) by {
            assert(config.rules[j].0 != config.rules[i].0);
        }
    }
}

proof fn lemma_position_bounds(rules: Seq<(Seq<char>, Rule)>, key: Seq<char>)
    ensures
        0 <= position(rules, key) <= rules.len(),
        forall|j: int| 0 <= j < position(rules, key) ==> (#[trigger] rules[j]).0 != key,
        position(rules, key) < rules.len() ==> rules[position(rules, key)].0 == key,
    decreases rules.len(),
{
    if rules.len() > 0 && rules[0].0 != key {
        let rest = rules.drop_first();
        lemma_position_bounds(rest, key);
        assert forall|j: int| 0 <= j < position(rules, key) implies (#[trigger] rules[j]).0
            != key by {
            if j > 0 {
                assert(rules[j] == rest[j - 1]);
            }
        }
    }
}

/// A basename holds no `/`, ends its path, and is its own basename.
pub proof fn law_basename(path: Seq<char>)
    ensures
        !basename_of(path).contains('/'),
        basename_of(path).is_suffix_of(path),
        basename_of(basename_of(path)) == basename_of(path),
{
    text::lemma_after_last(path, '/');
    let name = basename_of(path);
    let cut = text::after_last(path, '/');
    assert forall|i: int| 0 <= i < name.len() implies #[trigger] name[i] != '/' by {
        assert(name[i] == path[cut + i]);
    }
    text::lemma_after_last_absent(name, '/');
    assert(name == path.subrange(path.len() - name.len(), path.len() as int));
}

/// The basename of a name in a directory is that name.
pub proof fn law_basename_in_directory(directory: Seq<char>, name: Seq<char>)
    requires
        !name.contains('/'),
    ensures
        basename_of(directory + seq!['/'] + name) == name,
        basename_of(name) == name,
{
    let path = directory + seq!['/'] + name;
    assert forall|i: int| 0 <= i < name.len() implies #[trigger] name[i] != '/' by {
        assert(name.contains(name[i]));
    }
    text::lemma_after_last_is(path, '/', directory.len() as int + 1);
    text::lemma_after_last_absent(name, '/');
    assert(basename_of(path) == name);
    assert(basename_of(name) == name);
}

/// The rule whose key is the basename decides, the first if there were several, and
/// gives its own nice value, be it in shorthand or table form.
pub proof fn law_key_that_is_the_basename_decides(
    rules: Seq<(Seq<char>, Rule)>,
    path: Seq<char>,
    nice: Option<i32>,
    i: int,
)
    requires
        nice_is(rules, path, nice),
        0 <= i < rules.len(),
        rules[i].0 == basename_of(path),
        forall|j: int| 0 <= j < i ==> (#[trigger] rules[j]).0 != basename_of(path),
    ensures
        nice == Some(
            match rules[i].1 {
                Rule::Nice(n) => n,
                Rule::Table { nice, .. } => nice,
            },
        ),
{
    assert(names(rules[i], path));
    assert forall|j: int| 0 <= j < i implies !names(#[trigger] rules[j], path) by {
        assert(rules[j].0 != basename_of(path));
    }
    assert(decides(rules, path, i));
    law_one_answer(rules, path, nice, Some(rules[i].1.spec_nice()));
}

/// Where no key is the basename, the first table with `substring = true` whose key
/// stands in the path decides, wherever in the path that is.
pub proof fn law_first_substring_decides(
    rules: Seq<(Seq<char>, Rule)>,
    path: Seq<char>,
    answer: Option<i32>,
    i: int,
    nice: i32,
    before: Seq<char>,
    after: Seq<char>,
)
    requires
        nice_is(rules, path, answer),
        forall|j: int| 0 <= j < rules.len() ==> (#[trigger] rules[j]).0 != basename_of(path),
        0 <= i < rules.len(),
        rules[i].1 == (Rule::Table { nice, substring: true }),
        path == before + rules[i].0 + after,
        forall|j: int|
            0 <= j < i ==> ((#[trigger] rules[j]).1 matches Rule::Table { substring: true, .. }
                ==> !text::occurs_in(rules[j].0, path)),
    ensures
        answer == Some(nice),
{
    text::law_occurs_in(before, rules[i].0, after);
    assert(found_in(rules[i], path));
    assert forall|j: int| 0 <= j < rules.len() implies !names(#[trigger] rules[j], path) by {
        assert(rules[j].0 != basename_of(path));
    }
    assert(decides(rules, path, i));
    law_one_answer(rules, path, answer, Some(nice));
}

/// Where no key is the basename and no table with `substring = true` has a key that
/// stands in the path, there is no answer.
pub proof fn law_no_match_no_answer(
    rules: Seq<(Seq<char>, Rule)>,
    path: Seq<char>,
    answer: Option<i32>,
)
    requires
        nice_is(rules, path, answer),
        forall|j: int| 0 <= j < rules.len() ==> (#[trigger] rules[j]).0 != basename_of(path),
        forall|j: int|
            0 <= j < rules.len() ==> ((#[trigger] rules[j]).1 matches Rule::Table {
                substring: true,
                ..
            } ==> !text::occurs_in(rules[j].0, path)),
    ensures
        answer is None,
{
    if answer is Some {
        let i = choose|i: int| #[trigger]
            decides(rules, path, i) && rules[i].1.spec_nice() == answer->0;
        assert(rules[i].0 != basename_of(path));
        assert(found_in(rules[i], path));
    }
}

/// A rule is the nice value and the flag that it was written with; the shorthand
/// has no flag.
pub proof fn law_rule_is_as_written(nice: i32, substring: bool)
    ensures
        Rule::Nice(nice).spec_nice() == nice,
        !Rule::Nice(nice).spec_substring(),
        (Rule::Table { nice, substring }).spec_nice() == nice,
        (Rule::Table { nice, substring }).spec_substring() == substring,
{
}

/// A configuration says what its fields hold: every rule under its key and in its
/// place, and the two sections.
pub proof fn law_config_says_its_fields(config: Config, i: int)
    ensures
        config@.rules.len() == config.rules@.len(),
        0 <= i < config.rules@.len() ==> config@.rules[i].0 == config.rules@[i].0@
            && config@.rules[i].1 == config.rules@[i].1,
        config@.cargo == config.cargo,
        config@.subtree is Some <==> config.subtree is Some,
        config.subtree matches Some(s) ==> {
            &&& config@.subtree->0.nice == s.nice
            &&& config@.subtree->0.roots.len() == s.roots@.len()
            &&& 0 <= i < s.roots@.len() ==> config@.subtree->0.roots[i] == s.roots@[i]@
        },
        config.cargo matches Some(c) ==> config@.cargo_subtree() == Some(
            SubtreeModel { nice: c.nice, roots: seq!["cargo"@] },
        ),
        config.cargo is None ==> config@.cargo_subtree() is None,
{
}

/// Setting a rule puts it in the place of the one with that key, or else at the end,
/// and leaves every other rule where it is.
pub proof fn law_set_rule(config: ConfigModel, key: Seq<char>, rule: Rule, i: int)
    requires
        config.keys_distinct(),
        0 <= i < config.rules.len(),
    ensures
        put(config.rules, key, rule)[i] == if config.rules[i].0 == key {
            (key, rule)
        } else {
            config.rules[i]
        },
        config.rules[i].0 == key ==> put(config.rules, key, rule).len() == config.rules.len(),
        (forall|j: int| 0 <= j < config.rules.len() ==> (#[trigger] config.rules[j]).0 != key)
            ==> put(config.rules, key, rule) == config.rules.push((key, rule)),
{
    lemma_position_bounds(config.rules, key);
    let at = position(config.rules, key);
    if at < config.rules.len() && config.rules[i].0 == key && at != i {
        if at < i {
            assert(config.rules[at].0 != config.rules[i].0);
        } else {
            assert(config.rules[i].0 != config.rules[at].0);
        }
    }
}

/// The first rule of all is set alone.
pub proof fn law_set_first_rule(key: Seq<char>, rule: Rule)
    ensures
        put(Seq::empty(), key, rule) == seq![(key, rule)],
{
    assert(put(Seq::empty(), key, rule) =~= seq![(key, rule)]);
}

} // verus!
