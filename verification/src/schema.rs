//! How a configuration text says a [`Config`]: the sections and forms that
//! have a meaning, and which of several texts is taken.

use vstd::prelude::*;

use crate::config::{CargoConfig, Config, Rule, SubtreeConfig};
use crate::document;
use crate::document::{Item, ItemModel};

verus! {

/// A setting that a document writes in a form that has no meaning.
#[derive(Clone, Copy, Debug, PartialEq, Eq, Structural)]
pub enum Fault {
    /// The document is not a table.
    Document,
    /// `rules` is not a table of rules.
    Rules,
    /// `cargo` holds no nice value.
    Cargo,
}

/// The nice value that an item writes: an integer of 32 bits.
pub open spec fn nice_of(item: ItemModel) -> Option<i32> {
    match item {
        ItemModel::Integer(n) => if i32::MIN <= n <= i32::MAX {
            Some(n as i32)
        } else {
            None
        },
        _ => None,
    }
}

/// The nice value under the key `nice` of a table.
pub open spec fn nice_field(entries: Seq<(Seq<char>, ItemModel)>) -> Option<i32> {
    match document::field(entries, "nice"@) {
        Some(item) => nice_of(item),
        None => None,
    }
}

/// The flag under the key `substring` of a table; off where it is missing.
pub open spec fn substring_field(entries: Seq<(Seq<char>, ItemModel)>) -> Option<bool> {
    match document::field(entries, "substring"@) {
        None => Some(false),
        Some(ItemModel::Boolean(b)) => Some(b),
        Some(_) => None,
    }
}

/// The rule that an item writes, in shorthand or table form.
pub open spec fn rule_of(item: ItemModel) -> Option<Rule> {
    match item {
        ItemModel::Table(entries) => match (nice_field(entries), substring_field(entries)) {
            (Some(nice), Some(substring)) => Some(Rule::Table { nice, substring }),
            _ => None,
        },
        _ => match nice_of(item) {
            Some(n) => Some(Rule::Nice(n)),
            None => None,
        },
    }
}

/// The rules that the entries of a table write, each set in turn.
pub open spec fn rules_of(entries: Seq<(Seq<char>, ItemModel)>) -> Option<Seq<(Seq<char>, Rule)>>
    decreases entries.len(),
{
    if entries.len() == 0 {
        Some(Seq::empty())
    } else {
        match (rules_of(entries.drop_last()), rule_of(entries.last().1)) {
            (Some(rules), Some(rule)) => Some(crate::config::put(rules, entries.last().0, rule)),
            _ => None,
        }
    }
}

/// The texts of an array that holds nothing else.
pub open spec fn texts_of(items: Seq<ItemModel>) -> Option<Seq<Seq<char>>>
    decreases items.len(),
{
    if items.len() == 0 {
        Some(Seq::empty())
    } else {
        match (texts_of(items.drop_last()), items.last()) {
            (Some(texts), ItemModel::Text(t)) => Some(texts.push(t)),
            _ => None,
        }
    }
}

/// The roots under the key `roots` of a table.
pub open spec fn roots_field(entries: Seq<(Seq<char>, ItemModel)>) -> Option<Seq<Seq<char>>> {
    match document::field(entries, "roots"@) {
        Some(ItemModel::Array(items)) => texts_of(items),
        _ => None,
    }
}

/// What a `[subtree]` section says: its roots, and their nice value.
pub open spec fn subtree_of(item: ItemModel) -> Option<crate::config::SubtreeModel> {
    match item {
        ItemModel::Table(entries) => match (nice_field(entries), roots_field(entries)) {
            (Some(nice), Some(roots)) => Some(crate::config::SubtreeModel { nice, roots }),
            _ => None,
        },
        _ => None,
    }
}

/// What a `[cargo]` section says: the nice value of the subtree of `cargo`, in
/// a table or as the first element of an array.
pub open spec fn cargo_of(item: ItemModel) -> Option<CargoConfig> {
    let nice = match item {
        ItemModel::Table(entries) => nice_field(entries),
        ItemModel::Array(items) => if items.len() > 0 {
            nice_of(items[0])
        } else {
            None
        },
        _ => None,
    };
    match nice {
        Some(nice) => Some(CargoConfig { nice }),
        None => None,
    }
}

/// The rules of a document; none where it has no `[rules]`.
pub open spec fn document_rules(
    entries: Seq<(Seq<char>, ItemModel)>,
) -> Option<Seq<(Seq<char>, Rule)>> {
    match document::field(entries, "rules"@) {
        None => Some(Seq::empty()),
        Some(ItemModel::Table(rules)) => rules_of(rules),
        Some(_) => None,
    }
}

/// The `[cargo]` section of a document, if it has one.
pub open spec fn document_cargo(
    entries: Seq<(Seq<char>, ItemModel)>,
) -> Result<Option<CargoConfig>, Fault> {
    match document::field(entries, "cargo"@) {
        Some(item) => match cargo_of(item) {
            Some(c) => Ok(Some(c)),
            None => Err(Fault::Cargo),
        },
        None => Ok(None),
    }
}

/// The `[subtree]` section of a document, if it has one. A value under that key
/// that is no such section is a key without a meaning.
pub open spec fn document_subtree(
    entries: Seq<(Seq<char>, ItemModel)>,
) -> Option<crate::config::SubtreeModel> {
    match document::field(entries, "subtree"@) {
        Some(item) => subtree_of(item),
        None => None,
    }
}

/// The configuration that a document writes. Keys without a meaning are ignored.
pub open spec fn config_of(document: ItemModel) -> Result<crate::config::ConfigModel, Fault> {
    match document {
        ItemModel::Table(entries) => match document_rules(entries) {
            None => Err(Fault::Rules),
            Some(rules) => match document_cargo(entries) {
                Err(fault) => Err(fault),
                Ok(cargo) => Ok(
                    crate::config::ConfigModel { rules, cargo, subtree: document_subtree(entries) },
                ),
            },
        },
        _ => Err(Fault::Document),
    }
}

/// Reads a nice value.
fn read_nice(item: &Item) -> (nice: Option<i32>)
    ensures
        nice == nice_of(item@),
{
    match item {
        Item::Integer(n) => {
            if -0x8000_0000 <= *n && *n <= 0x7fff_ffff {
                Some(*n as i32)
            } else {
                None
            }
        },
        _ => None,
    }
}

/// Reads the nice value of a table.
fn read_nice_field(entries: &Vec<(String, Item)>) -> (nice: Option<i32>)
    ensures
        nice == nice_field(document::table(entries@)),
{
    match document::get_field(entries, "nice") {
        Some(item) => read_nice(item),
        None => None,
    }
}

/// Reads a rule.
fn read_rule(item: &Item) -> (rule: Option<Rule>)
    ensures
        rule == rule_of(item@),
{
    match item {
        Item::Table(entries) => {
            proof {
                document::lemma_table(*entries);
            }
            let substring = match document::get_field(entries, "substring") {
                None => false,
                Some(Item::Boolean(b)) => *b,
                Some(_) => {
                    return None;
                },
            };
            match read_nice_field(entries) {
                Some(nice) => Some(Rule::Table { nice, substring }),
                None => None,
            }
        },
        _ => match read_nice(item) {
            Some(n) => Some(Rule::Nice(n)),
            None => None,
        },
    }
}

/// Reads the texts of an array.
fn read_texts(items: &Vec<Item>) -> (texts: Option<Vec<String>>)
    ensures
        match texts {
            Some(t) => texts_of(document::elements(items@)) == Some(t@.map_values(|s: String| s@)),
            None => texts_of(document::elements(items@)) is None,
        },
{
    let mut texts: Vec<String> = Vec::new();
    let mut at: usize = 0;
    let ghost view = |s: String| s@;
    let ghost model = document::elements(items@);
    assert(texts@.map_values(view) == Seq::<Seq<char>>::empty());
    while at < items.len()
        invariant
            at <= items@.len(),
            view == (|s: String| s@),
            model == document::elements(items@),
            texts_of(model.take(at as int)) == Some(texts@.map_values(view)),
        decreases items@.len() - at,
    {
        let ghost longer = model.take(at + 1);
        assert(longer.drop_last() == model.take(at as int) && longer.last() == items@[at as int]@);
        match &items[at] {
            Item::Text(t) => {
                let ghost before = texts@;
                texts.push(t.clone());
                assert(texts@.map_values(view) == before.map_values(view).push(t@));
            },
            _ => {
                proof {
                    lemma_texts_fail(model, at + 1);
                }
                return None;
            },
        }
        at = at + 1;
    }
    assert(model.take(at as int) == model);
    Some(texts)
}

proof fn lemma_texts_fail(items: Seq<ItemModel>, n: int)
    requires
        0 <= n <= items.len(),
        texts_of(items.take(n)) is None,
    ensures
        texts_of(items) is None,
    decreases items.len(),
{
    if n < items.len() {
        assert(items.drop_last().take(n) == items.take(n));
        lemma_texts_fail(items.drop_last(), n);
    } else {
        assert(items.take(n) == items);
    }
}

proof fn lemma_rules_fail(entries: Seq<(Seq<char>, ItemModel)>, n: int)
    requires
        0 <= n <= entries.len(),
        rules_of(entries.take(n)) is None,
    ensures
        rules_of(entries) is None,
    decreases entries.len(),
{
    if n < entries.len() {
        assert(entries.drop_last().take(n) == entries.take(n));
        lemma_rules_fail(entries.drop_last(), n);
    } else {
        assert(entries.take(n) == entries);
    }
}

/// Reads a `[subtree]` section.
fn read_subtree(item: &Item) -> (subtree: Option<SubtreeConfig>)
    ensures
        match subtree {
            Some(c) => subtree_of(item@) == Some(c@),
            None => subtree_of(item@) is None,
        },
{
    match item {
        Item::Table(entries) => {
            proof {
                document::lemma_table(*entries);
            }
            let nice = match read_nice_field(entries) {
                Some(n) => n,
                None => {
                    return None;
                },
            };
            let roots = match document::get_field(entries, "roots") {
                Some(Item::Array(items)) => {
                    proof {
                        document::lemma_array(*items);
                    }
                    read_texts(items)
                },
                _ => None,
            };
            match roots {
                Some(roots) => Some(SubtreeConfig { nice, roots }),
                None => None,
            }
        },
        _ => None,
    }
}

/// Reads a `[cargo]` section.
fn read_cargo(item: &Item) -> (cargo: Option<CargoConfig>)
    ensures
        cargo == cargo_of(item@),
{
    let nice = match item {
        Item::Table(entries) => {
            proof {
                document::lemma_table(*entries);
            }
            read_nice_field(entries)
        },
        Item::Array(items) => {
            proof {
                document::lemma_array(*items);
            }
            if items.len() > 0 {
                read_nice(&items[0])
            } else {
                None
            }
        },
        _ => None,
    };
    match nice {
        Some(nice) => Some(CargoConfig { nice }),
        None => None,
    }
}

impl Config {
    /// Reads the configuration that a document writes.
    pub fn from_document(document: &Item) -> (config: Result<Config, Fault>)
        ensures
            match config {
                Ok(c) => config_of(document@) == Ok::<crate::config::ConfigModel, Fault>(c@)
                    && c@.keys_distinct(),
                Err(fault) => config_of(document@) == Err::<crate::config::ConfigModel, Fault>(fault),
            },
    {
        let entries = match document {
            Item::Table(entries) => entries,
            _ => {
                return Err(Fault::Document);
            },
        };
        proof {
            document::lemma_table(*entries);
        }
        let mut config = Config::default();
        match document::get_field(entries, "rules") {
            None => {},
            Some(Item::Table(rules)) => {
                let ghost model = document::table(rules@);
                proof {
                    document::lemma_table(*rules);
                }
                let mut at: usize = 0;
                while at < rules.len()
                    invariant
                        at <= rules@.len(),
                        model == document::table(rules@),
                        document@ == ItemModel::Table(document::table(entries@)),
                        document::field(document::table(entries@), "rules"@) == Some(
                            ItemModel::Table(model),
                        ),
                        config@.keys_distinct(),
                        rules_of(model.take(at as int)) == Some(config@.rules),
                    decreases rules@.len() - at,
                {
                    let ghost longer = model.take(at + 1);
                    assert(longer.drop_last() == model.take(at as int) && longer.last() == model[at as int]);
                    match read_rule(&rules[at].1) {
                        Some(rule) => config.set_rule(rules[at].0.clone(), rule),
                        None => {
                            proof {
                                lemma_rules_fail(model, at + 1);
                            }
                            return Err(Fault::Rules);
                        },
                    }
                    at = at + 1;
                }
                assert(model.take(at as int) == model);
            },
            Some(_) => {
                return Err(Fault::Rules);
            },
        }
        let cargo = match document::get_field(entries, "cargo") {
            Some(item) => match read_cargo(item) {
                Some(c) => Some(c),
                None => {
                    return Err(Fault::Cargo);
                },
            },
            None => None,
        };
        let subtree = match document::get_field(entries, "subtree") {
            Some(item) => read_subtree(item),
            None => None,
        };
        let ghost rules = config@.rules;
        config.cargo = cargo;
        config.subtree = subtree;
        assert(config@.rules == rules);
        Ok(config)
    }
}

/// The starter config. Used three ways: written by `autonice install`, printed
/// by `autonice default`, and parsed as the runtime fallback when no config
/// file is found on disk.
pub const DEFAULT_CONFIG: &'static str = "[cargo]
nice = 19                    # cargo + its whole build subtree

[subtree]
nice = 19                    # each root + its whole build subtree
roots = [\"make\"]             # make, and everything it spawns

[rules]
dd = 19                                 # <basename> = <nice>; matches basename only
ffmpeg = { nice = 15, substring = true } # also matches any path substring
# pipewire = -10                        # negative nice needs CAP_SYS_NICE
";

/// Why a text is not a configuration.
#[derive(Debug)]
pub enum ConfigError {
    /// It is not TOML.
    Syntax(toml_edit::TomlError),
    /// It is TOML, and a setting in it has no meaning.
    Setting(Fault),
}

/// The configuration that a text writes; `None` where it writes none.
pub open spec fn parsed_config(text: Seq<char>) -> Option<crate::config::ConfigModel> {
    match document::document_of(text) {
        Ok(item) => match config_of(item) {
            Ok(config) => Some(config),
            Err(_) => None,
        },
        Err(_) => None,
    }
}

/// Whether `error` is why `text` is not a configuration.
pub open spec fn explains(error: ConfigError, text: Seq<char>) -> bool {
    match error {
        ConfigError::Syntax(e) => document::document_of(text) == Err::<
            ItemModel,
            toml_edit::TomlError,
        >(e),
        ConfigError::Setting(fault) => document::document_of(text) matches Ok(item) && config_of(
            item,
        ) == Err::<crate::config::ConfigModel, Fault>(fault),
    }
}

impl Config {
    /// Reads a configuration text.
    pub fn parse(text: &str) -> (config: Result<Config, ConfigError>)
        ensures
            match config {
                Ok(c) => parsed_config(text@) == Some(c@) && c@.keys_distinct(),
                Err(e) => parsed_config(text@) is None && explains(e, text@),
            },
    {
        match document::read_document(text) {
            Ok(item) => match Config::from_document(&item) {
                Ok(config) => Ok(config),
                Err(fault) => Err(ConfigError::Setting(fault)),
            },
            Err(e) => Err(ConfigError::Syntax(e)),
        }
    }
}

/// Where configuration is looked for, in order.
pub fn config_paths() -> (paths: Vec<String>)
    ensures
        paths@.map_values(|p: String| p@) == seq!["autonice.toml"@, "/etc/autonice.toml"@],
{
    let mut paths: Vec<String> = Vec::new();
    paths.push("autonice.toml".to_owned());
    paths.push("/etc/autonice.toml".to_owned());
    assert(paths@.map_values(|p: String| p@) == seq!["autonice.toml"@, "/etc/autonice.toml"@]);
    paths
}

/// A configuration, and how it was come by.
pub struct Loaded {
    pub config: Config,
    /// Which text it is from; `None` for the built-in default.
    pub source: Option<usize>,
    /// The texts before it that are not a configuration, and why.
    pub rejected: Vec<(usize, ConfigError)>,
}

/// Whether there is a text and it is a configuration.
pub open spec fn usable(text: Option<String>) -> bool {
    text matches Some(t) && parsed_config(t@) is Some
}

/// The first text that is a configuration; their number where none is.
pub open spec fn first_usable(texts: Seq<Option<String>>) -> int
    decreases texts.len(),
{
    if texts.len() == 0 {
        0
    } else if usable(texts[0]) {
        0
    } else {
        1 + first_usable(texts.drop_first())
    }
}

/// The texts that are there and are not a configuration, in order.
pub open spec fn unusable(texts: Seq<Option<String>>) -> Seq<usize>
    decreases texts.len(),
{
    if texts.len() == 0 {
        Seq::empty()
    } else if texts.last() is Some && !usable(texts.last()) {
        unusable(texts.drop_last()).push((texts.len() - 1) as usize)
    } else {
        unusable(texts.drop_last())
    }
}

/// Whether `loaded` is what the `texts` make: the first that is a
/// configuration, or else the built-in default.
pub open spec fn loads(texts: Seq<Option<String>>, loaded: Loaded) -> bool {
    let k = first_usable(texts);
    &&& if k < texts.len() {
        loaded.source == Some(k as usize) && parsed_config(texts[k]->0@) == Some(loaded.config@)
    } else {
        loaded.source is None && parsed_config(DEFAULT_CONFIG@) == Some(loaded.config@)
    }
    &&& loaded.rejected@.map_values(|r: (usize, ConfigError)| r.0) == unusable(texts.take(k))
    &&& forall|i: int|
        0 <= i < loaded.rejected@.len() ==> explains(
            (#[trigger] loaded.rejected@[i]).1,
            texts[loaded.rejected@[i].0 as int]->0@,
        )
}

proof fn lemma_first_usable_is(texts: Seq<Option<String>>, n: int)
    requires
        0 <= n <= texts.len(),
        forall|i: int| 0 <= i < n ==> !usable(#[trigger] texts[i]),
        n < texts.len() ==> usable(texts[n]),
    ensures
        first_usable(texts) == n,
    decreases texts.len(),
{
    if texts.len() > 0 && n > 0 {
        assert(!usable(texts[0]));
        let rest = texts.drop_first();
        assert forall|i: int| 0 <= i < n - 1 implies !usable(#[trigger] rest[i]) by {
            assert(rest[i] == texts[i + 1]);
        }
        lemma_first_usable_is(rest, n - 1);
    }
}

/// Picks the configuration from the texts that were read, `None` standing for a
/// file that could not be: the first that is a configuration, or else the
/// built-in default. `None` only if the default is itself not one.
pub fn load_config(texts: &Vec<Option<String>>) -> (loaded: Option<Loaded>)
    ensures
        match loaded {
            Some(l) => loads(texts@, l) && l.config@.keys_distinct(),
            None => first_usable(texts@) == texts@.len() && parsed_config(DEFAULT_CONFIG@) is None,
        },
{
    let mut rejected: Vec<(usize, ConfigError)> = Vec::new();
    let ghost which = |r: (usize, ConfigError)| r.0;
    let mut at: usize = 0;
    assert(rejected@.map_values(which) == Seq::<usize>::empty());
    while at < texts.len()
        invariant
            at <= texts@.len(),
            which == (|r: (usize, ConfigError)| r.0),
            forall|i: int| 0 <= i < at ==> !usable(#[trigger] texts@[i]),
            rejected@.map_values(which) == unusable(texts@.take(at as int)),
            forall|i: int|
                0 <= i < rejected@.len() ==> explains(
                    (#[trigger] rejected@[i]).1,
                    texts@[rejected@[i].0 as int]->0@,
                ),
        decreases texts@.len() - at,
    {
        let ghost longer = texts@.take(at + 1);
        assert(longer.drop_last() == texts@.take(at as int) && longer.last()
            == texts@[at as int]);
        match &texts[at] {
            Some(text) => {
                match Config::parse(text.as_str()) {
                    Ok(config) => {
                        proof {
                            lemma_first_usable_is(texts@, at as int);
                        }
                        return Some(Loaded { config, source: Some(at), rejected });
                    },
                    Err(e) => {
                        let ghost before = rejected@;
                        rejected.push((at, e));
                        assert(rejected@.map_values(which) == before.map_values(which).push(at));
                    },
                }
            },
            None => {},
        }
        at = at + 1;
    }
    proof {
        lemma_first_usable_is(texts@, at as int);
    }
    match Config::parse(DEFAULT_CONFIG) {
        Ok(config) => Some(Loaded { config, source: None, rejected }),
        Err(_) => None,
    }
}

/// A `[cargo]` section starts the subtree that a `[subtree]` section with that
/// nice value and the one root `cargo` starts.
pub proof fn law_cargo_section_is_a_subtree(
    config: crate::config::ConfigModel,
    cargo: Seq<(Seq<char>, ItemModel)>,
    subtree: Seq<(Seq<char>, ItemModel)>,
)
    requires
        config.cargo == cargo_of(ItemModel::Table(cargo)),
        nice_field(subtree) == nice_field(cargo),
        roots_field(subtree) == Some(seq!["cargo"@]),
    ensures
        config.cargo_subtree() == subtree_of(ItemModel::Table(subtree)),
{
}

/// Neither of the sections `[cargo]` and `[subtree]` changes what the other says.
pub proof fn law_sections_are_independent(
    entries: Seq<(Seq<char>, ItemModel)>,
    config: crate::config::ConfigModel,
)
    requires
        config_of(ItemModel::Table(entries)) == Ok::<crate::config::ConfigModel, Fault>(config),
    ensures
        config.cargo == match document::field(entries, "cargo"@) {
            Some(item) => cargo_of(item),
            None => None,
        },
        config.subtree == match document::field(entries, "subtree"@) {
            Some(item) => subtree_of(item),
            None => None,
        },
{
}

/// The table form without `substring` says what the shorthand says: that nice
/// value, for the basename only.
pub proof fn law_table_form_defaults_to_shorthand(entries: Seq<(Seq<char>, ItemModel)>, nice: i32)
    requires
        nice_field(entries) == Some(nice),
        document::field(entries, "substring"@) is None,
    ensures
        rule_of(ItemModel::Integer(nice as i64)) == Some(Rule::Nice(nice)),
        rule_of(ItemModel::Table(entries)) matches Some(rule) && rule.spec_nice() == nice
            && !rule.spec_substring(),
{
}

/// A `subtree` that is no such section changes nothing: the document says what it
/// says without that key.
pub proof fn law_malformed_subtree_is_ignored(
    entries: Seq<(Seq<char>, ItemModel)>,
    without: Seq<(Seq<char>, ItemModel)>,
)
    requires
        document::field(entries, "subtree"@) matches Some(item) && subtree_of(item) is None,
        document::field(without, "subtree"@) is None,
        document::field(entries, "rules"@) == document::field(without, "rules"@),
        document::field(entries, "cargo"@) == document::field(without, "cargo"@),
    ensures
        config_of(ItemModel::Table(entries)) == config_of(ItemModel::Table(without)),
{
}

/// Keys other than `rules`, `subtree` and `cargo` change nothing.
pub proof fn law_other_keys_are_ignored(
    a: Seq<(Seq<char>, ItemModel)>,
    b: Seq<(Seq<char>, ItemModel)>,
)
    requires
        document::field(a, "rules"@) == document::field(b, "rules"@),
        document::field(a, "subtree"@) == document::field(b, "subtree"@),
        document::field(a, "cargo"@) == document::field(b, "cargo"@),
    ensures
        config_of(ItemModel::Table(a)) == config_of(ItemModel::Table(b)),
{
}

/// Without any file the built-in default is used.
pub proof fn law_no_file_means_default(texts: Seq<Option<String>>, loaded: Loaded)
    requires
        forall|i: int| 0 <= i < texts.len() ==> (#[trigger] texts[i]) is None,
        loads(texts, loaded),
    ensures
        loaded.source is None,
        parsed_config(DEFAULT_CONFIG@) == Some(loaded.config@),
{
    lemma_first_usable_bounds(texts);
}

/// A text that is a configuration is taken before every later one.
pub proof fn law_earlier_text_wins(texts: Seq<Option<String>>, loaded: Loaded, k: int)
    requires
        0 <= k < texts.len() <= usize::MAX,
        usable(texts[k]),
        loads(texts, loaded),
    ensures
        loaded.source is Some,
        loaded.source->0 <= k,
        usable(texts[loaded.source->0 as int]),
{
    lemma_first_usable_bounds(texts);
}

/// Later texts do not matter once one is a configuration: what the first ones
/// make, all of them make.
pub proof fn law_later_texts_do_not_matter(
    texts: Seq<Option<String>>,
    n: int,
    loaded: Loaded,
)
    requires
        0 <= n <= texts.len() <= usize::MAX,
        loads(texts.take(n), loaded),
        loaded.source is Some,
    ensures
        loads(texts, loaded),
{
    let first = texts.take(n);
    lemma_first_usable_bounds(first);
    let k = first_usable(first);
    assert forall|i: int| 0 <= i < k implies !usable(#[trigger] texts[i]) by {
        assert(first[i] == texts[i]);
    }
    assert(first[k] == texts[k]);
    lemma_first_usable_is(texts, k);
    assert(first.take(k) == texts.take(k));
    lemma_unusable_bounds(texts.take(k));
    assert forall|i: int| 0 <= i < loaded.rejected@.len() implies explains(
        (#[trigger] loaded.rejected@[i]).1,
        texts[loaded.rejected@[i].0 as int]->0@,
    ) by {
        assert(loaded.rejected@.map_values(|r: (usize, ConfigError)| r.0)[i]
            == loaded.rejected@[i].0);
        assert(first[loaded.rejected@[i].0 as int] == texts[loaded.rejected@[i].0 as int]);
    }
}

proof fn lemma_unusable_bounds(texts: Seq<Option<String>>)
    requires
        texts.len() <= usize::MAX,
    ensures
        forall|i: int| 0 <= i < unusable(texts).len() ==> #[trigger] unusable(texts)[i] < texts.len(),
    decreases texts.len(),
{
    if texts.len() > 0 {
        let before = unusable(texts.drop_last());
        lemma_unusable_bounds(texts.drop_last());
        assert forall|i: int| 0 <= i < unusable(texts).len() implies #[trigger] unusable(texts)[i]
            < texts.len() by {
            if i < before.len() {
                assert(unusable(texts)[i] == before[i]);
            }
        }
    }
}

proof fn lemma_first_usable_bounds(texts: Seq<Option<String>>)
    ensures
        0 <= first_usable(texts) <= texts.len(),
        forall|i: int| 0 <= i < first_usable(texts) ==> !usable(#[trigger] texts[i]),
        first_usable(texts) < texts.len() ==> usable(texts[first_usable(texts)]),
    decreases texts.len(),
{
    if texts.len() > 0 && !usable(texts[0]) {
        let rest = texts.drop_first();
        lemma_first_usable_bounds(rest);
        assert forall|i: int| 0 <= i < first_usable(texts) implies !usable(#[trigger] texts[i]) by {
            if i > 0 {
                assert(texts[i] == rest[i - 1]);
            }
        }
    }
}

/// A rule in table form holds the nice value and the flag that stand in the table; a
/// missing flag is off. A nice value that is missing, no integer or not of 32 bits,
/// and a flag that is no boolean, make no rule.
pub proof fn law_rule_table(entries: Seq<(Seq<char>, ItemModel)>, n: i64, b: bool)
    ensures
        document::field(entries, "nice"@) == Some(ItemModel::Integer(n)) && -0x8000_0000 <= n
            <= 0x7fff_ffff && document::field(entries, "substring"@) == Some(
            ItemModel::Boolean(b),
        ) ==> rule_of(ItemModel::Table(entries)) == Some(
            Rule::Table { nice: n as i32, substring: b },
        ),
        document::field(entries, "nice"@) == Some(ItemModel::Integer(n)) && -0x8000_0000 <= n
            <= 0x7fff_ffff && document::field(entries, "substring"@) is None ==> rule_of(
            ItemModel::Table(entries),
        ) == Some(Rule::Table { nice: n as i32, substring: false }),
        document::field(entries, "nice"@) == Some(ItemModel::Integer(n)) && !(-0x8000_0000 <= n
            <= 0x7fff_ffff) ==> rule_of(ItemModel::Table(entries)) is None,
        !(document::field(entries, "nice"@) matches Some(ItemModel::Integer(_))) ==> rule_of(
            ItemModel::Table(entries),
        ) is None,
        document::field(entries, "substring"@) matches Some(item) ==> !(item is Boolean)
            ==> rule_of(ItemModel::Table(entries)) is None,
{
}

/// The flag of a table is the flag of its rule, and its nice value the rule's.
pub proof fn law_substring_is_what_the_table_holds(
    entries: Seq<(Seq<char>, ItemModel)>,
    nice: i32,
    b: bool,
)
    requires
        nice_field(entries) == Some(nice),
        document::field(entries, "substring"@) == Some(ItemModel::Boolean(b)),
    ensures
        rule_of(ItemModel::Table(entries)) matches Some(rule) && rule.spec_nice() == nice
            && rule.spec_substring() == b,
{
}

/// The shorthand is an integer of 32 bits, which is the nice value; nothing else but
/// a table makes a rule.
pub proof fn law_rule_shorthand(item: ItemModel, n: i64)
    ensures
        -0x8000_0000 <= n <= 0x7fff_ffff ==> rule_of(ItemModel::Integer(n)) == Some(
            Rule::Nice(n as i32),
        ),
        !(-0x8000_0000 <= n <= 0x7fff_ffff) ==> rule_of(ItemModel::Integer(n)) is None,
        !(item is Integer) && !(item is Table) ==> rule_of(item) is None,
{
}

/// The rules of a table: one for each of its entries, under its key and in its place;
/// and none at all where an entry is not a rule.
pub proof fn law_one_rule_for_each_entry(entries: Seq<(Seq<char>, ItemModel)>)
    requires
        forall|i: int, j: int|
            0 <= i < j < entries.len() ==> #[trigger] entries[i].0 != #[trigger] entries[j].0,
    ensures
        rules_of(entries) is Some <==> forall|i: int|
            0 <= i < entries.len() ==> rule_of((#[trigger] entries[i]).1) is Some,
        rules_of(entries) matches Some(rules) ==> rules.len() == entries.len() && forall|i: int|
            0 <= i < entries.len() ==> (#[trigger] rules[i]).0 == entries[i].0 && Some(rules[i].1)
                == rule_of(entries[i].1),
    decreases entries.len(),
{
    if entries.len() > 0 {
        let past = entries.drop_last();
        assert(forall|i: int| 0 <= i < past.len() ==> #[trigger] past[i] == entries[i]);
        law_one_rule_for_each_entry(past);
        if rules_of(past) is Some && rule_of(entries.last().1) is Some {
            let before = rules_of(past)->0;
            let key = entries.last().0;
            assert forall|j: int| 0 <= j < before.len() implies (#[trigger] before[j]).0 != key by {
                assert(before[j].0 == past[j].0);
                assert(entries[j].0 != entries[entries.len() - 1].0);
            }
            crate::config::lemma_position(before, key, before.len() as int);
            assert forall|i: int| 0 <= i < entries.len() implies rule_of(
                (#[trigger] entries[i]).1,
            ) is Some by {
                if i < past.len() {
                    assert(past[i] == entries[i]);
                }
            }
            let rules = rules_of(entries)->0;
            assert(rules == before.push((key, rule_of(entries.last().1)->0)));
            assert forall|i: int| 0 <= i < entries.len() implies (#[trigger] rules[i]).0
                == entries[i].0 && Some(rules[i].1) == rule_of(entries[i].1) by {
                if i < past.len() {
                    assert(rules[i] == before[i]);
                    assert(past[i] == entries[i]);
                }
            }
        } else if rule_of(entries.last().1) is None {
            assert(rule_of(entries[entries.len() - 1].1) is None);
        } else {
            let i = choose|i: int|
                0 <= i < past.len() && rule_of((#[trigger] past[i]).1) is None;
            assert(entries[i] == past[i]);
        }
    }
}

/// The texts of an array, each in its place; none at all where an element is no text.
pub proof fn law_every_root_is_read(items: Seq<ItemModel>)
    ensures
        texts_of(items) is Some <==> forall|i: int|
            0 <= i < items.len() ==> (#[trigger] items[i]) is Text,
        texts_of(items) matches Some(texts) ==> texts.len() == items.len() && forall|i: int|
            0 <= i < items.len() ==> (#[trigger] items[i]) == ItemModel::Text(texts[i]),
    decreases items.len(),
{
    if items.len() > 0 {
        let past = items.drop_last();
        assert(forall|i: int| 0 <= i < past.len() ==> #[trigger] past[i] == items[i]);
        law_every_root_is_read(past);
        if texts_of(past) is Some && items.last() is Text {
            assert forall|i: int| 0 <= i < items.len() implies (#[trigger] items[i]) is Text by {
                if i < past.len() {
                    assert(past[i] == items[i]);
                }
            }
            let texts = texts_of(items)->0;
            assert forall|i: int| 0 <= i < items.len() implies (#[trigger] items[i])
                == ItemModel::Text(texts[i]) by {
                if i < past.len() {
                    assert(past[i] == items[i]);
                }
            }
        } else if !(items.last() is Text) {
            assert(!(items[items.len() - 1] is Text));
        } else {
            let i = choose|i: int| 0 <= i < past.len() && !((#[trigger] past[i]) is Text);
            assert(items[i] == past[i]);
        }
    }
}

/// A `[subtree]` section holds a nice value of 32 bits and an array of texts, and
/// says just those; nothing else is such a section.
pub proof fn law_subtree_section(
    item: ItemModel,
    entries: Seq<(Seq<char>, ItemModel)>,
    n: i64,
    items: Seq<ItemModel>,
)
    ensures
        document::field(entries, "nice"@) == Some(ItemModel::Integer(n)) && -0x8000_0000 <= n
            <= 0x7fff_ffff && document::field(entries, "roots"@) == Some(ItemModel::Array(items))
            && texts_of(items) is Some ==> (subtree_of(ItemModel::Table(entries)) matches Some(s)
            && s.nice == n && Some(s.roots) == texts_of(items)),
        subtree_of(ItemModel::Table(entries)) is Some ==> {
            &&& document::field(entries, "nice"@) matches Some(ItemModel::Integer(m))
                && -0x8000_0000 <= m <= 0x7fff_ffff
            &&& document::field(entries, "roots"@) matches Some(ItemModel::Array(v)) && texts_of(
                v,
            ) is Some
        },
        !(item is Table) ==> subtree_of(item) is None,
{
}

/// A `[cargo]` section holds a nice value of 32 bits, under its key in a table or as
/// the first element of an array, and says just that; nothing else is such a section.
pub proof fn law_cargo_section(
    item: ItemModel,
    entries: Seq<(Seq<char>, ItemModel)>,
    items: Seq<ItemModel>,
    n: i64,
)
    ensures
        document::field(entries, "nice"@) == Some(ItemModel::Integer(n)) && -0x8000_0000 <= n
            <= 0x7fff_ffff ==> cargo_of(ItemModel::Table(entries)) == Some(
            CargoConfig { nice: n as i32 },
        ),
        items.len() > 0 && items[0] == ItemModel::Integer(n) && -0x8000_0000 <= n <= 0x7fff_ffff
            ==> cargo_of(ItemModel::Array(items)) == Some(CargoConfig { nice: n as i32 }),
        cargo_of(ItemModel::Table(entries)) is Some ==> (document::field(entries, "nice"@) matches Some(
            ItemModel::Integer(m),
        ) && -0x8000_0000 <= m <= 0x7fff_ffff),
        cargo_of(ItemModel::Array(items)) is Some ==> items.len() > 0 && items[0] is Integer
            && -0x8000_0000 <= items[0]->Integer_0 <= 0x7fff_ffff,
        !(item is Table) && !(item is Array) ==> cargo_of(item) is None,
{
}

/// What a document says: the rules of its `rules` and nothing else as rules, and the
/// two sections. It says nothing only where `rules` is not a table of rules, or
/// `cargo` no such section.
pub proof fn law_document(document: ItemModel, entries: Seq<(Seq<char>, ItemModel)>)
    ensures
        !(document is Table) ==> config_of(document) is Err,
        config_of(ItemModel::Table(entries)) is Ok <==> {
            &&& document::field(entries, "rules"@) matches Some(r) ==> (r matches ItemModel::Table(
                t,
            ) && rules_of(t) is Some)
            &&& document::field(entries, "cargo"@) matches Some(c) ==> cargo_of(c) is Some
        },
        config_of(ItemModel::Table(entries)) matches Ok(config) ==> {
            &&& document::field(entries, "rules"@) is None ==> config.rules.len() == 0
            &&& document::field(entries, "rules"@) matches Some(r) ==> r is Table && rules_of(
                r->Table_0,
            ) == Some(config.rules)
            &&& document::field(entries, "cargo"@) is None ==> config.cargo is None
            &&& document::field(entries, "cargo"@) matches Some(c) ==> config.cargo == cargo_of(c)
            &&& document::field(entries, "subtree"@) is None ==> config.subtree is None
            &&& document::field(entries, "subtree"@) matches Some(s) ==> config.subtree
                == subtree_of(s)
        },
        config_of(ItemModel::Table(entries)) == Err::<crate::config::ConfigModel, Fault>(
            Fault::Cargo,
        ) ==> (document::field(entries, "cargo"@) matches Some(c) && cargo_of(c) is None),
        config_of(ItemModel::Table(entries)) == Err::<crate::config::ConfigModel, Fault>(
            Fault::Rules,
        ) ==> (document::field(entries, "rules"@) matches Some(r) && !(r is Table && rules_of(
            r->Table_0,
        ) is Some)),
        config_of(ItemModel::Table(entries)) != Err::<crate::config::ConfigModel, Fault>(
            Fault::Document,
        ),
{
}

/// A key of `[rules]` with a rule, in either form, gives every path with that
/// basename the nice value that was written, whatever else the document holds.
pub proof fn law_written_rule_decides(
    entries: Seq<(Seq<char>, ItemModel)>,
    table: Seq<(Seq<char>, ItemModel)>,
    config: crate::config::ConfigModel,
    i: int,
    n: i64,
    path: Seq<char>,
    answer: Option<i32>,
)
    requires
        config_of(ItemModel::Table(entries)) == Ok::<crate::config::ConfigModel, Fault>(config),
        document::field(entries, "rules"@) == Some(ItemModel::Table(table)),
        forall|i: int, j: int|
            0 <= i < j < table.len() ==> #[trigger] table[i].0 != #[trigger] table[j].0,
        0 <= i < table.len(),
        table[i].1 == ItemModel::Integer(n) || (table[i].1 matches ItemModel::Table(t)
            && document::field(t, "nice"@) == Some(ItemModel::Integer(n))),
        crate::config::basename_of(path) == table[i].0,
        crate::config::nice_is(config.rules, path, answer),
    ensures
        answer == Some(n as i32),
        n as i32 == n,
{
    law_one_rule_for_each_entry(table);
    let rules = config.rules;
    assert(rule_of(table[i].1) is Some);
    assert(rules[i].0 == table[i].0);
    assert forall|j: int| 0 <= j < i implies (#[trigger] rules[j]).0
        != crate::config::basename_of(path) by {
        assert(rules[j].0 == table[j].0);
        assert(table[j].0 != table[i].0);
    }
    crate::config::law_key_that_is_the_basename_decides(rules, path, answer, i);
}

/// A text is the configuration that its document says; one that is not TOML, and one
/// whose document says nothing, is none. Why, is the parser's own error, or the fault.
pub proof fn law_text_says_what_its_document_says(
    text: Seq<char>,
    syntax: toml_edit::TomlError,
    fault: Fault,
)
    ensures
        document::toml_document(text) matches Ok(value) ==> (match config_of(
            document::toml_item(value),
        ) {
            Ok(config) => parsed_config(text) == Some(config),
            Err(_) => parsed_config(text) is None,
        }),
        document::toml_document(text) is Err ==> parsed_config(text) is None,
        explains(ConfigError::Syntax(syntax), text) <==> document::toml_document(text) == Err::<
            toml_edit::Value,
            toml_edit::TomlError,
        >(syntax),
        explains(ConfigError::Setting(fault), text) <==> (document::toml_document(text) matches Ok(
            value,
        ) && config_of(document::toml_item(value)) == Err::<crate::config::ConfigModel, Fault>(
            fault,
        )),
{
}

/// The configuration loaded is that of the first text that is there and is one.
pub proof fn law_first_configuration_is_loaded(
    texts: Seq<Option<String>>,
    loaded: Loaded,
    k: int,
    t: String,
)
    requires
        loads(texts, loaded),
        0 <= k < texts.len() <= usize::MAX,
        texts[k] == Some(t),
        parsed_config(t@) is Some,
        forall|j: int|
            0 <= j < k ==> ((#[trigger] texts[j]) matches Some(u) ==> parsed_config(u@) is None),
    ensures
        loaded.source == Some(k as usize),
        parsed_config(t@) == Some(loaded.config@),
{
    assert forall|i: int| 0 <= i < k implies !usable(#[trigger] texts[i]) by {}
    lemma_first_usable_is(texts, k);
}

/// Where no text is a configuration, the built-in default is loaded; and only where
/// none is, and the default is not one either, is nothing loaded.
pub proof fn law_default_is_loaded_last(texts: Seq<Option<String>>, loaded: Loaded)
    ensures
        loads(texts, loaded) && (forall|j: int|
            0 <= j < texts.len() ==> ((#[trigger] texts[j]) matches Some(u) ==> parsed_config(
                u@,
            ) is None)) ==> loaded.source is None && parsed_config(DEFAULT_CONFIG@) == Some(
            loaded.config@,
        ),
        first_usable(texts) == texts.len() ==> forall|j: int|
            0 <= j < texts.len() ==> ((#[trigger] texts[j]) matches Some(u) ==> parsed_config(
                u@,
            ) is None),
{
    if forall|j: int|
        0 <= j < texts.len() ==> ((#[trigger] texts[j]) matches Some(u) ==> parsed_config(u@)
            is None) {
        assert forall|i: int| 0 <= i < texts.len() implies !usable(#[trigger] texts[i]) by {}
        lemma_first_usable_is(texts, texts.len() as int);
    }
    if first_usable(texts) == texts.len() {
        lemma_first_usable_bounds(texts);
        assert forall|j: int| 0 <= j < texts.len() implies ((#[trigger] texts[j]) matches Some(u)
            ==> parsed_config(u@) is None) by {
            assert(!usable(texts[j]));
        }
    }
}

/// The texts that are reported as rejected are those that are there, are not a
/// configuration, and stand before the one that is loaded; each once and in order.
pub proof fn law_rejected_texts(texts: Seq<Option<String>>, loaded: Loaded, i: int)
    requires
        loads(texts, loaded),
        0 <= i < texts.len() <= usize::MAX,
    ensures
        (exists|r: int| 0 <= r < loaded.rejected@.len() && (#[trigger] loaded.rejected@[r]).0 == i)
            <==> {
            &&& texts[i] matches Some(t) && parsed_config(t@) is None
            &&& loaded.source matches Some(k) ==> i < k
        },
        forall|r: int, q: int|
            0 <= r < q < loaded.rejected@.len() ==> (#[trigger] loaded.rejected@[r]).0 < (
            #[trigger] loaded.rejected@[q]).0,
        forall|r: int|
            0 <= r < loaded.rejected@.len() ==> explains(
                (#[trigger] loaded.rejected@[r]).1,
                texts[loaded.rejected@[r].0 as int]->0@,
            ),
{
    let k = first_usable(texts);
    lemma_first_usable_bounds(texts);
    let head = texts.take(k);
    let which = |r: (usize, ConfigError)| r.0;
    let listed = loaded.rejected@.map_values(which);
    lemma_unusable_members(head, i);
    assert(listed == unusable(head));
    assert forall|r: int| 0 <= r < listed.len() implies #[trigger] listed[r]
        == loaded.rejected@[r].0 by {}
    assert forall|r: int, q: int| 0 <= r < q < loaded.rejected@.len() implies (
    #[trigger] loaded.rejected@[r]).0 < (#[trigger] loaded.rejected@[q]).0 by {
        assert(listed[r] < listed[q]);
    }
    if exists|r: int| 0 <= r < loaded.rejected@.len() && (#[trigger] loaded.rejected@[r]).0 == i {
        let r = choose|r: int|
            0 <= r < loaded.rejected@.len() && (#[trigger] loaded.rejected@[r]).0 == i;
        assert(unusable(head)[r] == i);
        assert(head[i] == texts[i]);
    }
    if i < k && texts[i] is Some {
        assert(head[i] == texts[i]);
        assert(!usable(texts[i]));
        let r = choose|r: int| 0 <= r < unusable(head).len() && #[trigger] unusable(head)[r] == i;
        assert(listed[r] == loaded.rejected@[r].0);
        assert(loaded.rejected@[r].0 == i);
    }
}

proof fn lemma_unusable_members(texts: Seq<Option<String>>, i: int)
    requires
        texts.len() <= usize::MAX,
        0 <= i,
    ensures
        (exists|r: int| 0 <= r < unusable(texts).len() && #[trigger] unusable(texts)[r] == i) <==> i
            < texts.len() && texts[i] is Some && !usable(texts[i]),
        forall|r: int, q: int|
            0 <= r < q < unusable(texts).len() ==> #[trigger] unusable(texts)[r]
                < #[trigger] unusable(texts)[q],
    decreases texts.len(),
{
    if texts.len() > 0 {
        let past = texts.drop_last();
        lemma_unusable_members(past, i);
        lemma_unusable_bounds(past);
        let before = unusable(past);
        let all = unusable(texts);
        let last = texts.len() - 1;
        if texts.last() is Some && !usable(texts.last()) {
            assert(all == before.push(last as usize));
            if i < last {
                assert(past[i] == texts[i]);
                if texts[i] is Some && !usable(texts[i]) {
                    let r = choose|r: int| 0 <= r < before.len() && #[trigger] before[r] == i;
                    assert(all[r] == i);
                }
                if exists|r: int| 0 <= r < all.len() && #[trigger] all[r] == i {
                    let r = choose|r: int| 0 <= r < all.len() && #[trigger] all[r] == i;
                    assert(before[r] == i);
                }
            } else if i == last {
                assert(all[before.len() as int] == i);
            } else {
                if exists|r: int| 0 <= r < all.len() && #[trigger] all[r] == i {
                    let r = choose|r: int| 0 <= r < all.len() && #[trigger] all[r] == i;
                    assert(before[r] == i);
                }
            }
            assert forall|r: int, q: int| 0 <= r < q < all.len() implies #[trigger] all[r]
                < #[trigger] all[q] by {
                if q < before.len() {
                    assert(before[r] < before[q]);
                } else {
                    assert(before[r] < past.len());
                }
            }
        } else {
            assert(all == before);
            if i < last {
                assert(past[i] == texts[i]);
            }
        }
    }
}

/// One more entry sets one more rule, in the place of an earlier one with its key;
/// one that is not a rule spoils the table.
pub proof fn law_one_more_entry(
    entries: Seq<(Seq<char>, ItemModel)>,
    key: Seq<char>,
    item: ItemModel,
)
    ensures
        rules_of(Seq::empty()) == Some(Seq::<(Seq<char>, Rule)>::empty()),
        rules_of(entries) is Some && rule_of(item) is Some ==> rules_of(entries.push((key, item)))
            == Some(crate::config::put(rules_of(entries)->0, key, rule_of(item)->0)),
        rules_of(entries) is None || rule_of(item) is None ==> rules_of(
            entries.push((key, item)),
        ) is None,
{
    assert(entries.push((key, item)).drop_last() == entries);
}

} // verus!
