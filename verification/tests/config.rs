use autonice::config::{basename, CargoConfig, Config, Rule, SubtreeConfig};
use autonice::document::{get_field, read_document, Item};
use autonice::schema::{config_paths, load_config, ConfigError, Fault, DEFAULT_CONFIG};

fn parse(text: &str) -> Config {
    Config::parse(text).unwrap()
}

fn fault(text: &str) -> Option<Fault> {
    match Config::parse(text) {
        Err(ConfigError::Setting(fault)) => Some(fault),
        _ => None,
    }
}

fn table(entries: Vec<(&str, Item)>) -> Item {
    Item::Table(entries.into_iter().map(|(k, v)| (k.to_string(), v)).collect())
}

/// The embedded default must parse: `load_config` falls back on it, and
/// `autonice install`/`default` ship it verbatim.
#[test]
fn embedded_default_config_parses() {
    let cfg: Config = Config::parse(DEFAULT_CONFIG).expect("default config parses");
    assert!(cfg.cargo.is_some(), "default ships cargo-subtree tracking");
    assert!(!cfg.rules.is_empty(), "default ships some rules");
}

#[test]
fn shorthand_rule_matches_basename_only() {
    let cfg: Config = Config::parse("[rules]\ndd = 19\n").unwrap();
    assert_eq!(cfg.nice_for("/usr/bin/dd"), Some(19)); // exact basename
    assert_eq!(cfg.nice_for("/usr/bin/ssh-add"), None); // no substring by default
}

#[test]
fn substring_rule_matches_path() {
    let cfg: Config = Config::parse("[rules]\ndd = { nice = 19, substring = true }\n").unwrap();
    assert_eq!(cfg.nice_for("/usr/bin/dd"), Some(19)); // exact basename
    assert_eq!(cfg.nice_for("/usr/bin/ssh-add"), Some(19)); // opted-in substring
}

#[test]
fn default_config_says_what_it_shows() {
    let cfg = parse(DEFAULT_CONFIG);
    assert_eq!(cfg.cargo, Some(CargoConfig { nice: 19 }));
    let subtree = cfg.subtree.as_ref().unwrap();
    assert_eq!(subtree.nice, 19);
    assert_eq!(subtree.roots, vec!["make".to_string()]);
    assert_eq!(cfg.rules.len(), 2);
    assert_eq!(cfg.nice_for("/bin/dd"), Some(19));
    assert_eq!(cfg.nice_for("/opt/ffmpeg-7/bin/probe"), Some(15));
    assert_eq!(cfg.nice_for("/bin/pipewire"), None);
}

#[test]
fn basename_match_beats_substring_match() {
    let cfg = parse("[rules]\naa = { nice = 5, substring = true }\nzaaz = -3\n");
    assert_eq!(cfg.nice_for("/x/zaaz"), Some(-3));
    assert_eq!(cfg.nice_for("/x/yaay"), Some(5));
    assert_eq!(cfg.nice_for("/aa/b"), Some(5));
    assert_eq!(cfg.nice_for("/x/a"), None);
}

#[test]
fn first_substring_rule_decides() {
    let mut cfg = Config::default();
    cfg.set_rule("in".to_string(), Rule::Table { nice: 1, substring: true });
    cfg.set_rule("bin".to_string(), Rule::Table { nice: 2, substring: true });
    cfg.set_rule("off".to_string(), Rule::Table { nice: 3, substring: false });
    assert_eq!(cfg.nice_for("/usr/bin/x"), Some(1));
    assert_eq!(cfg.nice_for("/office/x"), None);
    assert_eq!(cfg.nice_for("/x/off"), Some(3));
}

#[test]
fn empty_key_occurs_in_every_path() {
    let cfg = parse("[rules]\n\"\" = { nice = 7, substring = true }\n");
    assert_eq!(cfg.nice_for("/usr/bin/x"), Some(7));
    assert_eq!(cfg.nice_for(""), Some(7));
}

#[test]
fn setting_a_rule_again_replaces_it() {
    let mut cfg = Config::default();
    cfg.set_rule("dd".to_string(), Rule::Nice(1));
    cfg.set_rule("cc".to_string(), Rule::Nice(2));
    cfg.set_rule("dd".to_string(), Rule::Nice(3));
    assert_eq!(cfg.rules.len(), 2);
    assert_eq!(cfg.nice_for("/bin/dd"), Some(3));
    assert_eq!(cfg.nice_for("/bin/cc"), Some(2));
}

#[test]
fn rule_forms() {
    assert_eq!(Rule::Nice(-20).nice(), -20);
    assert!(!Rule::Nice(19).substring());
    assert_eq!(Rule::Table { nice: 4, substring: true }.nice(), 4);
    assert!(Rule::Table { nice: 4, substring: true }.substring());
    assert!(!Rule::Table { nice: 4, substring: false }.substring());
}

#[test]
fn table_form_defaults_to_basename_only() {
    let cfg = parse("[rules]\ndd = { nice = 19 }\n[rules.cc]\nnice = 3\nother = \"x\"\n");
    assert_eq!(cfg.nice_for("/bin/dd"), Some(19));
    assert_eq!(cfg.nice_for("/bin/ssh-add"), None);
    assert_eq!(cfg.nice_for("/bin/cc"), Some(3));
}

#[test]
fn basename_cases() {
    assert_eq!(basename("/usr/bin/dd"), "dd");
    assert_eq!(basename("dd"), "dd");
    assert_eq!(basename("/usr/bin/"), "");
    assert_eq!(basename(""), "");
    assert_eq!(basename("/"), "");
    assert_eq!(basename("/h\u{e4}/\u{1f980}x"), "\u{1f980}x");
}

#[test]
fn cargo_section_forms() {
    let cfg = parse("[cargo]\nnice = 10\n");
    assert_eq!(cfg.cargo, Some(CargoConfig { nice: 10 }));
    assert!(cfg.subtree.is_none());
    assert_eq!(parse("cargo = [11, 2]\n").cargo, Some(CargoConfig { nice: 11 }));
    assert!(parse("").cargo.is_none());
    assert!(parse("").subtree.is_none());
    assert!(parse("").rules.is_empty());
}

#[test]
fn sections_are_independent() {
    let cfg = parse("[cargo]\nnice = 1\n[subtree]\nnice = 2\nroots = [\"make\"]\n");
    assert_eq!(cfg.cargo, Some(CargoConfig { nice: 1 }));
    let subtree = cfg.subtree.unwrap();
    assert_eq!(subtree.nice, 2);
    assert_eq!(subtree.roots, vec!["make".to_string()]);
    // each is checked beside the other
    assert_eq!(fault("cargo = 1\n[subtree]\nnice = 2\nroots = []\n"), Some(Fault::Cargo));
    assert_eq!(parse("[cargo]\nnice = 1\n[subtree]\nnice = 2\n").cargo, Some(CargoConfig { nice: 1 }));
}

#[test]
fn reserved_looking_keys_are_keys() {
    let cfg = parse("[rules]\n\"$__toml_private_datetime\" = 19\ndd = 1\n");
    assert_eq!(cfg.nice_for("/bin/$__toml_private_datetime"), Some(19));
    assert_eq!(cfg.nice_for("/bin/dd"), Some(1));
    assert!(parse("\"$__toml_private_datetime\" = 1\n").rules.is_empty());
    let cfg = parse("[extra]\n\"$__toml_private_datetime\" = 1\n[cargo]\nnice = 2\n");
    assert_eq!(cfg.cargo, Some(CargoConfig { nice: 2 }));
}

#[test]
fn dotted_keys_and_nested_tables() {
    let cfg = parse("cargo.nice = 3\nrules.dd.nice = 4\nrules.cc = 5\n");
    assert_eq!(cfg.cargo, Some(CargoConfig { nice: 3 }));
    assert_eq!(cfg.nice_for("dd"), Some(4));
    assert_eq!(cfg.nice_for("cc"), Some(5));
}

#[test]
fn unknown_keys_are_ignored() {
    let cfg = parse("answer = 4.5\nwhen = 2024-01-01\n[rules]\ndd = 1\n[extra]\na = [1, {b = 2}]\n");
    assert_eq!(cfg.rules.len(), 1);
    assert!(cfg.cargo.is_none());
}

#[test]
fn rules_that_mean_nothing() {
    assert_eq!(fault("rules = 5\n"), Some(Fault::Rules));
    assert_eq!(fault("rules = []\n"), Some(Fault::Rules));
    assert_eq!(fault("[rules]\ndd = \"19\"\n"), Some(Fault::Rules));
    assert_eq!(fault("[rules]\ndd = 1.0\n"), Some(Fault::Rules));
    assert_eq!(fault("[rules]\ndd = true\n"), Some(Fault::Rules));
    assert_eq!(fault("[rules]\ndd = 2024-01-01\n"), Some(Fault::Rules));
    assert_eq!(fault("[rules]\ndd = { substring = true }\n"), Some(Fault::Rules));
    assert_eq!(fault("[rules]\ndd = { nice = 1, substring = 1 }\n"), Some(Fault::Rules));
    assert_eq!(fault("[rules]\ndd = 2147483648\n"), Some(Fault::Rules));
    assert_eq!(parse("[rules]\ndd = 2147483647\n").nice_for("dd"), Some(2147483647));
    assert_eq!(parse("[rules]\ndd = -2147483648\n").nice_for("dd"), Some(-2147483648));
}

#[test]
fn malformed_subtree_is_ignored() {
    for subtree in [
        "[subtree]\nnice = 1\n",
        "[subtree]\nroots = []\n",
        "[subtree]\nnice = 1\nroots = [1]\n",
        "[subtree]\nnice = 1\nroots = \"make\"\n",
        "[subtree]\nnice = 2147483648\nroots = []\n",
        "subtree = 1\n",
    ] {
        let cfg = parse(&format!("{subtree}[rules]\ndd = 3\n"));
        assert!(cfg.subtree.is_none());
        assert_eq!(cfg.nice_for("/bin/dd"), Some(3));
    }
}

#[test]
fn cargo_sections_that_mean_nothing() {
    assert_eq!(fault("cargo = 1\n"), Some(Fault::Cargo));
    assert_eq!(fault("cargo = []\n"), Some(Fault::Cargo));
    assert_eq!(fault("[[cargo]]\nnice = 1\n"), Some(Fault::Cargo));
    assert_eq!(fault("[cargo]\nnice = 1.5\n"), Some(Fault::Cargo));
}

#[test]
fn text_that_is_not_toml() {
    assert!(matches!(Config::parse("[rules\n"), Err(ConfigError::Syntax(_))));
    assert!(matches!(Config::parse("a = 1\na = 2\n"), Err(ConfigError::Syntax(_))));
    let error = read_document("= 3").unwrap_err();
    assert_ne!(error, read_document("b = = 3").unwrap_err());
    assert!(matches!(Config::parse("= 3"), Err(ConfigError::Syntax(e)) if e == error));
}

#[test]
fn documents_built_by_hand() {
    let doc = table(vec![
        ("rules", table(vec![
            ("dd", Item::Integer(19)),
            ("cc", table(vec![("nice", Item::Integer(3)), ("substring", Item::Boolean(true))])),
        ])),
        ("subtree", table(vec![
            ("nice", Item::Integer(9)),
            ("roots", Item::Array(vec![Item::Text("make".to_string())])),
        ])),
    ]);
    let cfg = Config::from_document(&doc).unwrap();
    assert_eq!(cfg.nice_for("/a/dd"), Some(19));
    assert_eq!(cfg.nice_for("/accc/x"), Some(3));
    assert_eq!(cfg.subtree.unwrap().roots, vec!["make".to_string()]);
    assert_eq!(Config::from_document(&Item::Float).err(), Some(Fault::Document));
    assert_eq!(Config::from_document(&Item::Datetime).err(), Some(Fault::Document));
}

#[test]
fn document_keeps_values() {
    let doc = read_document("a = 1\nb = true\nc = \"t\"\nd = 1.5\ne = 2024-01-01\nf = [1, \"x\"]\n").unwrap();
    let entries = match doc {
        Item::Table(entries) => entries,
        _ => panic!("a document is a table"),
    };
    assert_eq!(entries.len(), 6);
    assert!(matches!(get_field(&entries, "a"), Some(Item::Integer(1))));
    assert!(matches!(get_field(&entries, "b"), Some(Item::Boolean(true))));
    assert!(matches!(get_field(&entries, "c"), Some(Item::Text(t)) if t == "t"));
    assert!(matches!(get_field(&entries, "d"), Some(Item::Float)));
    assert!(matches!(get_field(&entries, "e"), Some(Item::Datetime)));
    assert!(matches!(get_field(&entries, "f"), Some(Item::Array(v)) if v.len() == 2));
    assert!(get_field(&entries, "g").is_none());
}

#[test]
fn first_text_that_parses_is_loaded() {
    let texts = vec![Some("[rules]\ndd = 1\n".to_string()), Some("[rules]\ndd = 2\n".to_string())];
    let loaded = load_config(&texts).unwrap();
    assert_eq!(loaded.source, Some(0));
    assert_eq!(loaded.config.nice_for("dd"), Some(1));
    assert!(loaded.rejected.is_empty());
}

#[test]
fn bad_text_is_passed_over() {
    let texts = vec![Some("[rules".to_string()), Some("rules = 1".to_string()), None, Some("[rules]\ndd = 2\n".to_string())];
    let loaded = load_config(&texts).unwrap();
    assert_eq!(loaded.source, Some(3));
    assert_eq!(loaded.config.nice_for("dd"), Some(2));
    assert_eq!(loaded.rejected.len(), 2);
    assert!(matches!(loaded.rejected[0], (0, ConfigError::Syntax(_))));
    assert!(matches!(loaded.rejected[1], (1, ConfigError::Setting(Fault::Rules))));
}

#[test]
fn later_texts_do_not_matter() {
    let texts = vec![Some("[rules".to_string()), Some("[rules]\ndd = 2\n".to_string())];
    let mut more = texts.clone();
    more.push(Some("[rules]\ndd = 3\n".to_string()));
    for texts in [texts, more] {
        let loaded = load_config(&texts).unwrap();
        assert_eq!(loaded.source, Some(1));
        assert_eq!(loaded.config.nice_for("dd"), Some(2));
        assert_eq!(loaded.rejected.len(), 1);
    }
}

#[test]
fn no_file_means_default() {
    let loaded = load_config(&vec![None, None]).unwrap();
    assert_eq!(loaded.source, None);
    assert_eq!(loaded.config.nice_for("/bin/dd"), Some(19));
    assert!(loaded.rejected.is_empty());
    assert!(load_config(&Vec::new()).unwrap().config.cargo.is_some());
}

#[test]
fn config_is_looked_for_here_then_in_etc() {
    assert_eq!(config_paths(), vec!["autonice.toml".to_string(), "/etc/autonice.toml".to_string()]);
}

#[test]
fn fields_can_be_written_directly() {
    let cfg = Config {
        rules: vec![("dd".to_string(), Rule::Nice(4))],
        cargo: Some(CargoConfig { nice: 1 }),
        subtree: Some(SubtreeConfig { nice: 2, roots: Vec::new() }),
    };
    assert_eq!(cfg.nice_for("/bin/dd"), Some(4));
}
