use typos::config::{
    first_found, Category, Config, DictConfig, EngineConfig, Locale, TokenizerConfig, Walk,
};

fn only_files(flag: bool) -> Walk {
    Walk { ignore_files: Some(flag), ..Walk::default() }
}

#[test]
fn unset_walk_resolves_to_true() {
    let walk = Walk::default();
    assert!(walk.ignore_hidden());
    assert!(walk.ignore_dot());
    assert!(walk.ignore_vcs());
    assert!(walk.ignore_global());
    assert!(walk.ignore_parent());
}

#[test]
fn only_ignore_files_false_resolves_the_chain_false() {
    let walk = only_files(false);
    assert!(!walk.ignore_dot());
    assert!(!walk.ignore_vcs());
    assert!(!walk.ignore_global());
    assert!(!walk.ignore_parent());
    assert!(walk.ignore_hidden());
}

#[test]
fn finer_flags_outrank_coarser_ones() {
    let walk = Walk {
        ignore_files: Some(false),
        ignore_dot: Some(true),
        ignore_vcs: Some(true),
        ..Walk::default()
    };
    assert!(walk.ignore_dot());
    assert!(walk.ignore_vcs());
    assert!(walk.ignore_global());
    assert!(!walk.ignore_parent());
    let walk = Walk { ignore_vcs: Some(true), ignore_global: Some(false), ..only_files(true) };
    assert!(!walk.ignore_global());
}

#[test]
fn walk_from_defaults_sets_everything() {
    assert_eq!(
        Walk::from_defaults(),
        Walk {
            ignore_hidden: Some(true),
            ignore_files: Some(true),
            ignore_dot: Some(true),
            ignore_vcs: Some(true),
            ignore_global: Some(true),
            ignore_parent: Some(true),
        }
    );
}

#[test]
fn coarse_switch_resets_finer_flags() {
    let mut walk = Walk::from_defaults();
    walk.update(&only_files(false));
    assert_eq!(
        walk,
        Walk {
            ignore_hidden: Some(true),
            ignore_files: Some(false),
            ignore_dot: None,
            ignore_vcs: None,
            ignore_global: None,
            ignore_parent: None,
        }
    );
    assert!(!walk.ignore_dot());
    assert!(!walk.ignore_vcs());
    assert!(!walk.ignore_global());
    assert!(!walk.ignore_parent());
    assert!(walk.ignore_hidden());
}

#[test]
fn vcs_switch_resets_global() {
    let mut walk = Walk::from_defaults();
    walk.update(&Walk { ignore_vcs: Some(false), ..Walk::default() });
    assert_eq!(walk.ignore_vcs, Some(false));
    assert_eq!(walk.ignore_global, None);
    assert_eq!(walk.ignore_dot, Some(true));
    assert!(!walk.ignore_global());
    assert!(walk.ignore_dot());
}

#[test]
fn finer_flags_of_the_overlay_survive_its_coarse_switch() {
    let mut walk = Walk::from_defaults();
    walk.update(&Walk {
        ignore_files: Some(false),
        ignore_dot: Some(true),
        ignore_global: Some(true),
        ..Walk::default()
    });
    assert_eq!(walk.ignore_dot, Some(true));
    assert_eq!(walk.ignore_vcs, None);
    assert_eq!(walk.ignore_global, Some(true));
    assert_eq!(walk.ignore_parent, None);
}

#[test]
fn unset_overlay_changes_nothing() {
    let mut walk = Walk { ignore_hidden: Some(false), ignore_dot: Some(false), ..Walk::default() };
    let before = walk.clone();
    walk.update(&Walk::default());
    assert_eq!(walk, before);
}

#[test]
fn walk_merge_in_either_grouping() {
    let a = Walk::from_defaults();
    let b = Walk { ignore_dot: Some(false), ignore_global: Some(false), ..Walk::default() };
    let c = only_files(false);
    let mut left = a.clone();
    left.update(&b);
    left.update(&c);
    let mut bc = b.clone();
    bc.update(&c);
    let mut right = a.clone();
    right.update(&bc);
    assert_eq!(left, right);
    assert_eq!(left.ignore_dot, None);
    // the order of the overlays matters
    let mut cb = c.clone();
    cb.update(&b);
    let mut other = a.clone();
    other.update(&cb);
    assert_eq!(other.ignore_dot, Some(false));
    assert_eq!(other.ignore_parent, None);
}

#[test]
fn tokenizer_defaults() {
    let unset = TokenizerConfig::default();
    assert!(unset.ignore_hex());
    assert!(!unset.identifier_leading_digits());
    assert_eq!(unset.identifier_leading_chars(), "_");
    assert!(unset.identifier_include_digits());
    assert_eq!(unset.identifier_include_chars(), "_'");
    let set = TokenizerConfig::from_defaults();
    assert_eq!(set.ignore_hex, Some(true));
    assert_eq!(set.identifier_leading_digits, Some(false));
    assert_eq!(set.identifier_leading_chars.as_deref(), Some("_"));
    assert_eq!(set.identifier_include_digits, Some(true));
    assert_eq!(set.identifier_include_chars.as_deref(), Some("_'"));
}

#[test]
fn tokenizer_update_takes_what_is_set() {
    let mut config = TokenizerConfig::from_defaults();
    config.update(&TokenizerConfig {
        ignore_hex: Some(false),
        identifier_include_chars: Some("-".to_owned()),
        ..TokenizerConfig::default()
    });
    assert!(!config.ignore_hex());
    assert!(!config.identifier_leading_digits());
    assert_eq!(config.identifier_leading_chars(), "_");
    assert_eq!(config.identifier_include_chars(), "-");
}

#[test]
fn dict_defaults() {
    let unset = DictConfig::default();
    assert_eq!(unset.locale(), Locale::En);
    assert!(unset.extend_identifiers().is_empty());
    assert!(unset.extend_words().is_empty());
    let set = DictConfig::from_defaults();
    assert_eq!(set.locale, Some(Locale::En));
    assert!(set.extend_words().is_empty());
}

#[test]
fn dict_update_unites_the_maps() {
    let mut base = DictConfig::default();
    base.locale = Some(Locale::EnGb);
    base.extend_words.insert("colour".to_owned(), "color".to_owned());
    base.extend_words.insert("teh".to_owned(), "the".to_owned());
    let mut overlay = DictConfig::default();
    overlay.extend_words.insert("teh".to_owned(), "tea".to_owned());
    overlay.extend_identifiers.insert("Foo".to_owned(), "Bar".to_owned());
    base.update(&overlay);
    assert_eq!(base.locale(), Locale::EnGb);
    let mut words = base.extend_words();
    words.sort();
    assert_eq!(words, vec![("colour", "color"), ("teh", "tea")]);
    assert_eq!(base.extend_identifiers(), vec![("Foo", "Bar")]);
    overlay.locale = Some(Locale::EnAu);
    base.update(&overlay);
    assert_eq!(base.locale(), Locale::EnAu);
}

#[test]
fn engine_defaults() {
    let unset = EngineConfig::default();
    assert!(!unset.binary());
    assert!(unset.check_filename());
    assert!(unset.check_file());
    let set = EngineConfig::from_defaults();
    assert_eq!(set.binary, Some(false));
    assert_eq!(set.check_filename, Some(true));
    assert_eq!(set.check_file, Some(true));
    assert_eq!(set.tokenizer.unwrap().identifier_include_chars.as_deref(), Some("_'"));
    assert_eq!(set.dict.unwrap().locale, Some(Locale::En));
}

#[test]
fn engine_update_merges_the_parts() {
    let mut base = EngineConfig::default();
    base.update(&EngineConfig {
        binary: Some(true),
        tokenizer: Some(TokenizerConfig { ignore_hex: Some(false), ..TokenizerConfig::default() }),
        ..EngineConfig::default()
    });
    assert!(base.binary());
    assert!(base.check_file());
    assert_eq!(base.tokenizer.as_ref().unwrap().ignore_hex, Some(false));
    assert!(base.dict.is_none());
    base.update(&EngineConfig {
        check_file: Some(false),
        tokenizer: Some(TokenizerConfig {
            identifier_leading_digits: Some(true),
            ..TokenizerConfig::default()
        }),
        dict: Some(DictConfig { locale: Some(Locale::EnCa), ..DictConfig::default() }),
        ..EngineConfig::default()
    });
    assert!(base.binary());
    assert!(!base.check_file());
    let tokenizer = base.tokenizer.as_ref().unwrap();
    assert_eq!(tokenizer.ignore_hex, Some(false));
    assert_eq!(tokenizer.identifier_leading_digits, Some(true));
    assert_eq!(base.dict.as_ref().unwrap().locale(), Locale::EnCa);
}

#[test]
fn overlay_on_the_unset_document_comes_out_as_it_is() {
    let mut overlay = Config::default();
    overlay.files.ignore_files = Some(false);
    overlay.files.ignore_dot = Some(true);
    overlay.default.check_filename = Some(false);
    let mut dict = DictConfig::default();
    dict.extend_words.insert("wrod".to_owned(), "word".to_owned());
    overlay.default.dict = Some(dict);
    let mut merged = Config::default();
    merged.update(&overlay);
    assert_eq!(merged.files, overlay.files);
    assert_eq!(merged.default.binary, None);
    assert_eq!(merged.default.check_filename, Some(false));
    assert!(merged.default.tokenizer.is_none());
    assert_eq!(merged.default.dict.unwrap().extend_words(), vec![("wrod", "word")]);
}

#[test]
fn overlay_on_the_defaults_keeps_defaults_elsewhere() {
    let mut merged = Config::from_defaults();
    let mut overlay = Config::default();
    overlay.files.ignore_hidden = Some(false);
    overlay.default.binary = Some(true);
    merged.update(&overlay);
    assert!(!merged.files.ignore_hidden());
    assert!(merged.files.ignore_dot());
    assert_eq!(merged.files.ignore_dot, Some(true));
    assert!(merged.default.binary());
    assert!(merged.default.check_file());
    assert_eq!(merged.default.tokenizer.unwrap().identifier_leading_chars(), "_");
}

#[test]
fn locale_names() {
    assert_eq!(Locale::variants(), ["en", "en-us", "en-gb", "en-ca", "en-au"]);
    for name in Locale::variants().iter() {
        let locale = Locale::from_str(name).unwrap();
        assert_eq!(locale.as_str(), *name);
    }
    assert_eq!(Locale::from_str("en-gb"), Ok(Locale::EnGb));
    assert_eq!(
        Locale::from_str("fr"),
        Err("valid values: en, en-us, en-gb, en-ca, en-au".to_owned())
    );
    assert_eq!(Locale::from_str("EN"), Err("valid values: en, en-us, en-gb, en-ca, en-au".to_owned()));
    assert_eq!(Locale::default(), Locale::En);
}

#[test]
fn locale_categories() {
    assert_eq!(Locale::En.category(), None);
    assert_eq!(Locale::EnUs.category(), Some(Category::American));
    assert_eq!(Locale::EnGb.category(), Some(Category::BritishIse));
    assert_eq!(Locale::EnCa.category(), Some(Category::Canadian));
    assert_eq!(Locale::EnAu.category(), Some(Category::Australian));
}

#[test]
fn project_file_is_the_first_found() {
    assert_eq!(Config::file_names(), ["typos.toml", "_typos.toml", ".typos.toml"]);
    assert_eq!(first_found(&[false, true, true]), Some(1));
    assert_eq!(first_found(&[true, false, false]), Some(0));
    assert_eq!(first_found(&[false, false, false]), None);
    assert_eq!(first_found(&[]), None);
}
