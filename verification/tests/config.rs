use capn::config::{
    disabled_notice, have_mercy, load_captain_config, mercy_level, CaptainConfig, PreCommitConfig,
    PrePushConfig,
};

#[test]
fn defaults_are_those_of_the_manual() {
    let pre_commit = PreCommitConfig::default();
    assert!(!pre_commit.generate_readmes);
    assert!(pre_commit.rustfmt);
    assert!(pre_commit.cargo_lock);
    assert!(pre_commit.arborium);
    assert!(pre_commit.edition_2024);
    assert!(pre_commit.external_path_deps);
    assert!(pre_commit.internal_dev_deps_release_plz);
    let pre_push = PrePushConfig::default();
    assert!(pre_push.clippy);
    assert!(pre_push.nextest);
    assert!(!pre_push.doc_tests);
    assert!(pre_push.docs);
    assert!(pre_push.cargo_shear);
    assert!(pre_push.clippy_features.is_none());
    assert!(pre_push.doc_test_features.is_none());
    assert!(pre_push.docs_features.is_none());
}

#[test]
fn the_new_configuration_takes_precedence() {
    let mut current = CaptainConfig::default();
    current.pre_push.clippy = false;
    let mut legacy = CaptainConfig::default();
    legacy.pre_push.docs = false;
    let both = load_captain_config(Some(current.clone()), Some(legacy.clone()));
    assert!(!both.pre_push.clippy && both.pre_push.docs);
    let only_current = load_captain_config(Some(current), None);
    assert!(!only_current.pre_push.clippy);
    let only_legacy = load_captain_config(None, Some(legacy));
    assert!(only_legacy.pre_push.clippy && !only_legacy.pre_push.docs);
    let none = load_captain_config(None, None);
    assert!(none.pre_push.clippy && none.pre_push.docs);
}

#[test]
fn mercy_levels() {
    assert_eq!(mercy_level("0"), 0);
    assert_eq!(mercy_level("1"), 1);
    assert_eq!(mercy_level("2"), 2);
    assert_eq!(mercy_level("255"), 255);
    assert_eq!(mercy_level("+3"), 3);
    // Whatever is no byte counts as 1.
    assert_eq!(mercy_level(""), 1);
    assert_eq!(mercy_level("yes"), 1);
    assert_eq!(mercy_level("256"), 1);
    assert_eq!(mercy_level("-2"), 1);
}

fn on() -> CaptainConfig {
    let mut config = CaptainConfig::default();
    config.pre_push.doc_tests = true;
    config
}

#[test]
fn mercy_skips_more_and_more() {
    let mut config = on();
    assert_eq!(
        have_mercy(&mut config, "1"),
        "🙏 HAVE_MERCY=1: skipping nextest, doc-tests, docs"
    );
    assert!(!config.pre_push.nextest && !config.pre_push.doc_tests && !config.pre_push.docs);
    assert!(config.pre_push.clippy && config.pre_push.cargo_shear);

    let mut config = on();
    assert_eq!(
        have_mercy(&mut config, "2"),
        "🙏 HAVE_MERCY=2: skipping nextest, doc-tests, docs, clippy"
    );
    assert!(!config.pre_push.clippy && config.pre_push.cargo_shear);

    let mut config = on();
    assert_eq!(
        have_mercy(&mut config, "3"),
        "🙏 HAVE_MERCY=3: skipping nextest, doc-tests, docs, clippy, cargo-shear"
    );
    assert!(!config.pre_push.clippy && !config.pre_push.cargo_shear);
    assert!(config.pre_commit.rustfmt);

    let mut config = on();
    assert_eq!(have_mercy(&mut config, "0"), "🙏 HAVE_MERCY=0: skipping ");
    assert!(config.pre_push.nextest && config.pre_push.clippy);
}

#[test]
fn disabled_checks_are_announced() {
    let config = on();
    assert_eq!(disabled_notice(&config.pre_push, false), None);
    assert_eq!(
        disabled_notice(&PrePushConfig::default(), false),
        Some("⏭️  Disabled via config: doc-tests".to_string())
    );
    let mut config = CaptainConfig::default();
    config.pre_push.clippy = false;
    config.pre_push.cargo_shear = false;
    assert_eq!(
        disabled_notice(&config.pre_push, false),
        Some("⏭️  Disabled via config: clippy, doc-tests, cargo-shear".to_string())
    );
    assert_eq!(disabled_notice(&config.pre_push, true), None);
}
