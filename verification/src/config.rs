//! Configuration of the hooks.

use crate::text::{
    decimal, join, joined, lemma_decimal, lemma_no_number, lemma_number_is_read, number,
    parse_unsigned, texts, unsigned,
};
use vstd::prelude::*;
use vstd::string::*;

verus! {

/// Configuration read from `.config/capn/config.styx`.
#[derive(Debug, Clone)]
pub struct CaptainConfig {
    /// Configuration for pre-commit hooks.
    pub pre_commit: PreCommitConfig,
    /// Configuration for pre-push hooks.
    pub pre_push: PrePushConfig,
}

/// Configuration for pre-commit hooks.
#[derive(Debug, Clone)]
pub struct PreCommitConfig {
    /// Deprecated and ignored. When it is set, `cargo-reedme` is recommended.
    pub generate_readmes: bool,
    /// Format staged Rust files with `rustfmt`.
    pub rustfmt: bool,
    /// Stage `Cargo.lock` changes automatically.
    pub cargo_lock: bool,
    /// Create `arborium-header.html` files for enhanced rustdoc syntax highlighting.
    pub arborium: bool,
    /// Require Rust edition 2024 in all workspace crates.
    pub edition_2024: bool,
    /// Check for path dependencies pointing outside the workspace.
    /// These are typically local development overrides that should not be committed.
    pub external_path_deps: bool,
    /// Forbid internal dev-dependencies with `workspace = true` or `path` and `version`.
    pub internal_dev_deps_release_plz: bool,
}

/// Configuration for pre-push hooks.
#[derive(Debug, Clone)]
pub struct PrePushConfig {
    /// Run `cargo clippy` with warnings as errors.
    pub clippy: bool,
    /// Features to pass to clippy. If `None`, uses `--all-features`.
    pub clippy_features: Option<Vec<String>>,
    /// Run tests via `cargo nextest`.
    pub nextest: bool,
    /// Run documentation tests via `cargo test --doc`.
    pub doc_tests: bool,
    /// Features to pass to doc tests. If `None`, uses `--all-features`.
    pub doc_test_features: Option<Vec<String>>,
    /// Build documentation with `cargo doc` and treat warnings as errors.
    pub docs: bool,
    /// Features to pass to rustdoc. If `None`, uses `--all-features`.
    pub docs_features: Option<Vec<String>>,
    /// Check for unused dependencies with `cargo-shear`.
    pub cargo_shear: bool,
}

/// The pre-commit settings of a repository that sets none: every check and every job but
/// the deprecated one is on.
pub open spec fn default_pre_commit() -> PreCommitConfig {
    PreCommitConfig {
        generate_readmes: false,
        rustfmt: true,
        cargo_lock: true,
        arborium: true,
        edition_2024: true,
        external_path_deps: true,
        internal_dev_deps_release_plz: true,
    }
}

/// The pre-push settings of a repository that sets none: every check but the
/// documentation tests is on, with all features.
pub open spec fn default_pre_push() -> PrePushConfig {
    PrePushConfig {
        clippy: true,
        clippy_features: None,
        nextest: true,
        doc_tests: false,
        doc_test_features: None,
        docs: true,
        docs_features: None,
        cargo_shear: true,
    }
}

/// The settings of a repository that sets none.
pub open spec fn default_config() -> CaptainConfig {
    CaptainConfig { pre_commit: default_pre_commit(), pre_push: default_pre_push() }
}

impl Default for PreCommitConfig {
    fn default() -> (r: Self)
        ensures
            r == default_pre_commit(),
    {
        PreCommitConfig {
            generate_readmes: false,
            rustfmt: true,
            cargo_lock: true,
            arborium: true,
            edition_2024: true,
            external_path_deps: true,
            internal_dev_deps_release_plz: true,
        }
    }
}

impl Default for PrePushConfig {
    fn default() -> (r: Self)
        ensures
            r == default_pre_push(),
    {
        PrePushConfig {
            clippy: true,
            clippy_features: None,
            nextest: true,
            doc_tests: false,
            doc_test_features: None,
            docs: true,
            docs_features: None,
            cargo_shear: true,
        }
    }
}

impl Default for CaptainConfig {
    fn default() -> (r: Self)
        ensures
            r == default_config(),
    {
        CaptainConfig { pre_commit: PreCommitConfig::default(), pre_push: PrePushConfig::default() }
    }
}

/// Where the configuration is looked for, in this order.
pub const CONFIG_PATH: &'static str = ".config/capn/config.styx";

/// Where the configuration was kept before.
pub const LEGACY_CONFIG_PATH: &'static str = ".config/captain/config.styx";

/// The configuration that counts: the current one, else the legacy one, else the default.
pub open spec fn chosen_config(
    current: Option<CaptainConfig>,
    legacy: Option<CaptainConfig>,
) -> CaptainConfig {
    match current {
        Some(config) => config,
        None => match legacy {
            Some(config) => config,
            None => default_config(),
        },
    }
}

/// Chooses the configuration: the one read from `.config/capn/`, else the one read from
/// the legacy `.config/captain/`, else the default.
pub fn load_captain_config(current: Option<CaptainConfig>, legacy: Option<CaptainConfig>) -> (r:
    CaptainConfig)
    ensures
        r == match (current, legacy) {
            (Some(config), _) => config,
            (None, Some(config)) => config,
            (None, None) => default_config(),
        },
        r == chosen_config(current, legacy),
{
    match current {
        Some(config) => config,
        None => match legacy {
            Some(config) => config,
            None => CaptainConfig::default(),
        },
    }
}

// ---- mercy ----

/// The level that a value of `HAVE_MERCY` asks for: its number, or 1 where it is no number
/// of a byte.
pub open spec fn mercy(value: Seq<char>) -> nat {
    match unsigned(value, 255) {
        Some(level) => level,
        None => 1,
    }
}

/// The level that a value of `HAVE_MERCY` asks for.
pub fn mercy_level(value: &str) -> (r: u8)
    ensures
        r == mercy(value@),
{
    match parse_unsigned(value, 255) {
        Some(level) => level as u8,
        None => 1,
    }
}

/// The pre-push settings under mercy: level 1 switches off tests, documentation tests and
/// documentation, level 2 clippy too, level 3 everything.
pub open spec fn with_mercy(config: PrePushConfig, level: nat) -> PrePushConfig {
    PrePushConfig {
        nextest: config.nextest && level < 1,
        doc_tests: config.doc_tests && level < 1,
        docs: config.docs && level < 1,
        clippy: config.clippy && level < 2,
        cargo_shear: config.cargo_shear && level < 3,
        ..config
    }
}

/// The checks that a level of mercy skips, as they are announced.
pub open spec fn mercy_skips(level: nat) -> Seq<Seq<char>> {
    (if level >= 1 {
        seq!["nextest"@, "doc-tests"@, "docs"@]
    } else {
        Seq::empty()
    }) + (if level >= 2 {
        seq!["clippy"@]
    } else {
        Seq::empty()
    }) + (if level >= 3 {
        seq!["cargo-shear"@]
    } else {
        Seq::empty()
    })
}

/// The line that announces mercy.
pub open spec fn mercy_banner(level: nat) -> Seq<char> {
    "🙏 HAVE_MERCY="@ + decimal(level) + ": skipping "@ + joined(mercy_skips(level), ", "@)
}

/// Switches off what a value of `HAVE_MERCY` says to skip, and announces it.
pub fn have_mercy(config: &mut CaptainConfig, value: &str) -> (r: String)
    ensures
        final(config).pre_push == with_mercy(old(config).pre_push, mercy(value@)),
        final(config).pre_commit == old(config).pre_commit,
        r@ == mercy_banner(mercy(value@)),
{
    let level = mercy_level(value);
    let mut skipped: Vec<String> = Vec::new();
    if level >= 1 {
        config.pre_push.nextest = false;
        config.pre_push.doc_tests = false;
        config.pre_push.docs = false;
        skipped.push("nextest".to_owned());
        skipped.push("doc-tests".to_owned());
        skipped.push("docs".to_owned());
    }
    if level >= 2 {
        config.pre_push.clippy = false;
        skipped.push("clippy".to_owned());
    }
    if level >= 3 {
        config.pre_push.cargo_shear = false;
        skipped.push("cargo-shear".to_owned());
    }
    proof {
        assert(texts(skipped@) =~= mercy_skips(level as nat));
    }
    let mut banner = "🙏 HAVE_MERCY=".to_owned();
    banner.append(number(level as u64).as_str());
    banner.append(": skipping ");
    banner.append(join(&skipped, ", ").as_str());
    banner
}

/// A settings value as a list: the name where the setting is off.
pub open spec fn named_if_off(on: bool, name: Seq<char>) -> Seq<Seq<char>> {
    if on {
        Seq::empty()
    } else {
        seq![name]
    }
}

/// The pre-push checks that are off.
pub open spec fn disabled_checks(config: PrePushConfig) -> Seq<Seq<char>> {
    named_if_off(config.clippy, "clippy"@) + named_if_off(config.nextest, "nextest"@)
        + named_if_off(config.doc_tests, "doc-tests"@) + named_if_off(config.docs, "docs"@)
        + named_if_off(config.cargo_shear, "cargo-shear"@)
}

/// Announces the checks that are off, unless none is or mercy was announced already.
pub fn disabled_notice(config: &PrePushConfig, mercy: bool) -> (r: Option<String>)
    ensures
        match r {
            Some(line) => !mercy && disabled_checks(*config).len() > 0 && line@
                == "⏭️  Disabled via config: "@ + joined(disabled_checks(*config), ", "@),
            None => mercy || disabled_checks(*config).len() == 0,
        },
{
    let mut disabled: Vec<String> = Vec::new();
    if !config.clippy {
        disabled.push("clippy".to_owned());
    }
    if !config.nextest {
        disabled.push("nextest".to_owned());
    }
    if !config.doc_tests {
        disabled.push("doc-tests".to_owned());
    }
    if !config.docs {
        disabled.push("docs".to_owned());
    }
    if !config.cargo_shear {
        disabled.push("cargo-shear".to_owned());
    }
    proof {
        assert(texts(disabled@) =~= disabled_checks(*config));
    }
    if disabled.len() == 0 || mercy {
        return None;
    }
    let mut line = "⏭️  Disabled via config: ".to_owned();
    line.append(join(&disabled, ", ").as_str());
    Some(line)
}

/// Mercy never switches a check on, and more of it never skips less.
pub proof fn lemma_mercy_only_skips(config: PrePushConfig, less: nat, more: nat)
    requires
        less <= more,
    ensures
        with_mercy(config, more).clippy ==> with_mercy(config, less).clippy,
        with_mercy(config, more).nextest ==> with_mercy(config, less).nextest,
        with_mercy(config, more).doc_tests ==> with_mercy(config, less).doc_tests,
        with_mercy(config, more).docs ==> with_mercy(config, less).docs,
        with_mercy(config, more).cargo_shear ==> with_mercy(config, less).cargo_shear,
        with_mercy(config, 0) == config,
        mercy_skips(less).is_prefix_of(mercy_skips(more)),
{
    assert(mercy_skips(less) =~= mercy_skips(more).take(mercy_skips(less).len() as int));
}

/// Mercy skips what it announces and nothing else: a check stays on exactly if it was on and
/// is not announced. The features stay as they were.
pub proof fn lemma_mercy_skips_what_it_announces(config: PrePushConfig, level: nat)
    ensures
        with_mercy(config, level).nextest == (config.nextest && !mercy_skips(level).contains(
            "nextest"@,
        )),
        with_mercy(config, level).doc_tests == (config.doc_tests && !mercy_skips(level).contains(
            "doc-tests"@,
        )),
        with_mercy(config, level).docs == (config.docs && !mercy_skips(level).contains("docs"@)),
        with_mercy(config, level).clippy == (config.clippy && !mercy_skips(level).contains(
            "clippy"@,
        )),
        with_mercy(config, level).cargo_shear == (config.cargo_shear && !mercy_skips(
            level,
        ).contains("cargo-shear"@)),
        with_mercy(config, level).clippy_features == config.clippy_features,
        with_mercy(config, level).doc_test_features == config.doc_test_features,
        with_mercy(config, level).docs_features == config.docs_features,
{
    reveal_strlit("nextest");
    reveal_strlit("doc-tests");
    reveal_strlit("docs");
    reveal_strlit("clippy");
    reveal_strlit("cargo-shear");
    let skips = mercy_skips(level);
    assert("nextest"@[0] == 'n' && "doc-tests"@[0] == 'd' && "docs"@[0] == 'd');
    assert("clippy"@[1] == 'l' && "cargo-shear"@[1] == 'a' && "clippy"@[0] == 'c');
    assert("cargo-shear"@[0] == 'c');
    if level >= 1 {
        assert(skips[0] == "nextest"@ && skips[1] == "doc-tests"@ && skips[2] == "docs"@);
    }
    if level >= 2 {
        assert(skips[3] == "clippy"@);
    }
    if level >= 3 {
        assert(skips[4] == "cargo-shear"@);
    }
}

/// What the README promises of a repository that sets nothing: every check and every job is
/// on, but for the READMEs and the documentation tests, and all features are checked.
pub proof fn lemma_defaults()
    ensures
        ({
            let commit = default_config().pre_commit;
            let push = default_config().pre_push;
            &&& !commit.generate_readmes
            &&& commit.rustfmt && commit.cargo_lock && commit.arborium && commit.edition_2024
            &&& commit.external_path_deps && commit.internal_dev_deps_release_plz
            &&& push.clippy && push.nextest && push.docs && push.cargo_shear
            &&& !push.doc_tests
            &&& push.clippy_features is None && push.doc_test_features is None
                && push.docs_features is None
        }),
{
}

/// A number of a byte asks for that level of mercy; anything else, a greater number too, for
/// level 1.
pub proof fn lemma_mercy(value: Seq<char>, i: int, n: nat)
    ensures
        mercy(decimal(n)) == if n <= 255 {
            n
        } else {
            1
        },
        value.len() == 0 ==> mercy(value) == 1,
        value.len() > 0 && !('0' <= value[0] <= '9') && value[0] != '+' ==> mercy(value) == 1,
        0 < i < value.len() && !('0' <= value[i] <= '9') ==> mercy(value) == 1,
{
    lemma_number_is_read(n, 255);
    lemma_no_number(value, i, 255);
}

/// The first level of mercy switches off tests, documentation tests and documentation, the
/// second clippy too, the third the search for unused dependencies too; a level switches off
/// what it says and leaves the rest as it was.
pub proof fn lemma_mercy_levels(config: PrePushConfig, level: nat)
    ensures
        level == 0 ==> with_mercy(config, level) == config,
        level >= 1 ==> ({
            let left = with_mercy(config, level);
            &&& !left.nextest && !left.doc_tests && !left.docs
            &&& left.clippy == (config.clippy && level == 1)
            &&& left.cargo_shear == (config.cargo_shear && level <= 2)
        }),
        level == 1 ==> mercy_skips(level) == seq!["nextest"@, "doc-tests"@, "docs"@],
        level == 2 ==> mercy_skips(level) == seq!["nextest"@, "doc-tests"@, "docs"@, "clippy"@],
        level >= 3 ==> mercy_skips(level) == seq![
            "nextest"@,
            "doc-tests"@,
            "docs"@,
            "clippy"@,
            "cargo-shear"@,
        ],
{
    assert(level == 1 ==> mercy_skips(level) =~= seq!["nextest"@, "doc-tests"@, "docs"@]);
    assert(level == 2 ==> mercy_skips(level) =~= seq![
        "nextest"@,
        "doc-tests"@,
        "docs"@,
        "clippy"@,
    ]);
    assert(level >= 3 ==> mercy_skips(level) =~= seq![
        "nextest"@,
        "doc-tests"@,
        "docs"@,
        "clippy"@,
        "cargo-shear"@,
    ]);
}

/// A check is announced as disabled exactly if its setting is off.
pub proof fn lemma_disabled_checks(config: PrePushConfig)
    ensures
        disabled_checks(config).contains("clippy"@) == !config.clippy,
        disabled_checks(config).contains("nextest"@) == !config.nextest,
        disabled_checks(config).contains("doc-tests"@) == !config.doc_tests,
        disabled_checks(config).contains("docs"@) == !config.docs,
        disabled_checks(config).contains("cargo-shear"@) == !config.cargo_shear,
{
    reveal_strlit("nextest");
    reveal_strlit("doc-tests");
    reveal_strlit("docs");
    reveal_strlit("clippy");
    reveal_strlit("cargo-shear");
    assert("nextest"@[0] == 'n' && "doc-tests"@[0] == 'd' && "docs"@[0] == 'd');
    assert("clippy"@[1] == 'l' && "cargo-shear"@[1] == 'a' && "clippy"@[0] == 'c');
    assert("cargo-shear"@[0] == 'c');
    assert("doc-tests"@.len() == 9 && "docs"@.len() == 4);
    let a = named_if_off(config.clippy, "clippy"@);
    let b = named_if_off(config.nextest, "nextest"@);
    let c = named_if_off(config.doc_tests, "doc-tests"@);
    let d = named_if_off(config.docs, "docs"@);
    let e = named_if_off(config.cargo_shear, "cargo-shear"@);
    let all = disabled_checks(config);
    assert(all == a + b + c + d + e);
    if !config.clippy {
        assert(all[0] == "clippy"@);
    }
    if !config.nextest {
        assert(all[a.len() as int] == "nextest"@);
    }
    if !config.doc_tests {
        assert(all[(a.len() + b.len()) as int] == "doc-tests"@);
    }
    if !config.docs {
        assert(all[(a.len() + b.len() + c.len()) as int] == "docs"@);
    }
    if !config.cargo_shear {
        assert(all[(a.len() + b.len() + c.len() + d.len()) as int] == "cargo-shear"@);
    }
}

/// Mercy is announced with its level and the checks that it skips.
pub proof fn lemma_mercy_banner(level: nat)
    ensures
        mercy_banner(1) == "🙏 HAVE_MERCY=1: skipping nextest, doc-tests, docs"@,
        mercy_banner(2) == "🙏 HAVE_MERCY=2: skipping nextest, doc-tests, docs, clippy"@,
        level >= 3 ==> mercy_banner(level) == "🙏 HAVE_MERCY="@ + decimal(level)
            + ": skipping nextest, doc-tests, docs, clippy, cargo-shear"@,
{
    reveal_strlit("🙏 HAVE_MERCY=1: skipping nextest, doc-tests, docs");
    reveal_strlit("🙏 HAVE_MERCY=2: skipping nextest, doc-tests, docs, clippy");
    reveal_strlit("🙏 HAVE_MERCY=");
    reveal_strlit(": skipping ");
    reveal_strlit(": skipping nextest, doc-tests, docs, clippy, cargo-shear");
    reveal_strlit("nextest");
    reveal_strlit("doc-tests");
    reveal_strlit("docs");
    reveal_strlit("clippy");
    reveal_strlit("cargo-shear");
    reveal_strlit(", ");
    reveal_with_fuel(joined, 6);
    let three = seq!["nextest"@, "doc-tests"@, "docs"@];
    let four = three.push("clippy"@);
    let five = four.push("cargo-shear"@);
    assert(mercy_skips(1) =~= three && mercy_skips(2) =~= four);
    assert(level >= 3 ==> mercy_skips(level) =~= five);
    assert(five.drop_last() =~= four && four.drop_last() =~= three);
    assert(three.drop_last() =~= seq!["nextest"@, "doc-tests"@]);
    assert(seq!["nextest"@, "doc-tests"@].drop_last() =~= seq!["nextest"@]);
    lemma_decimal(0, 1);
    lemma_decimal(0, 2);
    assert(decimal(1) =~= seq!['1'] && decimal(2) =~= seq!['2']);
    assert(mercy_banner(1) =~= "🙏 HAVE_MERCY=1: skipping nextest, doc-tests, docs"@);
    assert(mercy_banner(2) =~= "🙏 HAVE_MERCY=2: skipping nextest, doc-tests, docs, clippy"@);
    if level >= 3 {
        assert(mercy_banner(level) =~= "🙏 HAVE_MERCY="@ + decimal(level)
            + ": skipping nextest, doc-tests, docs, clippy, cargo-shear"@);
    }
}

/// The current configuration counts whatever the legacy one says, the legacy one where there is
/// no current one, and neither is changed.
pub proof fn lemma_chosen_config(
    config: CaptainConfig,
    other: Option<CaptainConfig>,
)
    ensures
        chosen_config(Some(config), other) == config,
        chosen_config(None, Some(config)) == config,
        chosen_config(None, None) == default_config(),
{
}

} // verus!
