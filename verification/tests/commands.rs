use capn::commands::clean::{
    cleaned_line, describe_target, nothing_to_clean, run_clean, shared_target_dir,
};
use capn::commands::debug_packages::{debug_packages, describe_load_problem};
use capn::commands::init::{
    in_repository, is_yes, prompt_line, prompt_yes_no, run_init, start_init, InitAnswers,
    InitFile, InitQuestion,
};
use capn::commands::migrate::{next_archive_path, run_migrate, Migration};
use capn::install::{install, parse_command, Command};
use capn::metadata::{Metadata, Package};
use capn::output::CommandOutput;
use capn::shim::{after_failure, attempt_command, capn_path, exit_code, Attempt, Fallback};

fn strings(list: &[&str]) -> Vec<String> {
    list.iter().map(|s| s.to_string()).collect()
}

#[test]
fn questions_have_defaults() {
    assert_eq!(prompt_line("Go?", true), "Go? [Y/n] ");
    assert_eq!(prompt_line("Go?", false), "Go? [y/N] ");
    let answer = |line: &str, default: bool| prompt_yes_no(&Some(line.to_string()), default);
    for line in ["y\n", "Y\n", "yes", " YES \r\n", "yEs"] {
        assert!(answer(line, false), "{:?}", line);
    }
    for line in ["n\n", "no", "yess", "ja", "y y", "É"] {
        assert!(!answer(line, true), "{:?}", line);
    }
    for line in ["", "\n", " \t\n"] {
        assert!(answer(line, true));
        assert!(!answer(line, false));
    }
    assert!(prompt_yes_no(&None, true));
    assert!(!prompt_yes_no(&None, false));
    assert!(is_yes("yes", false) && !is_yes("YES", true) && is_yes("", true));
}

fn checked(code: Option<i32>) -> Result<CommandOutput, String> {
    Ok(CommandOutput { code, stdout: b".git\n".to_vec(), stderr: Vec::new() })
}

fn init_in(dir: &str, answers: &InitAnswers, config_exists: bool) -> Vec<InitFile> {
    run_init(&checked(Some(0)), dir, answers, config_exists).ok().unwrap()
}

#[test]
fn init_outside_a_repository_does_nothing() {
    let all = InitAnswers { hooks: true, conductor: true, config: true };
    for check in [checked(Some(128)), checked(None), Err("no git".to_string())] {
        assert!(!in_repository(&check));
        let refusal = start_init(&check).err().unwrap();
        assert_eq!(refusal.exit_code, 1);
        assert_eq!(refusal.line, "Not in a git repository. Please run 'git init' first.");
        assert_eq!(run_init(&check, "/repo", &all, false).err(), Some(1));
    }
    assert!(in_repository(&checked(Some(0))));
    assert!(start_init(&checked(Some(0))).is_ok());
}

#[test]
fn a_configuration_that_is_there_is_not_asked_about() {
    for question in [InitQuestion::Hooks, InitQuestion::Conductor, InitQuestion::Config] {
        assert!(question.is_asked(false));
        assert_eq!(question.is_asked(true), question != InitQuestion::Config);
        assert!(question.text().starts_with("Create "));
    }
}

#[test]
fn init_writes_what_was_asked_for() {
    let all = InitAnswers { hooks: true, conductor: true, config: true };
    let files = init_in("/repo", &all, false);
    let listed: Vec<(&str, bool)> =
        files.iter().map(|f| (f.path.as_str(), f.executable)).collect();
    assert_eq!(
        listed,
        vec![
            ("/repo/hooks/pre-commit", true),
            ("/repo/hooks/pre-push", true),
            ("/repo/hooks/install.sh", true),
            ("/repo/conductor.json", false),
            ("/repo/.config/capn/config.styx", false),
        ]
    );
    assert_eq!(files[0].content, "#!/bin/bash\ncapn\n");
    assert_eq!(files[1].content, "#!/bin/bash\ncapn pre-push\n");
    assert!(files[2].content.starts_with("#!/usr/bin/env bash\nset -euo pipefail\n"));
    assert!(files[2].content.contains("  echo \"✔ installed $(basename \"$src\") → $dst\"\n"));
    assert!(files[2].content.ends_with("echo \"All hooks installed successfully.\"\n"));
    assert_eq!(
        files[3].content,
        "{\n  \"scripts\": {\n    \"setup\": \"hooks/install.sh\"\n  }\n}\n"
    );
    assert!(files[4].content.starts_with("@schema {id crate:capn-config@1, cli capn}\n"));
    assert!(files[4].content.contains("  // internal-dev-deps-release-plz false\n"));
    // A configuration that is there is kept.
    assert_eq!(init_in("/repo", &all, true).len(), 4);
    let none = InitAnswers { hooks: false, conductor: false, config: false };
    assert!(init_in("/repo", &none, false).is_empty());
    // Answer by answer the same files are written.
    let mut one_by_one: Vec<String> = Vec::new();
    for question in [InitQuestion::Hooks, InitQuestion::Conductor, InitQuestion::Config] {
        let answers = InitAnswers::to(question, true);
        one_by_one.extend(init_in("/repo", &answers, false).into_iter().map(|f| f.path));
    }
    let together: Vec<String> = files.into_iter().map(|f| f.path).collect();
    assert_eq!(one_by_one, together);
}

#[test]
fn legacy_configuration_is_moved_or_put_aside() {
    assert!(matches!(run_migrate("/r", false, true, &Vec::new()), Migration::Nothing));
    assert!(matches!(run_migrate("/r", false, false, &Vec::new()), Migration::Nothing));
    match run_migrate("/r", true, false, &strings(&["captain"])) {
        Migration::Move(from, to) => {
            assert_eq!((from.as_str(), to.as_str()), ("/r/.config/captain", "/r/.config/capn"))
        }
        _ => panic!("it is moved"),
    }
    match run_migrate("/r", true, true, &strings(&["captain", "capn"])) {
        Migration::Archive(from, to) => assert_eq!(
            (from.as_str(), to.as_str()),
            ("/r/.config/captain", "/r/.config/captain.migrated")
        ),
        _ => panic!("it is put aside"),
    }
}

#[test]
fn archives_do_not_overwrite_each_other() {
    let path = |names: &[&str]| next_archive_path("/c", &strings(names));
    assert_eq!(path(&[]), "/c/captain.migrated");
    assert_eq!(path(&["captain.migrated"]), "/c/captain.migrated.1");
    assert_eq!(
        path(&["captain.migrated.2", "captain.migrated.1", "captain.migrated"]),
        "/c/captain.migrated.3"
    );
    assert_eq!(path(&["captain.migrated", "captain.migrated.2"]), "/c/captain.migrated.1");
    let mut names: Vec<String> = (1..25).map(|n| format!("captain.migrated.{}", n)).collect();
    names.push("captain.migrated".to_string());
    assert_eq!(next_archive_path("/c", &names), "/c/captain.migrated.25");
}

#[test]
fn the_shared_target_directory_is_removed_on_demand() {
    assert_eq!(shared_target_dir("/home/me"), "/home/me/.captain/target");
    assert_eq!(
        nothing_to_clean("/t"),
        "\u{1b}[2mTarget directory does not exist: /t\u{1b}[0m"
    );
    assert_eq!(
        describe_target("/t", 1536),
        strings(&[
            "Captain's shared target directory:",
            "  \u{1b}[36m/t\u{1b}[39m \u{1b}[1m\u{1b}[33m1.5 KB\u{1b}[39m\u{1b}[0m",
            ""
        ])
    );
    assert!(run_clean(&Some("Y\n".to_string())));
    assert!(run_clean(&Some("yes".to_string())));
    assert!(!run_clean(&Some("\n".to_string())));
    assert!(!run_clean(&Some("no".to_string())));
    assert!(!run_clean(&None));
    assert_eq!(
        cleaned_line(2048),
        "\u{1b}[32m✓\u{1b}[39m Cleaned 2.0 KB of build artifacts"
    );
}

fn package(name: &str, dir: &str) -> Package {
    Package {
        id: format!("id-{}", name),
        name: name.to_string(),
        manifest_path: format!("{}/Cargo.toml", dir),
        edition: "2024".to_string(),
        has_source: false,
    }
}

#[test]
fn packages_are_listed() {
    let mut metadata = Metadata {
        workspace_root: "/w".to_string(),
        workspace_members: strings(&["id-b", "id-gone", "id-a"]),
        packages: vec![package("a", "/w/a"), package("b", "/w/b"), package("x", "/x")],
        resolve_root: None,
        workspace_default_members: Vec::new(),
    };
    assert_eq!(
        debug_packages(&metadata),
        strings(&[
            "\u{1b}[1m\u{1b}[36m\n📦 Workspace Members:\u{1b}[39m\u{1b}[0m",
            "  ✓ b (/w/b)",
            "  ✓ a (/w/a)",
            "\u{1b}[1m\u{1b}[33m\n🚫 Excluded Packages:\u{1b}[39m\u{1b}[0m",
            "  ✗ x (/x)",
            "\n✅ Total packages: 3"
        ])
    );
    metadata.packages.pop();
    assert_eq!(
        debug_packages(&metadata)[3],
        "\u{1b}[1m\u{1b}[33m\n🚫 Excluded Packages: None\u{1b}[39m\u{1b}[0m"
    );
    metadata.workspace_members.clear();
    assert_eq!(
        debug_packages(&metadata),
        strings(&["\u{1b}[33mNo workspace members found (empty virtual workspace)\u{1b}[39m"])
    );
}

#[test]
fn a_directory_without_a_project_is_no_error() {
    let problem = describe_load_problem("error: could not find `Cargo.toml` in `/x`");
    assert_eq!(problem.line, "\u{1b}[33mNo Cargo.toml found, nothing to do\u{1b}[39m");
    assert!(!problem.is_error);
    let problem = describe_load_problem("manifest is a virtual manifest");
    assert!(!problem.is_error);
    assert!(problem.line.contains("empty virtual workspace"));
    let problem = describe_load_problem("broken");
    assert!(problem.is_error);
    assert_eq!(problem.line, "Failed to get workspace metadata: broken");
}

#[test]
fn the_shim_forwards() {
    assert_eq!(capn_path(&Some("/usr/bin/captain".to_string())), "/usr/bin/capn");
    assert_eq!(capn_path(&None), "capn");
    let exe = Some("/b/captain".to_string());
    let args = strings(&["pre-push", "-v"]);
    assert_eq!(
        attempt_command(Attempt::Direct, &exe, &args),
        strings(&["/b/capn", "pre-push", "-v"])
    );
    assert_eq!(
        attempt_command(Attempt::SearchPath, &exe, &args),
        strings(&["capn", "pre-push", "-v"])
    );
    assert_eq!(
        attempt_command(Attempt::Cargo, &exe, &args),
        strings(&["cargo", "run", "--quiet", "--bin", "capn", "--", "pre-push", "-v"])
    );
    assert!(matches!(
        after_failure(Attempt::Direct, true, "x"),
        Fallback::Try(Attempt::SearchPath)
    ));
    assert!(matches!(
        after_failure(Attempt::SearchPath, true, "x"),
        Fallback::Try(Attempt::Cargo)
    ));
    assert!(matches!(
        after_failure(Attempt::Cargo, true, "x"),
        Fallback::Fail(t) if t == "Failed to execute `capn` (direct, PATH, cargo fallback): x"
    ));
    assert!(matches!(
        after_failure(Attempt::Direct, false, "x"),
        Fallback::Fail(t) if t == "Failed to execute `capn`: x"
    ));
    assert_eq!(exit_code(Some(7)), 7);
    assert_eq!(exit_code(None), 1);
}

#[test]
fn binaries_are_installed() {
    assert!(matches!(parse_command(&Some("install".to_string())), Command::Install));
    assert!(matches!(
        parse_command(&Some("build".to_string())),
        Command::Unknown(a, b) if a == "Unknown command: build" && b == "Available commands: install"
    ));
    assert!(matches!(
        parse_command(&None),
        Command::Unknown(a, _) if a == "Usage: cargo xtask <command>"
    ));
    assert_eq!(
        install("/home/me"),
        vec![
            ("target/release/capn".to_string(), "/home/me/.cargo/bin/capn".to_string()),
            ("target/release/captain".to_string(), "/home/me/.cargo/bin/captain".to_string())
        ]
    );
}
