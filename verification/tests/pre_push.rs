use capn::commands::cargo_tasks::{
    build_tests_args, build_tests_task, cargo_shear_args, cargo_shear_task,
    cargo_subcommand_missing_message, clippy_args, clippy_task, contains_any, doc_tests_args,
    doc_tests_task, docs_args, docs_env, docs_task, indicates_missing_cargo_subcommand, nothing_to_test,
    run_tests_args, run_tests_task, should_skip_doc_tests,
};
use capn::commands::pre_push::{
    compute_affected_crates_task, git_fetch_and_diff_task, git_info, group_by_crate,
    load_metadata_task, output_on_success, plan_pre_push, pre_push_verdict, run_pre_push,
    tasks_to_start, GitInfo, PrePushTask,
};
use capn::config::{have_mercy, CaptainConfig};
use capn::metadata::{Metadata, Package};
use capn::output::{
    color_env, describe_failure, format_command_failure, maybe_strip_bytes, ColorSupport, CommandOutput,
};
use capn::task::{TaskResult, TaskResults};

fn package(name: &str, dir: &str) -> Package {
    Package {
        id: format!("path+file://{}#{}@0.1.0", dir, name),
        name: name.to_string(),
        manifest_path: format!("{}/Cargo.toml", dir),
        edition: "2024".to_string(),
        has_source: false,
    }
}

/// A workspace with a root crate, two members, and a package that is no member.
fn workspace() -> Metadata {
    let packages = vec![
        package("root", "/w"),
        package("zeta", "/w/crates/zeta"),
        package("alpha", "/w/crates/alpha"),
        package("demo", "/w/demo"),
    ];
    Metadata {
        workspace_root: "/w".to_string(),
        workspace_members: packages[..3].iter().map(|p| p.id.clone()).collect(),
        packages,
        resolve_root: None,
        workspace_default_members: Vec::new(),
    }
}

fn strings(list: &[&str]) -> Vec<String> {
    list.iter().map(|s| s.to_string()).collect()
}

fn changed(files: &[&str]) -> GitInfo {
    GitInfo {
        origin_main_sha: "abc".to_string(),
        head_sha: "def".to_string(),
        commit_count: 1,
        changed_files: strings(files),
        fetch_failed: false,
    }
}

fn output(code: Option<i32>, stdout: &str, stderr: &str) -> Result<CommandOutput, String> {
    Ok(CommandOutput {
        code,
        stdout: stdout.as_bytes().to_vec(),
        stderr: stderr.as_bytes().to_vec(),
    })
}

fn failure(result: TaskResult) -> (String, String) {
    match result {
        TaskResult::Failed { summary, details } => (summary, details),
        _ => panic!("a failure was expected"),
    }
}

const PLAIN: ColorSupport = ColorSupport { stdout: false, stderr: false };

#[test]
fn documentation_is_built_with_warnings_as_errors() {
    assert_eq!(docs_env(), vec![("RUSTDOCFLAGS".to_string(), "-D warnings".to_string())]);
    assert_eq!(
        color_env(),
        vec![
            ("FORCE_COLOR".to_string(), "1".to_string()),
            ("CARGO_TERM_COLOR".to_string(), "always".to_string()),
        ]
    );
}

#[test]
fn changes_affect_the_nearest_crate() {
    let affected = compute_affected_crates_task(
        &workspace(),
        &changed(&[
            "crates/zeta/src/lib.rs",
            "README.md",
            "crates/alpha/Cargo.toml",
            "crates/zeta/tests/deep/er.rs",
            "demo/src/main.rs",
            "/w/crates/alpha/x.rs",
        ]),
    )
    .ok()
    .unwrap();
    assert_eq!(affected.crates, strings(&["alpha", "root", "zeta"]));
    assert_eq!(
        affected.crate_to_files,
        vec![
            ("alpha".to_string(), strings(&["crates/alpha/Cargo.toml", "/w/crates/alpha/x.rs"])),
            ("root".to_string(), strings(&["README.md"])),
            (
                "zeta".to_string(),
                strings(&["crates/zeta/src/lib.rs", "crates/zeta/tests/deep/er.rs"])
            ),
        ]
    );
}

#[test]
fn a_file_outside_all_crates_affects_none() {
    let mut metadata = workspace();
    metadata.packages.remove(0);
    let groups = group_by_crate(&metadata, &strings(&["README.md", "crates/other/x.rs"]));
    assert!(groups.is_empty());
}

#[test]
fn the_last_of_two_crates_in_a_directory_counts() {
    let mut metadata = workspace();
    metadata.packages.push(package("other", "/w/crates/zeta"));
    metadata.workspace_members.push(metadata.packages[4].id.clone());
    let groups = group_by_crate(&metadata, &strings(&["crates/zeta/a.rs"]));
    assert_eq!(groups, vec![("other".to_string(), strings(&["crates/zeta/a.rs"]))]);
}

#[test]
fn no_changes_and_no_crates_are_failures() {
    let (summary, details) =
        failure(compute_affected_crates_task(&workspace(), &changed(&[])).err().unwrap());
    assert_eq!((summary.as_str(), details.as_str()), ("no changes", "No changes detected"));
    let (summary, details) = failure(
        compute_affected_crates_task(&workspace(), &changed(&["demo/a.rs"])).err().unwrap(),
    );
    assert_eq!(
        (summary.as_str(), details.as_str()),
        ("no crates affected", "No publishable crates affected by changes")
    );
}

#[test]
fn metadata_is_taken_in() {
    assert!(load_metadata_task(Ok(workspace())).is_ok());
    let mut empty = workspace();
    empty.workspace_members.clear();
    let told = |message: &str| failure(load_metadata_task(Err(message.to_string())).err().unwrap());
    let expected = (
        "empty workspace".to_string(),
        "No workspace members found, skipping pre-push checks".to_string(),
    );
    assert_eq!(failure(load_metadata_task(Ok(empty)).err().unwrap()), expected);
    assert_eq!(told("this is a virtual manifest"), expected);
    assert_eq!(told("the workspace has no members"), expected);
    assert_eq!(
        told("could not find `Cargo.toml`"),
        (
            "no Cargo.toml".to_string(),
            "No Cargo.toml found, skipping pre-push checks".to_string()
        )
    );
    assert_eq!(told("boom"), ("failed to load".to_string(), "boom".to_string()));
}

#[test]
fn git_outputs_are_gathered() {
    let info = git_fetch_and_diff_task(
        &output(Some(0), "", ""),
        &output(Some(0), "abc1234\n", ""),
        &output(Some(0), "  def5678\n", ""),
        &output(Some(0), "12\n", ""),
        &output(Some(0), "a.rs\nb/c.rs\n", ""),
    )
    .ok()
    .unwrap();
    assert_eq!(info.origin_main_sha, "abc1234");
    assert_eq!(info.head_sha, "def5678");
    assert_eq!(info.commit_count, 12);
    assert_eq!(info.changed_files, strings(&["a.rs", "b/c.rs"]));
    assert!(!info.fetch_failed);
}

#[test]
fn only_the_diff_has_to_succeed() {
    let info = git_fetch_and_diff_task(
        &Err("no git".to_string()),
        &output(Some(128), "ignored", ""),
        &Err("no git".to_string()),
        &output(Some(0), "many", ""),
        &output(Some(0), "", ""),
    )
    .ok()
    .unwrap();
    assert_eq!(info.origin_main_sha, "origin/main");
    assert_eq!(info.head_sha, "HEAD");
    assert_eq!(info.commit_count, 0);
    assert!(info.changed_files.is_empty());
    assert!(info.fetch_failed);

    let fine = output(Some(0), "", "");
    let failed = git_fetch_and_diff_task(
        &output(Some(1), "", ""),
        &fine,
        &fine,
        &fine,
        &output(Some(1), "", "fatal: bad revision"),
    );
    assert_eq!(
        failure(failed.err().unwrap()),
        ("git diff failed".to_string(), "fatal: bad revision".to_string())
    );
    let failed =
        git_fetch_and_diff_task(&fine, &fine, &fine, &fine, &Err("not found".to_string()));
    assert_eq!(
        failure(failed.err().unwrap()),
        ("git diff failed".to_string(), "not found".to_string())
    );
}

#[test]
fn git_info_from_texts() {
    let info = git_info(true, &None, &Some(" x ".to_string()), &Some("4294967296".to_string()), "f");
    assert_eq!(info.origin_main_sha, "origin/main");
    assert_eq!(info.head_sha, "x");
    assert_eq!(info.commit_count, 0);
    assert_eq!(info.changed_files, strings(&["f"]));
    assert!(info.fetch_failed);
}

#[test]
fn output_that_is_no_utf8_is_repaired() {
    let bytes = vec![b'a', 0xff, b'b'];
    let printed = output_on_success(&Ok(CommandOutput {
        code: Some(0),
        stdout: bytes.clone(),
        stderr: Vec::new(),
    }));
    assert_eq!(printed, Some("a\u{fffd}b".to_string()));
    assert_eq!(printed, Some(String::from_utf8_lossy(&bytes).to_string()));
    assert_eq!(output_on_success(&output(None, "x", "")), None);
}

#[test]
fn clippy_gets_its_arguments() {
    assert_eq!(
        clippy_args(&None),
        strings(&["clippy", "--workspace", "--all-targets", "--all-features", "--", "-D", "warnings"])
    );
    assert_eq!(
        clippy_args(&Some(strings(&["a", "b"]))),
        strings(&["clippy", "--workspace", "--all-targets", "--features", "a,b", "--", "-D", "warnings"])
    );
    assert_eq!(
        clippy_args(&Some(Vec::new())),
        strings(&["clippy", "--workspace", "--all-targets", "--", "-D", "warnings"])
    );
}

#[test]
fn the_affected_crates_are_selected() {
    let crates = strings(&["a", "b"]);
    assert_eq!(
        build_tests_args(&crates),
        strings(&["nextest", "run", "--no-run", "-p", "a", "-p", "b"])
    );
    assert_eq!(
        run_tests_args(&crates),
        strings(&["nextest", "run", "-p", "a", "-p", "b", "--no-tests=pass"])
    );
    assert_eq!(
        doc_tests_args(&crates, &None),
        strings(&["test", "--doc", "-p", "a", "-p", "b", "--all-features"])
    );
    assert_eq!(
        docs_args(&crates, &Some(strings(&["x"]))),
        strings(&["doc", "--no-deps", "-p", "a", "-p", "b", "--features", "x"])
    );
    assert_eq!(cargo_shear_args(), strings(&["shear"]));
}

#[test]
fn checks_succeed_and_fail() {
    let crates = strings(&["a"]);
    let fine = output(Some(0), "", "warnings are no failures");
    assert!(matches!(clippy_task(&None, &fine, &PLAIN), TaskResult::Success { .. }));
    assert!(matches!(build_tests_task(&crates, &fine, &PLAIN), TaskResult::Success { .. }));
    assert!(matches!(run_tests_task(&crates, &fine, &PLAIN), TaskResult::Success { .. }));
    assert!(matches!(docs_task(&crates, &None, &fine, &PLAIN), TaskResult::Success { .. }));
    assert!(matches!(cargo_shear_task(&fine, &PLAIN), TaskResult::Success { .. }));
    assert!(matches!(doc_tests_task(&crates, &None, &fine, &PLAIN), TaskResult::Success { .. }));

    let bad = output(Some(101), "out\n\n", "err\n");
    let told = |result: TaskResult| failure(result);
    assert_eq!(
        told(clippy_task(&Some(Vec::new()), &bad, &PLAIN)),
        (
            "clippy errors".to_string(),
            "command: cargo clippy --workspace --all-targets -- -D warnings\nexit code: 101\nstdout:\nout\nstderr:\nerr\n".to_string()
        )
    );
    assert_eq!(told(build_tests_task(&crates, &bad, &PLAIN)).0, "build failed");
    assert_eq!(told(run_tests_task(&crates, &bad, &PLAIN)).0, "tests failed");
    assert_eq!(told(docs_task(&crates, &None, &bad, &PLAIN)).0, "doc warnings");
    assert_eq!(told(cargo_shear_task(&bad, &PLAIN)).0, "unused deps");
    assert_eq!(told(doc_tests_task(&crates, &None, &bad, &PLAIN)).0, "doc tests failed");

    let missing: Result<CommandOutput, String> = Err("No such file".to_string());
    assert_eq!(
        told(clippy_task(&None, &missing, &PLAIN)),
        ("failed to run".to_string(), "No such file".to_string())
    );
}

#[test]
fn failures_are_told() {
    let killed = CommandOutput { code: None, stdout: Vec::new(), stderr: Vec::new() };
    assert_eq!(
        format_command_failure(&strings(&["cargo"]), &strings(&["doc", "x"]), &killed, &PLAIN),
        "command: cargo doc x\nexit code: terminated by signal\n"
    );
    assert_eq!(
        describe_failure(&strings(&["a", "b"]), Some(-1), &Some("x \n".to_string()), &None),
        "command: a b\nexit code: -1\nstdout:\nx\n"
    );
    let colored = CommandOutput {
        code: Some(1),
        stdout: b"\x1b[31mred\x1b[0m".to_vec(),
        stderr: b"\x1b[32mgreen\x1b[0m".to_vec(),
    };
    assert_eq!(
        format_command_failure(
            &strings(&["c"]),
            &Vec::new(),
            &colored,
            &ColorSupport { stdout: true, stderr: false }
        ),
        "command: c\nexit code: 1\nstdout:\n\u{1b}[31mred\u{1b}[0m\nstderr:\ngreen\n"
    );
}

#[test]
fn escapes_are_stripped_without_colors() {
    let data = b"\x1b[1mBold\x1b[0m and plain\n".to_vec();
    assert_eq!(maybe_strip_bytes(&data, true), data);
    assert_eq!(maybe_strip_bytes(&data, false), b"Bold and plain\n".to_vec());
    let plain: Vec<u8> = (0x20u8..0x7f).chain([b'\n', b'x']).collect();
    assert_eq!(maybe_strip_bytes(&plain, false), plain);
}

#[test]
fn a_missing_subcommand_skips_the_check() {
    assert!(cargo_subcommand_missing_message("error: no such command: `shear`", "shear"));
    assert!(cargo_subcommand_missing_message("ERROR: No Such Subcommand: 'SHEAR'", "shear"));
    assert!(cargo_subcommand_missing_message("É no such command: 'shear'", "Shear"));
    assert!(!cargo_subcommand_missing_message("no such command: shear", "shear"));
    assert!(!cargo_subcommand_missing_message("no such command: `sheer`", "shear"));
    let missing = output(Some(101), "", "error: no such command: `shear`\n");
    assert!(indicates_missing_cargo_subcommand(missing.as_ref().ok().unwrap(), "shear"));
    match cargo_shear_task(&missing, &PLAIN) {
        TaskResult::Skipped { reason } => assert_eq!(reason, "not installed"),
        _ => panic!("the check is skipped"),
    }
    assert!(contains_any("abc", &strings(&["x", "bc"])));
    assert!(!contains_any("abc", &Vec::new()));
}

#[test]
fn missing_doc_tests_are_skipped() {
    assert!(nothing_to_test("error: there is nothing to test"));
    assert!(nothing_to_test("found no library targets to test"));
    assert!(nothing_to_test("found no binaries to test"));
    assert!(nothing_to_test("no library targets found in package `x`"));
    assert!(!nothing_to_test("test failed"));
    let none = output(Some(101), "", "error: no library targets found in package `a`");
    match doc_tests_task(&strings(&["a"]), &None, &none, &PLAIN) {
        TaskResult::Skipped { reason } => assert_eq!(reason, "no lib to test"),
        _ => panic!("the check is skipped"),
    }
    // Another exit code means something else.
    let other = output(Some(1), "", "there is nothing to test");
    assert!(!should_skip_doc_tests(other.as_ref().ok().unwrap()));
}

#[test]
fn the_plan_follows_the_settings() {
    let mut config = CaptainConfig::default();
    assert_eq!(
        plan_pre_push(&config.pre_push),
        vec![
            PrePushTask::Metadata,
            PrePushTask::Git,
            PrePushTask::Affected,
            PrePushTask::Clippy,
            PrePushTask::CargoShear,
            PrePushTask::BuildTests,
            PrePushTask::RunTests,
            PrePushTask::Docs,
        ]
    );
    config.pre_push.doc_tests = true;
    assert!(plan_pre_push(&config.pre_push).contains(&PrePushTask::DocTests));
    have_mercy(&mut config, "3");
    assert_eq!(
        plan_pre_push(&config.pre_push),
        vec![PrePushTask::Metadata, PrePushTask::Git, PrePushTask::Affected]
    );
}

#[test]
fn tasks_wait_for_what_they_need() {
    let affected = PrePushTask::Affected;
    assert_eq!(affected.name(), "affected");
    assert_eq!(affected.needs(), vec![PrePushTask::Metadata, PrePushTask::Git]);
    assert!(!affected.is_unlocked(&vec![PrePushTask::Git]));
    assert!(affected.is_unlocked(&vec![PrePushTask::Git, PrePushTask::Metadata]));
    assert!(!affected.is_unlocked(&vec![
        PrePushTask::Git,
        PrePushTask::Metadata,
        PrePushTask::Clippy
    ]));
    assert!(!PrePushTask::Clippy.is_unlocked(&vec![PrePushTask::Metadata]));
    assert!(PrePushTask::Docs.is_unlocked(&vec![affected]));
    let names: Vec<&str> = [
        PrePushTask::Metadata,
        PrePushTask::Git,
        PrePushTask::Clippy,
        PrePushTask::CargoShear,
        PrePushTask::BuildTests,
        PrePushTask::RunTests,
        PrePushTask::DocTests,
        PrePushTask::Docs,
    ]
    .iter()
    .map(|t| t.name())
    .collect();
    assert_eq!(
        names,
        vec!["metadata", "git", "clippy", "cargo-shear", "build tests", "run tests", "doc tests", "docs"]
    );
}

#[test]
fn the_hook_passes_or_tells_its_failures() {
    let passed = pre_push_verdict(&TaskResults {
        results: vec![("git".to_string(), TaskResult::success())],
    });
    assert!(passed.passed);
    assert_eq!(
        passed.lines,
        strings(&[
            "",
            "\u{1b}[32m✅\u{1b}[39m \u{1b}[1m\u{1b}[32mAll checks passed!\u{1b}[39m\u{1b}[0m"
        ])
    );
    let failed = pre_push_verdict(&TaskResults {
        results: vec![(
            "git".to_string(),
            TaskResult::failed("s".to_string(), "d".to_string()),
        )],
    });
    assert!(!failed.passed);
    assert_eq!(failed.lines.len(), 2);
}

#[test]
fn the_hook_starts_with_a_plan() {
    let start = run_pre_push(CaptainConfig::default(), &None);
    assert_eq!(
        start.notice,
        Some("\u{1b}[2m⏭️  Disabled via config: doc-tests\u{1b}[0m".to_string())
    );
    assert_eq!(start.plan.len(), 8);
    let start = run_pre_push(CaptainConfig::default(), &Some("2".to_string()));
    assert_eq!(
        start.notice,
        Some("\u{1b}[1m\u{1b}[33m🙏 HAVE_MERCY=2: skipping nextest, doc-tests, docs, clippy\u{1b}[39m\u{1b}[0m".to_string())
    );
    assert!(!start.config.pre_push.clippy && start.config.pre_push.cargo_shear);
    assert_eq!(
        start.plan,
        vec![
            PrePushTask::Metadata,
            PrePushTask::Git,
            PrePushTask::Affected,
            PrePushTask::CargoShear
        ]
    );
}

#[test]
fn each_task_is_started_once() {
    let mut config = CaptainConfig::default();
    config.pre_push.doc_tests = true;
    let plan = plan_pre_push(&config.pre_push);
    let mut done: Vec<PrePushTask> = Vec::new();
    let mut started = tasks_to_start(&plan, &done);
    assert_eq!(
        started,
        vec![
            PrePushTask::Metadata,
            PrePushTask::Git,
            PrePushTask::Clippy,
            PrePushTask::CargoShear
        ]
    );
    let mut next = 0;
    while next < started.len() {
        done.push(started[next]);
        started.extend(tasks_to_start(&plan, &done));
        next += 1;
    }
    assert_eq!(started.len(), plan.len());
    for task in plan {
        assert!(started.contains(&task));
    }
}
