use capn::commands::icons::icon_for_extension;
use capn::commands::pre_commit::{
    applied_summary, arborium_task, cargo_lock_task, collect_staged_files,
    collect_staged_files_task, completed_line, edition_2024_task, external_path_deps_task,
    finish_pre_commit, internal_dev_deps_task, is_gitignored, load_metadata_task, plan_pre_commit,
    readme_notice, run_pre_commit, rustfmt_task, show_and_apply_jobs, staged_files,
    status_is_readable, tasks_to_start, try_collect_staged_files, PreCommitTask, StagedFiles,
};
use capn::commands::status::{renamed_to, unquote};
use capn::config::PreCommitConfig;
use capn::jobs::arborium::CrateFiles;
use capn::jobs::rustfmt::Formatted;
use capn::jobs::Job;
use capn::metadata::{Metadata, Package};
use capn::output::CommandOutput;
use capn::task::{TaskResult, TaskResults};

fn strings(list: &[&str]) -> Vec<String> {
    list.iter().map(|s| s.to_string()).collect()
}

fn output(code: i32, stdout: &[u8]) -> Result<CommandOutput, String> {
    Ok(CommandOutput { code: Some(code), stdout: stdout.to_vec(), stderr: Vec::new() })
}

fn metadata(edition: &str) -> Metadata {
    Metadata {
        workspace_root: "/w".to_string(),
        workspace_members: strings(&["a-id"]),
        packages: vec![Package {
            id: "a-id".to_string(),
            name: "a".to_string(),
            manifest_path: "/w/a/Cargo.toml".to_string(),
            edition: edition.to_string(),
            has_source: false,
        }],
        resolve_root: None,
        workspace_default_members: Vec::new(),
    }
}

fn job(path: &str) -> Job {
    Job {
        path: path.to_string(),
        old_content: None,
        new_content: path.as_bytes().to_vec(),
        executable: false,
    }
}

#[test]
fn staged_and_clean_files_are_found() {
    let status = "M  src/main.rs\nA  foo.rs\nAM foo/bar.rs\n M dirty.rs\n?? new.rs\nD  gone.rs\nR  old.rs -> renamed.rs\n\nx\n";
    assert!(status_is_readable(status));
    assert_eq!(
        staged_files(status, "/repo").clean,
        strings(&["/repo/src/main.rs", "/repo/foo.rs", "/repo/renamed.rs"])
    );
    assert!(staged_files("", "/repo").clean.is_empty());
}

#[test]
fn paths_may_hold_any_character() {
    assert_eq!(
        staged_files("A  dïr/ü n.rs", "/r").clean,
        strings(&["/r/dïr/ü n.rs"])
    );
    assert_eq!(staged_files("A  /abs.rs", "/r").clean, strings(&["/abs.rs"]));
}

#[test]
fn a_renamed_or_copied_file_goes_by_its_new_name() {
    let cwd: Result<String, String> = Ok("/r".to_string());
    let collected = collect_staged_files(&output(0, b"R  old.rs -> new.rs\n"), &cwd);
    assert_eq!(collected.ok().unwrap().clean, strings(&["/r/new.rs"]));
    assert_eq!(
        staged_files("C  a.rs -> b/c.rs\nR  d.rs\nRM e.rs -> f.rs\n", "/r").clean,
        strings(&["/r/b/c.rs", "/r/d.rs"])
    );
    // An arrow in the name of a file that was not renamed belongs to the name.
    assert_eq!(staged_files("A  a -> b.rs", "/r").clean, strings(&["/r/a -> b.rs"]));
    // The old name is in quotes and holds an arrow.
    assert_eq!(
        staged_files("R  \"a -> \\\" -> b.rs\" -> \"c d.rs\"", "/r").clean,
        strings(&["/r/c d.rs"])
    );
    assert_eq!(renamed_to("old.rs -> new.rs"), "new.rs");
    assert_eq!(renamed_to("new.rs"), "new.rs");
    assert_eq!(renamed_to("a -> b -> c"), "b -> c");
    assert_eq!(renamed_to("\"a\\"), "\"a\\");
}

#[test]
fn quotes_round_a_name_are_undone() {
    assert_eq!(
        staged_files("A  \"d\\303\\257r/\\303\\274 n.rs\"", "/r").clean,
        strings(&["/r/dïr/ü n.rs"])
    );
    assert_eq!(unquote("\"a b.rs\""), "a b.rs");
    assert_eq!(unquote("\"\\a\\b\\t\\n\\v\\f\\r\\\"\\\\\""), "\u{7}\u{8}\t\n\u{b}\u{c}\r\"\\");
    assert_eq!(unquote("\"\\101\\377\""), "A\u{fffd}");
    assert_eq!(unquote("\"\\4\\47\\777é\""), "447777é");
    assert_eq!(unquote("\"\""), "");
    assert_eq!(unquote("\""), "\"");
    assert_eq!(unquote("plain\\n.rs"), "plain\\n.rs");
}

#[test]
fn lines_that_cannot_be_taken_apart_are_noticed() {
    // Three bytes, one character.
    assert!(!status_is_readable("€"));
    // The third byte lies inside a character.
    assert!(!status_is_readable("M é.rs"));
    assert!(status_is_readable("é"));
    assert!(status_is_readable("M  é.rs"));
}

#[test]
fn staged_files_are_collected() {
    let cwd: Result<String, String> = Ok("/r".to_string());
    let collected = collect_staged_files(&output(0, b"A  x.rs\n"), &cwd);
    assert_eq!(collected.ok().unwrap().clean, strings(&["/r/x.rs"]));
    let no_git: Result<CommandOutput, String> = Err("no git".to_string());
    assert_eq!(collect_staged_files(&no_git, &cwd).err(), Some("no git".to_string()));
    let no_dir: Result<String, String> = Err("no directory".to_string());
    assert_eq!(
        collect_staged_files(&output(0, b"A  x.rs\n"), &no_dir).err(),
        Some("no directory".to_string())
    );
}

#[test]
fn unreadable_status_gives_nothing() {
    let cwd: Result<String, String> = Ok("/r".to_string());
    assert!(try_collect_staged_files(&output(128, b""), &cwd).is_none());
    assert!(try_collect_staged_files(&output(0, "€\n".as_bytes()), &cwd).is_none());
    assert!(try_collect_staged_files(&output(0, b"A  \xff.rs"), &cwd).is_some());
    let collected = try_collect_staged_files(&output(0, b"M  y.rs"), &cwd).unwrap();
    assert_eq!(collected.ok().unwrap().clean, strings(&["/r/y.rs"]));
    let no_git: Result<CommandOutput, String> = Err("no git".to_string());
    assert!(try_collect_staged_files(&no_git, &cwd).unwrap().is_err());
}

#[test]
fn tasks_take_in_what_was_read() {
    let staged = StagedFiles { clean: strings(&["x"]) };
    assert_eq!(collect_staged_files_task(Ok(staged)).ok().unwrap().clean, strings(&["x"]));
    match collect_staged_files_task(Err("boom".to_string())).err().unwrap() {
        TaskResult::Failed { summary, details } => {
            assert_eq!(summary, "failed to collect");
            assert_eq!(
                details,
                "Failed to collect staged files: boom\nThis tool requires Git to be installed and a Git repository initialized."
            );
        }
        _ => panic!("a failure was expected"),
    }
    assert!(load_metadata_task(Ok(metadata("2024"))).is_ok());
    match load_metadata_task(Err("boom".to_string())).err().unwrap() {
        TaskResult::Failed { summary, details } => {
            assert_eq!((summary.as_str(), details.as_str()), ("failed to load", "boom"));
        }
        _ => panic!("a failure was expected"),
    }
}

#[test]
fn checks_become_tasks() {
    assert!(matches!(
        edition_2024_task(&metadata("2024"), &None),
        TaskResult::Success { message: None, .. }
    ));
    assert!(matches!(
        edition_2024_task(&metadata("2021"), &None),
        TaskResult::Failed { details, .. } if details.contains("edition = \"2021\"")
    ));
    assert!(matches!(external_path_deps_task(&metadata("2024")), TaskResult::Success { .. }));
    let mut outside = metadata("2024");
    outside.workspace_root = "/elsewhere".to_string();
    assert!(matches!(external_path_deps_task(&outside), TaskResult::Failed { .. }));
    let root: Result<String, String> =
        Ok("[workspace.dependencies]\na = { path = \"a\" }\n".to_string());
    assert!(matches!(
        internal_dev_deps_task(&metadata("2024"), &root, &vec![Ok(String::new())]),
        TaskResult::Success { .. }
    ));
    assert!(matches!(
        internal_dev_deps_task(
            &metadata("2024"),
            &root,
            &vec![Ok("[dev-dependencies]\na.workspace = true\n".to_string())]
        ),
        TaskResult::Failed { .. }
    ));
}

#[test]
fn arborium_gives_jobs() {
    let files = vec![CrateFiles {
        header: None,
        manifest: Some("[package]\nname = \"a\"\n".to_string()),
    }];
    match arborium_task(&metadata("2024"), &files) {
        TaskResult::Success { message: None, jobs } => {
            let paths: Vec<&str> = jobs.iter().map(|j| j.path.as_str()).collect();
            assert_eq!(paths, vec!["/w/a/arborium-header.html", "/w/a/Cargo.toml"]);
        }
        _ => panic!("jobs were expected"),
    }
}

#[test]
fn the_pre_commit_plan_follows_the_settings() {
    let mut config = PreCommitConfig::default();
    assert_eq!(
        plan_pre_commit(&config),
        vec![
            PreCommitTask::StagedFiles,
            PreCommitTask::Metadata,
            PreCommitTask::Edition2024,
            PreCommitTask::ExternalDeps,
            PreCommitTask::InternalDevDeps,
            PreCommitTask::Rustfmt,
            PreCommitTask::CargoLock,
            PreCommitTask::Arborium,
        ]
    );
    let names: Vec<&str> = plan_pre_commit(&config).iter().map(|t| t.name()).collect();
    assert_eq!(
        names,
        vec![
            "staged-files",
            "metadata",
            "edition-2024",
            "external-deps",
            "internal-dev-deps",
            "rustfmt",
            "cargo-lock",
            "arborium"
        ]
    );
    // READMEs are no longer generated: the setting only brings a reminder.
    assert!(readme_notice(&config).is_none());
    config.generate_readmes = true;
    assert_eq!(plan_pre_commit(&config).len(), 8);
    assert!(readme_notice(&config).unwrap().contains("cargo-reedme"));
    config.edition_2024 = false;
    config.external_path_deps = false;
    config.internal_dev_deps_release_plz = false;
    config.rustfmt = false;
    config.cargo_lock = false;
    config.arborium = false;
    assert_eq!(
        plan_pre_commit(&config),
        vec![PreCommitTask::StagedFiles, PreCommitTask::Metadata]
    );
}

#[test]
fn pre_commit_tasks_wait_for_what_they_need() {
    assert_eq!(PreCommitTask::Rustfmt.needs(), Some(PreCommitTask::StagedFiles));
    assert_eq!(PreCommitTask::Arborium.needs(), Some(PreCommitTask::Metadata));
    assert_eq!(PreCommitTask::CargoLock.needs(), None);
    assert!(PreCommitTask::Edition2024.is_unlocked(PreCommitTask::Metadata));
    assert!(!PreCommitTask::Edition2024.is_unlocked(PreCommitTask::StagedFiles));
    assert!(!PreCommitTask::CargoLock.is_unlocked(PreCommitTask::Metadata));
}

#[test]
fn applied_jobs_are_summed_up() {
    assert_eq!(
        applied_summary(&Vec::new()),
        strings(&["\u{1b}[1m\u{1b}[32mAll generated files are up-to-date\u{1b}[39m\u{1b}[0m"])
    );
    let (jobs, lines) = show_and_apply_jobs(vec![job("b.rs"), job("a/z.toml"), job("a")]);
    let paths: Vec<&str> = jobs.iter().map(|j| j.path.as_str()).collect();
    assert_eq!(paths, vec!["a", "a/z.toml", "b.rs"]);
    assert_eq!(
        lines,
        strings(&[
            "\n\u{1b}[32mThese files have been automatically formatted and staged:\u{1b}[39m",
            "  \u{1b}[36m\u{f15b}\u{1b}[39m a",
            "  \u{1b}[36m\u{e6b2}\u{1b}[39m a/z.toml",
            "  \u{1b}[36m\u{e7a8}\u{1b}[39m b.rs",
            "\n\u{1b}[32mThe commit is ready to push - no 'git amend' is necessary.\u{1b}[39m",
        ])
    );
}

#[test]
fn each_extension_has_its_icon() {
    let icons = [
        ("rs", "\u{e7a8}"),
        ("js", "\u{e74e}"),
        ("ts", "\u{e628}"),
        ("jsx", "\u{e7ba}"),
        ("tsx", "\u{e7ba}"),
        ("py", "\u{e73c}"),
        ("rb", "\u{e791}"),
        ("go", "\u{e626}"),
        ("java", "\u{e738}"),
        ("c", "\u{e61e}"),
        ("h", "\u{e61e}"),
        ("cpp", "\u{e61d}"),
        ("cc", "\u{e61d}"),
        ("cxx", "\u{e61d}"),
        ("hpp", "\u{e61d}"),
        ("cs", "\u{f031b}"),
        ("swift", "\u{e755}"),
        ("kt", "\u{e634}"),
        ("kts", "\u{e634}"),
        ("php", "\u{e73d}"),
        ("lua", "\u{e620}"),
        ("zig", "\u{e6a9}"),
        ("hs", "\u{e777}"),
        ("ex", "\u{e62d}"),
        ("exs", "\u{e62d}"),
        ("erl", "\u{e7b1}"),
        ("scala", "\u{e737}"),
        ("clj", "\u{e768}"),
        ("cljs", "\u{e768}"),
        ("r", "\u{f07d4}"),
        ("jl", "\u{e624}"),
        ("pl", "\u{e769}"),
        ("pm", "\u{e769}"),
        ("sh", "\u{e795}"),
        ("bash", "\u{e795}"),
        ("zsh", "\u{e795}"),
        ("fish", "\u{f489}"),
        ("ps1", "\u{e70f}"),
        ("vim", "\u{e62b}"),
        ("el", "\u{e779}"),
        ("html", "\u{e736}"),
        ("htm", "\u{e736}"),
        ("css", "\u{e749}"),
        ("scss", "\u{e74b}"),
        ("sass", "\u{e74b}"),
        ("less", "\u{e758}"),
        ("vue", "\u{e6a0}"),
        ("svelte", "\u{e697}"),
        ("astro", "\u{e6b3}"),
        ("wasm", "\u{e6a1}"),
        ("json", "\u{e60b}"),
        ("yaml", "\u{e6a8}"),
        ("yml", "\u{e6a8}"),
        ("toml", "\u{e6b2}"),
        ("xml", "\u{f05c0}"),
        ("csv", "\u{f0219}"),
        ("sql", "\u{e706}"),
        ("graphql", "\u{e662}"),
        ("gql", "\u{e662}"),
        ("proto", "\u{e6a5}"),
        ("md", "\u{e73e}"),
        ("markdown", "\u{e73e}"),
        ("txt", "\u{f0219}"),
        ("pdf", "\u{f0226}"),
        ("doc", "\u{f0219}"),
        ("docx", "\u{f0219}"),
        ("rst", "\u{f0219}"),
        ("lock", "\u{f023}"),
        ("dockerfile", "\u{e7b0}"),
        ("nix", "\u{f313}"),
        ("cmake", "\u{e615}"),
        ("png", "\u{f03e}"),
        ("jpg", "\u{f03e}"),
        ("jpeg", "\u{f03e}"),
        ("gif", "\u{f03e}"),
        ("bmp", "\u{f03e}"),
        ("ico", "\u{f03e}"),
        ("webp", "\u{f03e}"),
        ("svg", "\u{f0721}"),
        ("gitignore", "\u{e702}"),
        ("gitattributes", "\u{e702}"),
        ("gitmodules", "\u{e702}"),
    ];
    for (ext, icon) in icons {
        assert_eq!(icon_for_extension(ext), icon, "{}", ext);
    }
    for ext in ["", "RS", "unknown", "rs "] {
        assert_eq!(icon_for_extension(ext), "\u{f15b}");
    }
}

#[test]
fn jobs_become_tasks() {
    let files = vec![Formatted {
        path: "a.rs".to_string(),
        content: Some(b"a".to_vec()),
        formatted: Some(b"b".to_vec()),
    }];
    assert!(matches!(rustfmt_task(&files), TaskResult::Success { jobs, .. } if jobs.len() == 1));
    let lock = cargo_lock_task(
        &output(0, b" M Cargo.lock\n"),
        &Some(b"x".to_vec()),
        &Err("no git".to_string()),
    );
    assert!(matches!(lock, TaskResult::Success { jobs, .. } if jobs[0].old_content.is_none()));
}

#[test]
fn the_pre_commit_hook_starts_and_ends() {
    let start = run_pre_commit(&PreCommitConfig::default());
    assert!(start.notice.is_none());
    assert_eq!(
        tasks_to_start(&start.plan, None),
        vec![PreCommitTask::StagedFiles, PreCommitTask::Metadata, PreCommitTask::CargoLock]
    );
    assert_eq!(
        tasks_to_start(&start.plan, Some(PreCommitTask::Metadata)),
        vec![
            PreCommitTask::Edition2024,
            PreCommitTask::ExternalDeps,
            PreCommitTask::InternalDevDeps,
            PreCommitTask::Arborium
        ]
    );
    assert_eq!(
        tasks_to_start(&start.plan, Some(PreCommitTask::StagedFiles)),
        vec![PreCommitTask::Rustfmt]
    );
    assert!(tasks_to_start(&start.plan, Some(PreCommitTask::Rustfmt)).is_empty());

    let jobs = finish_pre_commit(TaskResults {
        results: vec![("a".to_string(), TaskResult::success_with_jobs(vec![job("x")]))],
    });
    assert_eq!(jobs.ok().unwrap().len(), 1);
    let lines = finish_pre_commit(TaskResults {
        results: vec![("a".to_string(), TaskResult::failed("s".to_string(), String::new()))],
    });
    assert_eq!(lines.err().unwrap().len(), 1);
    assert_eq!(
        completed_line("0.3s"),
        "\n  \u{1b}[32m✓\u{1b}[39m Pre-commit checks completed in 0.3s\n"
    );
}

#[test]
fn ignored_files_are_recognized() {
    assert!(is_gitignored(Some(0)));
    assert!(!is_gitignored(Some(1)));
    assert!(!is_gitignored(None));
}
