use capn::jobs::arborium::{
    arborium_header_job, array_matches, collect_arborium_jobs, ensure_docsrs_metadata,
    rewrite_cargo_toml, CrateFiles, ARBORIUM_HEADER,
};
use capn::jobs::cargo_lock::{collect_cargo_lock_jobs, is_lock_modified, stage_lock};
use capn::jobs::order::{keep_jobs, sort_jobs, FileState};
use capn::jobs::readme::{
    collect_readme_jobs, crate_dirs, crate_has_readme_disabled, custom_template_path, describe_conflict,
    describe_template_problem, list_has_path, package_name_by_id, passes_over, paths_eq,
    plan_readmes, readme_crate_name, staged_object_name, template_path,
    workspace_name_from_metadata_object, workspace_readme_name, DirCandidate, ReadmeFiles,
    Template, WorkspaceDir,
};
use capn::jobs::rustfmt::{collect_rustfmt_jobs, rust_files, rustfmt_args, Formatted};
use capn::jobs::{
    bytes_copy, bytes_eq, content_copy, executable_mode, mode_is_executable, ApplyStep, Job,
};
use capn::metadata::{Metadata, Package};
use capn::output::CommandOutput;

fn strings(list: &[&str]) -> Vec<String> {
    list.iter().map(|s| s.to_string()).collect()
}

fn job(path: &str, old: Option<&[u8]>, new: &[u8]) -> Job {
    Job {
        path: path.to_string(),
        old_content: old.map(|b| b.to_vec()),
        new_content: new.to_vec(),
        executable: false,
    }
}

fn package(name: &str, dir: &str) -> Package {
    Package {
        id: format!("id-{}", name),
        name: name.to_string(),
        manifest_path: format!("{}/Cargo.toml", dir),
        edition: "2024".to_string(),
        has_source: false,
    }
}

fn metadata(packages: Vec<Package>) -> Metadata {
    Metadata {
        workspace_root: "/w".to_string(),
        workspace_members: packages.iter().map(|p| p.id.clone()).collect(),
        packages,
        resolve_root: None,
        workspace_default_members: Vec::new(),
    }
}

#[test]
fn a_job_that_changes_nothing_is_a_noop() {
    let mut same = job("x", Some(b"a"), b"a");
    assert!(same.is_noop(false));
    assert!(!same.is_noop(true));
    same.executable = true;
    assert!(same.is_noop(true));
    assert!(!same.is_noop(false));
    assert!(!job("x", Some(b"a"), b"b").is_noop(false));
    assert!(job("x", None, b"").is_noop(false));
    assert!(!job("x", None, b"a").is_noop(false));
    let mut empty = job("x", None, b"");
    empty.executable = true;
    assert!(!empty.is_noop(false));
}

#[test]
fn a_job_is_applied_step_by_step() {
    let mut file = job("a/b/c.txt", None, b"x");
    file.executable = true;
    let steps = file.apply();
    assert_eq!(steps.len(), 4);
    assert!(matches!(&steps[0], ApplyStep::CreateDir(dir) if dir == "a/b"));
    assert!(matches!(
        &steps[1],
        ApplyStep::Write(path, content) if path == "a/b/c.txt" && content == b"x"
    ));
    assert!(matches!(&steps[2], ApplyStep::MarkExecutable(path) if path == "a/b/c.txt"));
    assert!(matches!(&steps[3], ApplyStep::Stage(path) if path == "a/b/c.txt"));
    let required: Vec<bool> = steps.iter().map(|step| step.is_required()).collect();
    assert_eq!(required, vec![true, true, true, false]);
    let steps = job("c.txt", None, b"").apply();
    assert_eq!(steps.len(), 3);
    assert!(matches!(&steps[0], ApplyStep::CreateDir(dir) if dir.is_empty()));
    assert!(matches!(&steps[2], ApplyStep::Stage(path) if path == "c.txt"));
    assert!(matches!(&job("/", None, b"").apply()[0], ApplyStep::Write(_, _)));
}

#[test]
fn execute_permissions() {
    assert!(mode_is_executable(0o755));
    assert!(mode_is_executable(0o100));
    assert!(!mode_is_executable(0o644));
    assert_eq!(executable_mode(0o644), 0o755);
    assert_eq!(executable_mode(0o600), 0o711);
}

#[test]
fn byte_strings() {
    let bytes = vec![1u8, 2, 3];
    assert!(bytes_eq(&bytes, &bytes_copy(&bytes)));
    assert!(!bytes_eq(&bytes, &vec![1, 2]));
    assert!(!bytes_eq(&bytes, &vec![1, 2, 4]));
    assert_eq!(content_copy(&Some(bytes.clone())), Some(bytes));
    assert_eq!(content_copy(&None), None);
}

#[test]
fn jobs_are_kept_and_sorted() {
    let states = vec![
        FileState { executable: false, ignored: false },
        FileState { executable: false, ignored: true },
        FileState { executable: false, ignored: false },
        FileState { executable: true, ignored: false },
    ];
    let kept = keep_jobs(
        vec![
            job("a", Some(b"x"), b"x"),
            job("b", Some(b"x"), b"y"),
            job("c", None, b"y"),
            job("d", Some(b"x"), b"x"),
        ],
        &states,
    );
    let paths: Vec<&str> = kept.iter().map(|j| j.path.as_str()).collect();
    assert_eq!(paths, vec!["c", "d"]);
}

#[test]
fn sorting_agrees_with_std() {
    let paths = [
        "b", "a/c", "a.b", "/x", "a", "..", "./a", "a-b/c", "a/b", "a//b", "a/b/c", "A", "é", "a/b",
    ];
    let jobs: Vec<Job> = paths
        .iter()
        .enumerate()
        .map(|(i, p)| job(p, None, &[i as u8]))
        .collect();
    let mut expected = jobs.clone();
    expected.sort_by_key(|j| std::path::PathBuf::from(&j.path));
    let sorted = sort_jobs(jobs);
    let order: Vec<u8> = sorted.iter().map(|j| j.new_content[0]).collect();
    let expected_order: Vec<u8> = expected.iter().map(|j| j.new_content[0]).collect();
    assert_eq!(order, expected_order);
}

// ---- arborium ----

#[test]
fn the_header_is_written_where_it_differs() {
    assert!(ARBORIUM_HEADER.starts_with("<!-- Rustdoc doesn't highlight some languages natively"));
    assert!(ARBORIUM_HEADER.ends_with("/dist/arborium.iife.js\"></script>"));
    assert_eq!(ARBORIUM_HEADER.lines().count(), 2);
    let missing = arborium_header_job("/w/a", &None).unwrap();
    assert_eq!(missing.path, "/w/a/arborium-header.html");
    assert_eq!(missing.old_content, None);
    assert_eq!(missing.new_content, ARBORIUM_HEADER.as_bytes().to_vec());
    assert!(!missing.executable);
    let stale = arborium_header_job("/w/a", &Some(vec![1])).unwrap();
    assert_eq!(stale.old_content, Some(vec![1]));
    assert!(arborium_header_job("/w/a", &Some(missing.new_content)).is_none());
}

#[test]
fn docsrs_metadata_is_set_once() {
    let mut document: toml_edit::DocumentMut = "[package]\nname = \"a\"\n".parse().unwrap();
    assert!(ensure_docsrs_metadata(&mut document));
    let args: Vec<&str> = document["package"]["metadata"]["docs.rs"]["rustdoc-args"]
        .as_array()
        .unwrap()
        .iter()
        .map(|v| v.as_str().unwrap())
        .collect();
    assert_eq!(args, vec!["--html-in-header", "arborium-header.html"]);
    assert_eq!(document["package"]["name"].as_str(), Some("a"));
    let text = document.to_string();
    assert!(!ensure_docsrs_metadata(&mut document));
    assert_eq!(document.to_string(), text);
}

#[test]
fn other_metadata_is_kept() {
    let mut document: toml_edit::DocumentMut =
        "[package]\nname = \"a\"\n[package.metadata.docs.rs]\nall-features = true\nrustdoc-args = [\"--cfg\", \"docsrs\"]\n[package.metadata.\"docs.rs\"]\nall-features = true\nrustdoc-args = [\"--cfg\"]\n[package.metadata.other]\nx = 1\n[lib]\n"
            .parse()
            .unwrap();
    assert!(ensure_docsrs_metadata(&mut document));
    assert_eq!(document["package"]["metadata"]["other"]["x"].as_integer(), Some(1));
    assert_eq!(
        document["package"]["metadata"]["docs.rs"]["all-features"].as_bool(),
        Some(true)
    );
    assert!(document.contains_key("lib"));
    // The dotted key is another table.
    assert_eq!(
        document["package"]["metadata"]["docs"]["rs"]["rustdoc-args"].as_array().unwrap().len(),
        2
    );
}

#[test]
fn what_is_no_table_is_replaced() {
    let mut document: toml_edit::DocumentMut = "[package]\nmetadata = 1\n".parse().unwrap();
    assert!(ensure_docsrs_metadata(&mut document));
    assert!(document["package"]["metadata"]["docs.rs"].is_table());
    let mut document: toml_edit::DocumentMut = "[workspace]\n".parse().unwrap();
    assert!(!ensure_docsrs_metadata(&mut document));
    let mut document: toml_edit::DocumentMut = "package = { name = \"a\" }\n".parse().unwrap();
    assert!(!ensure_docsrs_metadata(&mut document));
}

#[test]
fn arrays_are_compared_by_their_strings() {
    let expected = strings(&["a", "b"]);
    assert!(array_matches(&vec![Some("a".to_string()), Some("b".to_string())], &expected));
    assert!(!array_matches(&vec![Some("a".to_string()), None], &expected));
    assert!(!array_matches(&vec![Some("a".to_string())], &expected));
    assert!(!array_matches(&vec![Some("b".to_string()), Some("a".to_string())], &expected));
}

#[test]
fn manifests_are_rewritten() {
    let content = "# a comment\n[package]\nname = \"a\"  # kept\n";
    let rewritten = rewrite_cargo_toml("/w/a/Cargo.toml", content).unwrap();
    assert_eq!(rewritten.path, "/w/a/Cargo.toml");
    assert_eq!(rewritten.old_content, Some(content.as_bytes().to_vec()));
    let text = String::from_utf8(rewritten.new_content).unwrap();
    assert!(text.starts_with(content), "{}", text);
    assert!(text.contains("rustdoc-args = [\"--html-in-header\", \"arborium-header.html\"]"));
    // A second time nothing is left to do.
    assert!(rewrite_cargo_toml("/w/a/Cargo.toml", &text).is_none());
    assert!(rewrite_cargo_toml("/w/a/Cargo.toml", "broken = [").is_none());
    assert!(rewrite_cargo_toml("/w/Cargo.toml", "[workspace]\n").is_none());
}

#[test]
fn arborium_jobs_are_for_publishable_members() {
    let mut workspace = metadata(vec![
        package("a", "/w/a"),
        package("a-tests", "/w/a-tests"),
        package("my-example", "/w/ex"),
        package("outside", "/o"),
    ]);
    workspace.workspace_members.pop();
    let files: Vec<CrateFiles> = (0..4)
        .map(|_| CrateFiles { header: None, manifest: Some("[package]\n".to_string()) })
        .collect();
    let jobs = collect_arborium_jobs(&workspace, &files);
    let paths: Vec<&str> = jobs.iter().map(|j| j.path.as_str()).collect();
    assert_eq!(paths, vec!["/w/a/arborium-header.html", "/w/a/Cargo.toml"]);
    let done: Vec<CrateFiles> = (0..4)
        .map(|_| CrateFiles {
            header: Some(ARBORIUM_HEADER.as_bytes().to_vec()),
            manifest: None,
        })
        .collect();
    assert!(collect_arborium_jobs(&workspace, &done).is_empty());
}

#[test]
fn a_second_arborium_run_finds_nothing() {
    let workspace = metadata(vec![package("a", "/w/a"), package("b", "/w/b")]);
    let manifests = [
        "[package]\nname = \"a\"\n[package.metadata.\"docs.rs\".targets]\nx = 1\n[lib]\n",
        "[package]\nname = \"b\"\nmetadata = { \"docs.rs\" = { rustdoc-args = [] } }\n",
    ];
    let files: Vec<CrateFiles> = manifests
        .iter()
        .map(|m| CrateFiles { header: Some(b"old".to_vec()), manifest: Some(m.to_string()) })
        .collect();
    let jobs = collect_arborium_jobs(&workspace, &files);
    assert_eq!(jobs.len(), 4);
    for job in &jobs {
        assert!(job.old_content != Some(job.new_content.clone()));
        assert!(!job.executable);
    }
    let after: Vec<CrateFiles> = jobs
        .chunks(2)
        .map(|pair| CrateFiles {
            header: Some(pair[0].new_content.clone()),
            manifest: Some(String::from_utf8(pair[1].new_content.clone()).unwrap()),
        })
        .collect();
    assert!(collect_arborium_jobs(&workspace, &after).is_empty());
}

#[test]
fn manifests_of_any_shape_are_rewritten_once() {
    for content in [
        "package.name = \"x\"\n",
        "[package]\nmetadata.\"docs.rs\".x = 1\n",
        "[package]\nmetadata = [1]\n",
        "[package]\n[[package.metadata]]\nx = 1\n",
        "[package.metadata]\n[[package.metadata.\"docs.rs\"]]\nx = 1\n",
        "[package.metadata.\"docs.rs\"]\n[package.metadata.\"docs.rs\".rustdoc-args]\nx = 1\n",
        "[package.metadata.\"docs.rs\"]\n[[package.metadata.\"docs.rs\".rustdoc-args]]\nx = 1\n",
        "package.metadata.\"docs.rs\".x.y = 1\n[package.metadata.z]\n",
        "[package]\r\nname = \"x\" # the end",
        "[a.b]\n[package.x.y]\n[a]\n",
    ] {
        let rewritten = rewrite_cargo_toml("Cargo.toml", content).unwrap();
        let text = String::from_utf8(rewritten.new_content).unwrap();
        assert!(rewrite_cargo_toml("Cargo.toml", &text).is_none(), "{}", text);
    }
}

// ---- lockfile ----

fn output(code: i32, stdout: &str) -> Result<CommandOutput, String> {
    Ok(CommandOutput {
        code: Some(code),
        stdout: stdout.as_bytes().to_vec(),
        stderr: Vec::new(),
    })
}

#[test]
fn a_modified_lockfile_is_staged() {
    assert!(is_lock_modified(" M Cargo.lock\n"));
    assert!(!is_lock_modified("M  Cargo.lock\n"));
    let content = Some(b"new".to_vec());
    let jobs = collect_cargo_lock_jobs(&output(0, " M Cargo.lock\n"), &content, &output(0, "old"));
    assert_eq!(jobs.len(), 1);
    assert_eq!(jobs[0].path, "Cargo.lock");
    assert_eq!(jobs[0].old_content, Some(b"old".to_vec()));
    assert_eq!(jobs[0].new_content, b"new".to_vec());
    let jobs = collect_cargo_lock_jobs(&output(0, " M Cargo.lock\n"), &content, &output(128, "?"));
    assert_eq!(jobs[0].old_content, None);
    let status = output(0, "M  Cargo.lock\n");
    assert!(collect_cargo_lock_jobs(&status, &content, &output(0, "old")).is_empty());
    let status: Result<CommandOutput, String> = Err("no git".to_string());
    assert!(collect_cargo_lock_jobs(&status, &content, &output(0, "old")).is_empty());
    assert!(stage_lock(true, &None, &content).is_empty());
}

#[test]
fn a_lockfile_that_changed_after_it_was_staged_is_staged_again() {
    let content = Some(b"c".to_vec());
    for status in ["MM Cargo.lock\n", "AM Cargo.lock\n", "RM old.lock -> Cargo.lock\n"] {
        assert!(is_lock_modified(status));
        let jobs = collect_cargo_lock_jobs(&output(0, status), &content, &output(0, "h"));
        assert_eq!(jobs.len(), 1);
        assert_eq!(jobs[0].path, "Cargo.lock");
        assert_eq!(jobs[0].old_content, Some(b"h".to_vec()));
        assert_eq!(jobs[0].new_content, b"c".to_vec());
        assert!(!jobs[0].executable);
    }
    for status in ["", "A  Cargo.lock\n", " D Cargo.lock\n", "?? Cargo.lock\n", "xM"] {
        assert!(!is_lock_modified(status));
    }
    assert!(is_lock_modified("M  other.lock\n M Cargo.lock\n"));
}

// ---- rustfmt ----

#[test]
fn rust_files_are_formatted() {
    assert_eq!(
        rust_files(&strings(&["/r/a.rs", "/r/b.toml", "/r/.rs", "/r/c.d.rs", "/r/rs"])),
        strings(&["/r/a.rs", "/r/c.d.rs"])
    );
    assert_eq!(rustfmt_args(), strings(&["--edition", "2024", "--emit", "stdout"]));
    let file = |content: Option<&[u8]>, formatted: Option<&[u8]>| Formatted {
        path: "a.rs".to_string(),
        content: content.map(|b| b.to_vec()),
        formatted: formatted.map(|b| b.to_vec()),
    };
    let jobs = collect_rustfmt_jobs(&vec![
        file(Some(b"fn  a(){}"), Some(b"fn a() {}\n")),
        file(Some(b"x"), Some(b"x")),
        file(None, Some(b"x")),
        file(Some(b"x"), None),
    ]);
    assert_eq!(jobs.len(), 1);
    assert_eq!(jobs[0].old_content, Some(b"fn  a(){}".to_vec()));
    assert_eq!(jobs[0].new_content, b"fn a() {}\n".to_vec());
}

// ---- READMEs ----

#[test]
fn some_directories_are_passed_over() {
    for name in [".git", "_build", "target", "xtask", "examples", "benches", "tests", "fuzz"] {
        assert!(passes_over(name), "{}", name);
    }
    for name in ["crates", "src", "mytarget", "test", ""] {
        assert!(!passes_over(name), "{}", name);
    }
}

#[test]
fn readmes_can_be_disabled() {
    let disabled = |text: &str| crate_has_readme_disabled(&Some(text.to_string()));
    assert!(disabled("[package.metadata.captain]\ngenerate-readmes = false\n"));
    assert!(disabled("package = { metadata = { captain = { generate-readmes = false } } }\n"));
    assert!(!disabled("[package.metadata.captain]\ngenerate-readmes = true\n"));
    assert!(!disabled("[package.metadata.captain]\ngenerate-readmes = \"false\"\n"));
    assert!(!disabled("[package]\nname = \"x\"\n"));
    assert!(!disabled("not [ toml"));
    assert!(!crate_has_readme_disabled(&None));
}

fn no_files() -> ReadmeFiles {
    ReadmeFiles { template: Template::Missing, staged_content: None, old_content: None }
}

fn generated(text: &str) -> ReadmeFiles {
    ReadmeFiles {
        template: Template::Generated(text.as_bytes().to_vec()),
        staged_content: None,
        old_content: Some(b"old".to_vec()),
    }
}

fn candidate(path: &str, is_dir: bool, manifest: Option<&str>) -> DirCandidate {
    DirCandidate {
        path: path.to_string(),
        is_dir,
        has_manifest: manifest.is_some(),
        manifest: manifest.map(|m| m.to_string()),
        custom_exists: false,
        files: no_files(),
    }
}

fn with_readme(path: &str, files: ReadmeFiles) -> DirCandidate {
    let mut dir = candidate(path, true, Some(""));
    dir.files = files;
    dir
}

fn workspace(has_manifest: bool, files: ReadmeFiles) -> WorkspaceDir {
    WorkspaceDir::new("/w".to_string(), has_manifest, Ok("work".to_string()), files)
}

#[test]
fn crates_with_manifests_get_readmes() {
    let mut dirs = vec![
        candidate("/w/a", true, Some("[package]\n")),
        candidate("/w/file", false, Some("")),
        candidate("/w/target", true, Some("")),
        candidate("/w/.hidden", true, Some("")),
        candidate("/w/_private", true, Some("")),
        candidate("/w/plain", true, None),
        candidate("/w/off", true, Some("[package.metadata.captain]\ngenerate-readmes = false\n")),
        candidate("/w/crates/b", true, Some("")),
    ];
    assert_eq!(readme_crate_name(&dirs[0]), Some("a".to_string()));
    assert_eq!(readme_crate_name(&dirs[6]), None);
    let plans = plan_readmes(&workspace(true, no_files()), &dirs, &None);
    assert_eq!(plans.len(), 3);
    assert_eq!((plans[0].dir.as_str(), plans[0].name.as_str()), ("/w/a", "a"));
    assert_eq!(plans[0].template_path, "/w/a/README.md.in");
    assert_eq!(plans[0].entry, Some(0));
    assert_eq!((plans[1].dir.as_str(), plans[1].name.as_str()), ("/w/crates/b", "b"));
    assert_eq!(plans[1].entry, Some(7));
    assert_eq!((plans[2].dir.as_str(), plans[2].name.as_str()), ("/w", "work"));
    assert_eq!(plans[2].template_path, "/w/README.md.in");
    assert_eq!(plans[2].entry, None);
    // Without a top-level manifest the workspace has no README of its own.
    assert_eq!(plan_readmes(&workspace(false, no_files()), &dirs, &None).len(), 2);
    // Templates of one's own are for crates alone.
    dirs[0].custom_exists = true;
    let plans = plan_readmes(&workspace(true, no_files()), &dirs, &Some("/t".to_string()));
    assert_eq!(plans[0].template_path, "/t/a.md.in");
    assert_eq!(plans[1].template_path, "/w/crates/b/README.md.in");
    assert_eq!(plans[2].template_path, "/w/README.md.in");
    assert!(plan_readmes(&workspace(false, no_files()), &Vec::new(), &None).is_empty());
}

#[test]
fn crates_are_looked_for_in_two_directories() {
    assert_eq!(
        crate_dirs("/w", &strings(&["a", "crates"]), &strings(&["a", "b"])),
        strings(&["/w/a", "/w/crates", "/w/crates/a", "/w/crates/b"])
    );
    assert_eq!(crate_dirs("/w/", &strings(&["a"]), &Vec::new()), strings(&["/w/a"]));
}

#[test]
fn templates_are_found() {
    let custom = Some("/t".to_string());
    assert_eq!(custom_template_path("/t", "a"), "/t/a.md.in");
    assert_eq!(custom_template_path("/t", "a.b"), "/t/a.md.in");
    assert_eq!(template_path(&custom, true, "/w/a", "a"), "/t/a.md.in");
    assert_eq!(template_path(&custom, false, "/w/a", "a"), "/w/a/README.md.in");
    assert_eq!(template_path(&None, true, "/w/a", "a"), "/w/a/README.md.in");
    assert_eq!(template_path(&None, false, "/w/captain", "captain"), "README.md.in");
}

#[test]
fn readmes_are_written() {
    let dirs = vec![
        with_readme("/w/a", generated("A")),
        with_readme("/w/b", no_files()),
        with_readme("/w/tests", generated("T")),
        with_readme("/w/crates/c", generated("C")),
    ];
    let jobs = collect_readme_jobs(&Vec::new(), &workspace(true, generated("W")), &dirs, &None)
        .ok()
        .unwrap();
    assert_eq!(jobs.len(), 3);
    assert_eq!(jobs[0].path, "/w/a/README.md");
    assert_eq!(jobs[0].old_content, Some(b"old".to_vec()));
    assert_eq!(jobs[0].new_content, b"A".to_vec());
    assert!(!jobs[0].executable);
    assert_eq!(jobs[1].path, "/w/crates/c/README.md");
    assert_eq!(jobs[1].new_content, b"C".to_vec());
    assert_eq!(jobs[2].path, "/w/README.md");
    assert_eq!(jobs[2].new_content, b"W".to_vec());
    let jobs = collect_readme_jobs(&Vec::new(), &workspace(false, generated("W")), &dirs, &None)
        .ok()
        .unwrap();
    assert_eq!(jobs.len(), 2);
    let none = workspace(true, no_files());
    assert!(collect_readme_jobs(&Vec::new(), &none, &Vec::new(), &None).ok().unwrap().is_empty());
}

#[test]
fn a_readme_that_was_edited_by_hand_is_a_conflict() {
    let staged = strings(&["/w/./a/README.md", "/w/README.md"]);
    let edited = |text: &str| {
        let mut files = generated(text);
        files.staged_content = Some(b"mine".to_vec());
        files
    };
    let none = workspace(false, no_files());
    let dirs = vec![
        with_readme("/w/z", generated("Z")),
        with_readme("/w/a", edited("A")),
    ];
    let lines = collect_readme_jobs(&staged, &none, &dirs, &None).err().unwrap();
    assert_eq!(lines, describe_conflict("/w/a/README.md", "/w/a/README.md.in"));
    assert_eq!(lines.len(), 19);
    assert_eq!(
        lines[1],
        "\u{1b}[1m\u{1b}[31m❌ GENERATED FILE CONFLICT DETECTED\u{1b}[39m\u{1b}[0m"
    );
    assert_eq!(
        lines[6],
        "\u{1b}[36m→\u{1b}[39m Edit \u{1b}[33m/w/a/README.md.in\u{1b}[39m instead (the template source)"
    );
    // The workspace's own README may be the one that was edited.
    let lines = collect_readme_jobs(&staged, &workspace(true, edited("W")), &Vec::new(), &None)
        .err()
        .unwrap();
    assert_eq!(lines, describe_conflict("/w/README.md", "/w/README.md.in"));
    // The same content, or a file that is not staged, is none.
    let mut same = generated("A");
    same.staged_content = Some(b"A".to_vec());
    let dirs = vec![with_readme("/w/a", same)];
    assert!(collect_readme_jobs(&staged, &none, &dirs, &None).is_ok());
    let dirs = vec![with_readme("/w/b", edited("A"))];
    assert!(collect_readme_jobs(&staged, &none, &dirs, &None).is_ok());
}

#[test]
fn problems_with_templates_are_told() {
    let path = "/w/a/README.md.in";
    assert_eq!(describe_template_problem(path, &Template::Generated(Vec::new())), None);
    assert_eq!(
        describe_template_problem(path, &Template::Missing),
        Some("🚫 \u{1b}[1m\u{1b}[31mMissing template!\u{1b}[39m\u{1b}[0m Please add a README.md.in template here that describes what this crate is for:\n   \u{1b}[33m/w/a/README.md.in\u{1b}[39m".to_string())
    );
    assert_eq!(
        describe_template_problem(path, &Template::Unreadable("denied".to_string())),
        Some("Failed to read template /w/a/README.md.in: denied".to_string())
    );
}

#[test]
fn paths_are_compared_by_components() {
    assert!(paths_eq("/a//b/", "/a/./b"));
    assert!(!paths_eq("/a/b", "a/b"));
    assert!(!paths_eq("/a/b", "/a"));
    assert!(list_has_path(&strings(&["x", "/a/b"]), "/a//b"));
    assert!(!list_has_path(&strings(&["x"]), "/a/b"));
    assert_eq!(staged_object_name("/w", "/w/a/README.md"), ":a/README.md");
    assert_eq!(staged_object_name("/v", "/w/README.md"), ":/w/README.md");
}

#[test]
fn the_workspace_has_a_name() {
    let mut workspace: Metadata = metadata(vec![package("a", "/w/a"), package("b", "/w")]);
    let root: Result<String, String> = Ok("/w/Cargo.toml".to_string());
    let manifests = vec![None, Some("/w/Cargo.toml".to_string())];
    let name = |m: &Metadata| workspace_name_from_metadata_object(m, &root, &manifests);
    assert_eq!(name(&workspace), Ok("b".to_string()));
    workspace.workspace_default_members = strings(&["nobody", "id-a"]);
    assert_eq!(name(&workspace), Ok("a".to_string()));
    workspace.resolve_root = Some("id-b".to_string());
    assert_eq!(name(&workspace), Ok("b".to_string()));
    workspace.resolve_root = Some("nobody".to_string());
    assert_eq!(name(&workspace), Ok("a".to_string()));
    workspace.workspace_default_members.clear();
    assert_eq!(
        workspace_name_from_metadata_object(&workspace, &Err("gone".to_string()), &manifests),
        Err("Failed to canonicalize workspace manifest: gone".to_string())
    );
    assert_eq!(
        workspace_name_from_metadata_object(&workspace, &root, &vec![None, None]),
        Err("Unable to match workspace manifest to any package".to_string())
    );
    assert_eq!(package_name_by_id(&workspace, "id-b"), Some("b".to_string()));
    assert_eq!(package_name_by_id(&workspace, "id-c"), None);
    assert_eq!(workspace_readme_name(Ok("x".to_string()), "/w"), "x");
    assert_eq!(workspace_readme_name(Err("e".to_string()), "/some/w"), "w");
    assert_eq!(workspace_readme_name(Err("e".to_string()), "/"), "workspace");
    let dir = WorkspaceDir::new("/some/w".to_string(), true, Err("e".to_string()), no_files());
    assert_eq!((dir.path.as_str(), dir.name.as_str()), ("/some/w", "w"));
}
