use capn::checks::{
    check_edition_2024, check_external_path_deps, check_internal_dev_deps_release_plz,
    collect_dev_dep_violations, dev_dep_sections, external_path_deps, suggested_dev_dep_path,
    workspace_edition, workspace_internal_dependency_paths, CheckError, DevDep,
};
use capn::metadata::{Metadata, Package};

fn package(name: &str, manifest_path: &str) -> Package {
    Package {
        id: format!("path+{}#0.1.0", manifest_path),
        name: name.to_string(),
        manifest_path: manifest_path.to_string(),
        edition: "2024".to_string(),
        has_source: false,
    }
}

fn workspace(root: &str, members: Vec<Package>) -> Metadata {
    Metadata {
        workspace_root: root.to_string(),
        workspace_members: members.iter().map(|p| p.id.clone()).collect(),
        packages: members,
        resolve_root: None,
        workspace_default_members: Vec::new(),
    }
}

const ROOT_WITH_INTERNAL: &str = "[workspace]\nresolver = \"3\"\nmembers = [\"my-crate\", \"my-internal\"]\n\n[workspace.dependencies]\nmy-internal = { path = \"my-internal\", version = \"0.1.0\" }\n";

const INTERNAL_MANIFEST: &str =
    "[package]\nname = \"my-internal\"\nversion = \"0.1.0\"\nedition = \"2024\"\n";

/// The workspace of a root manifest and of a crate with some dev-dependencies.
fn check_dev_deps(fixture: &str, root: &str, dev_deps: &str) -> Result<(), CheckError> {
    let base = format!("/fixtures/{}", fixture);
    let metadata = workspace(
        &base,
        vec![
            package("my-crate", &format!("{}/my-crate/Cargo.toml", base)),
            package("my-internal", &format!("{}/my-internal/Cargo.toml", base)),
        ],
    );
    let manifest = format!(
        "[package]\nname = \"my-crate\"\nversion = \"0.1.0\"\nedition = \"2024\"\n\n{}",
        dev_deps
    );
    check_internal_dev_deps_release_plz(
        &metadata,
        &Ok(root.to_string()),
        &vec![Ok(manifest), Ok(INTERNAL_MANIFEST.to_string())],
    )
}

#[test]
fn allows_internal_path_only_dev_dependency() {
    let result = check_dev_deps(
        "workspace_with_internal_dev_dep_path_only",
        ROOT_WITH_INTERNAL,
        "[dev-dependencies]\nmy-internal = { path = \"../my-internal\" }\n",
    );
    assert!(result.is_ok(), "{}", result.err().unwrap().details);
}

#[test]
fn allows_external_workspace_dev_dependency() {
    let result = check_dev_deps(
        "workspace_with_external_dev_dep_workspace",
        "[workspace]\nmembers = [\"my-crate\", \"my-internal\"]\n\n[workspace.dependencies]\nmy-internal = { path = \"my-internal\", version = \"0.1.0\" }\nserde = \"1\"\n",
        "[dev-dependencies]\nserde.workspace = true\n",
    );
    assert!(result.is_ok(), "{}", result.err().unwrap().details);
}

#[test]
fn rejects_internal_workspace_true_dev_dependency() {
    let result = check_dev_deps(
        "workspace_with_internal_dev_dep_workspace",
        ROOT_WITH_INTERNAL,
        "[dev-dependencies]\nmy-internal.workspace = true\n",
    );
    let err = result
        .err()
        .expect("internal workspace=true dev dependency should fail");
    assert!(err.details.contains("my-crate/Cargo.toml"), "{:#?}", err.details);
    assert!(err.details.contains("[dev-dependencies]"), "{:#?}", err.details);
    assert!(
        err.details.contains("my-internal.workspace = true"),
        "{:#?}",
        err.details
    );
}

#[test]
fn rejects_internal_path_and_version_dev_dependency() {
    let result = check_dev_deps(
        "workspace_with_internal_dev_dep_path_version",
        ROOT_WITH_INTERNAL,
        "[dev-dependencies]\nmy-internal = { path = \"../my-internal\", version = \"0.1.0\" }\n",
    );
    let err = result
        .err()
        .expect("internal dev dependency with path+version should fail");
    assert!(err.details.contains("my-crate/Cargo.toml"), "{:#?}", err.details);
    assert!(err.details.contains("[dev-dependencies]"), "{:#?}", err.details);
    assert!(
        err.details.contains("sets both `path` and `version`"),
        "{:#?}",
        err.details
    );
}

#[test]
fn rejects_internal_target_workspace_true_dev_dependency() {
    let result = check_dev_deps(
        "workspace_with_internal_target_dev_dep_workspace",
        ROOT_WITH_INTERNAL,
        "[target.'cfg(unix)'.dev-dependencies]\nmy-internal.workspace = true\n",
    );
    let err = result
        .err()
        .expect("internal target-specific workspace=true dev dependency should fail");
    assert!(err.details.contains("my-crate/Cargo.toml"), "{:#?}", err.details);
    assert!(
        err.details.contains("[target.cfg(unix).dev-dependencies]"),
        "{:#?}",
        err.details
    );
}

#[test]
fn valid_workspace_has_no_external_deps() {
    let metadata = workspace(
        "/fixtures/valid_workspace",
        vec![
            package("crate-a", "/fixtures/valid_workspace/crate-a/Cargo.toml"),
            package("crate-b", "/fixtures/valid_workspace/crate-b/Cargo.toml"),
        ],
    );
    let external = external_path_deps(&metadata);
    assert!(
        external.is_empty(),
        "Expected no external deps, found: {:?}",
        external
    );
    assert!(check_external_path_deps(&metadata).is_ok());
}

#[test]
fn detects_external_path_dependency() {
    let mut metadata = workspace(
        "/fixtures/workspace_with_external_dep/workspace",
        vec![package(
            "my-crate",
            "/fixtures/workspace_with_external_dep/workspace/my-crate/Cargo.toml",
        )],
    );
    metadata.packages.push(package(
        "external-crate",
        "/fixtures/workspace_with_external_dep/external_crate/Cargo.toml",
    ));
    let mut registry = package("serde", "/home/me/.cargo/registry/serde-1.0.0/Cargo.toml");
    registry.has_source = true;
    metadata.packages.push(registry);

    let external = external_path_deps(&metadata);
    assert_eq!(external.len(), 1, "Expected 1 external dep, found: {:?}", external);
    assert_eq!(external[0].0, "external-crate");
    assert!(
        external[0].1.as_str().contains("external_crate"),
        "Expected path to contain 'external_crate', got: {}",
        external[0].1
    );

    let err = check_external_path_deps(&metadata).err().unwrap();
    assert_eq!(
        err.summary,
        "\u{1b}[1m\u{1b}[31mExternal path dependencies detected!\u{1b}[39m\u{1b}[0m"
    );
    assert_eq!(
        err.details,
        "The following path dependencies point outside the workspace root (/fixtures/workspace_with_external_dep/workspace):\n\n  \u{1b}[31m✗\u{1b}[39m \u{1b}[33mexternal-crate\u{1b}[39m → /fixtures/workspace_with_external_dep/external_crate\n\nThese are typically local development overrides (e.g., in [patch] sections)\nthat should not be committed. They will break builds for other developers.\n\nTo fix: comment out or remove the path dependencies before committing."
    );
}

#[test]
fn external_means_outside_by_components() {
    // A sibling whose name begins with that of the workspace is outside.
    let metadata = workspace("/w", vec![package("a", "/w2/a/Cargo.toml")]);
    assert_eq!(external_path_deps(&metadata).len(), 1);
    let metadata = workspace("/w/", vec![package("a", "/w//a/./Cargo.toml")]);
    assert_eq!(external_path_deps(&metadata).len(), 0);
}

#[test]
fn edition_check_names_root_and_members() {
    let mut metadata = workspace("/w", vec![package("a", "/w/a/Cargo.toml")]);
    assert!(check_edition_2024(&metadata, &None).is_ok());
    let root = "[workspace.package]\nedition = \"2021\"\n".to_string();
    metadata.packages[0].edition = "2018".to_string();
    let mut outsider = package("b", "/elsewhere/b/Cargo.toml");
    outsider.edition = "2015".to_string();
    metadata.packages.push(outsider);
    let err = check_edition_2024(&metadata, &Some(root)).err().unwrap();
    assert_eq!(
        err.summary,
        "\u{1b}[31mYou have been deemed OUTDATED - edition 2024 now or bust\u{1b}[39m"
    );
    assert_eq!(
        err.details,
        "  \u{1b}[33mfix:\u{1b}[39m /w/Cargo.toml: [workspace.package].edition = \"2021\" (expected \"2024\")\n  \u{1b}[33mfix:\u{1b}[39m /w/a/Cargo.toml: edition = \"2018\" (expected \"2024\")\n\nSet edition = \"2024\" in the above location(s) to proceed."
    );
}

#[test]
fn edition_of_the_root_is_quoted_with_escapes() {
    let metadata = workspace("/w", Vec::new());
    let root = "[workspace.package]\nedition = \"20\\\"21\"\n".to_string();
    let err = check_edition_2024(&metadata, &Some(root)).err().unwrap();
    assert!(err.details.contains(&format!("edition = {:?} (expected", "20\"21")));
}

#[test]
fn edition_is_read_from_the_workspace_package_table_only() {
    assert_eq!(
        workspace_edition("[workspace.package]\nedition = \"2021\"\n"),
        Some("2021".to_string())
    );
    assert_eq!(workspace_edition("[package]\nedition = \"2021\"\n"), None);
    assert_eq!(workspace_edition("workspace = { package = { edition = \"2021\" } }\n"), None);
    assert_eq!(workspace_edition("[workspace.package]\nedition = 2021\n"), None);
    assert_eq!(workspace_edition("not toml ["), None);
}

#[test]
fn unreadable_and_broken_manifests_are_reported() {
    let metadata = workspace("/w", vec![package("a", "/w/a/Cargo.toml")]);
    let err = check_internal_dev_deps_release_plz(
        &metadata,
        &Err("no such file".to_string()),
        &vec![Ok(String::new())],
    )
    .err()
    .unwrap();
    assert_eq!(
        err.summary,
        "\u{1b}[1m\u{1b}[31mFailed to read workspace Cargo.toml\u{1b}[39m\u{1b}[0m"
    );
    assert_eq!(err.details, "/w/Cargo.toml: no such file");

    let err = check_internal_dev_deps_release_plz(
        &metadata,
        &Ok("a = [".to_string()),
        &vec![Ok(String::new())],
    )
    .err()
    .unwrap();
    assert_eq!(
        err.summary,
        "\u{1b}[1m\u{1b}[31mFailed to parse workspace Cargo.toml\u{1b}[39m\u{1b}[0m"
    );
    let message = "a = [".parse::<toml_edit::DocumentMut>().err().unwrap().to_string();
    assert_eq!(err.details, format!("/w/Cargo.toml: {}", message));

    let root = "[workspace.dependencies]\na = { path = \"a\" }\n".to_string();
    let err = check_internal_dev_deps_release_plz(
        &metadata,
        &Ok(root.clone()),
        &vec![Err("denied".to_string())],
    )
    .err()
    .unwrap();
    assert_eq!(
        err.summary,
        "\u{1b}[1m\u{1b}[31mFailed to read workspace member manifest\u{1b}[39m\u{1b}[0m"
    );
    assert_eq!(err.details, "/w/a/Cargo.toml: denied");

    let err = check_internal_dev_deps_release_plz(
        &metadata,
        &Ok(root),
        &vec![Ok("x = = 1".to_string())],
    )
    .err()
    .unwrap();
    assert_eq!(
        err.summary,
        "\u{1b}[1m\u{1b}[31mFailed to parse workspace member manifest\u{1b}[39m\u{1b}[0m"
    );
}

#[test]
fn a_workspace_without_internal_dependencies_is_not_searched() {
    let metadata = workspace("/w", vec![package("a", "/w/a/Cargo.toml")]);
    let result = check_internal_dev_deps_release_plz(
        &metadata,
        &Ok("[workspace.dependencies]\nserde = \"1\"\n".to_string()),
        &vec![Err("never read".to_string())],
    );
    assert!(result.is_ok());
}

#[test]
fn internal_dependencies_are_those_with_a_path() {
    let document: toml_edit::DocumentMut =
        "[workspace.dependencies]\na = { path = \"x/a\" }\nb = \"1\"\n[workspace.dependencies.c]\npath = \"c\"\n"
            .parse()
            .unwrap();
    assert_eq!(
        workspace_internal_dependency_paths(document.as_item()),
        vec![
            ("a".to_string(), "x/a".to_string()),
            ("c".to_string(), "c".to_string())
        ]
    );
}

#[test]
fn dev_dependency_tables_are_found() {
    let document: toml_edit::DocumentMut =
        "[dev-dependencies]\na.workspace = true\nb = { path = \"b\", version = \"1\" }\nc = \"1\"\n[target.x.dev-dependencies]\nd = { workspace = false }\n[target.y]\nz = 1\n"
            .parse()
            .unwrap();
    let sections = dev_dep_sections(document.as_item());
    assert_eq!(sections.len(), 2);
    assert_eq!(sections[0].heading, "[dev-dependencies]");
    assert_eq!(sections[0].deps.len(), 3);
    assert!(sections[0].deps[0].workspace && !sections[0].deps[0].path_and_version);
    assert!(!sections[0].deps[1].workspace && sections[0].deps[1].path_and_version);
    assert!(!sections[0].deps[2].workspace && !sections[0].deps[2].path_and_version);
    assert_eq!(sections[1].heading, "[target.x.dev-dependencies]");
    assert!(!sections[1].deps[0].workspace);
}

#[test]
fn a_path_is_suggested_for_a_workspace_dependency() {
    let mut violations = vec!["before".to_string()];
    collect_dev_dep_violations(
        &mut violations,
        "/w/crates/my-crate/Cargo.toml",
        "[dev-dependencies]",
        &vec![
            DevDep { name: "inner".to_string(), workspace: true, path_and_version: false },
            DevDep { name: "outer".to_string(), workspace: true, path_and_version: false },
        ],
        &vec![("inner".to_string(), "libs/inner".to_string())],
        "/w",
    );
    assert_eq!(violations.len(), 2);
    assert!(violations[1].contains("../../libs/inner"), "{}", violations[1]);
}

#[test]
fn suggestions_move_with_the_workspace() {
    for (manifest, root, path) in [
        ("w/crates/a/Cargo.toml", "w", "crates/b"),
        ("w/a/Cargo.toml", "w", "b"),
        ("w/Cargo.toml", "w", "b/c"),
        ("Cargo.toml", "", "b"),
    ] {
        let suggest = |place: &str| {
            let at = std::path::Path::new(place);
            suggested_dev_dep_path(
                at.join(manifest).to_str().unwrap(),
                at.join(root).to_str().unwrap(),
                path,
            )
        };
        assert_eq!(suggest("/"), suggest("/home/me"));
        assert_eq!(suggest("/w"), suggest("//other/./place/"));
    }
    assert_eq!(
        suggested_dev_dep_path("/p/w/crates/a/Cargo.toml", "/p/w", "crates/b"),
        "../b"
    );
}

#[test]
fn suggested_paths_lead_from_the_manifest_to_the_crate() {
    let suggest = |manifest: &str, path: &str| {
        suggested_dev_dep_path(manifest, "/w", path)
    };
    for (manifest, path) in [
        ("/w/a/Cargo.toml", "b"),
        ("/w/crates/a/Cargo.toml", "crates/b"),
        ("/w/crates/deep/er/a/Cargo.toml", "b"),
        ("/w/Cargo.toml", "b/c"),
        ("/w/a/Cargo.toml", "a"),
    ] {
        let suggested = suggest(manifest, path);
        let mut at = std::path::PathBuf::from(manifest);
        at.pop();
        for piece in suggested.split('/') {
            match piece {
                ".." => {
                    at.pop();
                }
                "." | "" => {}
                name => at.push(name),
            }
        }
        assert_eq!(at, std::path::Path::new("/w").join(path), "{}", suggested);
    }
}

#[test]
fn a_check_error_keeps_its_summary() {
    let err = CheckError::new("summary".to_string());
    assert_eq!(err.details, "");
    let err = err.with_details("details".to_string());
    assert_eq!((err.summary.as_str(), err.details.as_str()), ("summary", "details"));
}
