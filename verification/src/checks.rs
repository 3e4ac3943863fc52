//! Validation checks on a workspace.
//!
//! A check returns what is wrong as a summary and details, ready to be shown.

use crate::metadata::{Metadata, Package};
use crate::paint::{bold, in_bold, in_red, in_yellow, red, yellow};
use crate::path::{
    are_plain_names, common_prefix_len, components, components_of, is_path_under, is_plain_name,
    is_under, join_path, joined_path, lemma_joined_components, lemma_parent_components,
    lemma_rooted_components, lemma_rooted_join, lemma_rooted_parent, lemma_rooted_push,
    lemma_rooted_under, lemma_shared_len, parent_or_self, parent_or_self_of, pieces, rooted,
    shared_len, slashed,
};
use crate::text::{
    debug_string, has_text, join, joined, occurs_at, opt_text, quoted, result_text, text_eq,
    text_pairs, texts,
};
use crate::toml::{
    document_root, document_tree, flag_field, item_bool_field, item_entries, item_has_field,
    item_string_field, item_tree, parse_document, table_in, text_field, toml_parse, Toml,
};
use vstd::prelude::*;
use vstd::string::*;

verus! {

/// Error from a validation check, with formatted details for display.
pub struct CheckError {
    pub summary: String,
    pub details: String,
}

impl CheckError {
    /// An error without details.
    pub fn new(summary: String) -> (r: Self)
        ensures
            r.summary@ == summary@,
            r.details@ == Seq::<char>::empty(),
    {
        CheckError { summary, details: String::new() }
    }

    /// The error with other details.
    pub fn with_details(self, details: String) -> (r: Self)
        ensures
            r.summary@ == self.summary@,
            r.details@ == details@,
    {
        CheckError { summary: self.summary, details }
    }
}

/// The outcome of a check as text: nothing, or a summary and details.
pub open spec fn outcome(r: Result<(), CheckError>) -> Option<(Seq<char>, Seq<char>)> {
    match r {
        Ok(_) => None,
        Err(e) => Some((e.summary@, e.details@)),
    }
}

// ---- edition ----

/// The path of the workspace's own manifest.
pub open spec fn root_manifest_path(metadata: Metadata) -> Seq<char> {
    joined_path(metadata.workspace_root@, "Cargo.toml"@)
}

/// What `[workspace.package].edition` says in a manifest that could be read.
pub open spec fn declared_edition(manifest: Result<Toml, Seq<char>>) -> Option<Seq<char>> {
    match manifest {
        Err(_) => None,
        Ok(tree) => match tree.section("workspace"@) {
            None => None,
            Some(workspace) => match workspace.section("package"@) {
                None => None,
                Some(package) => text_field(package, "edition"@),
            },
        },
    }
}

/// Reads `[workspace.package].edition` in the text of a manifest.
pub fn workspace_edition(manifest: &str) -> (r: Option<String>)
    ensures
        opt_text(r) == declared_edition(toml_parse(manifest@)),
{
    match parse_document(manifest) {
        Err(_) => None,
        Ok(document) => match table_in(document_root(&document), "workspace") {
            None => None,
            Some(workspace) => match table_in(workspace, "package") {
                None => None,
                Some(package) => item_string_field(package, "edition"),
            },
        },
    }
}

/// The line for the workspace's own manifest.
pub open spec fn root_edition_line(path: Seq<char>, edition: Seq<char>) -> Seq<char> {
    path + ": [workspace.package].edition = "@ + debug_string(edition) + " (expected \"2024\")"@
}

/// The line for the manifest of a package.
pub open spec fn edition_line(path: Seq<char>, edition: Seq<char>) -> Seq<char> {
    path + ": edition = \""@ + edition + "\" (expected \"2024\")"@
}

/// A workspace member that is not on edition 2024.
pub open spec fn is_outdated(metadata: Metadata, package: Package) -> bool {
    metadata.has_member(package.id@) && package.edition@ != "2024"@
}

/// One line for each of the packages that is outdated.
pub open spec fn outdated_lines(metadata: Metadata, packages: Seq<Package>) -> Seq<Seq<char>>
    decreases packages.len(),
{
    if packages.len() == 0 {
        Seq::empty()
    } else {
        let before = outdated_lines(metadata, packages.drop_last());
        let package = packages.last();
        if is_outdated(metadata, package) {
            before.push(edition_line(package.manifest_path@, package.edition@))
        } else {
            before
        }
    }
}

/// Everything that is wrong with the editions, given the edition that the workspace's own
/// manifest declares.
pub open spec fn edition_problems(metadata: Metadata, declared: Option<Seq<char>>) -> Seq<Seq<char>> {
    let members = outdated_lines(metadata, metadata.packages@);
    match declared {
        Some(edition) => if edition != "2024"@ {
            seq![root_edition_line(root_manifest_path(metadata), edition)] + members
        } else {
            members
        },
        None => members,
    }
}

/// Lists everything that is wrong with the editions.
pub fn edition_errors(metadata: &Metadata, declared: &Option<String>) -> (r: Vec<String>)
    ensures
        texts(r@) == edition_problems(*metadata, opt_text(*declared)),
{
    let mut errors: Vec<String> = Vec::new();
    match declared {
        Some(edition) => {
            if !text_eq(edition.as_str(), "2024") {
                let mut line = join_path(metadata.workspace_root.as_str(), "Cargo.toml");
                line.append(": [workspace.package].edition = ");
                line.append(quoted(edition.as_str()).as_str());
                line.append(" (expected \"2024\")");
                errors.push(line);
            }
        },
        None => {},
    }
    let ghost first = texts(errors@);
    let mut i: usize = 0;
    assert(metadata.packages@.take(0) =~= Seq::<Package>::empty());
    assert(first =~= first + outdated_lines(*metadata, metadata.packages@.take(0)));
    while i < metadata.packages.len()
        invariant
            i <= metadata.packages@.len(),
            texts(errors@) == first + outdated_lines(*metadata, metadata.packages@.take(i as int)),
        decreases metadata.packages@.len() - i,
    {
        let package = &metadata.packages[i];
        let ghost before = errors@;
        proof {
            let seen = metadata.packages@.take(i + 1);
            assert(seen.drop_last() =~= metadata.packages@.take(i as int));
            assert(seen.last() == metadata.packages@[i as int]);
        }
        if metadata.is_member(package.id.as_str()) && !text_eq(package.edition.as_str(), "2024") {
            let mut line = package.manifest_path.clone();
            line.append(": edition = \"");
            line.append(package.edition.as_str());
            line.append("\" (expected \"2024\")");
            errors.push(line);
            proof {
                assert(texts(errors@) =~= texts(before).push(line@));
                assert(texts(errors@) =~= first + outdated_lines(
                    *metadata,
                    metadata.packages@.take(i + 1),
                ));
            }
        }
        i = i + 1;
    }
    proof {
        assert(metadata.packages@.take(i as int) =~= metadata.packages@);
        match declared {
            Some(edition) => {
                if edition@ != "2024"@ {
                    assert(first =~= seq![root_edition_line(root_manifest_path(*metadata), edition@)]);
                } else {
                    assert(texts(errors@) =~= outdated_lines(*metadata, metadata.packages@));
                }
            },
            None => {
                assert(texts(errors@) =~= outdated_lines(*metadata, metadata.packages@));
            },
        }
    }
    errors
}

/// The lines of a list, each behind a marker.
pub open spec fn marked_lines(lines: Seq<Seq<char>>, marker: Seq<char>) -> Seq<char>
    decreases lines.len(),
{
    if lines.len() == 0 {
        Seq::empty()
    } else {
        marked_lines(lines.drop_last(), marker) + ("  "@ + marker + " "@ + lines.last() + "\n"@)
    }
}

/// Writes the lines of a list, each behind a marker, after a text.
fn append_marked_lines(out: &mut String, lines: &Vec<String>, marker: &str)
    ensures
        final(out)@ == old(out)@ + marked_lines(texts(lines@), marker@),
{
    let ghost start = out@;
    let mut i: usize = 0;
    assert(out@ =~= start + marked_lines(texts(lines@).take(0), marker@));
    while i < lines.len()
        invariant
            i <= lines@.len(),
            out@ == start + marked_lines(texts(lines@).take(i as int), marker@),
        decreases lines@.len() - i,
    {
        let mut line = "  ".to_owned();
        line.append(marker);
        line.append(" ");
        line.append(lines[i].as_str());
        line.append("\n");
        out.append(line.as_str());
        proof {
            let seen = texts(lines@).take(i + 1);
            assert(seen.drop_last() =~= texts(lines@).take(i as int));
            assert(out@ =~= start + marked_lines(seen, marker@));
        }
        i = i + 1;
    }
    proof {
        assert(texts(lines@).take(i as int) =~= texts(lines@));
    }
}

/// What is said of outdated editions.
pub open spec fn edition_report(problems: Seq<Seq<char>>) -> Option<(Seq<char>, Seq<char>)> {
    if problems.len() == 0 {
        None
    } else {
        Some(
            (
                in_red("You have been deemed OUTDATED - edition 2024 now or bust"@),
                marked_lines(problems, in_yellow("fix:"@))
                    + "\nSet edition = \"2024\" in the above location(s) to proceed."@,
            ),
        )
    }
}

/// Turns what is wrong with the editions into the outcome of the check.
pub fn edition_verdict(errors: &Vec<String>) -> (r: Result<(), CheckError>)
    ensures
        outcome(r) == edition_report(texts(errors@)),
{
    if errors.len() == 0 {
        return Ok(());
    }
    let mut details = String::new();
    append_marked_lines(&mut details, errors, yellow("fix:").as_str());
    details.append("\nSet edition = \"2024\" in the above location(s) to proceed.");
    proof {
        assert(details@ =~= marked_lines(texts(errors@), in_yellow("fix:"@))
            + "\nSet edition = \"2024\" in the above location(s) to proceed."@);
    }
    let summary = red("You have been deemed OUTDATED - edition 2024 now or bust");
    Err(CheckError::new(summary).with_details(details))
}

/// The edition that the workspace's own manifest declares, if there is a manifest.
pub open spec fn root_edition(root_manifest: Option<Seq<char>>) -> Option<Seq<char>> {
    match root_manifest {
        Some(manifest) => declared_edition(toml_parse(manifest)),
        None => None,
    }
}

/// Check that all workspace crates use edition 2024. `root_manifest` is the text of the
/// workspace's own manifest, if it exists and can be read.
pub fn check_edition_2024(metadata: &Metadata, root_manifest: &Option<String>) -> (r: Result<
    (),
    CheckError,
>)
    ensures
        outcome(r) == edition_report(
            edition_problems(*metadata, root_edition(opt_text(*root_manifest))),
        ),
{
    let declared = match root_manifest {
        Some(manifest) => workspace_edition(manifest.as_str()),
        None => None,
    };
    edition_verdict(&edition_errors(metadata, &declared))
}

// ---- external path dependencies ----

/// A path dependency that points outside the workspace: a package without a source whose
/// manifest does not lie under the workspace root.
pub open spec fn is_external(metadata: Metadata, package: Package) -> bool {
    !package.has_source && !is_under(package.manifest_path@, metadata.workspace_root@)
}

/// The name and the manifest of each of the packages that is external.
pub open spec fn external_packages(metadata: Metadata, packages: Seq<Package>) -> Seq<
    (Seq<char>, Seq<char>),
>
    decreases packages.len(),
{
    if packages.len() == 0 {
        Seq::empty()
    } else {
        let before = external_packages(metadata, packages.drop_last());
        let package = packages.last();
        if is_external(metadata, package) {
            before.push((package.name@, package.manifest_path@))
        } else {
            before
        }
    }
}

/// Finds the path dependencies that point outside the workspace: the name and the manifest
/// of each.
pub fn external_path_deps(metadata: &Metadata) -> (r: Vec<(String, String)>)
    ensures
        text_pairs(r@) == external_packages(*metadata, metadata.packages@),
{
    let mut found: Vec<(String, String)> = Vec::new();
    let mut i: usize = 0;
    assert(metadata.packages@.take(0) =~= Seq::<Package>::empty());
    assert(text_pairs(found@) =~= Seq::empty());
    while i < metadata.packages.len()
        invariant
            i <= metadata.packages@.len(),
            text_pairs(found@) == external_packages(*metadata, metadata.packages@.take(i as int)),
        decreases metadata.packages@.len() - i,
    {
        let package = &metadata.packages[i];
        let ghost before = found@;
        proof {
            let seen = metadata.packages@.take(i + 1);
            assert(seen.drop_last() =~= metadata.packages@.take(i as int));
            assert(seen.last() == metadata.packages@[i as int]);
        }
        if !package.has_source && !is_path_under(
            package.manifest_path.as_str(),
            metadata.workspace_root.as_str(),
        ) {
            let pair = (package.name.clone(), package.manifest_path.clone());
            found.push(pair);
            proof {
                assert(text_pairs(found@) =~= text_pairs(before).push((pair.0@, pair.1@)));
            }
        }
        i = i + 1;
    }
    proof {
        assert(metadata.packages@.take(i as int) =~= metadata.packages@);
    }
    found
}

/// One line for each external dependency: its name and its directory.
pub open spec fn external_lines(deps: Seq<(Seq<char>, Seq<char>)>) -> Seq<Seq<char>> {
    Seq::new(
        deps.len(),
        |i: int| in_yellow(deps[i].0) + " → "@ + parent_or_self(deps[i].1),
    )
}

/// What is said of external path dependencies.
pub open spec fn external_report(root: Seq<char>, deps: Seq<(Seq<char>, Seq<char>)>) -> Option<
    (Seq<char>, Seq<char>),
> {
    if deps.len() == 0 {
        None
    } else {
        Some(
            (
                in_bold(in_red("External path dependencies detected!"@)),
                "The following path dependencies point outside the workspace root ("@ + root
                    + "):\n\n"@ + marked_lines(external_lines(deps), in_red("✗"@))
                    + "\nThese are typically local development overrides (e.g., in [patch] sections)\n"@
                    + "that should not be committed. They will break builds for other developers.\n\n"@
                    + "To fix: comment out or remove the path dependencies before committing."@,
            ),
        )
    }
}

/// Turns the external path dependencies into the outcome of the check.
pub fn external_verdict(root: &str, deps: &Vec<(String, String)>) -> (r: Result<(), CheckError>)
    ensures
        outcome(r) == external_report(root@, text_pairs(deps@)),
{
    if deps.len() == 0 {
        return Ok(());
    }
    let mut lines: Vec<String> = Vec::new();
    let mut i: usize = 0;
    assert(texts(lines@) =~= external_lines(text_pairs(deps@)).take(0));
    while i < deps.len()
        invariant
            i <= deps@.len(),
            texts(lines@) == external_lines(text_pairs(deps@)).take(i as int),
        decreases deps@.len() - i,
    {
        let ghost before = lines@;
        let mut line = yellow(deps[i].0.as_str());
        line.append(" → ");
        line.append(parent_or_self_of(deps[i].1.as_str()).as_str());
        lines.push(line);
        proof {
            assert(texts(lines@) =~= texts(before).push(line@));
            assert(line@ == external_lines(text_pairs(deps@))[i as int]);
        }
        i = i + 1;
    }
    proof {
        assert(external_lines(text_pairs(deps@)).take(i as int) =~= external_lines(
            text_pairs(deps@),
        ));
    }
    let mut details =
        "The following path dependencies point outside the workspace root (".to_owned();
    details.append(root);
    details.append("):\n\n");
    append_marked_lines(&mut details, &lines, red("✗").as_str());
    details.append("\nThese are typically local development overrides (e.g., in [patch] sections)\n");
    details.append("that should not be committed. They will break builds for other developers.\n\n");
    details.append("To fix: comment out or remove the path dependencies before committing.");
    let summary = bold(red("External path dependencies detected!").as_str());
    Err(CheckError::new(summary).with_details(details))
}

/// Check for path dependencies that point outside the workspace.
/// These are typically local development overrides that should not be committed.
pub fn check_external_path_deps(metadata: &Metadata) -> (r: Result<(), CheckError>)
    ensures
        outcome(r) == external_report(
            metadata.workspace_root@,
            external_packages(*metadata, metadata.packages@),
        ),
{
    external_verdict(metadata.workspace_root.as_str(), &external_path_deps(metadata))
}

// ---- internal dev-dependencies ----

/// A dev-dependency, as far as the check reads it.
pub struct DevDep {
    /// The key that it stands under.
    pub name: String,
    /// Whether it says `workspace = true`.
    pub workspace: bool,
    /// Whether it has both a `path` and a `version`.
    pub path_and_version: bool,
}

/// A table of dev-dependencies of a manifest.
pub struct DevDepSection {
    /// The heading of the table.
    pub heading: String,
    /// The dev-dependencies in their order.
    pub deps: Vec<DevDep>,
}

/// A dev-dependency as text.
pub struct DevDepText {
    pub name: Seq<char>,
    pub workspace: bool,
    pub path_and_version: bool,
}

/// The dev-dependencies of a list as text.
pub open spec fn dev_dep_texts(deps: Seq<DevDep>) -> Seq<DevDepText> {
    Seq::new(
        deps.len(),
        |i: int|
            DevDepText {
                name: deps[i].name@,
                workspace: deps[i].workspace,
                path_and_version: deps[i].path_and_version,
            },
    )
}

/// The tables of a list as text.
pub open spec fn section_texts(sections: Seq<DevDepSection>) -> Seq<(Seq<char>, Seq<DevDepText>)> {
    Seq::new(sections.len(), |i: int| (sections[i].heading@, dev_dep_texts(sections[i].deps@)))
}

/// The dependencies of the workspace that have a path: the name and the path of each.
pub open spec fn path_entries(entries: Seq<(Seq<char>, Toml)>) -> Seq<(Seq<char>, Seq<char>)>
    decreases entries.len(),
{
    if entries.len() == 0 {
        Seq::empty()
    } else {
        let before = path_entries(entries.drop_last());
        match text_field(entries.last().1, "path"@) {
            Some(path) => before.push((entries.last().0, path)),
            None => before,
        }
    }
}

/// The internal crates that a workspace manifest declares under `[workspace.dependencies]`.
pub open spec fn internal_deps(tree: Toml) -> Seq<(Seq<char>, Seq<char>)> {
    match tree.section("workspace"@) {
        None => Seq::empty(),
        Some(workspace) => match workspace.section("dependencies"@) {
            None => Seq::empty(),
            Some(deps) => path_entries(deps.entries()),
        },
    }
}

/// Reads the internal crates that a workspace manifest declares: the name and the path of
/// each.
pub fn workspace_internal_dependency_paths(root: &toml_edit::Item) -> (r: Vec<(String, String)>)
    ensures
        text_pairs(r@) == internal_deps(item_tree(*root)),
{
    let mut internal: Vec<(String, String)> = Vec::new();
    assert(text_pairs(internal@) =~= Seq::empty());
    let workspace = match table_in(root, "workspace") {
        Some(workspace) => workspace,
        None => {
            return internal;
        },
    };
    let deps = match table_in(workspace, "dependencies") {
        Some(deps) => deps,
        None => {
            return internal;
        },
    };
    let entries = item_entries(deps);
    let ghost all = item_tree(*deps).entries();
    let mut i: usize = 0;
    assert(all.take(0) =~= Seq::empty());
    while i < entries.len()
        invariant
            i <= entries@.len(),
            entries@.len() == all.len(),
            forall|k: int|
                0 <= k < entries@.len() ==> all[k] == ((#[trigger] entries@[k]).0@, item_tree(
                    *entries@[k].1,
                )),
            text_pairs(internal@) == path_entries(all.take(i as int)),
        decreases entries@.len() - i,
    {
        let ghost before = internal@;
        proof {
            assert(all.take(i + 1).drop_last() =~= all.take(i as int));
            assert(all.take(i + 1).last() == all[i as int]);
        }
        match item_string_field(entries[i].1, "path") {
            Some(path) => {
                let pair = (entries[i].0.clone(), path);
                internal.push(pair);
                proof {
                    assert(text_pairs(internal@) =~= text_pairs(before).push((pair.0@, pair.1@)));
                }
            },
            None => {},
        }
        i = i + 1;
    }
    proof {
        assert(all.take(i as int) =~= all);
    }
    internal
}

/// What a dev-dependency says of itself.
pub open spec fn dev_dep_of(name: Seq<char>, item: Toml) -> DevDepText {
    DevDepText {
        name,
        workspace: flag_field(item, "workspace"@) == Some(true),
        path_and_version: item.get("path"@) is Some && item.get("version"@) is Some,
    }
}

/// The dev-dependencies of a table.
pub open spec fn dev_deps_of(entries: Seq<(Seq<char>, Toml)>) -> Seq<DevDepText> {
    Seq::new(entries.len(), |i: int| dev_dep_of(entries[i].0, entries[i].1))
}

/// Reads the dev-dependencies of a table.
fn read_dev_deps(table: &toml_edit::Item) -> (r: Vec<DevDep>)
    requires
        item_tree(*table) is Section,
    ensures
        dev_dep_texts(r@) == dev_deps_of(item_tree(*table).entries()),
{
    let entries = item_entries(table);
    let ghost all = item_tree(*table).entries();
    let mut deps: Vec<DevDep> = Vec::new();
    let mut i: usize = 0;
    assert(dev_dep_texts(deps@) =~= dev_deps_of(all).take(0));
    while i < entries.len()
        invariant
            i <= entries@.len(),
            entries@.len() == all.len(),
            forall|k: int|
                0 <= k < entries@.len() ==> all[k] == ((#[trigger] entries@[k]).0@, item_tree(
                    *entries@[k].1,
                )),
            dev_dep_texts(deps@) == dev_deps_of(all).take(i as int),
        decreases entries@.len() - i,
    {
        let ghost before = deps@;
        let item = entries[i].1;
        let workspace = match item_bool_field(item, "workspace") {
            Some(flag) => flag,
            None => false,
        };
        let path_and_version = item_has_field(item, "path") && item_has_field(item, "version");
        deps.push(DevDep { name: entries[i].0.clone(), workspace, path_and_version });
        proof {
            assert(deps@.last().name@ == all[i as int].0);
            assert(dev_dep_texts(deps@) =~= dev_dep_texts(before).push(
                dev_dep_of(all[i as int].0, all[i as int].1),
            ));
            assert(dev_deps_of(all).take(i + 1) =~= dev_deps_of(all).take(i as int).push(
                dev_deps_of(all)[i as int],
            ));
        }
        i = i + 1;
    }
    proof {
        assert(dev_deps_of(all).take(i as int) =~= dev_deps_of(all));
    }
    deps
}

/// The heading of the dev-dependencies of a target.
pub open spec fn target_heading(target: Seq<char>) -> Seq<char> {
    "[target."@ + target + ".dev-dependencies]"@
}

/// The dev-dependencies of each target that is a table and has a table of them.
pub open spec fn target_sections(targets: Seq<(Seq<char>, Toml)>) -> Seq<
    (Seq<char>, Seq<DevDepText>),
>
    decreases targets.len(),
{
    if targets.len() == 0 {
        Seq::empty()
    } else {
        let before = target_sections(targets.drop_last());
        let target = targets.last();
        match target.1.section("dev-dependencies"@) {
            Some(table) => if target.1 is Section {
                before.push((target_heading(target.0), dev_deps_of(table.entries())))
            } else {
                before
            },
            None => before,
        }
    }
}

/// All tables of dev-dependencies of a manifest.
pub open spec fn dev_dep_tables(tree: Toml) -> Seq<(Seq<char>, Seq<DevDepText>)> {
    (match tree.section("dev-dependencies"@) {
        Some(table) => seq![("[dev-dependencies]"@, dev_deps_of(table.entries()))],
        None => Seq::empty(),
    }) + (match tree.section("target"@) {
        Some(targets) => target_sections(targets.entries()),
        None => Seq::empty(),
    })
}

/// Reads all tables of dev-dependencies of a manifest.
pub fn dev_dep_sections(root: &toml_edit::Item) -> (r: Vec<DevDepSection>)
    ensures
        section_texts(r@) == dev_dep_tables(item_tree(*root)),
{
    let mut sections: Vec<DevDepSection> = Vec::new();
    match table_in(root, "dev-dependencies") {
        Some(table) => {
            sections.push(
                DevDepSection { heading: "[dev-dependencies]".to_owned(), deps: read_dev_deps(table) },
            );
        },
        None => {},
    }
    let ghost first = section_texts(sections@);
    proof {
        match item_tree(*root).section("dev-dependencies"@) {
            Some(table) => {
                assert(first =~= seq![("[dev-dependencies]"@, dev_deps_of(table.entries()))]);
            },
            None => {
                assert(first =~= Seq::empty());
            },
        }
    }
    match table_in(root, "target") {
        Some(targets) => {
            let entries = item_entries(targets);
            let ghost all = item_tree(*targets).entries();
            let mut i: usize = 0;
            assert(all.take(0) =~= Seq::empty());
            assert(first =~= first + target_sections(all.take(0)));
            while i < entries.len()
                invariant
                    i <= entries@.len(),
                    entries@.len() == all.len(),
                    forall|k: int|
                        0 <= k < entries@.len() ==> all[k] == ((#[trigger] entries@[k]).0@, item_tree(
                            *entries@[k].1,
                        )),
                    section_texts(sections@) == first + target_sections(all.take(i as int)),
                decreases entries@.len() - i,
            {
                let ghost before = sections@;
                proof {
                    assert(all.take(i + 1).drop_last() =~= all.take(i as int));
                    assert(all.take(i + 1).last() == all[i as int]);
                }
                let target = entries[i].1;
                match table_in(target, "dev-dependencies") {
                    Some(table) => {
                        if crate::toml::item_is_table(target) {
                            let mut heading = "[target.".to_owned();
                            heading.append(entries[i].0.as_str());
                            heading.append(".dev-dependencies]");
                            sections.push(DevDepSection { heading, deps: read_dev_deps(table) });
                            proof {
                                let added = sections@.last();
                                assert(section_texts(sections@) =~= section_texts(before).push(
                                    (added.heading@, dev_dep_texts(added.deps@)),
                                ));
                                assert(section_texts(sections@) =~= first + target_sections(
                                    all.take(i + 1),
                                ));
                            }
                        }
                    },
                    None => {},
                }
                i = i + 1;
            }
            proof {
                assert(all.take(i as int) =~= all);
            }
        },
        None => {
            assert(first =~= first + Seq::empty());
        },
    }
    sections
}

/// How a member's manifest refers to a crate of the workspace by a relative path: up from
/// the member's directory to the directory that both share, and down from there.
pub open spec fn suggested_parts(
    manifest_path: Seq<char>,
    workspace_root: Seq<char>,
    dep_path: Seq<char>,
) -> Seq<Seq<char>> {
    let member = components(parent_or_self(manifest_path));
    let dep = components(joined_path(workspace_root, dep_path));
    let shared = shared_len(member, dep) as int;
    Seq::new((member.len() - shared) as nat, |i: int| ".."@) + dep.skip(shared)
}

/// The path that is suggested for a dev-dependency.
pub open spec fn suggested_path(
    manifest_path: Seq<char>,
    workspace_root: Seq<char>,
    dep_path: Seq<char>,
) -> Seq<char> {
    let parts = suggested_parts(manifest_path, workspace_root, dep_path);
    if parts.len() == 0 {
        "."@
    } else {
        joined(parts, "/"@)
    }
}

/// The path that is suggested for a dev-dependency.
pub fn suggested_dev_dep_path(
    member_manifest_path: &str,
    workspace_root: &str,
    workspace_dep_path: &str,
) -> (r: String)
    ensures
        r@ == suggested_path(member_manifest_path@, workspace_root@, workspace_dep_path@),
{
    let member_dir = parent_or_self_of(member_manifest_path);
    let dep_abs = join_path(workspace_root, workspace_dep_path);
    let member = components_of(member_dir.as_str());
    let dep = components_of(dep_abs.as_str());
    let shared = common_prefix_len(&member, &dep);
    let ghost up = Seq::new((member@.len() - shared) as nat, |i: int| ".."@);
    let ghost down = texts(dep@).skip(shared as int);
    let mut parts: Vec<String> = Vec::new();
    let mut i: usize = shared;
    assert(texts(parts@) =~= up.take(0));
    while i < member.len()
        invariant
            shared <= i <= member@.len(),
            up == Seq::new((member@.len() - shared) as nat, |i: int| ".."@),
            texts(parts@) == up.take(i - shared),
        decreases member@.len() - i,
    {
        let ghost before = parts@;
        parts.push("..".to_owned());
        proof {
            assert(texts(parts@) =~= texts(before).push(".."@));
            assert(up.take(i - shared + 1) =~= up.take(i - shared).push(".."@));
        }
        i = i + 1;
    }
    proof {
        assert(up.take(i - shared) =~= up);
        assert(up =~= up + down.take(0));
    }
    let mut j: usize = shared;
    while j < dep.len()
        invariant
            shared <= j <= dep@.len(),
            down == texts(dep@).skip(shared as int),
            texts(parts@) == up + down.take(j - shared),
        decreases dep@.len() - j,
    {
        let ghost before = parts@;
        parts.push(dep[j].clone());
        proof {
            assert(texts(parts@) =~= texts(before).push(dep@[j as int]@));
            assert(down.take(j - shared + 1) =~= down.take(j - shared).push(down[j - shared]));
            assert(texts(parts@) =~= up + down.take(j - shared + 1));
        }
        j = j + 1;
    }
    proof {
        assert(down.take(j - shared) =~= down);
        assert(texts(parts@) =~= suggested_parts(
            member_manifest_path@,
            workspace_root@,
            workspace_dep_path@,
        ));
        assert(texts(parts@).len() == parts@.len());
    }
    if parts.len() == 0 {
        ".".to_owned()
    } else {
        join(&parts, "/")
    }
}

/// The path of an internal crate. A later entry for a name stands for the earlier ones.
pub open spec fn internal_path(internal: Seq<(Seq<char>, Seq<char>)>, name: Seq<char>) -> Option<
    Seq<char>,
>
    decreases internal.len(),
{
    if internal.len() == 0 {
        None
    } else if internal.last().0 == name {
        Some(internal.last().1)
    } else {
        internal_path(internal.drop_last(), name)
    }
}

fn find_internal<'a>(internal: &'a Vec<(String, String)>, name: &str) -> (r: Option<&'a String>)
    ensures
        match r {
            Some(path) => internal_path(text_pairs(internal@), name@) == Some(path@),
            None => internal_path(text_pairs(internal@), name@) is None,
        },
{
    let mut i: usize = internal.len();
    let ghost all = text_pairs(internal@);
    assert(all.take(i as int) =~= all);
    while i > 0
        invariant
            i <= internal@.len(),
            all == text_pairs(internal@),
            internal_path(all, name@) == internal_path(all.take(i as int), name@),
        decreases i,
    {
        proof {
            assert(all.take(i as int).drop_last() =~= all.take(i - 1));
            assert(all.take(i as int).last() == all[i - 1]);
        }
        if text_eq(internal[i - 1].0.as_str(), name) {
            return Some(&internal[i - 1].1);
        }
        i = i - 1;
    }
    None
}

/// What is said of a dev-dependency that inherits from the workspace.
pub open spec fn workspace_line(
    manifest: Seq<char>,
    heading: Seq<char>,
    name: Seq<char>,
    suggested: Seq<char>,
) -> Seq<char> {
    manifest + " "@ + heading + ": `"@ + name
        + ".workspace = true` is not allowed for internal dev-dependencies. Use `"@ + name
        + " = { path = \""@ + suggested + "\" }`."@
}

/// What is said of a dev-dependency that has a path and a version.
pub open spec fn version_line(manifest: Seq<char>, heading: Seq<char>, name: Seq<char>) -> Seq<
    char,
> {
    manifest + " "@ + heading + ": `"@ + name
        + "` sets both `path` and `version`. Remove `version` for internal dev-dependencies."@
}

/// What is said of one dev-dependency: nothing, unless it is an internal crate.
pub open spec fn dep_violations(
    dep: DevDepText,
    manifest: Seq<char>,
    heading: Seq<char>,
    internal: Seq<(Seq<char>, Seq<char>)>,
    root: Seq<char>,
) -> Seq<Seq<char>> {
    match internal_path(internal, dep.name) {
        None => Seq::empty(),
        Some(path) => (if dep.workspace {
            seq![workspace_line(manifest, heading, dep.name, suggested_path(manifest, root, path))]
        } else {
            Seq::empty()
        }) + (if dep.path_and_version {
            seq![version_line(manifest, heading, dep.name)]
        } else {
            Seq::empty()
        }),
    }
}

/// What is said of the dev-dependencies of a table.
pub open spec fn table_violations(
    deps: Seq<DevDepText>,
    manifest: Seq<char>,
    heading: Seq<char>,
    internal: Seq<(Seq<char>, Seq<char>)>,
    root: Seq<char>,
) -> Seq<Seq<char>>
    decreases deps.len(),
{
    if deps.len() == 0 {
        Seq::empty()
    } else {
        table_violations(deps.drop_last(), manifest, heading, internal, root) + dep_violations(
            deps.last(),
            manifest,
            heading,
            internal,
            root,
        )
    }
}

/// Adds what is to be said of the dev-dependencies of a table.
pub fn collect_dev_dep_violations(
    violations: &mut Vec<String>,
    manifest_path: &str,
    section: &str,
    dev_deps: &Vec<DevDep>,
    internal_workspace_deps: &Vec<(String, String)>,
    workspace_root: &str,
)
    ensures
        texts(final(violations)@) == texts(old(violations)@) + table_violations(
            dev_dep_texts(dev_deps@),
            manifest_path@,
            section@,
            text_pairs(internal_workspace_deps@),
            workspace_root@,
        ),
{
    let ghost start = texts(violations@);
    let ghost all = dev_dep_texts(dev_deps@);
    let ghost internal = text_pairs(internal_workspace_deps@);
    let mut i: usize = 0;
    assert(all.take(0) =~= Seq::empty());
    assert(start =~= start + table_violations(
        all.take(0),
        manifest_path@,
        section@,
        internal,
        workspace_root@,
    ));
    while i < dev_deps.len()
        invariant
            i <= dev_deps@.len(),
            all == dev_dep_texts(dev_deps@),
            internal == text_pairs(internal_workspace_deps@),
            texts(violations@) == start + table_violations(
                all.take(i as int),
                manifest_path@,
                section@,
                internal,
                workspace_root@,
            ),
        decreases dev_deps@.len() - i,
    {
        let dep = &dev_deps[i];
        let ghost before = violations@;
        let ghost said = dep_violations(
            all[i as int],
            manifest_path@,
            section@,
            internal,
            workspace_root@,
        );
        proof {
            assert(all.take(i + 1).drop_last() =~= all.take(i as int));
            assert(all.take(i + 1).last() == all[i as int]);
        }
        match find_internal(internal_workspace_deps, dep.name.as_str()) {
            None => {
                assert(texts(violations@) =~= texts(before) + said);
            },
            Some(workspace_dep_path) => {
                if dep.workspace {
                    let suggested = suggested_dev_dep_path(
                        manifest_path,
                        workspace_root,
                        workspace_dep_path.as_str(),
                    );
                    let mut line = manifest_path.to_owned();
                    line.append(" ");
                    line.append(section);
                    line.append(": `");
                    line.append(dep.name.as_str());
                    line.append(
                        ".workspace = true` is not allowed for internal dev-dependencies. Use `",
                    );
                    line.append(dep.name.as_str());
                    line.append(" = { path = \"");
                    line.append(suggested.as_str());
                    line.append("\" }`.");
                    violations.push(line);
                }
                if dep.path_and_version {
                    let mut line = manifest_path.to_owned();
                    line.append(" ");
                    line.append(section);
                    line.append(": `");
                    line.append(dep.name.as_str());
                    line.append(
                        "` sets both `path` and `version`. Remove `version` for internal dev-dependencies.",
                    );
                    violations.push(line);
                }
                assert(texts(violations@) =~= texts(before) + said);
            },
        }
        proof {
            assert(texts(violations@) =~= start + table_violations(
                all.take(i + 1),
                manifest_path@,
                section@,
                internal,
                workspace_root@,
            ));
        }
        i = i + 1;
    }
    proof {
        assert(all.take(i as int) =~= all);
    }
}

/// What is said of the dev-dependencies of a manifest.
pub open spec fn manifest_violations(
    tables: Seq<(Seq<char>, Seq<DevDepText>)>,
    manifest: Seq<char>,
    internal: Seq<(Seq<char>, Seq<char>)>,
    root: Seq<char>,
) -> Seq<Seq<char>>
    decreases tables.len(),
{
    if tables.len() == 0 {
        Seq::empty()
    } else {
        manifest_violations(tables.drop_last(), manifest, internal, root) + table_violations(
            tables.last().1,
            manifest,
            tables.last().0,
            internal,
            root,
        )
    }
}

/// Adds what is to be said of the dev-dependencies of a manifest.
pub fn collect_manifest_violations(
    violations: &mut Vec<String>,
    manifest_path: &str,
    sections: &Vec<DevDepSection>,
    internal_workspace_deps: &Vec<(String, String)>,
    workspace_root: &str,
)
    ensures
        texts(final(violations)@) == texts(old(violations)@) + manifest_violations(
            section_texts(sections@),
            manifest_path@,
            text_pairs(internal_workspace_deps@),
            workspace_root@,
        ),
{
    let ghost start = texts(violations@);
    let ghost all = section_texts(sections@);
    let ghost internal = text_pairs(internal_workspace_deps@);
    let mut i: usize = 0;
    assert(start =~= start + manifest_violations(
        all.take(0),
        manifest_path@,
        internal,
        workspace_root@,
    ));
    while i < sections.len()
        invariant
            i <= sections@.len(),
            all == section_texts(sections@),
            internal == text_pairs(internal_workspace_deps@),
            texts(violations@) == start + manifest_violations(
                all.take(i as int),
                manifest_path@,
                internal,
                workspace_root@,
            ),
        decreases sections@.len() - i,
    {
        proof {
            assert(all.take(i + 1).drop_last() =~= all.take(i as int));
            assert(all.take(i + 1).last() == all[i as int]);
        }
        collect_dev_dep_violations(
            violations,
            manifest_path,
            sections[i].heading.as_str(),
            &sections[i].deps,
            internal_workspace_deps,
            workspace_root,
        );
        proof {
            assert(texts(violations@) =~= start + manifest_violations(
                all.take(i + 1),
                manifest_path@,
                internal,
                workspace_root@,
            ));
        }
        i = i + 1;
    }
    proof {
        assert(all.take(i as int) =~= all);
    }
}

/// A manifest that was read and parsed, or the failure to report.
pub open spec fn loaded(
    manifest: Result<Seq<char>, Seq<char>>,
    path: Seq<char>,
    read_failure: Seq<char>,
    parse_failure: Seq<char>,
) -> Result<Toml, (Seq<char>, Seq<char>)> {
    match manifest {
        Err(e) => Err((in_bold(in_red(read_failure)), path + ": "@ + e)),
        Ok(text) => match toml_parse(text) {
            Err(e) => Err((in_bold(in_red(parse_failure)), path + ": "@ + e)),
            Ok(tree) => Ok(tree),
        },
    }
}

/// The failure that a check reports for a manifest.
fn manifest_failure(what: &str, path: &str, e: &str) -> (r: CheckError)
    ensures
        r.summary@ == in_bold(in_red(what@)),
        r.details@ == path@ + ": "@ + e@,
{
    let mut details = path.to_owned();
    details.append(": ");
    details.append(e);
    CheckError::new(bold(red(what).as_str())).with_details(details)
}

/// Parses a manifest that was read.
fn load_manifest(
    manifest: &Result<String, String>,
    path: &str,
    read_failure: &str,
    parse_failure: &str,
) -> (r: Result<toml_edit::DocumentMut, CheckError>)
    ensures
        match r {
            Ok(document) => loaded(result_text(*manifest), path@, read_failure@, parse_failure@)
                == Ok::<Toml, (Seq<char>, Seq<char>)>(document_tree(document)),
            Err(e) => loaded(result_text(*manifest), path@, read_failure@, parse_failure@) == Err::<
                Toml,
                (Seq<char>, Seq<char>),
            >((e.summary@, e.details@)),
        },
{
    match manifest {
        Err(e) => Err(manifest_failure(read_failure, path, e.as_str())),
        Ok(text) => match parse_document(text.as_str()) {
            Err(e) => Err(manifest_failure(parse_failure, path, e.as_str())),
            Ok(document) => Ok(document),
        },
    }
}

/// What is said of the dev-dependencies of the first `n` packages, or the failure that
/// ends the check.
pub open spec fn members_violations(
    metadata: Metadata,
    manifests: Seq<Result<String, String>>,
    internal: Seq<(Seq<char>, Seq<char>)>,
    n: nat,
) -> Result<Seq<Seq<char>>, (Seq<char>, Seq<char>)>
    decreases n,
{
    if n == 0 {
        Ok(Seq::empty())
    } else {
        match members_violations(metadata, manifests, internal, (n - 1) as nat) {
            Err(failure) => Err(failure),
            Ok(before) => {
                let package = metadata.packages@[n - 1];
                if !metadata.has_member(package.id@) {
                    Ok(before)
                } else {
                    match loaded(
                        result_text(manifests[n - 1]),
                        package.manifest_path@,
                        "Failed to read workspace member manifest"@,
                        "Failed to parse workspace member manifest"@,
                    ) {
                        Err(failure) => Err(failure),
                        Ok(tree) => Ok(
                            before + manifest_violations(
                                dev_dep_tables(tree),
                                package.manifest_path@,
                                internal,
                                metadata.workspace_root@,
                            ),
                        ),
                    }
                }
            },
        }
    }
}

/// A failure stays a failure, however many packages follow.
proof fn lemma_members_failure_stays(
    metadata: Metadata,
    manifests: Seq<Result<String, String>>,
    internal: Seq<(Seq<char>, Seq<char>)>,
    n: nat,
    m: nat,
)
    requires
        n <= m,
        members_violations(metadata, manifests, internal, n) is Err,
    ensures
        members_violations(metadata, manifests, internal, m) == members_violations(
            metadata,
            manifests,
            internal,
            n,
        ),
    decreases m,
{
    if n < m {
        lemma_members_failure_stays(metadata, manifests, internal, n, (m - 1) as nat);
    }
}

/// What is said of internal dev-dependencies that do not fit release-plz.
pub open spec fn release_plz_report(violations: Seq<Seq<char>>) -> Option<(Seq<char>, Seq<char>)> {
    if violations.len() == 0 {
        None
    } else {
        Some(
            (
                in_bold(in_red("Internal dev-dependencies incompatible with release-plz detected!"@)),
                "Found internal workspace crates in dev-dependencies using unsupported forms:\n\n"@
                    + marked_lines(violations, in_red("✗"@))
                    + "\nUse path-only entries for internal dev-dependencies. Avoid `workspace = true`\n"@
                    + "and avoid `version` in dev-dependencies for internal workspace crates."@,
            ),
        )
    }
}

/// Turns what is said of the dev-dependencies into the outcome of the check.
pub fn release_plz_verdict(violations: &Vec<String>) -> (r: Result<(), CheckError>)
    ensures
        outcome(r) == release_plz_report(texts(violations@)),
{
    if violations.len() == 0 {
        return Ok(());
    }
    let mut details =
        "Found internal workspace crates in dev-dependencies using unsupported forms:\n\n".to_owned();
    append_marked_lines(&mut details, violations, red("✗").as_str());
    details.append(
        "\nUse path-only entries for internal dev-dependencies. Avoid `workspace = true`\n",
    );
    details.append("and avoid `version` in dev-dependencies for internal workspace crates.");
    let summary = bold(
        red("Internal dev-dependencies incompatible with release-plz detected!").as_str(),
    );
    Err(CheckError::new(summary).with_details(details))
}

/// The outcome of the check on internal dev-dependencies.
pub open spec fn release_plz_outcome(
    metadata: Metadata,
    root_manifest: Result<Seq<char>, Seq<char>>,
    manifests: Seq<Result<String, String>>,
) -> Option<(Seq<char>, Seq<char>)> {
    match loaded(
        root_manifest,
        root_manifest_path(metadata),
        "Failed to read workspace Cargo.toml"@,
        "Failed to parse workspace Cargo.toml"@,
    ) {
        Err(failure) => Some(failure),
        Ok(tree) => if internal_deps(tree).len() == 0 {
            None
        } else {
            match members_violations(
                metadata,
                manifests,
                internal_deps(tree),
                metadata.packages@.len(),
            ) {
                Err(failure) => Some(failure),
                Ok(violations) => release_plz_report(violations),
            }
        },
    }
}

/// Check for internal workspace dev-dependencies that confuse release-plz.
///
/// release-plz struggles with internal dev-dependencies that inherit `workspace = true`
/// (which pulls in both path + version from workspace deps), or those that explicitly set
/// both `path` and `version` in dev-dependencies.
///
/// `root_manifest` is the text of the workspace's own manifest and `member_manifests` that
/// of each package of the metadata, or the error met when reading it.
pub fn check_internal_dev_deps_release_plz(
    metadata: &Metadata,
    root_manifest: &Result<String, String>,
    member_manifests: &Vec<Result<String, String>>,
) -> (r: Result<(), CheckError>)
    requires
        member_manifests@.len() == metadata.packages@.len(),
    ensures
        outcome(r) == release_plz_outcome(
            *metadata,
            result_text(*root_manifest),
            member_manifests@,
        ),
{
    let root_path = join_path(metadata.workspace_root.as_str(), "Cargo.toml");
    let root = match load_manifest(
        root_manifest,
        root_path.as_str(),
        "Failed to read workspace Cargo.toml",
        "Failed to parse workspace Cargo.toml",
    ) {
        Ok(document) => document,
        Err(e) => {
            return Err(e);
        },
    };
    let internal = workspace_internal_dependency_paths(document_root(&root));
    assert(text_pairs(internal@).len() == internal@.len());
    if internal.len() == 0 {
        return Ok(());
    }
    let mut violations: Vec<String> = Vec::new();
    let mut i: usize = 0;
    assert(texts(violations@) =~= Seq::empty());
    while i < metadata.packages.len()
        invariant
            i <= metadata.packages@.len(),
            member_manifests@.len() == metadata.packages@.len(),
            loaded(
                result_text(*root_manifest),
                root_manifest_path(*metadata),
                "Failed to read workspace Cargo.toml"@,
                "Failed to parse workspace Cargo.toml"@,
            ) == Ok::<Toml, (Seq<char>, Seq<char>)>(document_tree(root)),
            text_pairs(internal@) == internal_deps(document_tree(root)),
            internal@.len() > 0,
            members_violations(*metadata, member_manifests@, text_pairs(internal@), i as nat) == Ok::<
                Seq<Seq<char>>,
                (Seq<char>, Seq<char>),
            >(texts(violations@)),
        decreases metadata.packages@.len() - i,
    {
        let package = &metadata.packages[i];
        if metadata.is_member(package.id.as_str()) {
            match load_manifest(
                &member_manifests[i],
                package.manifest_path.as_str(),
                "Failed to read workspace member manifest",
                "Failed to parse workspace member manifest",
            ) {
                Ok(document) => {
                    let sections = dev_dep_sections(document_root(&document));
                    collect_manifest_violations(
                        &mut violations,
                        package.manifest_path.as_str(),
                        &sections,
                        &internal,
                        metadata.workspace_root.as_str(),
                    );
                },
                Err(e) => {
                    proof {
                        lemma_members_failure_stays(
                            *metadata,
                            member_manifests@,
                            text_pairs(internal@),
                            (i + 1) as nat,
                            metadata.packages@.len(),
                        );
                    }
                    return Err(e);
                },
            }
        }
        i = i + 1;
    }
    release_plz_verdict(&violations)
}

// ---- laws ----

proof fn lemma_outdated_lines(metadata: Metadata, packages: Seq<Package>)
    ensures
        outdated_lines(metadata, packages).len() == 0 <==> forall|i: int|
            0 <= i < packages.len() ==> !is_outdated(metadata, #[trigger] packages[i]),
    decreases packages.len(),
{
    if packages.len() > 0 {
        let rest = packages.drop_last();
        lemma_outdated_lines(metadata, rest);
        assert(forall|i: int| 0 <= i < rest.len() ==> rest[i] == packages[i]);
        assert(packages.last() == packages[packages.len() - 1]);
        if outdated_lines(metadata, packages).len() == 0 {
            assert forall|i: int| 0 <= i < packages.len() implies !is_outdated(
                metadata,
                #[trigger] packages[i],
            ) by {
                if i < rest.len() {
                    assert(rest[i] == packages[i]);
                }
            }
        }
    }
}

/// The edition check passes exactly where the workspace declares no edition other than 2024
/// and every workspace member is on edition 2024.
pub proof fn lemma_edition_check_passes(metadata: Metadata, declared: Option<Seq<char>>)
    ensures
        edition_report(edition_problems(metadata, declared)) is None <==> (declared is None
            || declared == Some("2024"@)) && forall|i: int|
            0 <= i < metadata.packages@.len() && metadata.has_member(
                (#[trigger] metadata.packages@[i]).id@,
            ) ==> metadata.packages@[i].edition@ == "2024"@,
{
    lemma_outdated_lines(metadata, metadata.packages@);
    assert(forall|i: int|
        0 <= i < metadata.packages@.len() ==> is_outdated(
            metadata,
            #[trigger] metadata.packages@[i],
        ) == (metadata.has_member(metadata.packages@[i].id@) && metadata.packages@[i].edition@
            != "2024"@));
}

/// The check on path dependencies passes exactly where every package without a source lies
/// under the workspace root.
pub proof fn lemma_external_check_passes(metadata: Metadata, packages: Seq<Package>)
    ensures
        external_report(metadata.workspace_root@, external_packages(metadata, packages)) is None
            <==> forall|i: int|
            0 <= i < packages.len() && !(#[trigger] packages[i]).has_source ==> is_under(
                packages[i].manifest_path@,
                metadata.workspace_root@,
            ),
    decreases packages.len(),
{
    if packages.len() > 0 {
        let rest = packages.drop_last();
        lemma_external_check_passes(metadata, rest);
        assert(forall|i: int| 0 <= i < rest.len() ==> rest[i] == packages[i]);
        assert(packages.last() == packages[packages.len() - 1]);
        if external_packages(metadata, packages).len() == 0 {
            assert forall|i: int|
                0 <= i < packages.len() && !(#[trigger] packages[i]).has_source implies is_under(
                packages[i].manifest_path@,
                metadata.workspace_root@,
            ) by {
                if i < rest.len() {
                    assert(rest[i] == packages[i]);
                }
            }
        }
    }
}

/// The check on internal dev-dependencies passes exactly where the workspace's manifest
/// can be read and either declares no internal crate, or each member's manifest can be
/// read and nothing is to be said of it.
pub proof fn lemma_release_plz_check_passes(
    metadata: Metadata,
    root_manifest: Result<Seq<char>, Seq<char>>,
    manifests: Seq<Result<String, String>>,
)
    requires
        manifests.len() == metadata.packages@.len(),
    ensures
        release_plz_outcome(metadata, root_manifest, manifests) is None <==> match loaded(
            root_manifest,
            root_manifest_path(metadata),
            "Failed to read workspace Cargo.toml"@,
            "Failed to parse workspace Cargo.toml"@,
        ) {
            Err(_) => false,
            Ok(tree) => internal_deps(tree).len() == 0 || forall|i: int|
                0 <= i < metadata.packages@.len() && metadata.has_member(
                    (#[trigger] metadata.packages@[i]).id@,
                ) ==> member_is_clean(metadata, manifests, internal_deps(tree), i),
        },
{
    match loaded(
        root_manifest,
        root_manifest_path(metadata),
        "Failed to read workspace Cargo.toml"@,
        "Failed to parse workspace Cargo.toml"@,
    ) {
        Err(_) => {},
        Ok(tree) => {
            let internal = internal_deps(tree);
            lemma_members_clean(metadata, manifests, internal, metadata.packages@.len());
            match members_violations(metadata, manifests, internal, metadata.packages@.len()) {
                Ok(violations) => {
                    if violations.len() == 0 {
                        assert(violations =~= Seq::<Seq<char>>::empty());
                    }
                },
                Err(_) => {},
            }
        },
    }
}

proof fn lemma_members_clean(
    metadata: Metadata,
    manifests: Seq<Result<String, String>>,
    internal: Seq<(Seq<char>, Seq<char>)>,
    n: nat,
)
    requires
        n <= metadata.packages@.len(),
    ensures
        members_violations(metadata, manifests, internal, n) == Ok::<
            Seq<Seq<char>>,
            (Seq<char>, Seq<char>),
        >(Seq::empty()) <==> forall|i: int|
            0 <= i < n && metadata.has_member((#[trigger] metadata.packages@[i]).id@)
                ==> member_is_clean(metadata, manifests, internal, i),
    decreases n,
{
    if n > 0 {
        let m = (n - 1) as nat;
        lemma_members_clean(metadata, manifests, internal, m);
        let package = metadata.packages@[m as int];
        match members_violations(metadata, manifests, internal, m) {
            Ok(before) => {
                if metadata.has_member(package.id@) {
                    match loaded(
                        result_text(manifests[m as int]),
                        package.manifest_path@,
                        "Failed to read workspace member manifest"@,
                        "Failed to parse workspace member manifest"@,
                    ) {
                        Ok(tree) => {
                            let said = manifest_violations(
                                dev_dep_tables(tree),
                                package.manifest_path@,
                                internal,
                                metadata.workspace_root@,
                            );
                            if before.len() == 0 && said.len() == 0 {
                                assert(before + said =~= Seq::<Seq<char>>::empty());
                            } else {
                                assert((before + said).len() > 0);
                            }
                            if before.len() == 0 {
                                assert(before =~= Seq::<Seq<char>>::empty());
                            }
                        },
                        Err(_) => {},
                    }
                }
            },
            Err(_) => {},
        }
    }
}

/// The manifest of a package can be read and nothing is to be said of it.
pub open spec fn member_is_clean(
    metadata: Metadata,
    manifests: Seq<Result<String, String>>,
    internal: Seq<(Seq<char>, Seq<char>)>,
    i: int,
) -> bool {
    let package = metadata.packages@[i];
    match loaded(
        result_text(manifests[i]),
        package.manifest_path@,
        "Failed to read workspace member manifest"@,
        "Failed to parse workspace member manifest"@,
    ) {
        Err(_) => false,
        Ok(tree) => manifest_violations(
            dev_dep_tables(tree),
            package.manifest_path@,
            internal,
            metadata.workspace_root@,
        ).len() == 0,
    }
}

/// A dev-dependency by path alone is always allowed, and so is any dev-dependency that is
/// no internal crate of the workspace.
pub proof fn lemma_allowed_dev_deps(
    dep: DevDepText,
    manifest: Seq<char>,
    heading: Seq<char>,
    internal: Seq<(Seq<char>, Seq<char>)>,
    root: Seq<char>,
)
    ensures
        dep_violations(dep, manifest, heading, internal, root).len() == 0 <==> (internal_path(
            internal,
            dep.name,
        ) is None || (!dep.workspace && !dep.path_and_version)),
{
}

/// Nothing is said of a manifest exactly where all its tables hold only dev-dependencies
/// that are allowed.
pub proof fn lemma_clean_tables_pass(
    tables: Seq<(Seq<char>, Seq<DevDepText>)>,
    manifest: Seq<char>,
    internal: Seq<(Seq<char>, Seq<char>)>,
    root: Seq<char>,
)
    ensures
        manifest_violations(tables, manifest, internal, root).len() == 0 <==> forall|i: int, j: int|
            0 <= i < tables.len() && 0 <= j < tables[i].1.len() ==> internal_path(
                internal,
                (#[trigger] tables[i].1[j]).name,
            ) is None || (!tables[i].1[j].workspace && !tables[i].1[j].path_and_version),
    decreases tables.len(),
{
    if tables.len() > 0 {
        let rest = tables.drop_last();
        let n = tables.len() - 1;
        lemma_clean_tables_pass(rest, manifest, internal, root);
        lemma_clean_table_passes(tables.last().1, manifest, tables.last().0, internal, root);
        assert(forall|i: int| 0 <= i < n ==> rest[i] == tables[i]);
        assert forall|i: int, j: int|
            manifest_violations(tables, manifest, internal, root).len() == 0 && 0 <= i < tables.len()
                && 0 <= j < tables[i].1.len() implies internal_path(
            internal,
            (#[trigger] tables[i].1[j]).name,
        ) is None || (!tables[i].1[j].workspace && !tables[i].1[j].path_and_version) by {
            if i < n {
                assert(rest[i].1[j] == tables[i].1[j]);
            }
        }
        if forall|i: int, j: int|
            0 <= i < tables.len() && 0 <= j < tables[i].1.len() ==> internal_path(
                internal,
                (#[trigger] tables[i].1[j]).name,
            ) is None || (!tables[i].1[j].workspace && !tables[i].1[j].path_and_version) {
            assert forall|i: int, j: int| 0 <= i < rest.len() && 0 <= j < rest[i].1.len() implies
                internal_path(internal, (#[trigger] rest[i].1[j]).name) is None || (
            !rest[i].1[j].workspace && !rest[i].1[j].path_and_version) by {
                assert(rest[i].1[j] == tables[i].1[j]);
            }
            assert forall|j: int| 0 <= j < tables.last().1.len() implies internal_path(
                internal,
                (#[trigger] tables.last().1[j]).name,
            ) is None || (!tables.last().1[j].workspace && !tables.last().1[j].path_and_version) by {
                assert(tables[n].1[j] == tables.last().1[j]);
            }
        }
    }
}

proof fn lemma_clean_table_passes(
    deps: Seq<DevDepText>,
    manifest: Seq<char>,
    heading: Seq<char>,
    internal: Seq<(Seq<char>, Seq<char>)>,
    root: Seq<char>,
)
    ensures
        table_violations(deps, manifest, heading, internal, root).len() == 0 <==> forall|j: int|
            0 <= j < deps.len() ==> internal_path(internal, (#[trigger] deps[j]).name) is None || (
            !deps[j].workspace && !deps[j].path_and_version),
    decreases deps.len(),
{
    if deps.len() > 0 {
        let rest = deps.drop_last();
        lemma_clean_table_passes(rest, manifest, heading, internal, root);
        assert(forall|j: int| 0 <= j < rest.len() ==> rest[j] == deps[j]);
        assert(deps.last() == deps[deps.len() - 1]);
        if forall|j: int|
            0 <= j < deps.len() ==> internal_path(internal, (#[trigger] deps[j]).name) is None || (
            !deps[j].workspace && !deps[j].path_and_version) {
            assert forall|j: int| 0 <= j < rest.len() implies internal_path(
                internal,
                (#[trigger] rest[j]).name,
            ) is None || (!rest[j].workspace && !rest[j].path_and_version) by {
                assert(deps[j] == rest[j]);
            }
        }
        assert forall|j: int|
            table_violations(deps, manifest, heading, internal, root).len() == 0 && 0 <= j
                < deps.len() implies internal_path(internal, (#[trigger] deps[j]).name) is None || (
        !deps[j].workspace && !deps[j].path_and_version) by {
            if j < rest.len() {
                assert(rest[j] == deps[j]);
            }
        }
    }
}

/// Where one arrives from a directory by following the parts of a relative path.
pub open spec fn followed(dir: Seq<Seq<char>>, parts: Seq<Seq<char>>) -> Seq<Seq<char>>
    decreases parts.len(),
{
    if parts.len() == 0 {
        dir
    } else {
        let before = followed(dir, parts.drop_last());
        if parts.last() == ".."@ {
            before.drop_last()
        } else {
            before.push(parts.last())
        }
    }
}

proof fn lemma_followed_up(dir: Seq<Seq<char>>, n: nat)
    requires
        n <= dir.len(),
    ensures
        followed(dir, Seq::new(n, |i: int| ".."@)) == dir.take(dir.len() - n),
    decreases n,
{
    let up = Seq::new(n, |i: int| ".."@);
    if n == 0 {
        assert(dir.take(dir.len() as int) =~= dir);
    } else {
        let m = (n - 1) as nat;
        lemma_followed_up(dir, m);
        assert(up.drop_last() =~= Seq::new(m, |i: int| ".."@));
        assert(dir.take(dir.len() - m).drop_last() =~= dir.take(dir.len() - n));
    }
}

proof fn lemma_followed_down(dir: Seq<Seq<char>>, up: Seq<Seq<char>>, down: Seq<Seq<char>>)
    requires
        forall|i: int| 0 <= i < down.len() ==> down[i] != ".."@,
    ensures
        followed(dir, up + down) == followed(dir, up) + down,
    decreases down.len(),
{
    if down.len() == 0 {
        assert(up + down =~= up);
        assert(followed(dir, up) + down =~= followed(dir, up));
    } else {
        lemma_followed_down(dir, up, down.drop_last());
        assert((up + down).drop_last() =~= up + down.drop_last());
        assert(followed(dir, up) + down =~= (followed(dir, up) + down.drop_last()).push(down.last()));
    }
}

/// The suggested path leads from the member's directory to the crate, unless it has to go
/// up within the path that the workspace gives for the crate.
pub proof fn lemma_suggested_path_leads_to_crate(
    manifest_path: Seq<char>,
    workspace_root: Seq<char>,
    dep_path: Seq<char>,
)
    requires
        forall|i: int|
            0 <= i < components(joined_path(workspace_root, dep_path)).len() ==> components(
                joined_path(workspace_root, dep_path),
            )[i] != ".."@,
    ensures
        followed(
            components(parent_or_self(manifest_path)),
            suggested_parts(manifest_path, workspace_root, dep_path),
        ) == components(joined_path(workspace_root, dep_path)),
{
    let member = components(parent_or_self(manifest_path));
    let dep = components(joined_path(workspace_root, dep_path));
    let shared = shared_len(member, dep) as int;
    lemma_shared_len(member, dep);
    let n = (member.len() - shared) as nat;
    let up = Seq::new(n, |i: int| ".."@);
    lemma_followed_up(member, n);
    lemma_followed_down(member, up, dep.skip(shared));
    assert(member.take(shared) + dep.skip(shared) =~= dep);
}

proof fn lemma_shared_prefix(
    start: Seq<Seq<char>>,
    a: Seq<Seq<char>>,
    b: Seq<Seq<char>>,
)
    ensures
        shared_len(start + a, start + b) == start.len() + shared_len(a, b),
    decreases start.len(),
{
    if start.len() == 0 {
        assert(start + a =~= a);
        assert(start + b =~= b);
    } else {
        let rest = start.drop_first();
        lemma_shared_prefix(rest, a, b);
        assert((start + a).drop_first() =~= rest + a);
        assert((start + b).drop_first() =~= rest + b);
    }
}

/// What is suggested where a workspace lies at an absolute path, in terms of the paths inside
/// it alone.
proof fn lemma_suggestion_inside(
    place: Seq<char>,
    manifest: Seq<char>,
    root: Seq<char>,
    dep_path: Seq<char>,
)
    requires
        place.len() > 0 && place[0] == '/',
        manifest.len() > 0 ==> manifest[0] != '/',
        root.len() > 0 ==> root[0] != '/',
        dep_path.len() > 0 ==> dep_path[0] != '/',
        pieces(manifest, 0, manifest.len() as int).len() > 0,
    ensures
        suggested_parts(joined_path(place, manifest), joined_path(place, root), dep_path) == ({
            let member = pieces(manifest, 0, manifest.len() as int).drop_last();
            let dep = pieces(root, 0, root.len() as int) + pieces(
                dep_path,
                0,
                dep_path.len() as int,
            );
            let shared = shared_len(member, dep) as int;
            Seq::new((member.len() - shared) as nat, |i: int| ".."@) + dep.skip(shared)
        }),
{
    let start = components(place);
    let inside = pieces(manifest, 0, manifest.len() as int);
    let member = inside.drop_last();
    let root_pieces = pieces(root, 0, root.len() as int);
    let dep = root_pieces + pieces(dep_path, 0, dep_path.len() as int);
    lemma_joined_components(place, manifest);
    lemma_joined_components(place, root);
    lemma_joined_components(joined_path(place, root), dep_path);
    lemma_parent_components(joined_path(place, manifest));
    assert((start + inside).drop_last() =~= start + member);
    assert(start + root_pieces + pieces(dep_path, 0, dep_path.len() as int) =~= start + dep);
    lemma_shared_prefix(start, member, dep);
    let shared = shared_len(member, dep) as int;
    lemma_shared_len(member, dep);
    assert((start + dep).skip(start.len() + shared) =~= dep.skip(shared));
    assert(Seq::new(((start + member).len() - (start.len() + shared)) as nat, |i: int| ".."@)
        =~= Seq::new((member.len() - shared) as nat, |i: int| ".."@));
}

/// Moving the workspace as a whole does not change what is suggested: it depends on the paths
/// inside the place where the workspace lies alone. The manifest's path names a file.
pub proof fn lemma_suggestion_moves_with_workspace(
    place: Seq<char>,
    other: Seq<char>,
    manifest: Seq<char>,
    root: Seq<char>,
    dep_path: Seq<char>,
)
    requires
        place.len() > 0 && place[0] == '/',
        other.len() > 0 && other[0] == '/',
        manifest.len() > 0 ==> manifest[0] != '/',
        root.len() > 0 ==> root[0] != '/',
        dep_path.len() > 0 ==> dep_path[0] != '/',
        pieces(manifest, 0, manifest.len() as int).len() > 0,
    ensures
        suggested_path(joined_path(place, manifest), joined_path(place, root), dep_path)
            == suggested_path(joined_path(other, manifest), joined_path(other, root), dep_path),
{
    lemma_suggestion_inside(place, manifest, root, dep_path);
    lemma_suggestion_inside(other, manifest, root, dep_path);
}

// ---- what the checks are for ----

/// A package id is listed among the members of the workspace.
pub open spec fn is_listed(metadata: Metadata, id: Seq<char>) -> bool {
    exists|m: int|
        0 <= m < metadata.workspace_members@.len() && (#[trigger] metadata.workspace_members@[m])@
            == id
}

proof fn lemma_listed(metadata: Metadata, id: Seq<char>)
    ensures
        metadata.has_member(id) == is_listed(metadata, id),
{
    let all = texts(metadata.workspace_members@);
    if all.contains(id) {
        let m = choose|m: int| 0 <= m < all.len() && all[m] == id;
        assert(metadata.workspace_members@[m]@ == id);
    }
    if is_listed(metadata, id) {
        let m = choose|m: int|
            0 <= m < metadata.workspace_members@.len() && (
            #[trigger] metadata.workspace_members@[m])@ == id;
        assert(all[m] == id);
    }
}

/// The table `package` in the table `workspace` of a manifest says `edition = ".."`.
pub open spec fn says_edition(manifest: Toml, edition: Seq<char>) -> bool {
    &&& manifest.get("workspace"@) matches Some(workspace)
    &&& workspace is Section
    &&& workspace.get("package"@) matches Some(package)
    &&& package is Section
    &&& package.get("edition"@) == Some(Toml::Text(edition))
}

/// The edition check fails exactly if the workspace's own manifest is TOML and says
/// `edition` in `[workspace.package]` with another string than `2024`, whatever else it
/// holds, or a listed member is on another edition.
pub proof fn lemma_edition_check_fails(metadata: Metadata, root_manifest: Option<Seq<char>>)
    ensures
        edition_report(edition_problems(metadata, root_edition(root_manifest))) is Some <==> {
            ||| root_manifest matches Some(text) && toml_parse(text) matches Ok(tree) && exists|
                edition: Seq<char>,
            | #[trigger] says_edition(tree, edition) && edition != "2024"@
            ||| exists|i: int|
                0 <= i < metadata.packages@.len() && is_listed(
                    metadata,
                    (#[trigger] metadata.packages@[i]).id@,
                ) && metadata.packages@[i].edition@ != "2024"@
        },
{
    let declared = root_edition(root_manifest);
    lemma_edition_check_passes(metadata, declared);
    assert forall|i: int| 0 <= i < metadata.packages@.len() implies metadata.has_member(
        (#[trigger] metadata.packages@[i]).id@,
    ) == is_listed(metadata, metadata.packages@[i].id@) by {
        lemma_listed(metadata, metadata.packages@[i].id@);
    }
    if root_manifest is Some {
        match toml_parse(root_manifest->0) {
            Ok(tree) => {
                if declared is Some {
                    assert(says_edition(tree, declared->0));
                }
                assert forall|edition: Seq<char>| #[trigger] says_edition(
                    tree,
                    edition,
                ) implies declared == Some(edition) by {}
            },
            Err(_) => {},
        }
    }
}

proof fn lemma_outdated_line(metadata: Metadata, packages: Seq<Package>, line: Seq<char>)
    ensures
        outdated_lines(metadata, packages).contains(line) <==> exists|i: int|
            0 <= i < packages.len() && is_listed(metadata, (#[trigger] packages[i]).id@)
                && packages[i].edition@ != "2024"@ && line == packages[i].manifest_path@
                + ": edition = \""@ + packages[i].edition@ + "\" (expected \"2024\")"@,
    decreases packages.len(),
{
    if packages.len() > 0 {
        let rest = packages.drop_last();
        let n = packages.len() - 1;
        let before = outdated_lines(metadata, rest);
        let all = outdated_lines(metadata, packages);
        lemma_outdated_line(metadata, rest, line);
        lemma_listed(metadata, packages[n].id@);
        if all.contains(line) {
            let k = all.index_of(line);
            if k < before.len() {
                assert(before[k] == line);
                let i = choose|i: int|
                    0 <= i < rest.len() && is_listed(metadata, (#[trigger] rest[i]).id@)
                        && rest[i].edition@ != "2024"@ && line == rest[i].manifest_path@
                        + ": edition = \""@ + rest[i].edition@ + "\" (expected \"2024\")"@;
                assert(packages[i] == rest[i]);
            } else {
                assert(packages[n] == packages.last());
            }
        }
        if exists|i: int|
            0 <= i < packages.len() && is_listed(metadata, (#[trigger] packages[i]).id@)
                && packages[i].edition@ != "2024"@ && line == packages[i].manifest_path@
                + ": edition = \""@ + packages[i].edition@ + "\" (expected \"2024\")"@ {
            let i = choose|i: int|
                0 <= i < packages.len() && is_listed(metadata, (#[trigger] packages[i]).id@)
                    && packages[i].edition@ != "2024"@ && line == packages[i].manifest_path@
                    + ": edition = \""@ + packages[i].edition@ + "\" (expected \"2024\")"@;
            if i < n {
                assert(rest[i] == packages[i]);
                assert(before.contains(line));
                let k = before.index_of(line);
                assert(all[k] == line);
            } else {
                assert(all[before.len() as int] == line);
            }
        }
    }
}

/// Every line that is said stands, behind its marker, in the text of the marked lines.
proof fn lemma_marked_line_stands(lines: Seq<Seq<char>>, marker: Seq<char>, i: int)
    requires
        0 <= i < lines.len(),
    ensures
        has_text(marked_lines(lines, marker), "  "@ + marker + " "@ + lines[i] + "\n"@),
    decreases lines.len(),
{
    let rest = lines.drop_last();
    let all = marked_lines(lines, marker);
    let before = marked_lines(rest, marker);
    let line = "  "@ + marker + " "@ + lines[i] + "\n"@;
    if i < rest.len() {
        lemma_marked_line_stands(rest, marker, i);
        let k = choose|k: int| occurs_at(before, line, k);
        assert(all.subrange(k, k + line.len()) =~= before.subrange(k, k + line.len()));
        assert(occurs_at(all, line, k));
    } else {
        assert(lines[i] == lines.last());
        assert(all.subrange(before.len() as int, (before.len() + line.len()) as int) =~= line);
        assert(occurs_at(all, line, before.len() as int));
    }
}

/// What follows a text does not hide what stands in it.
proof fn lemma_stands_in_longer(a: Seq<char>, b: Seq<char>, c: Seq<char>, text: Seq<char>)
    requires
        has_text(b, text),
    ensures
        has_text(a + b + c, text),
{
    let k = choose|k: int| occurs_at(b, text, k);
    let whole = a + b + c;
    assert(whole.subrange(a.len() + k, a.len() + k + text.len()) =~= b.subrange(
        k,
        k + text.len(),
    ));
    assert(occurs_at(whole, text, a.len() + k));
}

/// The failed edition check names the manifest and the edition of each listed member that is
/// on another edition.
pub proof fn lemma_outdated_member_is_named(
    metadata: Metadata,
    root_manifest: Option<Seq<char>>,
    i: int,
)
    requires
        0 <= i < metadata.packages@.len(),
        is_listed(metadata, metadata.packages@[i].id@),
        metadata.packages@[i].edition@ != "2024"@,
    ensures
        edition_report(edition_problems(metadata, root_edition(root_manifest))) matches Some(
            (summary, details),
        ) && has_text(
            details,
            metadata.packages@[i].manifest_path@ + ": edition = \""@
                + metadata.packages@[i].edition@ + "\" (expected \"2024\")"@,
        ),
{
    let package = metadata.packages@[i];
    let line = package.manifest_path@ + ": edition = \""@ + package.edition@
        + "\" (expected \"2024\")"@;
    let problems = edition_problems(metadata, root_edition(root_manifest));
    let members = outdated_lines(metadata, metadata.packages@);
    lemma_outdated_line(metadata, metadata.packages@, line);
    assert(members.contains(line));
    let k = members.index_of(line);
    let at = k + (problems.len() - members.len());
    assert(problems[at] == line);
    let marker = in_yellow("fix:"@);
    lemma_marked_line_stands(problems, marker, at);
    let whole = "  "@ + marker + " "@ + line + "\n"@;
    let tail = "\nSet edition = \"2024\" in the above location(s) to proceed."@;
    lemma_stands_in_longer(Seq::empty(), marked_lines(problems, marker), tail, whole);
    assert(Seq::<char>::empty() + marked_lines(problems, marker) + tail =~= marked_lines(
        problems,
        marker,
    ) + tail);
    lemma_part_stands("  "@ + marker + " "@, line, "\n"@, marked_lines(problems, marker) + tail);
}

proof fn lemma_part_stands(a: Seq<char>, b: Seq<char>, c: Seq<char>, whole: Seq<char>)
    requires
        has_text(whole, a + b + c),
    ensures
        has_text(whole, b),
{
    let text = a + b + c;
    let k = choose|k: int| occurs_at(whole, text, k);
    assert(whole.subrange(k + a.len(), k + a.len() + b.len()) =~= whole.subrange(
        k,
        k + text.len(),
    ).subrange(a.len() as int, (a.len() + b.len()) as int));
    assert(text.subrange(a.len() as int, (a.len() + b.len()) as int) =~= b);
    assert(occurs_at(whole, b, k + a.len()));
}

proof fn lemma_external_package(metadata: Metadata, packages: Seq<Package>, pair: (
    Seq<char>,
    Seq<char>,
))
    ensures
        external_packages(metadata, packages).contains(pair) <==> exists|i: int|
            0 <= i < packages.len() && !(#[trigger] packages[i]).has_source && !is_under(
                packages[i].manifest_path@,
                metadata.workspace_root@,
            ) && pair == (packages[i].name@, packages[i].manifest_path@),
    decreases packages.len(),
{
    if packages.len() > 0 {
        let rest = packages.drop_last();
        let n = packages.len() - 1;
        let before = external_packages(metadata, rest);
        let all = external_packages(metadata, packages);
        lemma_external_package(metadata, rest, pair);
        assert(packages[n] == packages.last());
        if all.contains(pair) {
            let k = all.index_of(pair);
            if k < before.len() {
                assert(before[k] == pair);
                let i = choose|i: int|
                    0 <= i < rest.len() && !(#[trigger] rest[i]).has_source && !is_under(
                        rest[i].manifest_path@,
                        metadata.workspace_root@,
                    ) && pair == (rest[i].name@, rest[i].manifest_path@);
                assert(packages[i] == rest[i]);
            }
        }
        if exists|i: int|
            0 <= i < packages.len() && !(#[trigger] packages[i]).has_source && !is_under(
                packages[i].manifest_path@,
                metadata.workspace_root@,
            ) && pair == (packages[i].name@, packages[i].manifest_path@) {
            let i = choose|i: int|
                0 <= i < packages.len() && !(#[trigger] packages[i]).has_source && !is_under(
                    packages[i].manifest_path@,
                    metadata.workspace_root@,
                ) && pair == (packages[i].name@, packages[i].manifest_path@);
            if i < n {
                assert(rest[i] == packages[i]);
                let k = before.index_of(pair);
                assert(all[k] == pair);
            } else {
                assert(all[before.len() as int] == pair);
            }
        }
    }
}

/// The check on path dependencies fails exactly if some package without a source lies
/// elsewhere than below the workspace, and such a package is found under its name and its
/// manifest. `manifests` gives the names that lead to the manifests, `root` those that lead
/// to the workspace.
pub proof fn lemma_external_check_fails(
    metadata: Metadata,
    manifests: Seq<Seq<Seq<char>>>,
    root: Seq<Seq<char>>,
)
    requires
        manifests.len() == metadata.packages@.len(),
        are_plain_names(root),
        metadata.workspace_root@ == rooted(root),
        forall|i: int|
            0 <= i < manifests.len() ==> are_plain_names(#[trigger] manifests[i])
                && metadata.packages@[i].manifest_path@ == rooted(manifests[i]),
    ensures
        external_report(
            metadata.workspace_root@,
            external_packages(metadata, metadata.packages@),
        ) is Some <==> exists|i: int|
            0 <= i < manifests.len() && !metadata.packages@[i].has_source && !root.is_prefix_of(
                #[trigger] manifests[i],
            ),
        forall|i: int|
            0 <= i < manifests.len() ==> (!metadata.packages@[i].has_source && !root.is_prefix_of(
                #[trigger] manifests[i],
            ) ==> external_packages(metadata, metadata.packages@).contains(
                (metadata.packages@[i].name@, metadata.packages@[i].manifest_path@),
            )),
{
    let packages = metadata.packages@;
    assert forall|i: int| 0 <= i < manifests.len() implies is_under(
        packages[i].manifest_path@,
        metadata.workspace_root@,
    ) == root.is_prefix_of(#[trigger] manifests[i]) by {
        lemma_rooted_under(manifests[i], root);
    }
    lemma_external_check_passes(metadata, packages);
    assert forall|i: int|
        0 <= i < manifests.len() && !packages[i].has_source && !root.is_prefix_of(
            #[trigger] manifests[i],
        ) implies external_packages(metadata, packages).contains(
        (packages[i].name@, packages[i].manifest_path@),
    ) by {
        lemma_external_package(
            metadata,
            packages,
            (packages[i].name@, packages[i].manifest_path@),
        );
    }
    if external_report(
        metadata.workspace_root@,
        external_packages(metadata, packages),
    ) is Some {
        let i = choose|i: int|
            0 <= i < packages.len() && !(#[trigger] packages[i]).has_source && !is_under(
                packages[i].manifest_path@,
                metadata.workspace_root@,
            );
        assert(!root.is_prefix_of(manifests[i]));
    }
    if exists|i: int|
        0 <= i < manifests.len() && !packages[i].has_source && !root.is_prefix_of(
            #[trigger] manifests[i],
        ) {
        let i = choose|i: int|
            0 <= i < manifests.len() && !packages[i].has_source && !root.is_prefix_of(
                #[trigger] manifests[i],
            );
        assert(!packages[i].has_source);
    }
}

/// An entry has a path: a string under that key.
pub open spec fn has_path(item: Toml) -> bool {
    item.get("path"@) matches Some(Toml::Text(path))
}

/// The workspace's own manifest gives a path for a name under `[workspace.dependencies]`.
pub open spec fn gives_path(root: Toml, name: Seq<char>) -> bool {
    &&& root.get("workspace"@) matches Some(workspace)
    &&& workspace is Section
    &&& workspace.get("dependencies"@) matches Some(Toml::Section(entries))
    &&& exists|e: int|
        0 <= e < entries.len() && (#[trigger] entries[e]).0 == name && has_path(entries[e].1)
}

/// An entry inherits from the workspace, or has a path and a version, whatever else it says.
pub open spec fn is_forbidden(item: Toml) -> bool {
    item.get("workspace"@) == Some(Toml::Flag(true)) || (item.get("path"@) is Some && item.get(
        "version"@,
    ) is Some)
}

/// Some entry of a table is forbidden and stands under a name that the workspace gives a path.
pub open spec fn holds_forbidden(root: Toml, entries: Seq<(Seq<char>, Toml)>) -> bool {
    exists|j: int|
        0 <= j < entries.len() && gives_path(root, (#[trigger] entries[j]).0) && is_forbidden(
            entries[j].1,
        )
}

/// A table has dev-dependencies that hold a forbidden entry.
pub open spec fn table_offends(root: Toml, table: Toml) -> bool {
    &&& table is Section
    &&& table.get("dev-dependencies"@) matches Some(Toml::Section(entries))
    &&& holds_forbidden(root, entries)
}

/// The dev-dependencies of a manifest, or those of one of its targets, hold a forbidden entry.
pub open spec fn offends(root: Toml, manifest: Toml) -> bool {
    ||| manifest.get("dev-dependencies"@) matches Some(Toml::Section(entries)) && holds_forbidden(
        root,
        entries,
    )
    ||| manifest.get("target"@) matches Some(Toml::Section(targets)) && exists|t: int|
        0 <= t < targets.len() && table_offends(root, (#[trigger] targets[t]).1)
}

proof fn lemma_internal_path(internal: Seq<(Seq<char>, Seq<char>)>, name: Seq<char>)
    ensures
        internal_path(internal, name) is Some <==> exists|e: int|
            0 <= e < internal.len() && (#[trigger] internal[e]).0 == name,
    decreases internal.len(),
{
    if internal.len() > 0 {
        let rest = internal.drop_last();
        let n = internal.len() - 1;
        lemma_internal_path(rest, name);
        assert(internal[n] == internal.last());
        if internal_path(rest, name) is Some {
            let e = choose|e: int| 0 <= e < rest.len() && (#[trigger] rest[e]).0 == name;
            assert(internal[e] == rest[e]);
        }
        if exists|e: int| 0 <= e < internal.len() && (#[trigger] internal[e]).0 == name {
            let e = choose|e: int| 0 <= e < internal.len() && (#[trigger] internal[e]).0 == name;
            if e < n {
                assert(rest[e] == internal[e]);
            }
        }
    }
}

proof fn lemma_path_entries(entries: Seq<(Seq<char>, Toml)>, name: Seq<char>)
    ensures
        internal_path(path_entries(entries), name) is Some <==> exists|e: int|
            0 <= e < entries.len() && (#[trigger] entries[e]).0 == name && has_path(entries[e].1),
    decreases entries.len(),
{
    if entries.len() > 0 {
        let rest = entries.drop_last();
        let n = entries.len() - 1;
        lemma_path_entries(rest, name);
        assert(entries[n] == entries.last());
        let found = path_entries(entries);
        let before = path_entries(rest);
        match text_field(entries.last().1, "path"@) {
            Some(path) => {
                assert(found.drop_last() =~= before);
                assert(found.last() == (entries.last().0, path));
                assert(entries[n].1.get("path"@) == Some(Toml::Text(path)));
            },
            None => {},
        }
        if internal_path(before, name) is Some {
            let e = choose|e: int|
                0 <= e < rest.len() && (#[trigger] rest[e]).0 == name && has_path(rest[e].1);
            assert(entries[e] == rest[e]);
        }
        if exists|e: int|
            0 <= e < entries.len() && (#[trigger] entries[e]).0 == name && has_path(entries[e].1) {
            let e = choose|e: int|
                0 <= e < entries.len() && (#[trigger] entries[e]).0 == name && has_path(entries[e].1);
            if e < n {
                assert(rest[e] == entries[e]);
            }
        }
    }
}

proof fn lemma_internal_deps(root: Toml, name: Seq<char>)
    ensures
        internal_path(internal_deps(root), name) is Some == gives_path(root, name),
{
    match root.get("workspace"@) {
        Some(workspace) => {
            if workspace is Section {
                match workspace.get("dependencies"@) {
                    Some(Toml::Section(entries)) => {
                        lemma_path_entries(entries, name);
                    },
                    _ => {},
                }
            }
        },
        None => {},
    }
}

/// Some dev-dependency of a table is an internal crate in a form that is not allowed.
spec fn some_bad(internal: Seq<(Seq<char>, Seq<char>)>, deps: Seq<DevDepText>) -> bool {
    exists|j: int|
        0 <= j < deps.len() && internal_path(internal, (#[trigger] deps[j]).name) is Some && (
        deps[j].workspace || deps[j].path_and_version)
}

proof fn lemma_some_bad(root: Toml, entries: Seq<(Seq<char>, Toml)>)
    ensures
        some_bad(internal_deps(root), dev_deps_of(entries)) == holds_forbidden(root, entries),
{
    let internal = internal_deps(root);
    let deps = dev_deps_of(entries);
    if some_bad(internal, deps) {
        let j = choose|j: int|
            0 <= j < deps.len() && internal_path(internal, (#[trigger] deps[j]).name) is Some && (
            deps[j].workspace || deps[j].path_and_version);
        lemma_internal_deps(root, entries[j].0);
        assert(gives_path(root, entries[j].0) && is_forbidden(entries[j].1));
    }
    if holds_forbidden(root, entries) {
        let j = choose|j: int|
            0 <= j < entries.len() && gives_path(root, (#[trigger] entries[j]).0) && is_forbidden(
                entries[j].1,
            );
        lemma_internal_deps(root, entries[j].0);
        assert(deps[j].name == entries[j].0);
        assert(deps[j].workspace || deps[j].path_and_version);
    }
}

proof fn lemma_bad_target(
    root: Toml,
    targets: Seq<(Seq<char>, Toml)>,
    internal: Seq<(Seq<char>, Seq<char>)>,
)
    requires
        internal == internal_deps(root),
    ensures
        (exists|i: int|
            0 <= i < target_sections(targets).len() && some_bad(
                internal,
                (#[trigger] target_sections(targets)[i]).1,
            )) <==> exists|t: int|
            0 <= t < targets.len() && table_offends(root, (#[trigger] targets[t]).1),
    decreases targets.len(),
{
    if targets.len() > 0 {
        let rest = targets.drop_last();
        let n = targets.len() - 1;
        let before = target_sections(rest);
        let all = target_sections(targets);
        lemma_bad_target(root, rest, internal);
        assert(targets[n] == targets.last());
        match targets[n].1.get("dev-dependencies"@) {
            Some(Toml::Section(entries)) => {
                lemma_some_bad(root, entries);
            },
            _ => {},
        }
        if exists|i: int| 0 <= i < all.len() && some_bad(internal, (#[trigger] all[i]).1) {
            let i = choose|i: int| 0 <= i < all.len() && some_bad(internal, (#[trigger] all[i]).1);
            if i < before.len() {
                assert(before[i] == all[i]);
                let t = choose|t: int|
                    0 <= t < rest.len() && table_offends(root, (#[trigger] rest[t]).1);
                assert(targets[t] == rest[t]);
            }
        }
        if exists|t: int|
            0 <= t < targets.len() && table_offends(root, (#[trigger] targets[t]).1) {
            let t = choose|t: int|
                0 <= t < targets.len() && table_offends(root, (#[trigger] targets[t]).1);
            if t < n {
                assert(rest[t] == targets[t]);
                let i = choose|i: int|
                    0 <= i < before.len() && some_bad(internal, (#[trigger] before[i]).1);
                assert(all[i] == before[i]);
            } else {
                assert(some_bad(internal, all[before.len() as int].1));
            }
        }
    }
}

proof fn lemma_bad_manifest(root: Toml, tree: Toml, path: Seq<char>, workspace: Seq<char>)
    ensures
        manifest_violations(dev_dep_tables(tree), path, internal_deps(root), workspace).len() > 0
            <==> offends(root, tree),
{
    let internal = internal_deps(root);
    let tables = dev_dep_tables(tree);
    lemma_clean_tables_pass(tables, path, internal, workspace);
    let own = match tree.section("dev-dependencies"@) {
        Some(table) => seq![("[dev-dependencies]"@, dev_deps_of(table.entries()))],
        None => Seq::<(Seq<char>, Seq<DevDepText>)>::empty(),
    };
    let targets = match tree.section("target"@) {
        Some(targets) => target_sections(targets.entries()),
        None => Seq::<(Seq<char>, Seq<DevDepText>)>::empty(),
    };
    assert(tables == own + targets);
    match tree.get("dev-dependencies"@) {
        Some(Toml::Section(entries)) => {
            lemma_some_bad(root, entries);
        },
        _ => {},
    }
    match tree.get("target"@) {
        Some(Toml::Section(entries)) => {
            lemma_bad_target(root, entries, internal);
        },
        _ => {},
    }
    if manifest_violations(tables, path, internal, workspace).len() > 0 {
        let (i, j) = choose|i: int, j: int|
            0 <= i < tables.len() && 0 <= j < tables[i].1.len() && internal_path(
                internal,
                (#[trigger] tables[i].1[j]).name,
            ) is Some && (tables[i].1[j].workspace || tables[i].1[j].path_and_version);
        assert(some_bad(internal, tables[i].1));
        if i < own.len() {
            assert(tables[i] == own[i]);
        } else {
            assert(tables[i] == targets[i - own.len()]);
        }
    }
    if offends(root, tree) {
        if tree.get("dev-dependencies"@) matches Some(Toml::Section(entries)) && holds_forbidden(
            root,
            entries,
        ) {
            assert(some_bad(internal, own[0].1));
            assert(tables[0] == own[0]);
            let j = choose|j: int|
                0 <= j < own[0].1.len() && internal_path(
                    internal,
                    (#[trigger] own[0].1[j]).name,
                ) is Some && (own[0].1[j].workspace || own[0].1[j].path_and_version);
            assert(tables[0].1[j] == own[0].1[j]);
        } else {
            let k = choose|k: int|
                0 <= k < targets.len() && some_bad(internal, (#[trigger] targets[k]).1);
            let i = own.len() + k;
            assert(tables[i] == targets[k]);
            let j = choose|j: int|
                0 <= j < targets[k].1.len() && internal_path(
                    internal,
                    (#[trigger] targets[k].1[j]).name,
                ) is Some && (targets[k].1[j].workspace || targets[k].1[j].path_and_version);
            assert(tables[i].1[j] == targets[k].1[j]);
        }
    }
}

/// A manifest could be read and holds this.
pub open spec fn reads_as(manifest: Result<String, String>, tree: Toml) -> bool {
    manifest matches Ok(text) && toml_parse(text@) == Ok::<Toml, Seq<char>>(tree)
}

/// Where all manifests are TOML, the check on internal dev-dependencies fails exactly if the
/// manifest of a listed member offends: it has an entry, under a name that the workspace gives
/// a path, that says `workspace = true` or has both a path and a version. `trees` gives what
/// the manifests of the packages hold.
pub proof fn lemma_release_plz_check_fails(
    metadata: Metadata,
    root_manifest: Seq<char>,
    manifests: Seq<Result<String, String>>,
    root: Toml,
    trees: Seq<Toml>,
)
    requires
        manifests.len() == metadata.packages@.len(),
        trees.len() == manifests.len(),
        toml_parse(root_manifest) == Ok::<Toml, Seq<char>>(root),
        forall|i: int|
            0 <= i < trees.len() ==> reads_as(manifests[i], #[trigger] trees[i]),
    ensures
        release_plz_outcome(metadata, Ok(root_manifest), manifests) is Some <==> exists|i: int|
            0 <= i < trees.len() && is_listed(metadata, metadata.packages@[i].id@) && offends(
                root,
                #[trigger] trees[i],
            ),
{
    lemma_release_plz_check_passes(metadata, Ok(root_manifest), manifests);
    let internal = internal_deps(root);
    assert forall|i: int| 0 <= i < trees.len() implies metadata.has_member(
        metadata.packages@[i].id@,
    ) == is_listed(metadata, metadata.packages@[i].id@) && member_is_clean(
        metadata,
        manifests,
        internal,
        i,
    ) == !offends(root, #[trigger] trees[i]) by {
        lemma_listed(metadata, metadata.packages@[i].id@);
        lemma_bad_manifest(
            root,
            trees[i],
            metadata.packages@[i].manifest_path@,
            metadata.workspace_root@,
        );
    }
    if internal.len() == 0 {
        assert forall|i: int| 0 <= i < trees.len() implies !offends(root, #[trigger] trees[i]) by {
            lemma_nothing_offends(root, trees[i]);
        }
    } else if exists|i: int|
        0 <= i < trees.len() && is_listed(metadata, metadata.packages@[i].id@) && offends(
            root,
            #[trigger] trees[i],
        ) {
        let i = choose|i: int|
            0 <= i < trees.len() && is_listed(metadata, metadata.packages@[i].id@) && offends(
                root,
                #[trigger] trees[i],
            );
        assert(metadata.has_member(metadata.packages@[i].id@));
        assert(!member_is_clean(metadata, manifests, internal, i));
    } else {
        assert forall|i: int|
            0 <= i < metadata.packages@.len() && metadata.has_member(
                (#[trigger] metadata.packages@[i]).id@,
            ) implies member_is_clean(metadata, manifests, internal, i) by {
            assert(!offends(root, trees[i]));
        }
    }
}

proof fn lemma_nothing_offends(root: Toml, tree: Toml)
    requires
        internal_deps(root).len() == 0,
    ensures
        !offends(root, tree),
{
    assert forall|name: Seq<char>| !gives_path(root, name) by {
        lemma_internal_deps(root, name);
    }
}

/// A manifest that cannot be read or is no TOML fails the check on internal dev-dependencies:
/// the workspace's own always, that of a listed member where the workspace gives some name a
/// path.
pub proof fn lemma_release_plz_check_needs_manifests(
    metadata: Metadata,
    root_manifest: Result<Seq<char>, Seq<char>>,
    manifests: Seq<Result<String, String>>,
    i: int,
    name: Seq<char>,
)
    requires
        manifests.len() == metadata.packages@.len(),
    ensures
        root_manifest is Err ==> release_plz_outcome(metadata, root_manifest, manifests) is Some,
        root_manifest matches Ok(text) ==> (toml_parse(text) is Err ==> release_plz_outcome(
            metadata,
            root_manifest,
            manifests,
        ) is Some),
        root_manifest matches Ok(text) ==> (toml_parse(text) matches Ok(root) ==> (0 <= i
            < manifests.len() && is_listed(metadata, metadata.packages@[i].id@) && gives_path(
            root,
            name,
        ) && (manifests[i] is Err || toml_parse(manifests[i]->Ok_0@) is Err)
            ==> release_plz_outcome(metadata, root_manifest, manifests) is Some)),
{
    lemma_release_plz_check_passes(metadata, root_manifest, manifests);
    if root_manifest is Ok {
        match toml_parse(root_manifest->Ok_0) {
            Ok(root) => {
                lemma_internal_deps(root, name);
                if 0 <= i < manifests.len() && is_listed(metadata, metadata.packages@[i].id@) {
                    lemma_listed(metadata, metadata.packages@[i].id@);
                }
            },
            Err(_) => {},
        }
    }
}

// ---- what is said ----

/// Lines are written one after the other, each behind its marker and on a line of its own.
pub proof fn lemma_marked_lines(a: Seq<Seq<char>>, b: Seq<Seq<char>>, marker: Seq<char>)
    ensures
        marked_lines(a + b, marker) == marked_lines(a, marker) + marked_lines(b, marker),
        a.len() == 1 ==> marked_lines(a, marker) == "  "@ + marker + " "@ + a[0] + "\n"@,
        a.len() == 0 ==> marked_lines(a, marker).len() == 0,
    decreases b.len(),
{
    if a.len() == 1 {
        assert(a.drop_last() =~= Seq::empty());
        assert(marked_lines(a.drop_last(), marker) =~= Seq::empty());
        assert(marked_lines(a, marker) =~= "  "@ + marker + " "@ + a[0] + "\n"@);
    }
    if b.len() == 0 {
        assert(a + b =~= a);
    } else {
        lemma_marked_lines(a, b.drop_last(), marker);
        assert((a + b).drop_last() =~= a + b.drop_last());
        assert((a + b).last() == b.last());
    }
    assert(marked_lines(a + b, marker) =~= marked_lines(a, marker) + marked_lines(b, marker));
}

/// Packages are looked at one after the other, for their editions and for where they lie.
pub proof fn lemma_packages_in_order(metadata: Metadata, a: Seq<Package>, b: Seq<Package>)
    ensures
        outdated_lines(metadata, a + b) == outdated_lines(metadata, a) + outdated_lines(
            metadata,
            b,
        ),
        external_packages(metadata, a + b) == external_packages(metadata, a) + external_packages(
            metadata,
            b,
        ),
    decreases b.len(),
{
    if b.len() == 0 {
        assert(a + b =~= a);
    } else {
        lemma_packages_in_order(metadata, a, b.drop_last());
        assert((a + b).drop_last() =~= a + b.drop_last());
        assert((a + b).last() == b.last());
    }
    assert(outdated_lines(metadata, a + b) =~= outdated_lines(metadata, a) + outdated_lines(
        metadata,
        b,
    ));
    assert(external_packages(metadata, a + b) =~= external_packages(metadata, a)
        + external_packages(metadata, b));
}

/// An external dependency is told with its name and the directory that it lies in.
pub proof fn lemma_external_line(name: Seq<char>, dir: Seq<Seq<char>>, file: Seq<char>)
    requires
        are_plain_names(dir),
        is_plain_name(file),
    ensures
        external_lines(seq![(name, rooted(dir.push(file)))]) == seq![
            in_yellow(name) + " → "@ + rooted(dir),
        ],
{
    lemma_rooted_push(dir, file);
    lemma_rooted_parent(dir.push(file));
    assert(dir.push(file).drop_last() =~= dir);
    assert(external_lines(seq![(name, rooted(dir.push(file)))]) =~= seq![
        in_yellow(name) + " → "@ + rooted(dir),
    ]);
}

/// The paths of the workspace's crates are those that stand under the key for it, as strings.
/// Where a name has two, the later counts.
pub proof fn lemma_internal_crates(
    a: Seq<(Seq<char>, Toml)>,
    b: Seq<(Seq<char>, Toml)>,
    name: Seq<char>,
    other: Seq<char>,
    item: Toml,
)
    ensures
        internal_path(path_entries(a + b), name) == if internal_path(
            path_entries(b),
            name,
        ) is Some {
            internal_path(path_entries(b), name)
        } else {
            internal_path(path_entries(a), name)
        },
        internal_path(path_entries(seq![(name, item)]), name) == match item.get("path"@) {
            Some(Toml::Text(path)) => Some(path),
            _ => None,
        },
        other != name ==> internal_path(path_entries(seq![(other, item)]), name) is None,
    decreases b.len(),
{
    let one = seq![(name, item)];
    let second = seq![(other, item)];
    assert(one.drop_last() =~= Seq::empty() && second.drop_last() =~= Seq::empty());
    assert(path_entries(one.drop_last()) =~= Seq::empty());
    assert(path_entries(second.drop_last()) =~= Seq::empty());
    assert(one.last() == (name, item) && second.last() == (other, item));
    if let Some(Toml::Text(path)) = item.get("path"@) {
        assert(path_entries(one) =~= seq![(name, path)]);
        assert(seq![(name, path)].last() == (name, path));
        assert(path_entries(second) =~= seq![(other, path)]);
        assert(seq![(other, path)].last() == (other, path));
        assert(seq![(other, path)].drop_last() =~= Seq::empty());
        assert(internal_path(seq![(other, path)].drop_last(), name) is None);
    }
    if b.len() == 0 {
        assert(a + b =~= a);
        assert(path_entries(b) =~= Seq::empty());
    } else {
        lemma_internal_crates(a, b.drop_last(), name, other, item);
        assert((a + b).drop_last() =~= a + b.drop_last());
        assert((a + b).last() == b.last());
        let (x, y) = (path_entries(a + b.drop_last()), path_entries(b.drop_last()));
        if let Some(path) = text_field(b.last().1, "path"@) {
            let last = (b.last().0, path);
            assert(x.push(last).drop_last() =~= x && x.push(last).last() == last);
            assert(y.push(last).drop_last() =~= y && y.push(last).last() == last);
        }
    }
}

/// The tables of dev-dependencies of a manifest come under their headings: its own first, then
/// those of its targets in their order.
pub proof fn lemma_headings(
    tree: Toml,
    a: Seq<(Seq<char>, Toml)>,
    b: Seq<(Seq<char>, Toml)>,
    target: Seq<char>,
    table: Toml,
)
    ensures
        target_sections(a + b) == target_sections(a) + target_sections(b),
        target_sections(seq![(target, table)]) == match table.get("dev-dependencies"@) {
            Some(Toml::Section(entries)) => if table is Section {
                seq![("[target."@ + target + ".dev-dependencies]"@, dev_deps_of(entries))]
            } else {
                Seq::empty()
            },
            _ => Seq::empty(),
        },
        tree.get("dev-dependencies"@) matches Some(Toml::Section(entries)) ==> dev_dep_tables(
            tree,
        ).len() > 0 && dev_dep_tables(tree)[0] == ("[dev-dependencies]"@, dev_deps_of(entries)),
    decreases b.len(),
{
    let one = seq![(target, table)];
    assert(one.drop_last() =~= Seq::empty());
    assert(target_sections(one.drop_last()) =~= Seq::empty());
    assert(one.last() == (target, table));
    assert(target_sections(one) =~= match table.get("dev-dependencies"@) {
        Some(Toml::Section(entries)) => if table is Section {
            seq![("[target."@ + target + ".dev-dependencies]"@, dev_deps_of(entries))]
        } else {
            Seq::empty()
        },
        _ => Seq::empty(),
    });
    if b.len() == 0 {
        assert(a + b =~= a);
    } else {
        lemma_headings(tree, a, b.drop_last(), target, table);
        assert((a + b).drop_last() =~= a + b.drop_last());
        assert((a + b).last() == b.last());
    }
    assert(target_sections(a + b) =~= target_sections(a) + target_sections(b));
}

/// Of an entry for a crate of the workspace each of the two forms that are not allowed is
/// told, with the manifest, the heading and the name; of an entry for another crate nothing is.
pub proof fn lemma_forbidden_forms_are_told(
    name: Seq<char>,
    item: Toml,
    manifest: Seq<char>,
    heading: Seq<char>,
    internal: Seq<(Seq<char>, Seq<char>)>,
    root: Seq<char>,
)
    ensures
        ({
            let said = dep_violations(dev_dep_of(name, item), manifest, heading, internal, root);
            let inherits = item.get("workspace"@) == Some(Toml::Flag(true));
            let both = item.get("path"@) is Some && item.get("version"@) is Some;
            let start = manifest + " "@ + heading + ": `"@ + name;
            match internal_path(internal, name) {
                None => said.len() == 0,
                Some(path) => {
                    &&& said.len() == (if inherits {
                        1int
                    } else {
                        0int
                    }) + (if both {
                        1int
                    } else {
                        0int
                    })
                    &&& inherits ==> said[0] == start
                        + ".workspace = true` is not allowed for internal dev-dependencies. Use `"@
                        + name + " = { path = \""@ + suggested_path(manifest, root, path)
                        + "\" }`."@
                    &&& both ==> said.last() == start
                        + "` sets both `path` and `version`. Remove `version` for internal dev-dependencies."@
                },
            }
        }),
{
}

proof fn lemma_joined_by_slashes(names: Seq<Seq<char>>)
    ensures
        joined(names, "/"@) == slashed(names),
    decreases names.len(),
{
    reveal_strlit("/");
    assert("/"@ =~= seq!['/']);
    if names.len() > 1 {
        lemma_joined_by_slashes(names.drop_last());
    }
}

/// The suggested path goes up from the member's directory to what it shares with the crate's,
/// once for each name, and down from there; where they are the same directory, it is a dot.
/// `base` leads to what they share, `m` from there to the member and `d` to the crate. The
/// workspace lies at `w` and gives the crate by `e`.
pub proof fn lemma_suggested_path(
    base: Seq<Seq<char>>,
    m: Seq<Seq<char>>,
    file: Seq<char>,
    d: Seq<Seq<char>>,
    w: Seq<Seq<char>>,
    e: Seq<Seq<char>>,
)
    requires
        are_plain_names(base + m),
        is_plain_name(file),
        are_plain_names(w),
        are_plain_names(e),
        e.len() > 0,
        w + e == base + d,
        m.len() == 0 || d.len() == 0 || m[0] != d[0],
    ensures
        suggested_path(rooted((base + m).push(file)), rooted(w), slashed(e)) == if m.len() == 0
            && d.len() == 0 {
            "."@
        } else {
            slashed(Seq::new(m.len(), |i: int| ".."@) + d)
        },
{
    let manifest = rooted((base + m).push(file));
    lemma_rooted_push(base + m, file);
    lemma_rooted_parent((base + m).push(file));
    assert((base + m).push(file).drop_last() =~= base + m);
    assert(parent_or_self(manifest) == rooted(base + m));
    lemma_rooted_join(w, e);
    lemma_rooted_components(base + m);
    lemma_rooted_components(w + e);
    let start = seq![seq!['/']] + base;
    assert(seq![seq!['/']] + (base + m) =~= start + m);
    assert(seq![seq!['/']] + (base + d) =~= start + d);
    lemma_shared_prefix(start, m, d);
    assert(shared_len(m, d) == 0);
    assert((start + d).skip(start.len() as int) =~= d);
    let up = Seq::new(m.len(), |i: int| ".."@);
    let parts = suggested_parts(manifest, rooted(w), slashed(e));
    assert(parts =~= up + d);
    lemma_joined_by_slashes(parts);
}

proof fn lemma_table_line(
    deps: Seq<DevDepText>,
    manifest: Seq<char>,
    heading: Seq<char>,
    internal: Seq<(Seq<char>, Seq<char>)>,
    root: Seq<char>,
    j: int,
    line: Seq<char>,
)
    requires
        0 <= j < deps.len(),
        dep_violations(deps[j], manifest, heading, internal, root).contains(line),
    ensures
        table_violations(deps, manifest, heading, internal, root).contains(line),
    decreases deps.len(),
{
    let rest = deps.drop_last();
    let before = table_violations(rest, manifest, heading, internal, root);
    let all = table_violations(deps, manifest, heading, internal, root);
    if j < rest.len() {
        lemma_table_line(rest, manifest, heading, internal, root, j, line);
        let k = before.index_of(line);
        assert(all[k] == line);
    } else {
        let last = dep_violations(deps[j], manifest, heading, internal, root);
        let k = last.index_of(line);
        assert(all[before.len() + k] == line);
    }
}

proof fn lemma_manifest_line(
    tables: Seq<(Seq<char>, Seq<DevDepText>)>,
    manifest: Seq<char>,
    internal: Seq<(Seq<char>, Seq<char>)>,
    root: Seq<char>,
    t: int,
    line: Seq<char>,
)
    requires
        0 <= t < tables.len(),
        table_violations(tables[t].1, manifest, tables[t].0, internal, root).contains(line),
    ensures
        manifest_violations(tables, manifest, internal, root).contains(line),
    decreases tables.len(),
{
    let rest = tables.drop_last();
    let before = manifest_violations(rest, manifest, internal, root);
    let all = manifest_violations(tables, manifest, internal, root);
    if t < rest.len() {
        lemma_manifest_line(rest, manifest, internal, root, t, line);
        let k = before.index_of(line);
        assert(all[k] == line);
    } else {
        let last = table_violations(tables[t].1, manifest, tables[t].0, internal, root);
        let k = last.index_of(line);
        assert(all[before.len() + k] == line);
    }
}

proof fn lemma_member_line(
    metadata: Metadata,
    manifests: Seq<Result<String, String>>,
    internal: Seq<(Seq<char>, Seq<char>)>,
    trees: Seq<Toml>,
    n: nat,
    i: int,
    line: Seq<char>,
)
    requires
        n <= trees.len(),
        0 <= i < trees.len(),
        forall|k: int|
            0 <= k < trees.len() ==> reads_as(manifests[k], #[trigger] trees[k]),
        metadata.has_member(metadata.packages@[i].id@),
        manifest_violations(
            dev_dep_tables(trees[i]),
            metadata.packages@[i].manifest_path@,
            internal,
            metadata.workspace_root@,
        ).contains(line),
    ensures
        members_violations(metadata, manifests, internal, n) is Ok,
        i < n ==> members_violations(metadata, manifests, internal, n)->Ok_0.contains(line),
    decreases n,
{
    if n > 0 {
        let m = (n - 1) as nat;
        lemma_member_line(metadata, manifests, internal, trees, m, i, line);
        let before = members_violations(metadata, manifests, internal, m)->Ok_0;
        assert(reads_as(manifests[m as int], trees[m as int]));
        let all = members_violations(metadata, manifests, internal, n)->Ok_0;
        if i < m {
            let k = before.index_of(line);
            assert(all[k] == line);
        } else if i == m {
            let own = manifest_violations(
                dev_dep_tables(trees[i]),
                metadata.packages@[i].manifest_path@,
                internal,
                metadata.workspace_root@,
            );
            let k = own.index_of(line);
            assert(all[before.len() + k] == line);
        }
    }
}

/// The failed check on internal dev-dependencies names each forbidden entry under
/// `[dev-dependencies]` of a listed member: its manifest and its name. `trees` gives what the
/// manifests of the packages hold, all of which are TOML.
pub proof fn lemma_forbidden_entry_is_named(
    metadata: Metadata,
    root_manifest: Seq<char>,
    manifests: Seq<Result<String, String>>,
    root: Toml,
    trees: Seq<Toml>,
    entries: Seq<(Seq<char>, Toml)>,
    i: int,
    j: int,
)
    requires
        manifests.len() == metadata.packages@.len(),
        trees.len() == manifests.len(),
        toml_parse(root_manifest) == Ok::<Toml, Seq<char>>(root),
        forall|k: int|
            0 <= k < trees.len() ==> reads_as(manifests[k], #[trigger] trees[k]),
        0 <= i < trees.len(),
        is_listed(metadata, metadata.packages@[i].id@),
        trees[i].get("dev-dependencies"@) == Some(Toml::Section(entries)),
        0 <= j < entries.len(),
        gives_path(root, entries[j].0),
        is_forbidden(entries[j].1),
    ensures
        release_plz_outcome(metadata, Ok(root_manifest), manifests) matches Some(
            (summary, details),
        ) && has_text(
            details,
            metadata.packages@[i].manifest_path@ + " "@ + "[dev-dependencies]"@ + ": `"@
                + entries[j].0,
        ),
{
    let internal = internal_deps(root);
    let path = metadata.packages@[i].manifest_path@;
    let workspace = metadata.workspace_root@;
    let (name, item) = entries[j];
    let heading = "[dev-dependencies]"@;
    let start = path + " "@ + heading + ": `"@ + name;
    lemma_internal_deps(root, name);
    lemma_listed(metadata, metadata.packages@[i].id@);
    lemma_headings(trees[i], Seq::empty(), Seq::empty(), name, item);
    lemma_forbidden_forms_are_told(name, item, path, heading, internal, workspace);
    let deps = dev_deps_of(entries);
    let tables = dev_dep_tables(trees[i]);
    let said = dep_violations(deps[j], path, heading, internal, workspace);
    assert(deps[j] == dev_dep_of(name, item));
    let line = said[0];
    assert(said.contains(line));
    let rest = line.skip(start.len() as int);
    assert(line =~= start + rest);
    lemma_table_line(deps, path, heading, internal, workspace, j, line);
    lemma_manifest_line(tables, path, internal, workspace, 0, line);
    lemma_member_line(metadata, manifests, internal, trees, trees.len(), i, line);
    let violations = members_violations(
        metadata,
        manifests,
        internal,
        metadata.packages@.len(),
    )->Ok_0;
    let at = violations.index_of(line);
    assert(violations[at] == line);
    assert(internal.len() > 0);
    let marker = in_red("✗"@);
    let list = marked_lines(violations, marker);
    let whole = "  "@ + marker + " "@ + line + "\n"@;
    let head =
        "Found internal workspace crates in dev-dependencies using unsupported forms:\n\n"@;
    let tail =
        "\nUse path-only entries for internal dev-dependencies. Avoid `workspace = true`\n"@;
    let end = "and avoid `version` in dev-dependencies for internal workspace crates."@;
    lemma_marked_line_stands(violations, marker, at);
    lemma_stands_in_longer(head, list, tail + end, whole);
    let details = head + list + (tail + end);
    assert(details =~= head + list + tail + end);
    assert(whole =~= ("  "@ + marker + " "@) + start + (rest + "\n"@));
    lemma_part_stands("  "@ + marker + " "@, start, rest + "\n"@, details);
}

/// The failed check on path dependencies names each package without a source that lies elsewhere
/// than below the workspace, with the directory that it lies in. `dir` gives the names that lead
/// to that directory, `root` those that lead to the workspace.
pub proof fn lemma_external_package_is_named(
    metadata: Metadata,
    root: Seq<Seq<char>>,
    dir: Seq<Seq<char>>,
    file: Seq<char>,
    i: int,
)
    requires
        are_plain_names(root),
        are_plain_names(dir),
        is_plain_name(file),
        metadata.workspace_root@ == rooted(root),
        0 <= i < metadata.packages@.len(),
        !metadata.packages@[i].has_source,
        metadata.packages@[i].manifest_path@ == rooted(dir.push(file)),
        !root.is_prefix_of(dir.push(file)),
    ensures
        external_report(
            metadata.workspace_root@,
            external_packages(metadata, metadata.packages@),
        ) matches Some((summary, details)) && has_text(
            details,
            in_yellow(metadata.packages@[i].name@) + " → "@ + rooted(dir),
        ),
{
    let package = metadata.packages@[i];
    let pair = (package.name@, package.manifest_path@);
    let deps = external_packages(metadata, metadata.packages@);
    lemma_rooted_push(dir, file);
    lemma_rooted_parent(dir.push(file));
    assert(dir.push(file).drop_last() =~= dir);
    lemma_rooted_under(dir.push(file), root);
    lemma_external_package(metadata, metadata.packages@, pair);
    assert(is_external(metadata, package));
    assert(deps.contains(pair));
    let at = deps.index_of(pair);
    let lines = external_lines(deps);
    let line = in_yellow(package.name@) + " → "@ + rooted(dir);
    assert(lines[at] == line);
    let marker = in_red("✗"@);
    let whole = "  "@ + marker + " "@ + line + "\n"@;
    let head = "The following path dependencies point outside the workspace root ("@
        + metadata.workspace_root@ + "):\n\n"@;
    let one =
        "\nThese are typically local development overrides (e.g., in [patch] sections)\n"@;
    let two = "that should not be committed. They will break builds for other developers.\n\n"@;
    let three = "To fix: comment out or remove the path dependencies before committing."@;
    let list = marked_lines(lines, marker);
    lemma_marked_line_stands(lines, marker, at);
    lemma_stands_in_longer(head, list, one + two + three, whole);
    let details = head + list + (one + two + three);
    assert(details =~= head + list + one + two + three);
    lemma_part_stands("  "@ + marker + " "@, line, "\n"@, details);
}

/// The failed edition check names the workspace's own manifest and the edition that it declares,
/// where that is another.
pub proof fn lemma_outdated_root_is_named(
    metadata: Metadata,
    root: Seq<Seq<char>>,
    root_manifest: Seq<char>,
    manifest: Toml,
    edition: Seq<char>,
)
    requires
        are_plain_names(root),
        metadata.workspace_root@ == rooted(root),
        toml_parse(root_manifest) == Ok::<Toml, Seq<char>>(manifest),
        says_edition(manifest, edition),
        edition != "2024"@,
    ensures
        edition_report(edition_problems(metadata, root_edition(Some(root_manifest)))) matches Some(
            (summary, details),
        ) && has_text(
            details,
            rooted(root.push("Cargo.toml"@)) + ": [workspace.package].edition = "@ + debug_string(
                edition,
            ) + " (expected \"2024\")"@,
        ),
{
    reveal_strlit("Cargo.toml");
    assert("Cargo.toml"@[0] == 'C');
    lemma_rooted_push(root, "Cargo.toml"@);
    let line = rooted(root.push("Cargo.toml"@)) + ": [workspace.package].edition = "@
        + debug_string(edition) + " (expected \"2024\")"@;
    let problems = edition_problems(metadata, root_edition(Some(root_manifest)));
    assert(root_edition(Some(root_manifest)) == Some(edition));
    assert(problems[0] == line);
    let marker = in_yellow("fix:"@);
    lemma_marked_line_stands(problems, marker, 0);
    let whole = "  "@ + marker + " "@ + line + "\n"@;
    let tail = "\nSet edition = \"2024\" in the above location(s) to proceed."@;
    let list = marked_lines(problems, marker);
    lemma_stands_in_longer(Seq::empty(), list, tail, whole);
    assert(Seq::<char>::empty() + list + tail =~= list + tail);
    lemma_part_stands("  "@ + marker + " "@, line, "\n"@, list + tail);
}

/// Where the workspace's own manifest cannot be read or is no TOML, the check on internal
/// dev-dependencies tells its path and the reason.
pub proof fn lemma_unreadable_root_is_named(
    metadata: Metadata,
    root: Seq<Seq<char>>,
    reason: Seq<char>,
    text: Seq<char>,
    manifests: Seq<Result<String, String>>,
)
    requires
        are_plain_names(root),
        metadata.workspace_root@ == rooted(root),
    ensures
        release_plz_outcome(metadata, Err(reason), manifests) matches Some((summary, details))
            && details == rooted(root.push("Cargo.toml"@)) + ": "@ + reason,
        toml_parse(text) matches Err(problem) ==> (release_plz_outcome(
            metadata,
            Ok(text),
            manifests,
        ) matches Some((summary, details)) && details == rooted(root.push("Cargo.toml"@)) + ": "@
            + problem),
{
    reveal_strlit("Cargo.toml");
    assert("Cargo.toml"@[0] == 'C');
    lemma_rooted_push(root, "Cargo.toml"@);
}

} // verus!
