//! Debug command to show workspace package info.

use crate::metadata::{find_package, first_with_id, Metadata, Package};
use crate::paint::{bold, cyan, in_bold, in_cyan, in_yellow, yellow};
use crate::path::{parent, parent_of};
use crate::text::{
    contains, decimal, has_text, is_made_of, lemma_has_text, number, push_text, texts,
};
use vstd::prelude::*;
use vstd::string::*;

verus! {

/// What is told, and whether it is an error, where the metadata cannot be loaded.
pub struct LoadProblem {
    /// The line to print.
    pub line: String,
    /// Whether the command fails.
    pub is_error: bool,
}

/// What is told where the metadata cannot be loaded, and whether it is an error. A directory
/// without a manifest and a workspace without members are none.
pub open spec fn load_problem(message: Seq<char>) -> (Seq<char>, bool) {
    if has_text(message, "could not find"@) {
        (in_yellow("No Cargo.toml found, nothing to do"@), false)
    } else if has_text(message, "virtual manifest"@) || has_text(message, "no members"@)
        || has_text(message, "workspace has no members"@) {
        (in_yellow("No workspace members found (empty virtual workspace)"@), false)
    } else {
        ("Failed to get workspace metadata: "@ + message, true)
    }
}

/// What is told where the metadata cannot be loaded.
pub fn describe_load_problem(message: &str) -> (r: LoadProblem)
    ensures
        (r.line@, r.is_error) == load_problem(message@),
{
    if contains(message, "could not find") {
        return LoadProblem {
            line: yellow("No Cargo.toml found, nothing to do"),
            is_error: false,
        };
    }
    if contains(message, "virtual manifest") || contains(message, "no members") || contains(
        message,
        "workspace has no members",
    ) {
        return LoadProblem {
            line: yellow("No workspace members found (empty virtual workspace)"),
            is_error: false,
        };
    }
    let mut line = "Failed to get workspace metadata: ".to_owned();
    line.append(message);
    LoadProblem { line, is_error: true }
}

/// The line of a package: a mark, its name and its directory.
pub open spec fn package_line(mark: Seq<char>, package: Package) -> Seq<char> {
    mark + package.name@ + " ("@ + parent(package.manifest_path@)->0 + ")"@
}

fn write_package_line(mark: &str, package: &Package) -> (r: String)
    requires
        parent(package.manifest_path@) is Some,
    ensures
        r@ == package_line(mark@, *package),
{
    let mut line = mark.to_owned();
    line.append(package.name.as_str());
    line.append(" (");
    match parent_of(package.manifest_path.as_str()) {
        Some(dir) => line.append(dir.as_str()),
        None => {},
    }
    line.append(")");
    line
}

/// The lines of the members whose ids are given, as far as there are packages for them.
pub open spec fn member_lines(packages: Seq<Package>, ids: Seq<Seq<char>>) -> Seq<Seq<char>>
    decreases ids.len(),
{
    if ids.len() == 0 {
        Seq::empty()
    } else {
        let before = member_lines(packages, ids.drop_last());
        let at = first_with_id(packages, ids.last());
        if at < packages.len() {
            before.push(package_line("  ✓ "@, packages[at as int]))
        } else {
            before
        }
    }
}

/// The lines of the packages that are no members.
pub open spec fn excluded_lines(metadata: Metadata, packages: Seq<Package>) -> Seq<Seq<char>>
    decreases packages.len(),
{
    if packages.len() == 0 {
        Seq::empty()
    } else {
        let before = excluded_lines(metadata, packages.drop_last());
        if metadata.has_member(packages.last().id@) {
            before
        } else {
            before.push(package_line("  ✗ "@, packages.last()))
        }
    }
}

/// What is told of a workspace.
pub open spec fn package_report(metadata: Metadata) -> Seq<Seq<char>> {
    let excluded = excluded_lines(metadata, metadata.packages@);
    if metadata.workspace_members@.len() == 0 {
        seq![in_yellow("No workspace members found (empty virtual workspace)"@)]
    } else {
        seq![in_bold(in_cyan("\n📦 Workspace Members:"@))] + member_lines(
            metadata.packages@,
            texts(metadata.workspace_members@),
        ) + (if excluded.len() > 0 {
            seq![in_bold(in_yellow("\n🚫 Excluded Packages:"@))] + excluded
        } else {
            seq![in_bold(in_yellow("\n🚫 Excluded Packages: None"@))]
        }) + seq!["\n✅ Total packages: "@ + decimal(metadata.packages@.len())]
    }
}

fn write_member_lines(packages: &Vec<Package>, ids: &Vec<String>) -> (r: Vec<String>)
    requires
        forall|i: int|
            0 <= i < ids@.len() && first_with_id(packages@, (#[trigger] ids@[i])@) < packages@.len()
                ==> parent(
                packages@[first_with_id(packages@, ids@[i]@) as int].manifest_path@,
            ) is Some,
    ensures
        texts(r@) == member_lines(packages@, texts(ids@)),
{
    let mut lines: Vec<String> = Vec::new();
    let ghost all = texts(ids@);
    let mut i: usize = 0;
    proof {
        assert(all.take(0) =~= Seq::empty());
        assert(texts(lines@) =~= Seq::empty());
    }
    while i < ids.len()
        invariant
            all == texts(ids@),
            i <= ids@.len(),
            texts(lines@) == member_lines(packages@, all.take(i as int)),
            forall|i: int|
                0 <= i < ids@.len() && first_with_id(packages@, (#[trigger] ids@[i])@)
                    < packages@.len() ==> parent(
                    packages@[first_with_id(packages@, ids@[i]@) as int].manifest_path@,
                ) is Some,
        decreases ids@.len() - i,
    {
        proof {
            assert(all.take(i + 1).drop_last() =~= all.take(i as int));
            assert(all.take(i + 1).last() == ids@[i as int]@);
        }
        let at = find_package(packages, ids[i].as_str());
        if at < packages.len() {
            push_text(&mut lines, write_package_line("  ✓ ", &packages[at]).as_str());
        }
        i = i + 1;
    }
    proof {
        assert(all.take(i as int) =~= all);
    }
    lines
}

fn write_excluded_lines(metadata: &Metadata) -> (r: Vec<String>)
    requires
        forall|i: int|
            0 <= i < metadata.packages@.len() && !metadata.has_member(
                (#[trigger] metadata.packages@[i]).id@,
            ) ==> parent(metadata.packages@[i].manifest_path@) is Some,
    ensures
        texts(r@) == excluded_lines(*metadata, metadata.packages@),
{
    let mut lines: Vec<String> = Vec::new();
    let ghost all = metadata.packages@;
    let mut i: usize = 0;
    proof {
        assert(all.take(0) =~= Seq::empty());
        assert(texts(lines@) =~= Seq::empty());
    }
    while i < metadata.packages.len()
        invariant
            all == metadata.packages@,
            i <= all.len(),
            texts(lines@) == excluded_lines(*metadata, all.take(i as int)),
            forall|i: int|
                0 <= i < metadata.packages@.len() && !metadata.has_member(
                    (#[trigger] metadata.packages@[i]).id@,
                ) ==> parent(metadata.packages@[i].manifest_path@) is Some,
        decreases all.len() - i,
    {
        proof {
            assert(all.take(i + 1).drop_last() =~= all.take(i as int));
            assert(all.take(i + 1).last() == all[i as int]);
        }
        let package = &metadata.packages[i];
        if !metadata.is_member(package.id.as_str()) {
            push_text(&mut lines, write_package_line("  ✗ ", package).as_str());
        }
        i = i + 1;
    }
    proof {
        assert(all.take(i as int) =~= all);
    }
    lines
}

/// What is told of a workspace: its members, the packages that are none, and how many packages
/// there are. The manifests of those that are listed lie in directories.
pub fn debug_packages(metadata: &Metadata) -> (r: Vec<String>)
    requires
        forall|i: int|
            0 <= i < metadata.workspace_members@.len() && first_with_id(
                metadata.packages@,
                (#[trigger] metadata.workspace_members@[i])@,
            ) < metadata.packages@.len() ==> parent(
                metadata.packages@[first_with_id(
                    metadata.packages@,
                    metadata.workspace_members@[i]@,
                ) as int].manifest_path@,
            ) is Some,
        metadata.workspace_members@.len() > 0 ==> forall|i: int|
            0 <= i < metadata.packages@.len() && !metadata.has_member(
                (#[trigger] metadata.packages@[i]).id@,
            ) ==> parent(metadata.packages@[i].manifest_path@) is Some,
    ensures
        texts(r@) == package_report(*metadata),
{
    let mut lines: Vec<String> = Vec::new();
    if metadata.workspace_members.len() == 0 {
        push_text(
            &mut lines,
            yellow("No workspace members found (empty virtual workspace)").as_str(),
        );
        proof {
            assert(texts(lines@) =~= package_report(*metadata));
        }
        return lines;
    }
    push_text(&mut lines, bold(cyan("\n📦 Workspace Members:").as_str()).as_str());
    let mut members = write_member_lines(&metadata.packages, &metadata.workspace_members);
    let ghost member_texts = texts(members@);
    let ghost head = lines@;
    lines.append(&mut members);
    proof {
        assert(texts(lines@) =~= texts(head) + member_texts);
    }
    let mut excluded = write_excluded_lines(metadata);
    let ghost excluded_texts = texts(excluded@);
    if excluded.len() > 0 {
        push_text(&mut lines, bold(yellow("\n🚫 Excluded Packages:").as_str()).as_str());
        let ghost before = lines@;
        lines.append(&mut excluded);
        proof {
            assert(texts(lines@) =~= texts(before) + excluded_texts);
        }
    } else {
        push_text(&mut lines, bold(yellow("\n🚫 Excluded Packages: None").as_str()).as_str());
    }
    let mut total = "\n✅ Total packages: ".to_owned();
    total.append(number(metadata.packages.len() as u64).as_str());
    push_text(&mut lines, total.as_str());
    proof {
        assert(texts(lines@) =~= package_report(*metadata));
    }
    lines
}

// ---- laws ----

/// The line of each member that there is a package for is told, with its name and its
/// directory: the first package with the id.
pub proof fn lemma_member_is_told(packages: Seq<Package>, ids: Seq<Seq<char>>, m: int, p: int)
    requires
        0 <= m < ids.len(),
        0 <= p < packages.len(),
        packages[p].id@ == ids[m],
        forall|q: int| 0 <= q < p ==> (#[trigger] packages[q]).id@ != ids[m],
        parent(packages[p].manifest_path@) is Some,
    ensures
        member_lines(packages, ids).contains(
            "  ✓ "@ + packages[p].name@ + " ("@ + parent(packages[p].manifest_path@)->0 + ")"@,
        ),
    decreases ids.len(),
{
    let line = "  ✓ "@ + packages[p].name@ + " ("@ + parent(packages[p].manifest_path@)->0 + ")"@;
    let rest = ids.drop_last();
    let before = member_lines(packages, rest);
    let all = member_lines(packages, ids);
    if m < rest.len() {
        lemma_member_is_told(packages, rest, m, p);
        let k = before.index_of(line);
        assert(all[k] == line);
    } else {
        lemma_first_with_id(packages, ids[m], p);
        assert(all[before.len() as int] == line);
    }
}

proof fn lemma_first_with_id(packages: Seq<Package>, id: Seq<char>, p: int)
    requires
        0 <= p < packages.len(),
        packages[p].id@ == id,
        forall|q: int| 0 <= q < p ==> (#[trigger] packages[q]).id@ != id,
    ensures
        first_with_id(packages, id) == p,
    decreases p,
{
    if p > 0 {
        assert(packages[0].id@ != id);
        let rest = packages.drop_first();
        assert forall|q: int| 0 <= q < p - 1 implies (#[trigger] rest[q]).id@ != id by {
            assert(rest[q] == packages[q + 1]);
        }
        lemma_first_with_id(rest, id, p - 1);
    }
}

/// A package is told as excluded exactly if its id is not among those of the members.
pub proof fn lemma_excluded_is_told(metadata: Metadata, packages: Seq<Package>, line: Seq<char>)
    ensures
        excluded_lines(metadata, packages).contains(line) <==> exists|i: int|
            0 <= i < packages.len() && !texts(metadata.workspace_members@).contains(
                (#[trigger] packages[i]).id@,
            ) && line == "  ✗ "@ + packages[i].name@ + " ("@ + parent(
                packages[i].manifest_path@,
            )->0 + ")"@,
    decreases packages.len(),
{
    if packages.len() > 0 {
        let rest = packages.drop_last();
        let n = packages.len() - 1;
        let before = excluded_lines(metadata, rest);
        let all = excluded_lines(metadata, packages);
        lemma_excluded_is_told(metadata, rest, line);
        assert(packages[n] == packages.last());
        if all.contains(line) {
            let k = all.index_of(line);
            if k < before.len() {
                assert(before[k] == line);
                let i = choose|i: int|
                    0 <= i < rest.len() && !texts(metadata.workspace_members@).contains(
                        (#[trigger] rest[i]).id@,
                    ) && line == "  ✗ "@ + rest[i].name@ + " ("@ + parent(
                        rest[i].manifest_path@,
                    )->0 + ")"@;
                assert(packages[i] == rest[i]);
            }
        }
        if exists|i: int|
            0 <= i < packages.len() && !texts(metadata.workspace_members@).contains(
                (#[trigger] packages[i]).id@,
            ) && line == "  ✗ "@ + packages[i].name@ + " ("@ + parent(
                packages[i].manifest_path@,
            )->0 + ")"@ {
            let i = choose|i: int|
                0 <= i < packages.len() && !texts(metadata.workspace_members@).contains(
                    (#[trigger] packages[i]).id@,
                ) && line == "  ✗ "@ + packages[i].name@ + " ("@ + parent(
                    packages[i].manifest_path@,
                )->0 + ")"@;
            if i < n {
                assert(rest[i] == packages[i]);
                let k = before.index_of(line);
                assert(all[k] == line);
            } else {
                assert(all[before.len() as int] == line);
            }
        }
    }
}

/// The report of a workspace with members holds the lines of the members and of the excluded
/// packages, and ends with the number of packages; one without members says so alone.
pub proof fn lemma_report_is_whole(metadata: Metadata, line: Seq<char>)
    ensures
        metadata.workspace_members@.len() > 0 ==> {
            &&& member_lines(metadata.packages@, texts(metadata.workspace_members@)).contains(line)
                || excluded_lines(metadata, metadata.packages@).contains(line) ==> package_report(
                metadata,
            ).contains(line)
            &&& package_report(metadata).last() == "\n✅ Total packages: "@ + decimal(
                metadata.packages@.len(),
            )
        },
        metadata.workspace_members@.len() == 0 ==> package_report(metadata) == seq![
            in_yellow("No workspace members found (empty virtual workspace)"@),
        ],
{
    let members = member_lines(metadata.packages@, texts(metadata.workspace_members@));
    let excluded = excluded_lines(metadata, metadata.packages@);
    let all = package_report(metadata);
    if metadata.workspace_members@.len() > 0 {
        if members.contains(line) {
            let k = members.index_of(line);
            assert(all[1 + k] == line);
        }
        if excluded.contains(line) {
            let k = excluded.index_of(line);
            assert(all[1 + members.len() + 1 + k] == line);
        }
    }
}

/// Where the metadata cannot be loaded, that is an error, unless the message says that there is
/// no manifest or that the workspace has no members.
pub proof fn lemma_load_problem(message: Seq<char>)
    ensures
        load_problem(message).1 <==> !has_text(message, "could not find"@) && !has_text(
            message,
            "virtual manifest"@,
        ) && !has_text(message, "no members"@),
        load_problem(message).1 ==> load_problem(message).0 == "Failed to get workspace metadata: "@
            + message,
        has_text(message, "could not find"@) ==> load_problem(message).0 == in_yellow(
            "No Cargo.toml found, nothing to do"@,
        ),
        !load_problem(message).1 && !has_text(message, "could not find"@) ==> load_problem(
            message,
        ).0 == in_yellow("No workspace members found (empty virtual workspace)"@),
{
    lemma_has_text(message, "no members"@);
    lemma_has_text(message, "workspace has no members"@);
    if has_text(message, "workspace has no members"@) {
        let (before, after) = choose|before: Seq<char>, after: Seq<char>| #[trigger]
            is_made_of(message, before, "workspace has no members"@, after);
        reveal_strlit("workspace has no members");
        reveal_strlit("workspace has ");
        reveal_strlit("no members");
        assert("workspace has no members"@ =~= "workspace has "@ + "no members"@);
        let longer = before + "workspace has "@;
        assert(message =~= longer + "no members"@ + after);
        assert(is_made_of(message, longer, "no members"@, after));
    }
}

} // verus!
