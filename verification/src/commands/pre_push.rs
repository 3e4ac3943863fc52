//! Pre-push hook: what changed, which crates that affects, and the checks on them.

use crate::commands::plan::{
    all_done, lemma_in_either, lemma_ranked_once, lemma_ranks_grow, unlocked_by_last,
};
use crate::config::{
    disabled_checks, disabled_notice, have_mercy, lemma_disabled_checks, lemma_mercy,
    lemma_mercy_levels, mercy, mercy_banner, with_mercy, CaptainConfig, PrePushConfig,
};
use crate::metadata::{Metadata, Package};
use crate::output::{decode_lossy, lossy_text, went_well, CommandOutput};
use crate::path::{
    are_plain_names, is_plain_name, join_path, joined_path, lemma_parent_is_shorter,
    lemma_rooted_is_unique, lemma_rooted_join, lemma_rooted_parent, lemma_rooted_push, parent,
    parent_of, rooted, slashed,
};
use crate::paint::{bold, dimmed, green, in_bold, in_dim, in_green, in_yellow, yellow};
use crate::task::{
    all_failure_lines, all_went_well, any_failed, TaskOutcome, TaskResult, TaskResults,
};
use crate::text::{
    contains, decimal, has_text, is_blank, is_digit, is_made_of, is_whitespace, joined,
    lemma_decimal_value, lemma_has_text, lemma_no_number, lemma_number_is_read,
    lemma_precedes_total, lemma_precedes_transitive, lemma_trimmed_to, lines, lines_of, opt_text,
    parse_unsigned, precedes, push_text, text_eq, text_precedes, texts, trim, trimmed, unsigned,
};
use vstd::prelude::*;
use vstd::string::*;

verus! {

/// Data collected from git fetch + diff operations
pub struct GitInfo {
    /// The short commit hash of `origin/main`.
    pub origin_main_sha: String,
    /// The short commit hash of `HEAD`.
    pub head_sha: String,
    /// The number of commits from `origin/main` to `HEAD`.
    pub commit_count: u32,
    /// The files that differ between the two.
    pub changed_files: Vec<String>,
    /// Whether fetching `origin/main` failed.
    pub fetch_failed: bool,
}

/// Data about affected crates
pub struct AffectedCrates {
    /// The names of the affected crates, in their order.
    pub crates: Vec<String>,
    /// The changed files of each affected crate, the crates in their order.
    pub crate_to_files: Vec<(String, Vec<String>)>,
}

// ---- the workspace ----

/// How a failure to load the metadata is told.
pub open spec fn metadata_failure(message: Seq<char>) -> TaskOutcome {
    if has_text(message, "could not find"@) {
        TaskOutcome::Failed(
            "no Cargo.toml"@,
            "No Cargo.toml found, skipping pre-push checks"@,
        )
    } else if has_text(message, "virtual manifest"@) || has_text(message, "no members"@)
        || has_text(message, "workspace has no members"@) {
        TaskOutcome::Failed(
            "empty workspace"@,
            "No workspace members found, skipping pre-push checks"@,
        )
    } else {
        TaskOutcome::Failed("failed to load"@, message)
    }
}

/// Takes in the metadata of the workspace. A workspace without members is a failure.
pub fn load_metadata_task(loaded: Result<Metadata, String>) -> (r: Result<Metadata, TaskResult>)
    ensures
        match (loaded, r) {
            (Ok(metadata), Ok(m)) => metadata.workspace_members@.len() > 0 && m == metadata,
            (Ok(metadata), Err(failure)) => metadata.workspace_members@.len() == 0 && failure@
                == TaskOutcome::Failed(
                "empty workspace"@,
                "No workspace members found, skipping pre-push checks"@,
            ),
            (Err(message), Ok(m)) => false,
            (Err(message), Err(failure)) => failure@ == metadata_failure(message@),
        },
{
    match loaded {
        Ok(metadata) => {
            if metadata.workspace_members.len() == 0 {
                return Err(
                    TaskResult::failed(
                        "empty workspace".to_owned(),
                        "No workspace members found, skipping pre-push checks".to_owned(),
                    ),
                );
            }
            Ok(metadata)
        },
        Err(message) => {
            if contains(message.as_str(), "could not find") {
                return Err(
                    TaskResult::failed(
                        "no Cargo.toml".to_owned(),
                        "No Cargo.toml found, skipping pre-push checks".to_owned(),
                    ),
                );
            }
            if contains(message.as_str(), "virtual manifest") || contains(
                message.as_str(),
                "no members",
            ) || contains(message.as_str(), "workspace has no members") {
                return Err(
                    TaskResult::failed(
                        "empty workspace".to_owned(),
                        "No workspace members found, skipping pre-push checks".to_owned(),
                    ),
                );
            }
            Err(TaskResult::failed("failed to load".to_owned(), message))
        },
    }
}

// ---- what changed ----

/// The text that a command printed, if it could be run and succeeded.
pub open spec fn success_text(output: Result<CommandOutput, String>) -> Option<Seq<char>> {
    match output {
        Ok(o) => if o.succeeded() {
            Some(lossy_text(o.stdout@))
        } else {
            None
        },
        Err(_) => None,
    }
}

/// The text that a command printed, if it could be run and succeeded.
pub fn output_on_success(output: &Result<CommandOutput, String>) -> (r: Option<String>)
    ensures
        opt_text(r) == success_text(*output),
{
    match output {
        Ok(o) => if o.success() {
            Some(decode_lossy(&o.stdout))
        } else {
            None
        },
        Err(_) => None,
    }
}

/// A commit hash as git prints it, or the name of the revision.
pub open spec fn sha_or(printed: Option<Seq<char>>, revision: Seq<char>) -> Seq<char> {
    match printed {
        Some(s) => trimmed(s),
        None => revision,
    }
}

/// A number as git prints it; 0 where there is none.
pub open spec fn count_or_zero(printed: Option<Seq<char>>) -> nat {
    match printed {
        Some(s) => match unsigned(trimmed(s), 0xffff_ffff) {
            Some(n) => n,
            None => 0,
        },
        None => 0,
    }
}

/// Gathers what the git commands printed.
pub fn git_info(
    fetch_failed: bool,
    origin_main: &Option<String>,
    head: &Option<String>,
    count: &Option<String>,
    diff: &str,
) -> (r: GitInfo)
    ensures
        r.fetch_failed == fetch_failed,
        r.origin_main_sha@ == sha_or(opt_text(*origin_main), "origin/main"@),
        r.head_sha@ == sha_or(opt_text(*head), "HEAD"@),
        r.commit_count == count_or_zero(opt_text(*count)),
        texts(r.changed_files@) == lines_of(diff@),
{
    let origin_main_sha = match origin_main {
        Some(s) => trim(s.as_str()),
        None => "origin/main".to_owned(),
    };
    let head_sha = match head {
        Some(s) => trim(s.as_str()),
        None => "HEAD".to_owned(),
    };
    let commit_count: u32 = match count {
        Some(s) => match parse_unsigned(trim(s.as_str()).as_str(), 0xffff_ffff) {
            Some(n) => n as u32,
            None => 0,
        },
        None => 0,
    };
    GitInfo { origin_main_sha, head_sha, commit_count, changed_files: lines(diff), fetch_failed }
}

/// Takes in what the git commands came to: the fetch, the hashes of `origin/main` and of
/// `HEAD`, the number of commits between them, and the names of the files that differ.
/// Only the last has to succeed.
pub fn git_fetch_and_diff_task(
    fetch: &Result<CommandOutput, String>,
    origin_main: &Result<CommandOutput, String>,
    head: &Result<CommandOutput, String>,
    count: &Result<CommandOutput, String>,
    diff: &Result<CommandOutput, String>,
) -> (r: Result<GitInfo, TaskResult>)
    ensures
        match (r, *diff) {
            (Ok(info), Ok(d)) => {
                &&& d.succeeded()
                &&& info.fetch_failed == match *fetch {
                    Ok(o) => !o.succeeded(),
                    Err(_) => true,
                }
                &&& info.origin_main_sha@ == sha_or(success_text(*origin_main), "origin/main"@)
                &&& info.head_sha@ == sha_or(success_text(*head), "HEAD"@)
                &&& info.commit_count == count_or_zero(success_text(*count))
                &&& texts(info.changed_files@) == lines_of(lossy_text(d.stdout@))
            },
            (Err(failure), Ok(d)) => !d.succeeded() && failure@ == TaskOutcome::Failed(
                "git diff failed"@,
                lossy_text(d.stderr@),
            ),
            (Err(failure), Err(message)) => failure@ == TaskOutcome::Failed(
                "git diff failed"@,
                message@,
            ),
            (Ok(info), Err(message)) => false,
        },
        r is Ok <==> went_well(*diff),
        r matches Ok(info) ==> info.fetch_failed == !went_well(*fetch),
{
    let fetch_failed = match fetch {
        Ok(o) => !o.success(),
        Err(_) => true,
    };
    match diff {
        Ok(d) => {
            if !d.success() {
                return Err(
                    TaskResult::failed("git diff failed".to_owned(), decode_lossy(&d.stderr)),
                );
            }
            Ok(
                git_info(
                    fetch_failed,
                    &output_on_success(origin_main),
                    &output_on_success(head),
                    &output_on_success(count),
                    decode_lossy(&d.stdout).as_str(),
                ),
            )
        },
        Err(message) => Err(TaskResult::failed("git diff failed".to_owned(), message.clone())),
    }
}

// ---- which crates are affected ----

/// The name of the crate whose manifest lies in a directory; the last of several.
pub open spec fn crate_in(packages: Seq<Package>, dir: Seq<char>) -> Option<Seq<char>>
    decreases packages.len(),
{
    if packages.len() == 0 {
        None
    } else if parent(packages.last().manifest_path@) == Some(dir) {
        Some(packages.last().name@)
    } else {
        crate_in(packages.drop_last(), dir)
    }
}

/// The crate that a path belongs to: the one in the nearest directory at or above it.
pub open spec fn owner(packages: Seq<Package>, path: Seq<char>) -> Option<Seq<char>>
    decreases path.len(),
{
    match crate_in(packages, path) {
        Some(name) => Some(name),
        None => match parent(path) {
            Some(dir) => {
                proof {
                    lemma_parent_is_shorter(path);
                }
                owner(packages, dir)
            },
            None => None,
        },
    }
}

/// The crate that a changed file belongs to. Files are named from the workspace root.
pub open spec fn file_owner(metadata: Metadata, file: Seq<char>) -> Option<Seq<char>> {
    owner(metadata.packages@, joined_path(metadata.workspace_root@, file))
}

/// Some package of that name is no member of the workspace.
pub open spec fn is_excluded(metadata: Metadata, name: Seq<char>) -> bool {
    exists|i: int|
        0 <= i < metadata.packages@.len() && (#[trigger] metadata.packages@[i]).name@ == name
            && !metadata.has_member(metadata.packages@[i].id@)
}

/// The files that belong to a crate, in their order.
pub open spec fn files_of(metadata: Metadata, files: Seq<Seq<char>>, name: Seq<char>) -> Seq<
    Seq<char>,
>
    decreases files.len(),
{
    if files.len() == 0 {
        Seq::empty()
    } else {
        let before = files_of(metadata, files.drop_last(), name);
        if file_owner(metadata, files.last()) == Some(name) {
            before.push(files.last())
        } else {
            before
        }
    }
}

/// The files by which a crate is affected: those that belong to it, unless it is excluded.
pub open spec fn affecting_files(
    metadata: Metadata,
    files: Seq<Seq<char>>,
    name: Seq<char>,
) -> Seq<Seq<char>> {
    if is_excluded(metadata, name) {
        Seq::empty()
    } else {
        files_of(metadata, files, name)
    }
}

/// A crate is affected by changes to files.
pub open spec fn is_affected(metadata: Metadata, files: Seq<Seq<char>>, name: Seq<char>) -> bool {
    affecting_files(metadata, files, name).len() > 0
}

/// Some crate is affected by changes to files.
pub open spec fn affects_some_crate(metadata: Metadata, files: Seq<Seq<char>>) -> bool {
    exists|name: Seq<char>| #[trigger] is_affected(metadata, files, name)
}

/// `groups` holds the affected crates and no other, in their order and none twice, each with
/// the files by which it is affected.
pub open spec fn groups_affected(
    groups: Seq<(String, Vec<String>)>,
    metadata: Metadata,
    files: Seq<Seq<char>>,
) -> bool {
    &&& forall|i: int, j: int|
        0 <= i < j < groups.len() ==> precedes(#[trigger] groups[i].0@, #[trigger] groups[j].0@)
    &&& forall|i: int|
        0 <= i < groups.len() ==> is_affected(metadata, files, #[trigger] groups[i].0@) && texts(
            groups[i].1@,
        ) == affecting_files(metadata, files, groups[i].0@)
    &&& forall|name: Seq<char>|
        is_affected(metadata, files, name) ==> exists|i: int|
            0 <= i < groups.len() && (#[trigger] groups[i]).0@ == name
}

fn find_crate_in(packages: &Vec<Package>, dir: &str) -> (r: Option<String>)
    ensures
        opt_text(r) == crate_in(packages@, dir@),
{
    let mut n: usize = packages.len();
    assert(packages@.take(n as int) =~= packages@);
    while n > 0
        invariant
            n <= packages@.len(),
            crate_in(packages@.take(n as int), dir@) == crate_in(packages@, dir@),
        decreases n,
    {
        proof {
            assert(packages@.take(n as int).drop_last() =~= packages@.take(n - 1));
            assert(packages@.take(n as int).last() == packages@[n - 1]);
        }
        match parent_of(packages[n - 1].manifest_path.as_str()) {
            Some(d) => {
                if text_eq(d.as_str(), dir) {
                    return Some(packages[n - 1].name.clone());
                }
            },
            None => {},
        }
        n = n - 1;
    }
    None
}

fn find_owner(packages: &Vec<Package>, path: &str) -> (r: Option<String>)
    ensures
        opt_text(r) == owner(packages@, path@),
    decreases path@.len(),
{
    match find_crate_in(packages, path) {
        Some(name) => Some(name),
        None => match parent_of(path) {
            Some(dir) => {
                proof {
                    lemma_parent_is_shorter(path@);
                }
                find_owner(packages, dir.as_str())
            },
            None => None,
        },
    }
}

fn excluded(metadata: &Metadata, name: &str) -> (r: bool)
    ensures
        r == is_excluded(*metadata, name@),
{
    let mut i: usize = 0;
    while i < metadata.packages.len()
        invariant
            i <= metadata.packages@.len(),
            forall|k: int|
                0 <= k < i ==> !((#[trigger] metadata.packages@[k]).name@ == name@
                    && !metadata.has_member(metadata.packages@[k].id@)),
        decreases metadata.packages@.len() - i,
    {
        let package = &metadata.packages[i];
        if text_eq(package.name.as_str(), name) && !metadata.is_member(package.id.as_str()) {
            return true;
        }
        i = i + 1;
    }
    false
}

/// What one more file does to the files of a crate.
proof fn lemma_one_more_file(metadata: Metadata, files: Seq<Seq<char>>, file: Seq<char>)
    ensures
        forall|name: Seq<char>| #[trigger]
            files_of(metadata, files.push(file), name) == if file_owner(metadata, file) == Some(
                name,
            ) {
                files_of(metadata, files, name).push(file)
            } else {
                files_of(metadata, files, name)
            },
{
    assert(files.push(file).drop_last() =~= files);
}

/// A file of no crate, or of an excluded one, affects nothing.
proof fn lemma_idle_file(
    groups: Seq<(String, Vec<String>)>,
    metadata: Metadata,
    files: Seq<Seq<char>>,
    file: Seq<char>,
)
    requires
        groups_affected(groups, metadata, files),
        file_owner(metadata, file) matches Some(name) ==> is_excluded(metadata, name),
    ensures
        groups_affected(groups, metadata, files.push(file)),
{
    lemma_one_more_file(metadata, files, file);
    assert forall|name: Seq<char>| #[trigger]
        affecting_files(metadata, files.push(file), name) == affecting_files(
            metadata,
            files,
            name,
        ) by {}
    assert forall|name: Seq<char>| is_affected(
        metadata,
        files.push(file),
        name,
    ) implies exists|i: int| 0 <= i < groups.len() && (#[trigger] groups[i]).0@ == name by {
        assert(is_affected(metadata, files, name));
    }
}

/// A further file of a crate that is affected already.
proof fn lemma_known_crate(
    groups: Seq<(String, Vec<String>)>,
    after: Seq<(String, Vec<String>)>,
    metadata: Metadata,
    files: Seq<Seq<char>>,
    file: Seq<char>,
    at: int,
)
    requires
        groups_affected(groups, metadata, files),
        0 <= at < groups.len(),
        file_owner(metadata, file) == Some(groups[at].0@),
        after.len() == groups.len(),
        forall|i: int| 0 <= i < groups.len() ==> (#[trigger] after[i]).0@ == groups[i].0@,
        forall|i: int| 0 <= i < groups.len() && i != at ==> (#[trigger] after[i]) == groups[i],
        texts(after[at].1@) == texts(groups[at].1@).push(file),
    ensures
        groups_affected(after, metadata, files.push(file)),
{
    let more = files.push(file);
    let name = groups[at].0@;
    lemma_one_more_file(metadata, files, file);
    assert(is_affected(metadata, files, groups[at].0@));
    assert forall|i: int, j: int| 0 <= i < j < after.len() implies precedes(
        #[trigger] after[i].0@,
        #[trigger] after[j].0@,
    ) by {
        assert(precedes(groups[i].0@, groups[j].0@));
    }
    assert forall|i: int| 0 <= i < after.len() implies is_affected(
        metadata,
        more,
        #[trigger] after[i].0@,
    ) && texts(after[i].1@) == affecting_files(metadata, more, after[i].0@) by {
        assert(is_affected(metadata, files, groups[i].0@));
        if i != at {
            lemma_precedes_total(groups[i].0@, name);
            if i < at {
                assert(precedes(groups[i].0@, groups[at].0@));
            } else {
                assert(precedes(groups[at].0@, groups[i].0@));
            }
            lemma_precedes_total(name, groups[i].0@);
        }
    }
    assert forall|n: Seq<char>| is_affected(metadata, more, n) implies exists|i: int|
        0 <= i < after.len() && (#[trigger] after[i]).0@ == n by {
        if n == name {
            assert(after[at].0@ == n);
        } else {
            assert(is_affected(metadata, files, n));
            let i = choose|i: int| 0 <= i < groups.len() && (#[trigger] groups[i]).0@ == n;
            assert(after[i].0@ == n);
        }
    }
}

/// The first file of a crate.
proof fn lemma_new_crate(
    groups: Seq<(String, Vec<String>)>,
    group: (String, Vec<String>),
    metadata: Metadata,
    files: Seq<Seq<char>>,
    file: Seq<char>,
    at: int,
)
    requires
        groups_affected(groups, metadata, files),
        0 <= at <= groups.len(),
        file_owner(metadata, file) == Some(group.0@),
        !is_excluded(metadata, group.0@),
        texts(group.1@) == seq![file],
        forall|i: int| 0 <= i < at ==> precedes(#[trigger] groups[i].0@, group.0@),
        forall|i: int| at <= i < groups.len() ==> precedes(group.0@, #[trigger] groups[i].0@),
    ensures
        groups_affected(groups.insert(at, group), metadata, files.push(file)),
{
    let after = groups.insert(at, group);
    let more = files.push(file);
    let name = group.0@;
    lemma_one_more_file(metadata, files, file);
    assert(!is_affected(metadata, files, name)) by {
        if is_affected(metadata, files, name) {
            let i = choose|i: int| 0 <= i < groups.len() && (#[trigger] groups[i]).0@ == name;
            lemma_precedes_total(groups[i].0@, name);
            lemma_precedes_total(name, groups[i].0@);
        }
    }
    assert(files_of(metadata, files, name) =~= Seq::empty());
    assert(files_of(metadata, more, name) =~= seq![file]);
    assert forall|i: int, j: int| 0 <= i < j < after.len() implies precedes(
        #[trigger] after[i].0@,
        #[trigger] after[j].0@,
    ) by {
        if i < at && j > at {
            assert(precedes(groups[i].0@, groups[j - 1].0@));
        } else if j < at {
            assert(precedes(groups[i].0@, groups[j].0@));
        } else if i > at {
            assert(precedes(groups[i - 1].0@, groups[j - 1].0@));
        } else if i == at {
            assert(precedes(name, groups[j - 1].0@));
        }
    }
    assert forall|i: int| 0 <= i < after.len() implies is_affected(
        metadata,
        more,
        #[trigger] after[i].0@,
    ) && texts(after[i].1@) == affecting_files(metadata, more, after[i].0@) by {
        if i != at {
            let k = if i < at { i } else { i - 1 };
            assert(after[i] == groups[k]);
            assert(is_affected(metadata, files, groups[k].0@));
        }
    }
    assert forall|n: Seq<char>| is_affected(metadata, more, n) implies exists|i: int|
        0 <= i < after.len() && (#[trigger] after[i]).0@ == n by {
        if n == name {
            assert(after[at].0@ == n);
        } else {
            assert(is_affected(metadata, files, n));
            let i = choose|i: int| 0 <= i < groups.len() && (#[trigger] groups[i]).0@ == n;
            if i < at {
                assert(after[i].0@ == n);
            } else {
                assert(after[i + 1].0@ == n);
            }
        }
    }
}

/// The place of a crate among the groups: of its group if it has one, else where its group
/// would stand.
fn place_of(groups: &Vec<(String, Vec<String>)>, name: &str) -> (r: usize)
    requires
        forall|i: int, j: int|
            0 <= i < j < groups@.len() ==> precedes(
                #[trigger] groups@[i].0@,
                #[trigger] groups@[j].0@,
            ),
    ensures
        r <= groups@.len(),
        forall|i: int| 0 <= i < r ==> precedes(#[trigger] groups@[i].0@, name@),
        r < groups@.len() ==> groups@[r as int].0@ == name@ || forall|i: int|
            r <= i < groups@.len() ==> precedes(name@, #[trigger] groups@[i].0@),
{
    let mut k: usize = 0;
    while k < groups.len() && text_precedes(groups[k].0.as_str(), name)
        invariant
            k <= groups@.len(),
            forall|i: int| 0 <= i < k ==> precedes(#[trigger] groups@[i].0@, name@),
        decreases groups@.len() - k,
    {
        k = k + 1;
    }
    proof {
        if k < groups@.len() {
            lemma_precedes_total(groups@[k as int].0@, name@);
            if groups@[k as int].0@ != name@ {
                assert forall|i: int| k <= i < groups@.len() implies precedes(
                    name@,
                    #[trigger] groups@[i].0@,
                ) by {
                    if i > k {
                        assert(precedes(groups@[k as int].0@, groups@[i].0@));
                        lemma_precedes_transitive(name@, groups@[k as int].0@, groups@[i].0@);
                    }
                }
            }
        }
    }
    k
}

/// The affected crates with the files by which they are affected.
pub fn group_by_crate(metadata: &Metadata, files: &Vec<String>) -> (r: Vec<(String, Vec<String>)>)
    ensures
        groups_affected(r@, *metadata, texts(files@)),
{
    let mut groups: Vec<(String, Vec<String>)> = Vec::new();
    let mut i: usize = 0;
    let ghost all = texts(files@);
    proof {
        assert(all.take(0) =~= Seq::empty());
        assert forall|name: Seq<char>| is_affected(
            *metadata,
            all.take(0),
            name,
        ) implies exists|i: int| 0 <= i < groups@.len() && (#[trigger] groups@[i]).0@ == name by {}
    }
    while i < files.len()
        invariant
            all == texts(files@),
            i <= files@.len(),
            groups_affected(groups@, *metadata, all.take(i as int)),
        decreases files@.len() - i,
    {
        let file = files[i].as_str();
        let ghost before = groups@;
        let ghost seen = all.take(i as int);
        proof {
            assert(all.take(i + 1) =~= seen.push(file@));
        }
        match find_owner(
            &metadata.packages,
            join_path(metadata.workspace_root.as_str(), file).as_str(),
        ) {
            Some(name) => {
                if excluded(metadata, name.as_str()) {
                    proof {
                        lemma_idle_file(before, *metadata, seen, file@);
                    }
                } else {
                    let at = place_of(&groups, name.as_str());
                    if at < groups.len() && text_eq(groups[at].0.as_str(), name.as_str()) {
                        let (known, mut list) = groups.remove(at);
                        let ghost list_before = list@;
                        list.push(file.to_owned());
                        proof {
                            assert(texts(list@) =~= texts(list_before).push(file@));
                        }
                        groups.insert(at, (known, list));
                        proof {
                            lemma_known_crate(
                                before,
                                groups@,
                                *metadata,
                                seen,
                                file@,
                                at as int,
                            );
                        }
                    } else {
                        let mut list: Vec<String> = Vec::new();
                        list.push(file.to_owned());
                        proof {
                            assert(texts(list@) =~= seq![file@]);
                            lemma_new_crate(
                                before,
                                (name, list),
                                *metadata,
                                seen,
                                file@,
                                at as int,
                            );
                        }
                        groups.insert(at, (name, list));
                    }
                }
            },
            None => {
                proof {
                    lemma_idle_file(before, *metadata, seen, file@);
                }
            },
        }
        i = i + 1;
    }
    proof {
        assert(all.take(i as int) =~= all);
    }
    groups
}

impl AffectedCrates {
    /// The crates are those that the files are grouped by. They stand in their order, none
    /// twice.
    pub open spec fn well_formed(self) -> bool {
        &&& self.crates@.len() == self.crate_to_files@.len()
        &&& forall|i: int|
            0 <= i < self.crates@.len() ==> (#[trigger] self.crates@[i])@
                == self.crate_to_files@[i].0@
        &&& forall|i: int, j: int|
            0 <= i < j < self.crates@.len() ==> precedes(
                (#[trigger] self.crates@[i])@,
                (#[trigger] self.crates@[j])@,
            )
    }
}

/// Finds the crates that the changed files affect. That nothing changed, or that no crate is
/// affected, counts as a failure.
pub fn compute_affected_crates_task(metadata: &Metadata, git: &GitInfo) -> (r: Result<
    AffectedCrates,
    TaskResult,
>)
    ensures
        match r {
            Ok(affected) => {
                &&& git.changed_files@.len() > 0
                &&& exists|name: Seq<char>| is_affected(*metadata, texts(git.changed_files@), name)
                &&& affected.well_formed()
                &&& groups_affected(
                    affected.crate_to_files@,
                    *metadata,
                    texts(git.changed_files@),
                )
            },
            Err(failure) => if git.changed_files@.len() == 0 {
                failure@ == TaskOutcome::Failed("no changes"@, "No changes detected"@)
            } else {
                &&& forall|name: Seq<char>|
                    !is_affected(*metadata, texts(git.changed_files@), name)
                &&& failure@ == TaskOutcome::Failed(
                    "no crates affected"@,
                    "No publishable crates affected by changes"@,
                )
            },
        },
        r is Ok <==> affects_some_crate(*metadata, texts(git.changed_files@)),
{
    if git.changed_files.len() == 0 {
        return Err(
            TaskResult::failed("no changes".to_owned(), "No changes detected".to_owned()),
        );
    }
    let groups = group_by_crate(metadata, &git.changed_files);
    if groups.len() == 0 {
        return Err(
            TaskResult::failed(
                "no crates affected".to_owned(),
                "No publishable crates affected by changes".to_owned(),
            ),
        );
    }
    let mut crates: Vec<String> = Vec::new();
    let mut i: usize = 0;
    while i < groups.len()
        invariant
            i <= groups@.len(),
            crates@.len() == i,
            forall|k: int| 0 <= k < i ==> (#[trigger] crates@[k])@ == groups@[k].0@,
        decreases groups@.len() - i,
    {
        crates.push(groups[i].0.clone());
        i = i + 1;
    }
    proof {
        assert(is_affected(*metadata, texts(git.changed_files@), groups@[0].0@));
        assert forall|i: int, j: int| 0 <= i < j < crates@.len() implies precedes(
            (#[trigger] crates@[i])@,
            (#[trigger] crates@[j])@,
        ) by {
            assert(precedes(groups@[i].0@, groups@[j].0@));
        }
    }
    Ok(AffectedCrates { crates, crate_to_files: groups })
}

/// A crate is among the affected ones exactly if it is affected.
pub proof fn lemma_affected_crates(
    affected: AffectedCrates,
    metadata: Metadata,
    files: Seq<Seq<char>>,
)
    requires
        affected.well_formed(),
        groups_affected(affected.crate_to_files@, metadata, files),
    ensures
        forall|name: Seq<char>| #[trigger]
            texts(affected.crates@).contains(name) == is_affected(metadata, files, name),
{
    let groups = affected.crate_to_files@;
    assert forall|name: Seq<char>| #[trigger]
        texts(affected.crates@).contains(name) == is_affected(metadata, files, name) by {
        if texts(affected.crates@).contains(name) {
            let i = choose|i: int|
                0 <= i < texts(affected.crates@).len() && texts(affected.crates@)[i] == name;
            assert(affected.crates@[i]@ == groups[i].0@);
            assert(is_affected(metadata, files, groups[i].0@));
        }
        if is_affected(metadata, files, name) {
            let i = choose|i: int| 0 <= i < groups.len() && (#[trigger] groups[i]).0@ == name;
            assert(affected.crates@[i]@ == groups[i].0@);
            assert(texts(affected.crates@)[i] == name);
        }
    }
}

/// Each changed file affects the crate that it belongs to, unless that is excluded, and no
/// other.
pub proof fn lemma_changed_file_affects_its_crate(
    metadata: Metadata,
    files: Seq<Seq<char>>,
    file: Seq<char>,
    name: Seq<char>,
)
    requires
        files.contains(file),
    ensures
        affecting_files(metadata, files, name).contains(file) == (file_owner(metadata, file)
            == Some(name) && !is_excluded(metadata, name)),
{
    lemma_files_of(metadata, files, name, file);
}

proof fn lemma_files_of(
    metadata: Metadata,
    files: Seq<Seq<char>>,
    name: Seq<char>,
    file: Seq<char>,
)
    ensures
        files_of(metadata, files, name).contains(file) == (files.contains(file) && file_owner(
            metadata,
            file,
        ) == Some(name)),
    decreases files.len(),
{
    if files.len() > 0 {
        let rest = files.drop_last();
        let before = files_of(metadata, rest, name);
        let all = files_of(metadata, files, name);
        lemma_files_of(metadata, rest, name, file);
        if files.contains(file) {
            let k = choose|k: int| 0 <= k < files.len() && files[k] == file;
            if k < rest.len() {
                assert(rest[k] == file);
            }
        }
        if rest.contains(file) {
            let k = choose|k: int| 0 <= k < rest.len() && rest[k] == file;
            assert(files[k] == file);
        }
        if before.contains(file) {
            let k = choose|k: int| 0 <= k < before.len() && before[k] == file;
            assert(all[k] == file);
        }
        if all.contains(file) {
            let k = choose|k: int| 0 <= k < all.len() && all[k] == file;
            if k < before.len() {
                assert(before[k] == file);
            }
        }
        if file == files.last() {
            assert(files[files.len() - 1] == file);
            if file_owner(metadata, file) == Some(name) {
                assert(all[all.len() - 1] == file);
            }
        }
    }
}

/// The packages lie in some directories: each manifest is the `Cargo.toml` of its directory.
pub open spec fn lie_in(packages: Seq<Package>, dirs: Seq<Seq<Seq<char>>>) -> bool {
    &&& packages.len() == dirs.len()
    &&& forall|i: int|
        0 <= i < dirs.len() ==> are_plain_names(#[trigger] dirs[i]) && packages[i].manifest_path@
            == rooted(dirs[i].push("Cargo.toml"@))
}

/// The `i`-th directory is the nearest at or above a path; the last where several are the same.
pub open spec fn is_nearest(dirs: Seq<Seq<Seq<char>>>, path: Seq<Seq<char>>, i: int) -> bool {
    &&& 0 <= i < dirs.len()
    &&& dirs[i].is_prefix_of(path)
    &&& forall|j: int|
        0 <= j < dirs.len() && (#[trigger] dirs[j]).is_prefix_of(path) ==> dirs[j].len()
            < dirs[i].len() || (dirs[j].len() == dirs[i].len() && j <= i)
}

proof fn lemma_crate_in(packages: Seq<Package>, dirs: Seq<Seq<Seq<char>>>, dir: Seq<Seq<char>>)
    requires
        lie_in(packages, dirs),
        are_plain_names(dir),
    ensures
        match crate_in(packages, rooted(dir)) {
            Some(name) => exists|i: int|
                0 <= i < dirs.len() && #[trigger] dirs[i] == dir && packages[i].name@ == name && (
                forall|j: int| i < j < dirs.len() ==> #[trigger] dirs[j] != dir),
            None => forall|i: int| 0 <= i < dirs.len() ==> #[trigger] dirs[i] != dir,
        },
    decreases packages.len(),
{
    if packages.len() > 0 {
        let n = packages.len() - 1;
        let (p, d) = (packages.drop_last(), dirs.drop_last());
        assert forall|i: int| 0 <= i < d.len() implies are_plain_names(#[trigger] d[i])
            && p[i].manifest_path@ == rooted(d[i].push("Cargo.toml"@)) by {
            assert(d[i] == dirs[i]);
        }
        lemma_crate_in(p, d, dir);
        reveal_strlit("Cargo.toml");
        let manifest = dirs[n].push("Cargo.toml"@);
        lemma_rooted_push(dirs[n], "Cargo.toml"@);
        lemma_rooted_parent(manifest);
        assert(manifest.drop_last() =~= dirs[n]);
        if rooted(dirs[n]) == rooted(dir) {
            lemma_rooted_is_unique(dirs[n], dir);
        } else {
            match crate_in(p, rooted(dir)) {
                Some(name) => {
                    let i = choose|i: int|
                        0 <= i < d.len() && #[trigger] d[i] == dir && p[i].name@ == name && (
                        forall|j: int| i < j < d.len() ==> #[trigger] d[j] != dir);
                    assert(dirs[i] == dir && packages[i].name@ == name);
                    assert forall|j: int| i < j < dirs.len() implies #[trigger] dirs[j]
                        != dir by {
                        if j < n {
                            assert(d[j] == dirs[j]);
                        }
                    }
                },
                None => {
                    assert forall|i: int| 0 <= i < dirs.len() implies #[trigger] dirs[i]
                        != dir by {
                        if i < n {
                            assert(d[i] == dirs[i]);
                        }
                    }
                },
            }
        }
    }
}

proof fn lemma_prefix_is_unique(a: Seq<Seq<char>>, b: Seq<Seq<char>>, path: Seq<Seq<char>>)
    requires
        a.is_prefix_of(path),
        b.is_prefix_of(path),
        a.len() == b.len(),
    ensures
        a == b,
{
}

/// A path belongs to the crate whose directory is the nearest at or above it. It belongs to
/// none exactly if no crate lies at or above it.
pub proof fn lemma_owner_is_nearest(
    packages: Seq<Package>,
    dirs: Seq<Seq<Seq<char>>>,
    path: Seq<Seq<char>>,
)
    requires
        lie_in(packages, dirs),
        are_plain_names(path),
    ensures
        owner(packages, rooted(path)) is None <==> forall|i: int|
            0 <= i < dirs.len() ==> !(#[trigger] dirs[i]).is_prefix_of(path),
        owner(packages, rooted(path)) is Some ==> exists|i: int| is_nearest(dirs, path, i),
        forall|i: int| #[trigger]
            is_nearest(dirs, path, i) ==> owner(packages, rooted(path)) == Some(packages[i].name@),
    decreases path.len(),
{
    lemma_crate_in(packages, dirs, path);
    lemma_rooted_parent(path);
    assert(path.is_prefix_of(path)) by {
        assert(path.subrange(0, path.len() as int) =~= path);
    }
    match crate_in(packages, rooted(path)) {
        Some(name) => {
            let i = choose|i: int|
                0 <= i < dirs.len() && #[trigger] dirs[i] == path && packages[i].name@ == name && (
                forall|j: int| i < j < dirs.len() ==> #[trigger] dirs[j] != path);
            assert forall|j: int|
                0 <= j < dirs.len() && (#[trigger] dirs[j]).is_prefix_of(path) implies dirs[j].len()
                < dirs[i].len() || (dirs[j].len() == dirs[i].len() && j <= i) by {
                if dirs[j].len() == path.len() {
                    lemma_prefix_is_unique(dirs[j], path, path);
                }
            }
            assert(is_nearest(dirs, path, i));
            assert forall|k: int| #[trigger] is_nearest(dirs, path, k) implies packages[k].name@
                == name by {
                assert(dirs[i].is_prefix_of(path) && dirs[k].is_prefix_of(path));
            }
        },
        None => {
            if path.len() == 0 {
                assert forall|i: int| 0 <= i < dirs.len() implies !(
                #[trigger] dirs[i]).is_prefix_of(path) by {
                    if dirs[i].is_prefix_of(path) {
                        lemma_prefix_is_unique(dirs[i], path, path);
                    }
                }
            } else {
                let up = path.drop_last();
                assert forall|i: int| 0 <= i < up.len() implies is_plain_name(
                    #[trigger] up[i],
                ) by {
                    assert(up[i] == path[i]);
                }
                lemma_owner_is_nearest(packages, dirs, up);
                lemma_parent_is_shorter(rooted(path));
                assert forall|i: int| 0 <= i < dirs.len() implies (
                #[trigger] dirs[i]).is_prefix_of(path) == dirs[i].is_prefix_of(up) by {
                    let d = dirs[i];
                    if d.is_prefix_of(path) {
                        if d.len() == path.len() {
                            lemma_prefix_is_unique(d, path, path);
                        }
                        assert(d =~= up.subrange(0, d.len() as int));
                    }
                    if d.is_prefix_of(up) {
                        assert(d =~= path.subrange(0, d.len() as int));
                    }
                }
                assert forall|i: int| is_nearest(dirs, path, i) == #[trigger] is_nearest(
                    dirs,
                    up,
                    i,
                ) by {}
                assert forall|i: int| #[trigger] is_nearest(dirs, path, i) implies owner(
                    packages,
                    rooted(path),
                ) == Some(packages[i].name@) by {
                    assert(is_nearest(dirs, up, i));
                }
                if owner(packages, rooted(path)) is Some {
                    let i = choose|i: int| is_nearest(dirs, up, i);
                    assert(is_nearest(dirs, path, i));
                }
            }
        },
    }
}

/// All packages of a name are members of the workspace.
pub open spec fn only_members_have(metadata: Metadata, name: Seq<char>) -> bool {
    forall|j: int|
        0 <= j < metadata.packages@.len() && (#[trigger] metadata.packages@[j]).name@ == name
            ==> exists|m: int|
            0 <= m < metadata.workspace_members@.len() && (
            #[trigger] metadata.workspace_members@[m])@ == metadata.packages@[j].id@
}

proof fn lemma_excluded(metadata: Metadata, name: Seq<char>)
    ensures
        is_excluded(metadata, name) == !only_members_have(metadata, name),
{
    let all = texts(metadata.workspace_members@);
    assert forall|j: int| 0 <= j < metadata.packages@.len() implies metadata.has_member(
        (#[trigger] metadata.packages@[j]).id@,
    ) == (exists|m: int|
        0 <= m < metadata.workspace_members@.len() && (#[trigger] metadata.workspace_members@[m])@
            == metadata.packages@[j].id@) by {
        let id = metadata.packages@[j].id@;
        if all.contains(id) {
            let m = choose|m: int| 0 <= m < all.len() && all[m] == id;
            assert(metadata.workspace_members@[m]@ == id);
        }
        if exists|m: int|
            0 <= m < metadata.workspace_members@.len() && (
            #[trigger] metadata.workspace_members@[m])@ == id {
            let m = choose|m: int|
                0 <= m < metadata.workspace_members@.len() && (
                #[trigger] metadata.workspace_members@[m])@ == id;
            assert(all[m] == id);
        }
    }
}

/// A changed file stands among those of a group exactly if the crate in the nearest directory
/// at or above it has the name of the group, and only members have that name. `dirs` gives the
/// directories of the packages, `root` that of the workspace, `file` the names that lead from
/// there to the file.
pub proof fn lemma_groups_hold_changed_files(
    groups: Seq<(String, Vec<String>)>,
    metadata: Metadata,
    files: Seq<Seq<char>>,
    dirs: Seq<Seq<Seq<char>>>,
    root: Seq<Seq<char>>,
    file: Seq<Seq<char>>,
    name: Seq<char>,
)
    requires
        groups_affected(groups, metadata, files),
        lie_in(metadata.packages@, dirs),
        are_plain_names(root),
        are_plain_names(file),
        file.len() > 0,
        metadata.workspace_root@ == rooted(root),
        files.contains(slashed(file)),
    ensures
        (exists|g: int|
            0 <= g < groups.len() && (#[trigger] groups[g]).0@ == name && texts(
                groups[g].1@,
            ).contains(slashed(file))) <==> only_members_have(metadata, name) && exists|i: int|
            #[trigger] is_nearest(dirs, root + file, i) && metadata.packages@[i].name@ == name,
{
    lemma_rooted_join(root, file);
    lemma_owner_is_nearest(metadata.packages@, dirs, root + file);
    lemma_excluded(metadata, name);
    lemma_files_of(metadata, files, name, slashed(file));
    let mine = affecting_files(metadata, files, name);
    if exists|g: int|
        0 <= g < groups.len() && (#[trigger] groups[g]).0@ == name && texts(
            groups[g].1@,
        ).contains(slashed(file)) {
        let g = choose|g: int|
            0 <= g < groups.len() && (#[trigger] groups[g]).0@ == name && texts(
                groups[g].1@,
            ).contains(slashed(file));
        assert(is_affected(metadata, files, groups[g].0@));
        assert(mine.contains(slashed(file)));
        let i = choose|i: int| is_nearest(dirs, root + file, i);
        assert(metadata.packages@[i].name@ == name);
    }
    if only_members_have(metadata, name) && exists|i: int| #[trigger]
        is_nearest(dirs, root + file, i) && metadata.packages@[i].name@ == name {
        assert(mine.contains(slashed(file)));
        assert(is_affected(metadata, files, name));
        let g = choose|g: int| 0 <= g < groups.len() && (#[trigger] groups[g]).0@ == name;
        assert(is_affected(metadata, files, groups[g].0@));
        assert(texts(groups[g].1@).contains(slashed(file)));
    }
}

/// Groups hold changed files alone, and each holds one.
pub proof fn lemma_groups_hold_nothing_else(
    groups: Seq<(String, Vec<String>)>,
    metadata: Metadata,
    files: Seq<Seq<char>>,
    g: int,
)
    requires
        groups_affected(groups, metadata, files),
        0 <= g < groups.len(),
    ensures
        groups[g].1@.len() > 0,
        forall|k: int|
            0 <= k < groups[g].1@.len() ==> files.contains(#[trigger] texts(groups[g].1@)[k]),
{
    let name = groups[g].0@;
    let list = texts(groups[g].1@);
    assert(is_affected(metadata, files, groups[g].0@));
    assert forall|k: int| 0 <= k < groups[g].1@.len() implies files.contains(
        #[trigger] list[k],
    ) by {
        assert(list.contains(list[k]));
        lemma_files_of(metadata, files, name, list[k]);
    }
}

/// The files of a crate stand in the order in which they were listed, as often as they were:
/// what two lists give together is what each gives, one after the other.
pub proof fn lemma_files_of_two_lists(
    metadata: Metadata,
    a: Seq<Seq<char>>,
    b: Seq<Seq<char>>,
    name: Seq<char>,
)
    ensures
        affecting_files(metadata, a + b, name) == affecting_files(metadata, a, name)
            + affecting_files(metadata, b, name),
        forall|file: Seq<char>| #[trigger]
            affecting_files(metadata, seq![file], name).len() <= 1,
    decreases b.len(),
{
    assert forall|file: Seq<char>| #[trigger]
        affecting_files(metadata, seq![file], name).len() <= 1 by {
        assert(seq![file].drop_last() =~= Seq::empty());
        assert(files_of(metadata, seq![file].drop_last(), name).len() == 0);
    }
    if b.len() == 0 {
        assert(a + b =~= a);
        assert(affecting_files(metadata, a + b, name) =~= affecting_files(metadata, a, name)
            + affecting_files(metadata, b, name));
    } else {
        lemma_files_of_two_lists(metadata, a, b.drop_last(), name);
        assert((a + b).drop_last() =~= a + b.drop_last());
        assert((a + b).last() == b.last());
        assert(affecting_files(metadata, a + b, name) =~= affecting_files(metadata, a, name)
            + affecting_files(metadata, b, name));
    }
}

// ---- the plan ----

/// A task of the pre-push hook.
#[derive(Debug, Clone, Copy, PartialEq, Eq, Structural)]
pub enum PrePushTask {
    /// Load the metadata of the workspace.
    Metadata,
    /// Fetch `origin/main` and list the files that differ.
    Git,
    /// Find the crates that the changes affect.
    Affected,
    /// Run clippy on the workspace.
    Clippy,
    /// Search for unused dependencies.
    CargoShear,
    /// Build the tests of the affected crates.
    BuildTests,
    /// Run the tests of the affected crates.
    RunTests,
    /// Run the documentation tests of the affected crates.
    DocTests,
    /// Build the documentation of the affected crates.
    Docs,
}

/// The tasks that are there if a setting is on.
pub open spec fn tasks_if(on: bool, tasks: Seq<PrePushTask>) -> Seq<PrePushTask> {
    if on {
        tasks
    } else {
        Seq::empty()
    }
}

/// The tasks of the pre-push hook under some settings.
pub open spec fn pre_push_plan(config: PrePushConfig) -> Seq<PrePushTask> {
    seq![PrePushTask::Metadata, PrePushTask::Git, PrePushTask::Affected] + tasks_if(
        config.clippy,
        seq![PrePushTask::Clippy],
    ) + tasks_if(config.cargo_shear, seq![PrePushTask::CargoShear]) + tasks_if(
        config.nextest,
        seq![PrePushTask::BuildTests, PrePushTask::RunTests],
    ) + tasks_if(config.doc_tests, seq![PrePushTask::DocTests]) + tasks_if(
        config.docs,
        seq![PrePushTask::Docs],
    )
}

/// The tasks of the pre-push hook under some settings.
pub fn plan_pre_push(config: &PrePushConfig) -> (r: Vec<PrePushTask>)
    ensures
        r@ == pre_push_plan(*config),
{
    let mut plan: Vec<PrePushTask> = Vec::new();
    plan.push(PrePushTask::Metadata);
    plan.push(PrePushTask::Git);
    plan.push(PrePushTask::Affected);
    if config.clippy {
        plan.push(PrePushTask::Clippy);
    }
    if config.cargo_shear {
        plan.push(PrePushTask::CargoShear);
    }
    if config.nextest {
        plan.push(PrePushTask::BuildTests);
        plan.push(PrePushTask::RunTests);
    }
    if config.doc_tests {
        plan.push(PrePushTask::DocTests);
    }
    if config.docs {
        plan.push(PrePushTask::Docs);
    }
    proof {
        assert(plan@ =~= pre_push_plan(*config));
    }
    plan
}

impl PrePushTask {
    /// The name that a task is shown under.
    pub open spec fn title(self) -> Seq<char> {
        match self {
            PrePushTask::Metadata => "metadata"@,
            PrePushTask::Git => "git"@,
            PrePushTask::Affected => "affected"@,
            PrePushTask::Clippy => "clippy"@,
            PrePushTask::CargoShear => "cargo-shear"@,
            PrePushTask::BuildTests => "build tests"@,
            PrePushTask::RunTests => "run tests"@,
            PrePushTask::DocTests => "doc tests"@,
            PrePushTask::Docs => "docs"@,
        }
    }

    /// The place of the task among all tasks.
    pub open spec fn rank(self) -> int {
        match self {
            PrePushTask::Metadata => 0,
            PrePushTask::Git => 1,
            PrePushTask::Affected => 2,
            PrePushTask::Clippy => 3,
            PrePushTask::CargoShear => 4,
            PrePushTask::BuildTests => 5,
            PrePushTask::RunTests => 6,
            PrePushTask::DocTests => 7,
            PrePushTask::Docs => 8,
        }
    }

    /// The tasks that have to be done before.
    pub open spec fn prerequisites(self) -> Seq<PrePushTask> {
        match self {
            PrePushTask::Affected => seq![PrePushTask::Metadata, PrePushTask::Git],
            PrePushTask::BuildTests => seq![PrePushTask::Affected],
            PrePushTask::RunTests => seq![PrePushTask::Affected],
            PrePushTask::DocTests => seq![PrePushTask::Affected],
            PrePushTask::Docs => seq![PrePushTask::Affected],
            _ => Seq::empty(),
        }
    }

    /// The name that the task is shown under.
    pub fn name(&self) -> (r: &'static str)
        ensures
            r@ == self.title(),
    {
        match self {
            PrePushTask::Metadata => "metadata",
            PrePushTask::Git => "git",
            PrePushTask::Affected => "affected",
            PrePushTask::Clippy => "clippy",
            PrePushTask::CargoShear => "cargo-shear",
            PrePushTask::BuildTests => "build tests",
            PrePushTask::RunTests => "run tests",
            PrePushTask::DocTests => "doc tests",
            PrePushTask::Docs => "docs",
        }
    }

    /// The tasks that have to be done before.
    pub fn needs(&self) -> (r: Vec<PrePushTask>)
        ensures
            r@ == self.prerequisites(),
    {
        let mut list: Vec<PrePushTask> = Vec::new();
        match self {
            PrePushTask::Affected => {
                list.push(PrePushTask::Metadata);
                list.push(PrePushTask::Git);
            },
            PrePushTask::BuildTests | PrePushTask::RunTests | PrePushTask::DocTests
            | PrePushTask::Docs => {
                list.push(PrePushTask::Affected);
            },
            _ => {},
        }
        proof {
            assert(list@ =~= self.prerequisites());
        }
        list
    }

    /// Whether the task can start because the last of those that are done is done.
    pub fn is_unlocked(&self, done: &Vec<PrePushTask>) -> (r: bool)
        ensures
            r == unlocked_by_last(self.prerequisites(), done@),
    {
        if done.len() == 0 {
            return false;
        }
        let needs = self.needs();
        let awaited = has_task(&needs, done[done.len() - 1]);
        let mut i: usize = 0;
        while i < needs.len()
            invariant
                i <= needs@.len(),
                needs@ == self.prerequisites(),
                forall|k: int| 0 <= k < i ==> done@.contains(#[trigger] needs@[k]),
            decreases needs@.len() - i,
        {
            if !has_task(done, needs[i]) {
                assert(!done@.contains(needs@[i as int]));
                return false;
            }
            i = i + 1;
        }
        awaited
    }
}

fn has_task(list: &Vec<PrePushTask>, task: PrePushTask) -> (r: bool)
    ensures
        r == list@.contains(task),
{
    let mut i: usize = 0;
    while i < list.len()
        invariant
            i <= list@.len(),
            forall|k: int| 0 <= k < i ==> list@[k] != task,
        decreases list@.len() - i,
    {
        if list[i] == task {
            return true;
        }
        i = i + 1;
    }
    false
}

/// The tasks of a plan that can start: those that need nothing at the beginning, and later
/// those for which the last of the tasks that are done was the last that was missing.
pub open spec fn startable(plan: Seq<PrePushTask>, done: Seq<PrePushTask>) -> Seq<PrePushTask>
    decreases plan.len(),
{
    if plan.len() == 0 {
        Seq::empty()
    } else {
        let before = startable(plan.drop_last(), done);
        if can_start(plan.last(), done) {
            before.push(plan.last())
        } else {
            before
        }
    }
}

/// A task can start now.
pub open spec fn can_start(task: PrePushTask, done: Seq<PrePushTask>) -> bool {
    if done.len() == 0 {
        task.prerequisites().len() == 0
    } else {
        unlocked_by_last(task.prerequisites(), done)
    }
}

/// The tasks of a plan that can start, given those that are done.
pub fn tasks_to_start(plan: &Vec<PrePushTask>, done: &Vec<PrePushTask>) -> (r: Vec<PrePushTask>)
    ensures
        r@ == startable(plan@, done@),
{
    let mut list: Vec<PrePushTask> = Vec::new();
    let mut i: usize = 0;
    assert(plan@.take(0) =~= Seq::empty());
    while i < plan.len()
        invariant
            i <= plan@.len(),
            list@ == startable(plan@.take(i as int), done@),
        decreases plan@.len() - i,
    {
        let task = plan[i];
        proof {
            assert(plan@.take(i + 1).drop_last() =~= plan@.take(i as int));
            assert(plan@.take(i + 1).last() == task);
        }
        let now = if done.len() == 0 {
            task.needs().len() == 0
        } else {
            task.is_unlocked(done)
        };
        if now {
            list.push(task);
        }
        i = i + 1;
    }
    proof {
        assert(plan@.take(i as int) =~= plan@);
    }
    list
}

/// What can start is in the plan, and nothing in the plan that can start is left out.
pub proof fn lemma_startable(plan: Seq<PrePushTask>, done: Seq<PrePushTask>, task: PrePushTask)
    ensures
        startable(plan, done).contains(task) == (plan.contains(task) && can_start(task, done)),
    decreases plan.len(),
{
    if plan.len() > 0 {
        let rest = plan.drop_last();
        let last = seq![plan.last()];
        lemma_startable(rest, done, task);
        lemma_in_either(rest, last, task);
        lemma_in_either(startable(rest, done), last, task);
        assert(last[0] == plan.last());
        assert(plan =~= rest + last);
        if can_start(plan.last(), done) {
            assert(startable(plan, done) =~= startable(rest, done) + last);
        }
    }
}

/// What the pre-push hook starts with.
pub struct PrePushStart {
    /// The settings, with what mercy switches off.
    pub config: CaptainConfig,
    /// The line to print, if there is one.
    pub notice: Option<String>,
    /// The tasks.
    pub plan: Vec<PrePushTask>,
}

/// The settings under a value of `HAVE_MERCY`, if it is set.
pub open spec fn merciful(config: PrePushConfig, value: Option<Seq<char>>) -> PrePushConfig {
    match value {
        Some(v) => with_mercy(config, mercy(v)),
        None => config,
    }
}

/// What the pre-push hook says at its start: that it has mercy, or which checks are off.
pub open spec fn start_notice(config: PrePushConfig, value: Option<Seq<char>>) -> Option<Seq<char>> {
    match value {
        Some(v) => Some(in_bold(in_yellow(mercy_banner(mercy(v))))),
        None => if disabled_checks(config).len() > 0 {
            Some(
                in_dim("⏭️  Disabled via config: "@ + joined(disabled_checks(config), ", "@)),
            )
        } else {
            None
        },
    }
}

/// What the pre-push hook starts with, under some settings and the value of `HAVE_MERCY`, if it
/// is set.
pub fn run_pre_push(config: CaptainConfig, have_mercy_value: &Option<String>) -> (r: PrePushStart)
    ensures
        r.config.pre_commit == config.pre_commit,
        r.config.pre_push == merciful(config.pre_push, opt_text(*have_mercy_value)),
        opt_text(r.notice) == start_notice(config.pre_push, opt_text(*have_mercy_value)),
        r.plan@ == pre_push_plan(merciful(config.pre_push, opt_text(*have_mercy_value))),
{
    let mut config = config;
    let notice = match have_mercy_value {
        Some(value) => {
            let banner = have_mercy(&mut config, value.as_str());
            Some(bold(yellow(banner.as_str()).as_str()))
        },
        None => match disabled_notice(&config.pre_push, false) {
            Some(line) => Some(dimmed(line.as_str())),
            None => None,
        },
    };
    let plan = plan_pre_push(&config.pre_push);
    PrePushStart { config, notice, plan }
}

/// A plan holds no task twice, and all that a task needs stands before it.
pub proof fn lemma_pre_push_plan_is_ordered(config: PrePushConfig)
    ensures
        pre_push_plan(config).no_duplicates(),
        forall|i: int|
            0 <= i < pre_push_plan(config).len() ==> all_done(
                (#[trigger] pre_push_plan(config)[i]).prerequisites(),
                pre_push_plan(config).take(i),
            ),
{
    let plan = pre_push_plan(config);
    let rank = |task: PrePushTask| task.rank();
    let first = seq![PrePushTask::Metadata, PrePushTask::Git, PrePushTask::Affected];
    let clippy = tasks_if(config.clippy, seq![PrePushTask::Clippy]);
    let shear = tasks_if(config.cargo_shear, seq![PrePushTask::CargoShear]);
    let tests = tasks_if(
        config.nextest,
        seq![PrePushTask::BuildTests, PrePushTask::RunTests],
    );
    let doc_tests = tasks_if(config.doc_tests, seq![PrePushTask::DocTests]);
    let docs = tasks_if(config.docs, seq![PrePushTask::Docs]);
    lemma_ranks_grow(first, clippy, rank, 0, 3, 4);
    lemma_ranks_grow(first + clippy, shear, rank, 0, 4, 5);
    lemma_ranks_grow(first + clippy + shear, tests, rank, 0, 5, 7);
    lemma_ranks_grow(first + clippy + shear + tests, doc_tests, rank, 0, 7, 8);
    lemma_ranks_grow(first + clippy + shear + tests + doc_tests, docs, rank, 0, 8, 9);
    lemma_ranked_once(plan, rank, 0, 9);
    assert(plan.take(3) =~= first);
    assert(plan[0] == first[0] && plan[1] == first[1] && plan[2] == first[2]);
    assert forall|i: int| 0 <= i < plan.len() implies all_done(
        (#[trigger] plan[i]).prerequisites(),
        plan.take(i),
    ) by {
        if i >= 3 {
            assert(plan.take(i)[2] == PrePushTask::Affected);
            assert(rank(plan[2]) < rank(plan[i]));
        } else if i == 2 {
            assert(plan.take(2)[0] == PrePushTask::Metadata);
            assert(plan.take(2)[1] == PrePushTask::Git);
        }
    }
}

/// A task runs under some settings: those that find out what changed always do, a check if its
/// setting is on.
pub open spec fn is_enabled(config: PrePushConfig, task: PrePushTask) -> bool {
    match task {
        PrePushTask::Metadata => true,
        PrePushTask::Git => true,
        PrePushTask::Affected => true,
        PrePushTask::Clippy => config.clippy,
        PrePushTask::CargoShear => config.cargo_shear,
        PrePushTask::BuildTests => config.nextest,
        PrePushTask::RunTests => config.nextest,
        PrePushTask::DocTests => config.doc_tests,
        PrePushTask::Docs => config.docs,
    }
}

proof fn lemma_tasks_if(on: bool, tasks: Seq<PrePushTask>, task: PrePushTask)
    ensures
        tasks_if(on, tasks).contains(task) == (on && tasks.contains(task)),
{
}

/// The plan holds the tasks that are enabled and no other.
pub proof fn lemma_pre_push_plan_follows_settings(config: PrePushConfig, task: PrePushTask)
    ensures
        pre_push_plan(config).contains(task) == is_enabled(config, task),
{
    let first = seq![PrePushTask::Metadata, PrePushTask::Git, PrePushTask::Affected];
    let clippy = seq![PrePushTask::Clippy];
    let shear = seq![PrePushTask::CargoShear];
    let tests = seq![PrePushTask::BuildTests, PrePushTask::RunTests];
    let doc_tests = seq![PrePushTask::DocTests];
    let docs = seq![PrePushTask::Docs];
    let a = first + tasks_if(config.clippy, clippy);
    let b = a + tasks_if(config.cargo_shear, shear);
    let c = b + tasks_if(config.nextest, tests);
    let d = c + tasks_if(config.doc_tests, doc_tests);
    lemma_in_either(first, tasks_if(config.clippy, clippy), task);
    lemma_in_either(a, tasks_if(config.cargo_shear, shear), task);
    lemma_in_either(b, tasks_if(config.nextest, tests), task);
    lemma_in_either(c, tasks_if(config.doc_tests, doc_tests), task);
    lemma_in_either(d, tasks_if(config.docs, docs), task);
    lemma_tasks_if(config.clippy, clippy, task);
    lemma_tasks_if(config.cargo_shear, shear, task);
    lemma_tasks_if(config.nextest, tests, task);
    lemma_tasks_if(config.doc_tests, doc_tests, task);
    lemma_tasks_if(config.docs, docs, task);
    assert(first[0] == PrePushTask::Metadata);
    assert(first[1] == PrePushTask::Git);
    assert(first[2] == PrePushTask::Affected);
    assert(clippy[0] == PrePushTask::Clippy);
    assert(shear[0] == PrePushTask::CargoShear);
    assert(tests[0] == PrePushTask::BuildTests);
    assert(tests[1] == PrePushTask::RunTests);
    assert(doc_tests[0] == PrePushTask::DocTests);
    assert(docs[0] == PrePushTask::Docs);
}

/// The highest level of mercy leaves no check: only what finds out what changed.
pub proof fn lemma_full_mercy_skips_everything(config: PrePushConfig, level: nat)
    requires
        level >= 3,
    ensures
        pre_push_plan(with_mercy(config, level)) == seq![
            PrePushTask::Metadata,
            PrePushTask::Git,
            PrePushTask::Affected,
        ],
{
}

/// What a hook says at its end, and whether it lets git go on.
pub struct Verdict {
    /// Whether all went well.
    pub passed: bool,
    /// The lines to print.
    pub lines: Vec<String>,
}

/// The end of the pre-push hook: the failures, or that all checks passed.
pub fn pre_push_verdict(results: &TaskResults) -> (r: Verdict)
    ensures
        r.passed == !any_failed(results.results@),
        texts(r.lines@) == if any_failed(results.results@) {
            all_failure_lines(results.results@)
        } else {
            seq![
                ""@,
                in_green("✅"@) + " "@ + in_bold(in_green("All checks passed!"@)),
            ]
        },
        r.passed == all_went_well(results.results@),
{
    if results.has_failures() {
        return Verdict { passed: false, lines: results.print_failures() };
    }
    let mut lines: Vec<String> = Vec::new();
    push_text(&mut lines, "");
    let mut line = green("✅");
    line.append(" ");
    line.append(bold(green("All checks passed!").as_str()).as_str());
    push_text(&mut lines, line.as_str());
    proof {
        assert(texts(lines@) =~= seq![
            ""@,
            in_green("✅"@) + " "@ + in_bold(in_green("All checks passed!"@)),
        ]);
    }
    Verdict { passed: true, lines }
}

// ---- laws of the tasks ----

/// A check is planned exactly if its setting is on, running the tests together with building
/// them; what finds out what changed is planned always.
pub proof fn lemma_planned_checks(config: PrePushConfig)
    ensures
        pre_push_plan(config).contains(PrePushTask::Metadata),
        pre_push_plan(config).contains(PrePushTask::Git),
        pre_push_plan(config).contains(PrePushTask::Affected),
        pre_push_plan(config).contains(PrePushTask::Clippy) == config.clippy,
        pre_push_plan(config).contains(PrePushTask::CargoShear) == config.cargo_shear,
        pre_push_plan(config).contains(PrePushTask::BuildTests) == config.nextest,
        pre_push_plan(config).contains(PrePushTask::RunTests) == config.nextest,
        pre_push_plan(config).contains(PrePushTask::DocTests) == config.doc_tests,
        pre_push_plan(config).contains(PrePushTask::Docs) == config.docs,
{
    lemma_pre_push_plan_follows_settings(config, PrePushTask::Metadata);
    lemma_pre_push_plan_follows_settings(config, PrePushTask::Git);
    lemma_pre_push_plan_follows_settings(config, PrePushTask::Affected);
    lemma_pre_push_plan_follows_settings(config, PrePushTask::Clippy);
    lemma_pre_push_plan_follows_settings(config, PrePushTask::CargoShear);
    lemma_pre_push_plan_follows_settings(config, PrePushTask::BuildTests);
    lemma_pre_push_plan_follows_settings(config, PrePushTask::RunTests);
    lemma_pre_push_plan_follows_settings(config, PrePushTask::DocTests);
    lemma_pre_push_plan_follows_settings(config, PrePushTask::Docs);
}

/// At the beginning of a plan those tasks start that wait for nothing.
pub proof fn lemma_what_starts_first(plan: Seq<PrePushTask>, task: PrePushTask)
    ensures
        startable(plan, Seq::empty()).contains(task) <==> plan.contains(task) && (task
            == PrePushTask::Metadata || task == PrePushTask::Git || task == PrePushTask::Clippy
            || task == PrePushTask::CargoShear),
{
    lemma_startable(plan, Seq::empty(), task);
}

/// The crates that are affected are found once the metadata is loaded and the changes are
/// known, whichever comes last; the checks on those crates start when they are found, and
/// nothing else starts when a task is done.
pub proof fn lemma_what_starts_when(
    plan: Seq<PrePushTask>,
    task: PrePushTask,
    before: Seq<PrePushTask>,
    last: PrePushTask,
)
    ensures
        startable(plan, before.push(last)).contains(task) <==> plan.contains(task) && (task
            == PrePushTask::Affected && (last == PrePushTask::Metadata && before.contains(
            PrePushTask::Git,
        ) || last == PrePushTask::Git && before.contains(PrePushTask::Metadata)) || last
            == PrePushTask::Affected && (task == PrePushTask::BuildTests || task
            == PrePushTask::RunTests || task == PrePushTask::DocTests || task
            == PrePushTask::Docs)),
{
    let done = before.push(last);
    let needs = task.prerequisites();
    lemma_startable(plan, done, task);
    lemma_in_either(before, seq![last], PrePushTask::Metadata);
    lemma_in_either(before, seq![last], PrePushTask::Git);
    lemma_in_either(before, seq![last], PrePushTask::Affected);
    assert(done =~= before + seq![last]);
    assert(done.last() == last);
    assert(seq![last][0] == last);
    if needs.len() > 0 {
        assert(needs.contains(needs[0]));
    }
    if needs.len() > 1 {
        assert(needs.contains(needs[1]));
    }
    if unlocked_by_last(needs, done) {
        let i = needs.index_of(last);
        assert(needs[i] == last);
        assert(done.contains(needs[0]));
        if needs.len() > 1 {
            assert(done.contains(needs[1]));
        }
    }
}

/// No two tasks are shown under the same name.
pub proof fn lemma_names_differ(a: PrePushTask, b: PrePushTask)
    ensures
        a.title() == b.title() ==> a == b,
{
    reveal_strlit("metadata");
    reveal_strlit("git");
    reveal_strlit("affected");
    reveal_strlit("clippy");
    reveal_strlit("cargo-shear");
    reveal_strlit("build tests");
    reveal_strlit("run tests");
    reveal_strlit("doc tests");
    reveal_strlit("docs");
    assert("metadata"@[0] == 'm' && "git"@[0] == 'g' && "affected"@[0] == 'a');
    assert("clippy"@[0] == 'c' && "clippy"@[1] == 'l' && "cargo-shear"@[0] == 'c');
    assert("cargo-shear"@[1] == 'a' && "build tests"@[0] == 'b' && "run tests"@[0] == 'r');
    assert("doc tests"@[0] == 'd' && "docs"@[0] == 'd');
    assert("doc tests"@.len() == 9 && "docs"@.len() == 4);
}

/// A failure to load the metadata is told by what the message says: that there is no manifest,
/// that the workspace has no members, or else the message itself.
pub proof fn lemma_metadata_failure(message: Seq<char>)
    ensures
        has_text(message, "could not find"@) ==> metadata_failure(message) == TaskOutcome::Failed(
            "no Cargo.toml"@,
            "No Cargo.toml found, skipping pre-push checks"@,
        ),
        !has_text(message, "could not find"@) && (has_text(message, "virtual manifest"@)
            || has_text(message, "no members"@)) ==> metadata_failure(message)
            == TaskOutcome::Failed(
            "empty workspace"@,
            "No workspace members found, skipping pre-push checks"@,
        ),
        !has_text(message, "could not find"@) && !has_text(message, "virtual manifest"@)
            && !has_text(message, "no members"@) ==> metadata_failure(message)
            == TaskOutcome::Failed("failed to load"@, message),
{
    lemma_has_text(message, "no members"@);
    lemma_has_text(message, "workspace has no members"@);
    if has_text(message, "workspace has no members"@) {
        let (before, after) = choose|before: Seq<char>, after: Seq<char>| #[trigger]
            is_made_of(message, before, "workspace has no members"@, after);
        reveal_strlit("workspace has no members");
        reveal_strlit("workspace has ");
        reveal_strlit("no members");
        assert("workspace has no members"@ =~= "workspace has "@ + "no members"@);
        let longer = before + "workspace has "@;
        assert(message =~= longer + "no members"@ + after);
        assert(is_made_of(message, longer, "no members"@, after));
    }
}

/// What git prints is taken without the blanks around it, the end of the line among them: a
/// hash as it is, a number by its value, as far as it has one that fits. Where git printed
/// nothing, the revision stands for its hash, and there is no commit.
pub proof fn lemma_git_answers(
    before: Seq<char>,
    sha: Seq<char>,
    after: Seq<char>,
    revision: Seq<char>,
    n: nat,
)
    requires
        is_blank(before),
        is_blank(after),
        sha.len() > 0,
        !is_whitespace(sha[0]),
        !is_whitespace(sha.last()),
    ensures
        sha_or(Some(before + sha + after), revision) == sha,
        sha_or(None, revision) == revision,
        count_or_zero(Some(before + decimal(n) + after)) == if n <= 0xffff_ffff {
            n
        } else {
            0
        },
        !('0' <= sha[0] <= '9') && sha[0] != '+' ==> count_or_zero(Some(before + sha + after)) == 0,
        count_or_zero(None) == 0,
{
    lemma_trimmed_to(before, sha, after);
    lemma_no_number(sha, 0, 0xffff_ffff);
    lemma_decimal_value(n);
    assert(is_digit(decimal(n)[0]) && is_digit(decimal(n)[decimal(n).len() - 1]));
    lemma_trimmed_to(before, decimal(n), after);
    lemma_number_is_read(n, 0xffff_ffff);
}

/// Only what a command prints that exits with 0 is taken.
pub proof fn lemma_only_success_is_read(output: CommandOutput, message: String)
    ensures
        success_text(Ok(output)) == if output.code == Some(0i32) {
            Some(lossy_text(output.stdout@))
        } else {
            None
        },
        success_text(Err(message)) is None,
{
}

/// Without `HAVE_MERCY` the settings are as they are; with it the tests and the documentation
/// are switched off, whatever its value but 0.
pub proof fn lemma_mercy_is_asked_for(config: PrePushConfig, value: Seq<char>, n: nat)
    ensures
        merciful(config, None) == config,
        merciful(config, Some(decimal(0))) == config,
        n > 0 ==> !merciful(config, Some(decimal(n))).nextest && !merciful(
            config,
            Some(decimal(n)),
        ).doc_tests && !merciful(config, Some(decimal(n))).docs,
        value.len() > 0 && !('0' <= value[0] <= '9') && value[0] != '+' ==> merciful(
            config,
            Some(value),
        ) == merciful(config, Some(decimal(1))),
        start_notice(config, Some(value)) is Some,
        start_notice(config, None) is None <==> config.clippy && config.nextest && config.doc_tests
            && config.docs && config.cargo_shear,
{
    lemma_mercy(value, 0, n);
    lemma_mercy(value, 0, 0);
    lemma_mercy(value, 0, 1);
    lemma_mercy_levels(config, mercy(decimal(n)));
    lemma_disabled_checks(config);
    let disabled = disabled_checks(config);
    if !(config.clippy && config.nextest && config.doc_tests && config.docs
        && config.cargo_shear) {
        assert(disabled.len() > 0);
    }
}

/// Some crate is affected exactly if some changed file belongs to a crate whose name only
/// members of the workspace have.
pub proof fn lemma_affects_some_crate(metadata: Metadata, files: Seq<Seq<char>>)
    ensures
        affects_some_crate(metadata, files) <==> exists|i: int, name: Seq<char>|
            0 <= i < files.len() && #[trigger] belongs_to(metadata, files[i], name)
                && only_members_have(metadata, name),
{
    if affects_some_crate(metadata, files) {
        let name = choose|name: Seq<char>| #[trigger] is_affected(metadata, files, name);
        lemma_excluded(metadata, name);
        let file = files_of(metadata, files, name)[0];
        assert(files_of(metadata, files, name).contains(file));
        lemma_files_of(metadata, files, name, file);
        let i = files.index_of(file);
        assert(belongs_to(metadata, files[i], name));
    }
    if exists|i: int, name: Seq<char>|
        0 <= i < files.len() && #[trigger] belongs_to(metadata, files[i], name)
            && only_members_have(metadata, name) {
        let (i, name) = choose|i: int, name: Seq<char>|
            0 <= i < files.len() && #[trigger] belongs_to(metadata, files[i], name)
                && only_members_have(metadata, name);
        lemma_excluded(metadata, name);
        assert(files.contains(files[i]));
        lemma_files_of(metadata, files, name, files[i]);
        let k = files_of(metadata, files, name).index_of(files[i]);
        assert(is_affected(metadata, files, name));
    }
}

/// A file belongs to the crate of that name.
pub open spec fn belongs_to(metadata: Metadata, file: Seq<char>, name: Seq<char>) -> bool {
    file_owner(metadata, file) == Some(name)
}

} // verus!
