//! Pre-commit hook: the staged files, the checks, and the jobs that are applied.

use crate::checks::{
    check_edition_2024, check_external_path_deps, check_internal_dev_deps_release_plz,
    edition_problems, edition_report, external_packages, external_report, outcome,
    release_plz_outcome, root_edition, CheckError,
};
use crate::commands::icons::{icon, icon_for_extension};
use crate::commands::plan::{
    all_done, lemma_in_either, lemma_ranked_once, lemma_ranks_grow, unlocked_by_last,
};
use crate::commands::status::{
    is_in_quotes, lemma_plain_name_in_quotes, lemma_rename_gives_new_name, new_name, renamed_to,
    unquote, unquoted,
};
use crate::config::PreCommitConfig;
use crate::jobs::arborium::{are_rewrites, arborium_jobs, collect_arborium_jobs, CrateFiles};
use crate::jobs::order::{by_path, sort_jobs};
use crate::jobs::cargo_lock::{collect_cargo_lock_jobs, lock_jobs, says_modified, success_bytes};
use crate::jobs::rustfmt::{collect_rustfmt_jobs, format_jobs, Formatted};
use crate::jobs::{opt_bytes, Job, JobView};
use crate::metadata::Metadata;
use crate::output::{decode_lossy, lossy_text, CommandOutput};
use crate::paint::{bold, cyan, green, in_bold, in_cyan, in_green};
use crate::path::{
    are_plain_names, extension, extension_of, is_plain_name, join_path, joined_path,
    lemma_rooted_extension, rooted,
};
use crate::task::{
    all_failure_lines, all_jobs, all_went_well, any_failed, plain_success, TaskOutcome,
    TaskResult, TaskResults,
};
use crate::text::{
    lemma_first_line, lines, lines_of, opt_text, push_text, result_text, texts,
};
use vstd::prelude::*;
use vstd::string::*;
use vstd::utf8::*;

verus! {

// ---- staged files ----

/// The staged files.
#[derive(Debug, Clone)]
pub struct StagedFiles {
    /// Files that are staged (in the index) and not dirty (working tree matches index).
    pub clean: Vec<String>,
}

/// A line of `git status --porcelain` that is too short to tell of a file.
pub open spec fn is_short(line: Seq<char>) -> bool {
    encode_utf8(line).len() < 3
}

/// A line of `git status --porcelain` can be taken apart: it is short, or has two characters
/// for the state and a third byte after which the path begins.
pub open spec fn is_readable(line: Seq<char>) -> bool {
    is_short(line) || (line.len() >= 2 && is_char_boundary(encode_utf8(line), 3))
}

/// All lines of an output of `git status --porcelain` can be taken apart.
pub open spec fn is_readable_status(status: Seq<char>) -> bool {
    forall|i: int| 0 <= i < lines_of(status).len() ==> is_readable(#[trigger] lines_of(status)[i])
}

/// What a line says behind the two letters for the state: what follows the third byte.
pub open spec fn status_field(line: Seq<char>) -> Seq<char> {
    decode_utf8(encode_utf8(line).skip(3))
}

/// A line tells of a file that was renamed or copied. It gives two names, of which the
/// second is that of the file in the index.
pub open spec fn has_two_names(line: Seq<char>) -> bool {
    line[0] == 'R' || line[0] == 'C'
}

/// The path of the file that a line tells of: the new name of one that was renamed or copied.
/// A name that git prints in quotes is taken without them, and its escapes are undone.
pub open spec fn status_path(line: Seq<char>) -> Seq<char> {
    if has_two_names(line) {
        unquoted(new_name(status_field(line)))
    } else {
        unquoted(status_field(line))
    }
}

/// A line tells of a file that is staged and not dirty. A deleted file does not count: it
/// does not exist to read.
pub open spec fn is_clean(line: Seq<char>) -> bool {
    !is_short(line) && line[0] != ' ' && line[0] != '?' && line[0] != 'D' && line[1] == ' '
}

/// The files that are staged and not dirty, seen from the directory `cwd`.
pub open spec fn clean_files(lines: Seq<Seq<char>>, cwd: Seq<char>) -> Seq<Seq<char>>
    decreases lines.len(),
{
    if lines.len() == 0 {
        Seq::empty()
    } else {
        let before = clean_files(lines.drop_last(), cwd);
        if is_clean(lines.last()) {
            before.push(joined_path(cwd, status_path(lines.last())))
        } else {
            before
        }
    }
}

/// A file is found exactly if a line tells that it is staged and not dirty.
pub proof fn lemma_clean_files(lines: Seq<Seq<char>>, cwd: Seq<char>, path: Seq<char>)
    ensures
        clean_files(lines, cwd).contains(path) <==> exists|i: int|
            0 <= i < lines.len() && is_clean(#[trigger] lines[i]) && path == joined_path(
                cwd,
                status_path(lines[i]),
            ),
    decreases lines.len(),
{
    if lines.len() > 0 {
        let rest = lines.drop_last();
        let before = clean_files(rest, cwd);
        let all = clean_files(lines, cwd);
        let n = lines.len() - 1;
        lemma_clean_files(rest, cwd, path);
        if all.contains(path) {
            let k = all.index_of(path);
            if k < before.len() {
                assert(before[k] == path);
                let i = choose|i: int|
                    0 <= i < rest.len() && is_clean(#[trigger] rest[i]) && path == joined_path(
                        cwd,
                        status_path(rest[i]),
                    );
                assert(lines[i] == rest[i]);
            } else {
                assert(is_clean(lines[n]));
            }
        }
        if exists|i: int|
            0 <= i < lines.len() && is_clean(#[trigger] lines[i]) && path == joined_path(
                cwd,
                status_path(lines[i]),
            ) {
            let i = choose|i: int|
                0 <= i < lines.len() && is_clean(#[trigger] lines[i]) && path == joined_path(
                    cwd,
                    status_path(lines[i]),
                );
            if i < n {
                assert(rest[i] == lines[i]);
                let k = before.index_of(path);
                assert(all[k] == path);
            } else {
                assert(all[before.len() as int] == path);
            }
        }
    }
}

/// Whether a line can be taken apart.
fn line_is_readable(line: &str) -> (r: bool)
    ensures
        r == is_readable(line@),
{
    line.as_bytes().len() < 3 || (line.unicode_len() >= 2 && line.is_char_boundary(3))
}

/// Whether all lines of an output of `git status --porcelain` can be taken apart.
pub fn status_is_readable(status: &str) -> (r: bool)
    ensures
        r == is_readable_status(status@),
{
    let list = lines(status);
    let ghost all = lines_of(status@);
    let mut i: usize = 0;
    while i < list.len()
        invariant
            all == lines_of(status@),
            all == texts(list@),
            i <= list@.len(),
            forall|k: int| 0 <= k < i ==> is_readable(#[trigger] all[k]),
        decreases list@.len() - i,
    {
        if !line_is_readable(list[i].as_str()) {
            assert(!is_readable(all[i as int]));
            return false;
        }
        i = i + 1;
    }
    true
}

/// The files that an output of `git status --porcelain` tells to be staged and not dirty.
pub fn staged_files(status: &str, cwd: &str) -> (r: StagedFiles)
    requires
        is_readable_status(status@),
    ensures
        texts(r.clean@) == clean_files(lines_of(status@), cwd@),
{
    let list = lines(status);
    let ghost all = lines_of(status@);
    let mut clean: Vec<String> = Vec::new();
    let mut i: usize = 0;
    proof {
        assert(all.take(0) =~= Seq::empty());
        assert(texts(clean@) =~= Seq::empty());
    }
    while i < list.len()
        invariant
            all == lines_of(status@),
            all == texts(list@),
            is_readable_status(status@),
            i <= list@.len(),
            texts(clean@) == clean_files(all.take(i as int), cwd@),
        decreases list@.len() - i,
    {
        let line = list[i].as_str();
        proof {
            assert(line@ == all[i as int]);
            assert(is_readable(all[i as int]));
            assert(all.take(i + 1).drop_last() =~= all.take(i as int));
            assert(all.take(i + 1).last() == line@);
        }
        if line.as_bytes().len() >= 3 {
            let x = line.get_char(0);
            let y = line.get_char(1);
            let (_, field) = line.split_at(3);
            proof {
                assert(encode_utf8(field@) =~= encode_utf8(line@).skip(3));
                encode_utf8_decode_utf8(field@);
            }
            if x != ' ' && x != '?' && x != 'D' && y == ' ' {
                let path = if x == 'R' || x == 'C' {
                    unquote(renamed_to(field).as_str())
                } else {
                    unquote(field)
                };
                push_text(&mut clean, join_path(cwd, path.as_str()).as_str());
            }
        }
        i = i + 1;
    }
    proof {
        assert(all.take(i as int) =~= all);
    }
    StagedFiles { clean }
}

/// An ASCII character at the start of a text is one byte.
proof fn lemma_ascii_head(c: char, rest: Seq<char>)
    requires
        c <= '\u{7f}',
    ensures
        length_of_first_scalar(encode_utf8(seq![c] + rest)) == 1,
        encode_utf8(seq![c] + rest).len() == 1 + encode_utf8(rest).len(),
        encode_utf8(seq![c] + rest).skip(1) == encode_utf8(rest),
        pop_first_scalar(encode_utf8(seq![c] + rest)) == encode_utf8(rest),
{
    let line = seq![c] + rest;
    encode_utf8_first_scalar(line);
    let head = encode_scalar(c as u32);
    assert(line[0] == c);
    assert(line.drop_first() =~= rest);
    assert(has_width_1_encoding(c as u32));
    assert(head.len() == 1);
    assert(encode_utf8(line) == head + encode_utf8(rest));
    assert((head + encode_utf8(rest)).skip(1) =~= encode_utf8(rest));
    assert(pop_first_scalar(encode_utf8(line)) =~= encode_utf8(rest));
}

/// A line as git writes it, two letters for the state, a space and what it tells of, can be
/// taken apart.
proof fn lemma_status_field(x: char, y: char, field: Seq<char>)
    requires
        x <= '\u{7f}',
        y <= '\u{7f}',
    ensures
        is_readable(seq![x, y, ' '] + field),
        !is_short(seq![x, y, ' '] + field),
        status_field(seq![x, y, ' '] + field) == field,
{
    let line = seq![x, y, ' '] + field;
    let line1 = seq![y, ' '] + field;
    let line2 = seq![' '] + field;
    assert(line =~= seq![x] + line1);
    assert(line1 =~= seq![y] + line2);
    lemma_ascii_head(x, line1);
    lemma_ascii_head(y, line2);
    lemma_ascii_head(' ', field);
    let bytes = encode_utf8(line);
    assert(bytes.skip(3) =~= bytes.skip(1).skip(1).skip(1));
    encode_utf8_decode_utf8(field);
    encode_utf8_valid_utf8(line);
    encode_utf8_valid_utf8(line1);
    encode_utf8_valid_utf8(line2);
    encode_utf8_valid_utf8(field);
    assert(is_char_boundary(encode_utf8(field), 0));
    assert(is_char_boundary(encode_utf8(line2), 1));
    assert(is_char_boundary(encode_utf8(line1), 2));
    assert(is_char_boundary(encode_utf8(line), 3));
}

/// A line of a file that was neither renamed nor copied, two letters for the state, a space
/// and a path, can be taken apart and gives the path, also where the path is in quotes and
/// holds no escape.
pub proof fn lemma_status_line(x: char, y: char, path: Seq<char>)
    requires
        x <= '\u{7f}',
        y <= '\u{7f}',
        x != 'R' && x != 'C',
    ensures
        is_readable(seq![x, y, ' '] + path),
        !is_short(seq![x, y, ' '] + path),
        !is_in_quotes(path) ==> status_path(seq![x, y, ' '] + path) == path,
        !path.contains('\\') ==> status_path(
            seq![x, y, ' '] + (seq!['"'] + path + seq!['"']),
        ) == path,
{
    lemma_status_field(x, y, path);
    let in_quotes = seq!['"'] + path + seq!['"'];
    lemma_status_field(x, y, in_quotes);
    assert((seq![x, y, ' '] + path)[0] == x);
    assert((seq![x, y, ' '] + in_quotes)[0] == x);
    if !path.contains('\\') {
        lemma_plain_name_in_quotes(path);
    }
}

/// A line of a file that was renamed or copied can be taken apart and gives the new path.
pub proof fn lemma_rename_line(x: char, y: char, old_path: Seq<char>, path: Seq<char>)
    requires
        x == 'R' || x == 'C',
        y <= '\u{7f}',
        !old_path.contains(' '),
        old_path.len() > 0 ==> old_path[0] != '"',
        !is_in_quotes(path),
    ensures
        is_readable(seq![x, y, ' '] + (old_path + " -> "@ + path)),
        !is_short(seq![x, y, ' '] + (old_path + " -> "@ + path)),
        status_path(seq![x, y, ' '] + (old_path + " -> "@ + path)) == path,
{
    let field = old_path + " -> "@ + path;
    lemma_status_field(x, y, field);
    lemma_rename_gives_new_name(old_path, path);
    assert((seq![x, y, ' '] + field)[0] == x);
}

/// Of a line as git writes it, two letters for the state, a space and a path, the path counts
/// exactly if the first letter is none of a space, `?` and `D`, and the second is a space.
pub proof fn lemma_line_is_clean(x: char, y: char, path: Seq<char>, cwd: Seq<char>)
    requires
        x <= '\u{7f}',
        y <= '\u{7f}',
        x != 'R' && x != 'C',
        path.len() > 0 ==> path[0] != '"',
    ensures
        clean_files(seq![seq![x, y, ' '] + path], cwd) == if x != ' ' && x != '?' && x != 'D' && y
            == ' ' {
            seq![joined_path(cwd, path)]
        } else {
            Seq::<Seq<char>>::empty()
        },
{
    let line = seq![x, y, ' '] + path;
    lemma_status_line(x, y, path);
    assert(line[0] == x && line[1] == y);
    lemma_one_line(line, cwd);
}

/// A file that was renamed or copied counts by its new name, exactly if it is not dirty.
pub proof fn lemma_rename_is_clean(
    x: char,
    y: char,
    old_path: Seq<char>,
    path: Seq<char>,
    cwd: Seq<char>,
)
    requires
        x == 'R' || x == 'C',
        y <= '\u{7f}',
        !old_path.contains(' '),
        old_path.len() > 0 ==> old_path[0] != '"',
        path.len() > 0 ==> path[0] != '"',
    ensures
        clean_files(seq![seq![x, y, ' '] + (old_path + " -> "@ + path)], cwd) == if y == ' ' {
            seq![joined_path(cwd, path)]
        } else {
            Seq::<Seq<char>>::empty()
        },
{
    let line = seq![x, y, ' '] + (old_path + " -> "@ + path);
    lemma_rename_line(x, y, old_path, path);
    assert(line[0] == x && line[1] == y);
    lemma_one_line(line, cwd);
}

proof fn lemma_one_line(line: Seq<char>, cwd: Seq<char>)
    ensures
        clean_files(seq![line], cwd) == if is_clean(line) {
            seq![joined_path(cwd, status_path(line))]
        } else {
            Seq::<Seq<char>>::empty()
        },
{
    let lines = seq![line];
    assert(lines.drop_last() =~= Seq::empty());
    assert(clean_files(lines.drop_last(), cwd) =~= Seq::empty());
    assert(lines.last() == line);
    assert(clean_files(lines, cwd) =~= if is_clean(line) {
        seq![joined_path(cwd, status_path(line))]
    } else {
        Seq::<Seq<char>>::empty()
    });
}

/// What two lists of lines give together is what each gives, one after the other.
pub proof fn lemma_clean_files_of_two_lists(
    a: Seq<Seq<char>>,
    b: Seq<Seq<char>>,
    cwd: Seq<char>,
)
    ensures
        clean_files(a + b, cwd) == clean_files(a, cwd) + clean_files(b, cwd),
    decreases b.len(),
{
    if b.len() == 0 {
        assert(a + b =~= a);
    } else {
        lemma_clean_files_of_two_lists(a, b.drop_last(), cwd);
        assert((a + b).drop_last() =~= a + b.drop_last());
        assert((a + b).last() == b.last());
    }
    assert(clean_files(a + b, cwd) =~= clean_files(a, cwd) + clean_files(b, cwd));
}

/// An output of git is taken line by line: its first line gives its path or nothing, and what
/// follows gives what it gives alone. An empty output gives nothing.
pub proof fn lemma_status_is_taken_by_lines(
    x: char,
    y: char,
    path: Seq<char>,
    rest: Seq<char>,
    cwd: Seq<char>,
)
    requires
        x <= '\u{7f}',
        y <= '\u{7f}',
        x != '\n' && y != '\n',
        x != 'R' && x != 'C',
        path.len() > 0 && path[0] != '"' && path.last() != '\r',
        !path.contains('\n'),
    ensures
        clean_files(lines_of(seq![x, y, ' '] + path + seq!['\n'] + rest), cwd) == (if x != ' ' && x
            != '?' && x != 'D' && y == ' ' {
            seq![joined_path(cwd, path)]
        } else {
            Seq::<Seq<char>>::empty()
        }) + clean_files(lines_of(rest), cwd),
        is_readable_status(seq![x, y, ' '] + path + seq!['\n'] + rest) == is_readable_status(rest),
        clean_files(lines_of(Seq::empty()), cwd).len() == 0,
{
    let line = seq![x, y, ' '] + path;
    let whole = line + seq!['\n'] + rest;
    lemma_no_feed(x, y, path);
    lemma_first_line(line, rest);
    lemma_line_is_clean(x, y, path, cwd);
    lemma_clean_files_of_two_lists(seq![line], lines_of(rest), cwd);
    lemma_status_line(x, y, path);
    let all = lines_of(whole);
    assert(all[0] == line);
    if is_readable_status(rest) {
        assert forall|i: int| 0 <= i < all.len() implies is_readable(#[trigger] all[i]) by {
            if i > 0 {
                assert(all[i] == lines_of(rest)[i - 1]);
            }
        }
    }
    if is_readable_status(whole) {
        assert forall|i: int| 0 <= i < lines_of(rest).len() implies is_readable(
            #[trigger] lines_of(rest)[i],
        ) by {
            assert(all[i + 1] == lines_of(rest)[i]);
        }
    }
}

proof fn lemma_no_feed(x: char, y: char, path: Seq<char>)
    requires
        x != '\n' && y != '\n',
        !path.contains('\n'),
    ensures
        !(seq![x, y, ' '] + path).contains('\n'),
{
    let line = seq![x, y, ' '] + path;
    if line.contains('\n') {
        let k = choose|k: int| 0 <= k < line.len() && line[k] == '\n';
        assert(path[k - 3] == '\n');
    }
}

/// A line of fewer than three characters of ASCII tells of no file.
pub proof fn lemma_short_line_is_passed_over(line: Seq<char>, cwd: Seq<char>)
    requires
        line.len() < 3,
        is_ascii_chars(line),
    ensures
        clean_files(seq![line], cwd).len() == 0,
        is_readable(line),
{
    is_ascii_chars_encode_utf8(line);
    lemma_one_line(line, cwd);
}

/// What is known of the staged files: the output of `git status --porcelain` and the current
/// directory. That git could not be run, or that there is no current directory, is an error.
pub fn collect_staged_files(
    output: &Result<CommandOutput, String>,
    cwd: &Result<String, String>,
) -> (r: Result<StagedFiles, String>)
    requires
        *output matches Ok(o) ==> o.succeeded() && (cwd is Ok ==> is_readable_status(
            lossy_text(o.stdout@),
        )),
    ensures
        match (*output, *cwd) {
            (Err(message), _) => r matches Err(m) && m@ == message@,
            (Ok(o), Err(message)) => r matches Err(m) && m@ == message@,
            (Ok(o), Ok(dir)) => r matches Ok(staged) && texts(staged.clean@) == clean_files(
                lines_of(lossy_text(o.stdout@)),
                dir@,
            ),
        },
{
    match output {
        Err(message) => Err(message.clone()),
        Ok(o) => match cwd {
            Err(message) => Err(message.clone()),
            Ok(dir) => Ok(staged_files(decode_lossy(&o.stdout).as_str(), dir.as_str())),
        },
    }
}

/// The staged files, as `collect_staged_files` gives them; nothing where git failed or
/// printed a line that cannot be taken apart.
pub fn try_collect_staged_files(
    output: &Result<CommandOutput, String>,
    cwd: &Result<String, String>,
) -> (r: Option<Result<StagedFiles, String>>)
    ensures
        r is None <==> (*output matches Ok(o) && (!o.succeeded() || (cwd is Ok
            && !is_readable_status(lossy_text(o.stdout@))))),
        r matches Some(result) ==> match (*output, *cwd) {
            (Err(message), _) => result matches Err(m) && m@ == message@,
            (Ok(o), Err(message)) => result matches Err(m) && m@ == message@,
            (Ok(o), Ok(dir)) => result matches Ok(staged) && texts(staged.clean@) == clean_files(
                lines_of(lossy_text(o.stdout@)),
                dir@,
            ),
        },
{
    match output {
        Ok(o) => {
            if !o.success() {
                return None;
            }
            if cwd.is_ok() && !status_is_readable(decode_lossy(&o.stdout).as_str()) {
                return None;
            }
        },
        Err(_) => {},
    }
    Some(collect_staged_files(output, cwd))
}

// ---- tasks ----

/// Takes in the staged files.
pub fn collect_staged_files_task(collected: Result<StagedFiles, String>) -> (r: Result<
    StagedFiles,
    TaskResult,
>)
    ensures
        match (collected, r) {
            (Ok(staged), Ok(s)) => s == staged,
            (Err(message), Err(failure)) => failure@ == TaskOutcome::Failed(
                "failed to collect"@,
                "Failed to collect staged files: "@ + message@
                    + "\nThis tool requires Git to be installed and a Git repository initialized."@,
            ),
            _ => false,
        },
{
    match collected {
        Ok(staged) => Ok(staged),
        Err(message) => {
            let mut details = "Failed to collect staged files: ".to_owned();
            details.append(message.as_str());
            details.append(
                "\nThis tool requires Git to be installed and a Git repository initialized.",
            );
            Err(TaskResult::failed("failed to collect".to_owned(), details))
        },
    }
}

/// Takes in the metadata of the workspace.
pub fn load_metadata_task(loaded: Result<Metadata, String>) -> (r: Result<Metadata, TaskResult>)
    ensures
        match (loaded, r) {
            (Ok(metadata), Ok(m)) => m == metadata,
            (Err(message), Err(failure)) => failure@ == TaskOutcome::Failed(
                "failed to load"@,
                message@,
            ),
            _ => false,
        },
{
    match loaded {
        Ok(metadata) => Ok(metadata),
        Err(message) => Err(TaskResult::failed("failed to load".to_owned(), message)),
    }
}

/// What a check comes to as a task.
pub open spec fn check_outcome(report: Option<(Seq<char>, Seq<char>)>) -> TaskOutcome {
    match report {
        None => plain_success(),
        Some((summary, details)) => TaskOutcome::Failed(summary, details),
    }
}

fn check_result(checked: Result<(), CheckError>) -> (r: TaskResult)
    ensures
        r@ == check_outcome(outcome(checked)),
{
    match checked {
        Ok(()) => TaskResult::success(),
        Err(e) => TaskResult::failed(e.summary, e.details),
    }
}

/// The task that requires edition 2024. `root_manifest` is the text of the workspace's root
/// manifest, if it could be read.
pub fn edition_2024_task(metadata: &Metadata, root_manifest: &Option<String>) -> (r: TaskResult)
    ensures
        r@ == check_outcome(
            edition_report(edition_problems(*metadata, root_edition(opt_text(*root_manifest)))),
        ),
{
    check_result(check_edition_2024(metadata, root_manifest))
}

/// The task that finds path dependencies outside the workspace.
pub fn external_path_deps_task(metadata: &Metadata) -> (r: TaskResult)
    ensures
        r@ == check_outcome(
            external_report(
                metadata.workspace_root@,
                external_packages(*metadata, metadata.packages@),
            ),
        ),
{
    check_result(check_external_path_deps(metadata))
}

/// The task that finds internal dev-dependencies that release-plz cannot deal with.
/// `root_manifest` is the text of the workspace's own manifest and `member_manifests` that of
/// each package, or the error met when reading it.
pub fn internal_dev_deps_task(
    metadata: &Metadata,
    root_manifest: &Result<String, String>,
    member_manifests: &Vec<Result<String, String>>,
) -> (r: TaskResult)
    requires
        member_manifests@.len() == metadata.packages@.len(),
    ensures
        r@ == check_outcome(
            release_plz_outcome(*metadata, result_text(*root_manifest), member_manifests@),
        ),
{
    check_result(check_internal_dev_deps_release_plz(metadata, root_manifest, member_manifests))
}

/// The task that sets up arborium, given what is on disk of the packages.
pub fn arborium_task(metadata: &Metadata, files: &Vec<CrateFiles>) -> (r: TaskResult)
    requires
        files@.len() == metadata.packages@.len(),
    ensures
        exists|rewrites: Seq<Option<JobView>>| #[trigger]
            are_rewrites(*metadata, metadata.packages@, files@, rewrites) && r@
                == TaskOutcome::Success(
                None,
                arborium_jobs(*metadata, metadata.packages@, files@, rewrites),
            ),
{
    TaskResult::success_with_jobs(collect_arborium_jobs(metadata, files))
}

/// The task that formats the staged Rust files, given what `rustfmt` makes of them.
pub fn rustfmt_task(files: &Vec<Formatted>) -> (r: TaskResult)
    ensures
        r@ == TaskOutcome::Success(None, format_jobs(files@)),
{
    TaskResult::success_with_jobs(collect_rustfmt_jobs(files))
}

/// The task that stages the lockfile, given what git prints of its status, what it holds, and
/// what git shows of it in the last commit.
pub fn cargo_lock_task(
    status: &Result<CommandOutput, String>,
    content: &Option<Vec<u8>>,
    committed: &Result<CommandOutput, String>,
) -> (r: TaskResult)
    ensures
        r@ == TaskOutcome::Success(
            None,
            lock_jobs(
                (*status matches Ok(o) && says_modified(lossy_text(o.stdout@))),
                opt_bytes(*content),
                success_bytes(*committed),
            ),
        ),
{
    TaskResult::success_with_jobs(collect_cargo_lock_jobs(status, content, committed))
}

// ---- the plan ----

/// A task of the pre-commit hook.
#[derive(Debug, Clone, Copy, PartialEq, Eq, Structural)]
pub enum PreCommitTask {
    /// Find the staged files.
    StagedFiles,
    /// Load the metadata of the workspace.
    Metadata,
    /// Require edition 2024.
    Edition2024,
    /// Find path dependencies outside the workspace.
    ExternalDeps,
    /// Find internal dev-dependencies that release-plz cannot deal with.
    InternalDevDeps,
    /// Format the staged Rust files.
    Rustfmt,
    /// Stage the lockfile.
    CargoLock,
    /// Set up arborium.
    Arborium,
}

/// The tasks that are there if a setting is on.
pub open spec fn task_if(on: bool, task: PreCommitTask) -> Seq<PreCommitTask> {
    if on {
        seq![task]
    } else {
        Seq::empty()
    }
}

/// The tasks of the pre-commit hook under some settings.
pub open spec fn pre_commit_plan(config: PreCommitConfig) -> Seq<PreCommitTask> {
    seq![PreCommitTask::StagedFiles, PreCommitTask::Metadata] + task_if(
        config.edition_2024,
        PreCommitTask::Edition2024,
    ) + task_if(config.external_path_deps, PreCommitTask::ExternalDeps) + task_if(
        config.internal_dev_deps_release_plz,
        PreCommitTask::InternalDevDeps,
    ) + task_if(config.rustfmt, PreCommitTask::Rustfmt) + task_if(
        config.cargo_lock,
        PreCommitTask::CargoLock,
    ) + task_if(config.arborium, PreCommitTask::Arborium)
}

/// The tasks of the pre-commit hook under some settings.
pub fn plan_pre_commit(config: &PreCommitConfig) -> (r: Vec<PreCommitTask>)
    ensures
        r@ == pre_commit_plan(*config),
{
    let mut plan: Vec<PreCommitTask> = Vec::new();
    plan.push(PreCommitTask::StagedFiles);
    plan.push(PreCommitTask::Metadata);
    if config.edition_2024 {
        plan.push(PreCommitTask::Edition2024);
    }
    if config.external_path_deps {
        plan.push(PreCommitTask::ExternalDeps);
    }
    if config.internal_dev_deps_release_plz {
        plan.push(PreCommitTask::InternalDevDeps);
    }
    if config.rustfmt {
        plan.push(PreCommitTask::Rustfmt);
    }
    if config.cargo_lock {
        plan.push(PreCommitTask::CargoLock);
    }
    if config.arborium {
        plan.push(PreCommitTask::Arborium);
    }
    proof {
        assert(plan@ =~= pre_commit_plan(*config));
    }
    plan
}

impl PreCommitTask {
    /// The name that a task is shown under.
    pub open spec fn title(self) -> Seq<char> {
        match self {
            PreCommitTask::StagedFiles => "staged-files"@,
            PreCommitTask::Metadata => "metadata"@,
            PreCommitTask::Edition2024 => "edition-2024"@,
            PreCommitTask::ExternalDeps => "external-deps"@,
            PreCommitTask::InternalDevDeps => "internal-dev-deps"@,
            PreCommitTask::Rustfmt => "rustfmt"@,
            PreCommitTask::CargoLock => "cargo-lock"@,
            PreCommitTask::Arborium => "arborium"@,
        }
    }

    /// The place of the task among all tasks.
    pub open spec fn rank(self) -> int {
        match self {
            PreCommitTask::StagedFiles => 0,
            PreCommitTask::Metadata => 1,
            PreCommitTask::Edition2024 => 2,
            PreCommitTask::ExternalDeps => 3,
            PreCommitTask::InternalDevDeps => 4,
            PreCommitTask::Rustfmt => 5,
            PreCommitTask::CargoLock => 6,
            PreCommitTask::Arborium => 7,
        }
    }

    /// The tasks that have to be done before.
    pub open spec fn prerequisites(self) -> Seq<PreCommitTask> {
        match self {
            PreCommitTask::Edition2024 => seq![PreCommitTask::Metadata],
            PreCommitTask::ExternalDeps => seq![PreCommitTask::Metadata],
            PreCommitTask::InternalDevDeps => seq![PreCommitTask::Metadata],
            PreCommitTask::Arborium => seq![PreCommitTask::Metadata],
            PreCommitTask::Rustfmt => seq![PreCommitTask::StagedFiles],
            _ => Seq::empty(),
        }
    }

    /// The name that the task is shown under.
    pub fn name(&self) -> (r: &'static str)
        ensures
            r@ == self.title(),
    {
        match self {
            PreCommitTask::StagedFiles => "staged-files",
            PreCommitTask::Metadata => "metadata",
            PreCommitTask::Edition2024 => "edition-2024",
            PreCommitTask::ExternalDeps => "external-deps",
            PreCommitTask::InternalDevDeps => "internal-dev-deps",
            PreCommitTask::Rustfmt => "rustfmt",
            PreCommitTask::CargoLock => "cargo-lock",
            PreCommitTask::Arborium => "arborium",
        }
    }

    /// The task that has to be done before, if there is one.
    pub fn needs(&self) -> (r: Option<PreCommitTask>)
        ensures
            self.prerequisites() == match r {
                Some(task) => seq![task],
                None => Seq::empty(),
            },
    {
        match self {
            PreCommitTask::Edition2024 | PreCommitTask::ExternalDeps
            | PreCommitTask::InternalDevDeps | PreCommitTask::Arborium => Some(
                PreCommitTask::Metadata,
            ),
            PreCommitTask::Rustfmt => Some(PreCommitTask::StagedFiles),
            _ => None,
        }
    }

    /// Whether the task can start because another is done.
    pub fn is_unlocked(&self, done: PreCommitTask) -> (r: bool)
        ensures
            r == unlocked_by_last(self.prerequisites(), seq![done]),
    {
        match self.needs() {
            Some(task) => {
                proof {
                    let needs = self.prerequisites();
                    assert(needs[0] == task);
                    assert(seq![done][0] == done);
                    assert(seq![done].last() == done);
                }
                task == done
            },
            None => false,
        }
    }
}

/// A plan holds no task twice, and all that a task needs stands before it.
pub proof fn lemma_pre_commit_plan_is_ordered(config: PreCommitConfig)
    ensures
        pre_commit_plan(config).no_duplicates(),
        forall|i: int|
            0 <= i < pre_commit_plan(config).len() ==> all_done(
                (#[trigger] pre_commit_plan(config)[i]).prerequisites(),
                pre_commit_plan(config).take(i),
            ),
{
    let plan = pre_commit_plan(config);
    let rank = |task: PreCommitTask| task.rank();
    let a = seq![PreCommitTask::StagedFiles, PreCommitTask::Metadata];
    let b = task_if(config.edition_2024, PreCommitTask::Edition2024);
    let c = task_if(config.external_path_deps, PreCommitTask::ExternalDeps);
    let d = task_if(config.internal_dev_deps_release_plz, PreCommitTask::InternalDevDeps);
    let e = task_if(config.rustfmt, PreCommitTask::Rustfmt);
    let f = task_if(config.cargo_lock, PreCommitTask::CargoLock);
    let g = task_if(config.arborium, PreCommitTask::Arborium);
    lemma_ranks_grow(a, b, rank, 0, 2, 3);
    lemma_ranks_grow(a + b, c, rank, 0, 3, 4);
    lemma_ranks_grow(a + b + c, d, rank, 0, 4, 5);
    lemma_ranks_grow(a + b + c + d, e, rank, 0, 5, 6);
    lemma_ranks_grow(a + b + c + d + e, f, rank, 0, 6, 7);
    lemma_ranks_grow(a + b + c + d + e + f, g, rank, 0, 7, 8);
    lemma_ranked_once(plan, rank, 0, 8);
    assert(plan.take(2) =~= a);
    assert(plan[0] == a[0] && plan[1] == a[1]);
    assert forall|i: int| 0 <= i < plan.len() implies all_done(
        (#[trigger] plan[i]).prerequisites(),
        plan.take(i),
    ) by {
        if i >= 2 {
            assert(plan.take(i)[0] == PreCommitTask::StagedFiles);
            assert(plan.take(i)[1] == PreCommitTask::Metadata);
        }
    }
}

/// The setting for READMEs is ignored: it changes nothing in the plan.
pub proof fn lemma_readme_setting_is_ignored(config: PreCommitConfig, on: bool)
    ensures
        pre_commit_plan(PreCommitConfig { generate_readmes: on, ..config }) == pre_commit_plan(
            config,
        ),
{
}

/// A task runs under some settings: those that others need always do, the others if their
/// settings are on.
pub open spec fn is_enabled(config: PreCommitConfig, task: PreCommitTask) -> bool {
    match task {
        PreCommitTask::StagedFiles => true,
        PreCommitTask::Metadata => true,
        PreCommitTask::Edition2024 => config.edition_2024,
        PreCommitTask::ExternalDeps => config.external_path_deps,
        PreCommitTask::InternalDevDeps => config.internal_dev_deps_release_plz,
        PreCommitTask::Rustfmt => config.rustfmt,
        PreCommitTask::CargoLock => config.cargo_lock,
        PreCommitTask::Arborium => config.arborium,
    }
}

proof fn lemma_task_if(on: bool, one: PreCommitTask, task: PreCommitTask)
    ensures
        task_if(on, one).contains(task) == (on && one == task),
{
    assert(seq![one][0] == one);
}

/// The plan holds the tasks that are enabled and no other.
pub proof fn lemma_pre_commit_plan_follows_settings(config: PreCommitConfig, task: PreCommitTask)
    ensures
        pre_commit_plan(config).contains(task) == is_enabled(config, task),
{
    let first = seq![PreCommitTask::StagedFiles, PreCommitTask::Metadata];
    let edition = task_if(config.edition_2024, PreCommitTask::Edition2024);
    let external = task_if(config.external_path_deps, PreCommitTask::ExternalDeps);
    let internal = task_if(config.internal_dev_deps_release_plz, PreCommitTask::InternalDevDeps);
    let rustfmt = task_if(config.rustfmt, PreCommitTask::Rustfmt);
    let lock = task_if(config.cargo_lock, PreCommitTask::CargoLock);
    let arborium = task_if(config.arborium, PreCommitTask::Arborium);
    lemma_in_either(first, edition, task);
    lemma_in_either(first + edition, external, task);
    lemma_in_either(first + edition + external, internal, task);
    lemma_in_either(first + edition + external + internal, rustfmt, task);
    lemma_in_either(first + edition + external + internal + rustfmt, lock, task);
    lemma_in_either(first + edition + external + internal + rustfmt + lock, arborium, task);
    lemma_task_if(config.edition_2024, PreCommitTask::Edition2024, task);
    lemma_task_if(config.external_path_deps, PreCommitTask::ExternalDeps, task);
    lemma_task_if(config.internal_dev_deps_release_plz, PreCommitTask::InternalDevDeps, task);
    lemma_task_if(config.rustfmt, PreCommitTask::Rustfmt, task);
    lemma_task_if(config.cargo_lock, PreCommitTask::CargoLock, task);
    lemma_task_if(config.arborium, PreCommitTask::Arborium, task);
    assert(first[0] == PreCommitTask::StagedFiles);
    assert(first[1] == PreCommitTask::Metadata);
}

/// The reminder that the setting for READMEs is ignored, where it is set.
pub fn readme_notice(config: &PreCommitConfig) -> (r: Option<&'static str>)
    ensures
        match r {
            Some(line) => config.generate_readmes && line@
                == "`pre-commit.generate-readmes` is deprecated and ignored; use `cargo-reedme` instead"@,
            None => !config.generate_readmes,
        },
{
    if config.generate_readmes {
        Some(
            "`pre-commit.generate-readmes` is deprecated and ignored; use `cargo-reedme` instead",
        )
    } else {
        None
    }
}

/// What the pre-commit hook starts with.
pub struct PreCommitStart {
    /// The line to print, if there is one.
    pub notice: Option<&'static str>,
    /// The tasks.
    pub plan: Vec<PreCommitTask>,
}

/// What the pre-commit hook starts with, under some settings.
pub fn run_pre_commit(config: &PreCommitConfig) -> (r: PreCommitStart)
    ensures
        r.plan@ == pre_commit_plan(*config),
        r.notice is Some == config.generate_readmes,
        r.notice matches Some(line) ==> line@
            == "`pre-commit.generate-readmes` is deprecated and ignored; use `cargo-reedme` instead"@,
{
    PreCommitStart { notice: readme_notice(config), plan: plan_pre_commit(config) }
}

/// The tasks of a plan that can start: those that need nothing at the beginning, and later
/// those that waited for the task that is done.
pub open spec fn startable(plan: Seq<PreCommitTask>, done: Option<PreCommitTask>) -> Seq<
    PreCommitTask,
>
    decreases plan.len(),
{
    if plan.len() == 0 {
        Seq::empty()
    } else {
        let before = startable(plan.drop_last(), done);
        if can_start(plan.last(), done) {
            before.push(plan.last())
        } else {
            before
        }
    }
}

/// A task can start now.
pub open spec fn can_start(task: PreCommitTask, done: Option<PreCommitTask>) -> bool {
    match done {
        None => task.prerequisites().len() == 0,
        Some(last) => unlocked_by_last(task.prerequisites(), seq![last]),
    }
}

/// The tasks of a plan that can start at the beginning, or because a task is done.
pub fn tasks_to_start(plan: &Vec<PreCommitTask>, done: Option<PreCommitTask>) -> (r: Vec<
    PreCommitTask,
>)
    ensures
        r@ == startable(plan@, done),
{
    let mut list: Vec<PreCommitTask> = Vec::new();
    let mut i: usize = 0;
    assert(plan@.take(0) =~= Seq::empty());
    while i < plan.len()
        invariant
            i <= plan@.len(),
            list@ == startable(plan@.take(i as int), done),
        decreases plan@.len() - i,
    {
        let task = plan[i];
        proof {
            assert(plan@.take(i + 1).drop_last() =~= plan@.take(i as int));
            assert(plan@.take(i + 1).last() == task);
        }
        let now = match done {
            None => task.needs().is_none(),
            Some(last) => task.is_unlocked(last),
        };
        if now {
            list.push(task);
        }
        i = i + 1;
    }
    proof {
        assert(plan@.take(i as int) =~= plan@);
    }
    list
}

/// What can start is in the plan, and nothing in the plan that can start is left out.
pub proof fn lemma_startable(
    plan: Seq<PreCommitTask>,
    done: Option<PreCommitTask>,
    task: PreCommitTask,
)
    ensures
        startable(plan, done).contains(task) == (plan.contains(task) && can_start(task, done)),
    decreases plan.len(),
{
    if plan.len() > 0 {
        let rest = plan.drop_last();
        let last = seq![plan.last()];
        lemma_startable(rest, done, task);
        lemma_in_either(rest, last, task);
        lemma_in_either(startable(rest, done), last, task);
        assert(last[0] == plan.last());
        assert(plan =~= rest + last);
        if can_start(plan.last(), done) {
            assert(startable(plan, done) =~= startable(rest, done) + last);
        }
    }
}

// ---- the end ----

/// The end of the tasks: their jobs, or the lines that tell of the failures.
pub fn finish_pre_commit(results: TaskResults) -> (r: Result<Vec<Job>, Vec<String>>)
    ensures
        match r {
            Ok(jobs) => !any_failed(results.results@) && jobs@ == all_jobs(results.results@),
            Err(lines) => any_failed(results.results@) && texts(lines@) == all_failure_lines(
                results.results@,
            ),
        },
        r is Ok <==> all_went_well(results.results@),
{
    if results.has_failures() {
        return Err(results.print_failures());
    }
    Ok(results.collect_jobs())
}

/// Returns true if the given path is gitignored, given the exit code of `git check-ignore`; none
/// where it could not be run or was ended by a signal.
pub fn is_gitignored(code: Option<i32>) -> (r: bool)
    ensures
        r == (code == Some(0i32)),
        r == says_ignored(code),
{
    match code {
        Some(n) => n == 0,
        None => false,
    }
}

/// The line that tells that the checks are done. `elapsed` tells how long they took.
pub fn completed_line(elapsed: &str) -> (r: String)
    ensures
        r@ == "\n  "@ + in_green("✓"@) + " Pre-commit checks completed in "@ + elapsed@ + "\n"@,
{
    let mut line = "\n  ".to_owned();
    line.append(green("✓").as_str());
    line.append(" Pre-commit checks completed in ");
    line.append(elapsed);
    line.append("\n");
    line
}

/// The line that tells of an applied job: an icon for its kind of file and its path.
pub open spec fn job_line(path: Seq<char>) -> Seq<char> {
    "  "@ + in_cyan(
        icon(
            match extension(path) {
                Some(ext) => ext,
                None => ""@,
            },
        ),
    ) + " "@ + path
}

/// What is told of the jobs that were applied.
pub open spec fn summary_lines(jobs: Seq<Job>) -> Seq<Seq<char>> {
    if jobs.len() == 0 {
        seq![in_bold(in_green("All generated files are up-to-date"@))]
    } else {
        seq!["\n"@ + in_green("These files have been automatically formatted and staged:"@)]
            + Seq::new(jobs.len(), |i: int| job_line(jobs[i].path@)) + seq![
            "\n"@ + in_green("The commit is ready to push - no 'git amend' is necessary."@),
        ]
    }
}

/// What is to be told of the jobs once they are applied.
pub fn applied_summary(jobs: &Vec<Job>) -> (r: Vec<String>)
    ensures
        texts(r@) == summary_lines(jobs@),
{
    let mut lines: Vec<String> = Vec::new();
    if jobs.len() == 0 {
        push_text(
            &mut lines,
            bold(green("All generated files are up-to-date").as_str()).as_str(),
        );
        proof {
            assert(texts(lines@) =~= summary_lines(jobs@));
        }
        return lines;
    }
    let mut head = "\n".to_owned();
    head.append(green("These files have been automatically formatted and staged:").as_str());
    push_text(&mut lines, head.as_str());
    let ghost wanted = Seq::new(jobs@.len(), |i: int| job_line(jobs@[i].path@));
    let mut i: usize = 0;
    while i < jobs.len()
        invariant
            i <= jobs@.len(),
            wanted == Seq::new(jobs@.len(), |i: int| job_line(jobs@[i].path@)),
            texts(lines@) =~= seq![head@] + wanted.take(i as int),
        decreases jobs@.len() - i,
    {
        let path = jobs[i].path.as_str();
        let ext = match extension_of(path) {
            Some(ext) => ext,
            None => "".to_owned(),
        };
        let mut line = "  ".to_owned();
        line.append(cyan(icon_for_extension(ext.as_str())).as_str());
        line.append(" ");
        line.append(path);
        push_text(&mut lines, line.as_str());
        proof {
            assert(line@ == wanted[i as int]);
            assert(wanted.take(i + 1) =~= wanted.take(i as int).push(line@));
        }
        i = i + 1;
    }
    let mut tail = "\n".to_owned();
    tail.append(green("The commit is ready to push - no 'git amend' is necessary.").as_str());
    push_text(&mut lines, tail.as_str());
    proof {
        assert(wanted.take(i as int) =~= wanted);
        assert(texts(lines@) =~= summary_lines(jobs@));
    }
    lines
}

/// Puts the jobs in the order in which they are applied, and says what to tell of them once
/// they are.
pub fn show_and_apply_jobs(jobs: Vec<Job>) -> (r: (Vec<Job>, Vec<String>))
    ensures
        r.0@ == by_path(jobs@),
        texts(r.1@) == summary_lines(by_path(jobs@)),
{
    let ordered = sort_jobs(jobs);
    let lines = applied_summary(&ordered);
    (ordered, lines)
}

// ---- laws of the tasks ----

/// A task is planned exactly if its setting is on; those that find the staged files and load
/// the metadata are planned always.
pub proof fn lemma_planned_checks(config: PreCommitConfig)
    ensures
        pre_commit_plan(config).contains(PreCommitTask::StagedFiles),
        pre_commit_plan(config).contains(PreCommitTask::Metadata),
        pre_commit_plan(config).contains(PreCommitTask::Edition2024) == config.edition_2024,
        pre_commit_plan(config).contains(PreCommitTask::ExternalDeps) == config.external_path_deps,
        pre_commit_plan(config).contains(PreCommitTask::InternalDevDeps)
            == config.internal_dev_deps_release_plz,
        pre_commit_plan(config).contains(PreCommitTask::Rustfmt) == config.rustfmt,
        pre_commit_plan(config).contains(PreCommitTask::CargoLock) == config.cargo_lock,
        pre_commit_plan(config).contains(PreCommitTask::Arborium) == config.arborium,
{
    lemma_pre_commit_plan_follows_settings(config, PreCommitTask::StagedFiles);
    lemma_pre_commit_plan_follows_settings(config, PreCommitTask::Metadata);
    lemma_pre_commit_plan_follows_settings(config, PreCommitTask::Edition2024);
    lemma_pre_commit_plan_follows_settings(config, PreCommitTask::ExternalDeps);
    lemma_pre_commit_plan_follows_settings(config, PreCommitTask::InternalDevDeps);
    lemma_pre_commit_plan_follows_settings(config, PreCommitTask::Rustfmt);
    lemma_pre_commit_plan_follows_settings(config, PreCommitTask::CargoLock);
    lemma_pre_commit_plan_follows_settings(config, PreCommitTask::Arborium);
}

/// At the beginning of a plan those tasks start that wait for nothing. Formatting starts once
/// the staged files are known, and what looks at the workspace once the metadata is loaded.
/// When any other task is done, nothing starts.
pub proof fn lemma_what_starts_when(
    plan: Seq<PreCommitTask>,
    task: PreCommitTask,
    done: PreCommitTask,
)
    ensures
        startable(plan, None).contains(task) <==> plan.contains(task) && (task
            == PreCommitTask::StagedFiles || task == PreCommitTask::Metadata || task
            == PreCommitTask::CargoLock),
        startable(plan, Some(done)).contains(task) <==> plan.contains(task) && (done
            == PreCommitTask::StagedFiles && task == PreCommitTask::Rustfmt || done
            == PreCommitTask::Metadata && (task == PreCommitTask::Edition2024 || task
            == PreCommitTask::ExternalDeps || task == PreCommitTask::InternalDevDeps || task
            == PreCommitTask::Arborium)),
{
    lemma_startable(plan, None, task);
    lemma_startable(plan, Some(done), task);
    let needs = task.prerequisites();
    assert(seq![done].last() == done && seq![done][0] == done);
    assert(needs.len() <= 1);
    if needs.len() > 0 {
        assert(needs[0] == needs[0]);
    }
    if unlocked_by_last(needs, seq![done]) {
        let i = needs.index_of(done);
        assert(needs[i] == done);
    }
    if needs.len() == 1 && needs[0] == done {
        assert(needs.contains(done));
        assert(unlocked_by_last(needs, seq![done]));
    }
}

/// No two tasks are shown under the same name.
pub proof fn lemma_names_differ(a: PreCommitTask, b: PreCommitTask)
    ensures
        a.title() == b.title() ==> a == b,
{
    reveal_strlit("staged-files");
    reveal_strlit("metadata");
    reveal_strlit("edition-2024");
    reveal_strlit("external-deps");
    reveal_strlit("internal-dev-deps");
    reveal_strlit("rustfmt");
    reveal_strlit("cargo-lock");
    reveal_strlit("arborium");
    assert("staged-files"@[0] == 's' && "metadata"@[0] == 'm' && "edition-2024"@[0] == 'e');
    assert("external-deps"@[0] == 'e' && "external-deps"@[1] == 'x' && "edition-2024"@[1] == 'd');
    assert("internal-dev-deps"@[0] == 'i' && "rustfmt"@[0] == 'r' && "cargo-lock"@[0] == 'c');
    assert("arborium"@[0] == 'a');
}

/// A check that finds nothing is a success with nothing to apply; one that finds something is
/// a failure that tells it.
pub proof fn lemma_check_becomes_task(summary: Seq<char>, details: Seq<char>)
    ensures
        check_outcome(None) == TaskOutcome::Success(None, Seq::empty()),
        check_outcome(Some((summary, details))) == TaskOutcome::Failed(summary, details),
{
}

/// What is told of applied jobs: one line for each between a head and a tail, each ending with
/// the path of its file; a single line where there are none.
pub proof fn lemma_applied_jobs_are_told(jobs: Seq<Job>)
    ensures
        jobs.len() == 0 ==> summary_lines(jobs).len() == 1,
        jobs.len() > 0 ==> summary_lines(jobs).len() == jobs.len() + 2,
        forall|i: int| #![trigger jobs[i]]
            0 <= i < jobs.len() ==> {
                let line = summary_lines(jobs)[i + 1];
                let path = jobs[i].path@;
                &&& line.len() > path.len()
                &&& line.skip(line.len() - path.len()) == path
            },
{
    assert forall|i: int| #![trigger jobs[i]] 0 <= i < jobs.len() implies ({
        let line = summary_lines(jobs)[i + 1];
        let path = jobs[i].path@;
        &&& line.len() > path.len()
        &&& line.skip(line.len() - path.len()) == path
    }) by {
        let line = summary_lines(jobs)[i + 1];
        let path = jobs[i].path@;
        reveal_strlit("  ");
        assert(line == job_line(path));
        assert(line.skip(line.len() - path.len()) =~= path);
    }
}

/// The line of a file shows the icon for the extension of its name, and the icon for none where
/// it has none.
pub proof fn lemma_job_line(dir: Seq<Seq<char>>, stem: Seq<char>, ext: Seq<char>)
    requires
        are_plain_names(dir),
    ensures
        is_plain_name(stem + seq!['.'] + ext) && stem.len() > 0 && !ext.contains('.') && stem
            + seq!['.'] + ext != seq!['.', '.'] ==> job_line(
            rooted(dir.push(stem + seq!['.'] + ext)),
        ) == "  "@ + in_cyan(icon(ext)) + " "@ + rooted(dir.push(stem + seq!['.'] + ext)),
        is_plain_name(stem) && (forall|i: int| 0 < i < stem.len() ==> stem[i] != '.') ==> job_line(
            rooted(dir.push(stem)),
        ) == "  "@ + in_cyan(icon(Seq::empty())) + " "@ + rooted(dir.push(stem)),
{
    reveal_strlit("");
    assert(""@ =~= Seq::empty());
    lemma_rooted_extension(dir, stem, ext);
}

/// The exit code of `git check-ignore` says that a path is ignored.
pub open spec fn says_ignored(code: Option<i32>) -> bool {
    code == Some(0i32)
}

/// Only the exit code 0 says that a path is ignored.
pub proof fn lemma_only_zero_is_ignored(code: i32)
    ensures
        says_ignored(Some(code)) <==> code == 0,
        !says_ignored(None),
{
}

} // verus!
