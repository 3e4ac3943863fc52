//! Clean command to remove captain's shared target directory.

use crate::commands::init::{means_yes, prompt_yes_no};
use crate::output::lower_text;
use crate::paint::{bold, cyan, green, in_bold, in_cyan, in_dim, in_green, in_yellow, dimmed, yellow};
use crate::path::{are_plain_names, join_path, joined_path, lemma_rooted_push, rooted};
use crate::text::{push_text, texts, trimmed};
use crate::utils::dir_size::{format_size, size_text};
use vstd::prelude::*;
use vstd::string::*;

verus! {

/// The target directory that all workspaces once shared.
pub open spec fn shared_target(home: Seq<char>) -> Seq<char> {
    joined_path(joined_path(home, ".captain"@), "target"@)
}

/// The target directory that all workspaces once shared, under a home directory.
pub fn shared_target_dir(home: &str) -> (r: String)
    ensures
        r@ == shared_target(home@),
{
    join_path(join_path(home, ".captain").as_str(), "target")
}

/// What is told where there is no such directory.
pub fn nothing_to_clean(target_dir: &str) -> (r: String)
    ensures
        r@ == in_dim("Target directory does not exist: "@ + target_dir@),
{
    let mut line = "Target directory does not exist: ".to_owned();
    line.append(target_dir);
    dimmed(line.as_str())
}

/// What is told of the directory before it is removed.
pub open spec fn size_report(target_dir: Seq<char>, size: nat) -> Seq<Seq<char>> {
    seq![
        "Captain's shared target directory:"@,
        "  "@ + in_cyan(target_dir) + " "@ + in_bold(in_yellow(size_text(size))),
        ""@,
    ]
}

/// What is told of the directory, with its size in bytes, before it is removed.
pub fn describe_target(target_dir: &str, size: u64) -> (r: Vec<String>)
    ensures
        texts(r@) == size_report(target_dir@, size as nat),
{
    let mut lines: Vec<String> = Vec::new();
    push_text(&mut lines, "Captain's shared target directory:");
    let mut line = "  ".to_owned();
    line.append(cyan(target_dir).as_str());
    line.append(" ");
    line.append(bold(yellow(format_size(size).as_str()).as_str()).as_str());
    push_text(&mut lines, line.as_str());
    push_text(&mut lines, "");
    proof {
        assert(texts(lines@) =~= size_report(target_dir@, size as nat));
    }
    lines
}

/// Whether the directory is removed: only where the line that was read says so.
pub fn run_clean(line: &Option<String>) -> (r: bool)
    ensures
        r == (*line matches Some(input) && means_yes(lower_text(trimmed(input@)), false)),
        r ==> (*line matches Some(input) && trimmed(input@).len() > 0),
{
    prompt_yes_no(line, false)
}

/// What is told once the directory is removed.
pub fn cleaned_line(size: u64) -> (r: String)
    ensures
        r@ == in_green("✓"@) + " Cleaned "@ + size_text(size as nat) + " of build artifacts"@,
{
    let mut line = green("✓");
    line.append(" Cleaned ");
    line.append(format_size(size).as_str());
    line.append(" of build artifacts");
    line
}

/// The shared directory is `.captain/target` under the home directory.
pub proof fn lemma_shared_target(home: Seq<Seq<char>>)
    requires
        are_plain_names(home),
    ensures
        shared_target(rooted(home)) == rooted(home.push(".captain"@).push("target"@)),
{
    reveal_strlit(".captain");
    reveal_strlit("target");
    assert(".captain"@.len() == 8 && "target"@[0] == 't');
    lemma_rooted_push(home, ".captain"@);
    lemma_rooted_push(home.push(".captain"@), "target"@);
}

} // verus!
