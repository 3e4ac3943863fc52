//! Capn initialization command: what is asked and which files are written.

use crate::output::{ascii_lower, lower_text, to_lower, CommandOutput};
use crate::path::{
    are_plain_names, is_plain_name, join_path, joined_path, lemma_rooted_is_unique,
    lemma_rooted_join, lemma_rooted_push, rooted, slashed,
};
use crate::text::{
    is_blank, is_made_of, is_whitespace, lemma_trimmed, lemma_trimmed_to, text_eq, trim, trimmed,
};
use vstd::prelude::*;
use vstd::string::*;
use vstd::utf8::is_ascii_chars;

verus! {

/// The pre-commit hook.
pub const PRE_COMMIT_HOOK: &'static str = r#"#!/bin/bash
capn
"#;

/// The pre-push hook.
pub const PRE_PUSH_HOOK: &'static str = r#"#!/bin/bash
capn pre-push
"#;

/// The script that installs the hooks.
pub const INSTALL_SCRIPT: &'static str = r#"#!/usr/bin/env bash
set -euo pipefail

HOOK_SOURCE_DIR="$(git rev-parse --show-toplevel)/hooks"
GIT_DIR="$(git rev-parse --git-dir)"

copy_hook() {
  local src="$1"
  local dst="$2"

  mkdir -p "$(dirname "$dst")"
  cp "$src" "$dst"
  chmod +x "$dst"

  echo "✔ installed $(basename "$src") → $dst"
}

install_for_dir() {
  local hook_dir="$1"

  for hook in "$HOOK_SOURCE_DIR"/*; do
    local name
    name="$(basename "$hook")"
    # Skip install.sh itself
    if [ "$name" = "install.sh" ]; then
      continue
    fi
    local target="$hook_dir/$name"

    copy_hook "$hook" "$target"
  done
}

echo "Installing hooks from $HOOK_SOURCE_DIR …"

# main repo
install_for_dir "$GIT_DIR/hooks"

# worktrees
for wt in "$GIT_DIR"/worktrees/*; do
  if [ -d "$wt" ]; then
    install_for_dir "$wt/hooks"
  fi
done

echo "All hooks installed successfully."
"#;

/// The configuration for Conductor.
pub const CONDUCTOR_CONFIG: &'static str = r#"{
  "scripts": {
    "setup": "hooks/install.sh"
  }
}
"#;

/// The configuration that is written for a new repository.
pub const DEFAULT_CONFIG: &'static str = r#"@schema {id crate:capn-config@1, cli capn}

// Capn configuration
// Most options default to true. Set to false to disable.

pre-commit {
  // generate-readmes true // deprecated and ignored; use cargo-reedme
  // rustfmt false
  // cargo-lock false
  // arborium false
  // edition-2024 false
  // external-path-deps false
  // internal-dev-deps-release-plz false
}

pre-push {
  // clippy false
  // nextest false
  // doc-tests false
  // docs false
  // cargo-shear false

  // Feature configuration (uncomment and customize as needed)
  // clippy-features (feature1 feature2)
  // doc-test-features (feature1)
  // docs-features (feature1)
}
"#;

// ---- the start ----

/// `git rev-parse --git-dir` could be run and succeeded: the current directory is in a
/// repository.
pub open spec fn is_in_repository(check: Result<CommandOutput, String>) -> bool {
    check matches Ok(output) && output.succeeded()
}

/// Whether the current directory is in a repository, given what came of
/// `git rev-parse --git-dir`.
pub fn in_repository(check: &Result<CommandOutput, String>) -> (r: bool)
    ensures
        r == is_in_repository(*check),
        r == (*check matches Ok(output) && output.code == Some(0i32)),
{
    match check {
        Ok(output) => output.success(),
        Err(_) => false,
    }
}

/// How the command ends where there is nothing to initialize.
pub struct InitRefusal {
    /// What is told.
    pub line: &'static str,
    /// The exit code of the process.
    pub exit_code: i32,
}

/// Whether anything is asked at all: outside a repository the command ends at once.
pub fn start_init(check: &Result<CommandOutput, String>) -> (r: Result<(), InitRefusal>)
    ensures
        match r {
            Ok(()) => is_in_repository(*check),
            Err(refusal) => !is_in_repository(*check) && refusal.exit_code == 1 && refusal.line@
                == "Not in a git repository. Please run 'git init' first."@,
        },
{
    if in_repository(check) {
        Ok(())
    } else {
        Err(
            InitRefusal {
                line: "Not in a git repository. Please run 'git init' first.",
                exit_code: 1,
            },
        )
    }
}

// ---- questions ----

/// A question, in the order in which they are asked.
#[derive(Debug, Clone, Copy, PartialEq, Eq, Structural)]
pub enum InitQuestion {
    /// Whether to create the hooks.
    Hooks,
    /// Whether to create the configuration for Conductor.
    Conductor,
    /// Whether to create the configuration of the hooks.
    Config,
}

impl InitQuestion {
    /// What is asked.
    pub open spec fn words(self) -> Seq<char> {
        match self {
            InitQuestion::Hooks => "Create git hooks (pre-commit, pre-push)?"@,
            InitQuestion::Conductor => "Create conductor.json for Conductor (conductor.build)?"@,
            InitQuestion::Config => "Create .config/capn/ with config.styx?"@,
        }
    }

    /// What is asked.
    pub fn text(&self) -> (r: &'static str)
        ensures
            r@ == self.words(),
    {
        match self {
            InitQuestion::Hooks => "Create git hooks (pre-commit, pre-push)?",
            InitQuestion::Conductor => "Create conductor.json for Conductor (conductor.build)?",
            InitQuestion::Config => "Create .config/capn/ with config.styx?",
        }
    }

    /// Whether the question is asked: that about a configuration is not where there is one.
    pub fn is_asked(&self, config_exists: bool) -> (r: bool)
        ensures
            r == !(*self == InitQuestion::Config && config_exists),
    {
        !(*self == InitQuestion::Config && config_exists)
    }
}

/// The answer to one question, with no to the others.
pub open spec fn one_answer(question: InitQuestion, yes: bool) -> InitAnswers {
    InitAnswers {
        hooks: question == InitQuestion::Hooks && yes,
        conductor: question == InitQuestion::Conductor && yes,
        config: question == InitQuestion::Config && yes,
    }
}

impl InitAnswers {
    /// The answer to one question, with no to the others.
    pub fn to(question: InitQuestion, yes: bool) -> (r: Self)
        ensures
            r == one_answer(question, yes),
    {
        InitAnswers {
            hooks: question == InitQuestion::Hooks && yes,
            conductor: question == InitQuestion::Conductor && yes,
            config: question == InitQuestion::Config && yes,
        }
    }
}

/// A question with the hint that tells its default.
pub open spec fn question_line(question: Seq<char>, default: bool) -> Seq<char> {
    question + " "@ + (if default {
        "[Y/n]"@
    } else {
        "[y/N]"@
    }) + " "@
}

/// The line that asks a question, with the hint that tells its default.
pub fn prompt_line(question: &str, default: bool) -> (r: String)
    ensures
        r@ == question_line(question@, default),
{
    let hint = if default {
        "[Y/n]"
    } else {
        "[y/N]"
    };
    let mut line = question.to_owned();
    line.append(" ");
    line.append(hint);
    line.append(" ");
    line
}

/// An answer in lower case means yes; no answer means the default.
pub open spec fn means_yes(answer: Seq<char>, default: bool) -> bool {
    if answer.len() == 0 {
        default
    } else {
        answer == "y"@ || answer == "yes"@
    }
}

/// Whether an answer in lower case means yes.
pub fn is_yes(answer: &str, default: bool) -> (r: bool)
    ensures
        r == means_yes(answer@, default),
{
    if answer.unicode_len() == 0 {
        return default;
    }
    text_eq(answer, "y") || text_eq(answer, "yes")
}

/// Prompt the user for yes/no confirmation: what the line that was read means. No line means
/// the default.
pub fn prompt_yes_no(line: &Option<String>, default: bool) -> (r: bool)
    ensures
        r == match *line {
            Some(input) => means_yes(lower_text(trimmed(input@)), default),
            None => default,
        },
{
    match line {
        Some(input) => is_yes(to_lower(trim(input.as_str()).as_str()).as_str(), default),
        None => default,
    }
}

// ---- files ----

/// The answers to the questions, in the order in which they are asked.
pub struct InitAnswers {
    /// Create git hooks (pre-commit, pre-push)?
    pub hooks: bool,
    /// Create conductor.json for Conductor (conductor.build)?
    pub conductor: bool,
    /// Create .config/capn/ with config.styx? Not asked where that directory exists.
    pub config: bool,
}

/// A file that is written.
pub struct InitFile {
    /// Its path.
    pub path: String,
    /// What it holds.
    pub content: &'static str,
    /// Whether it is made executable.
    pub executable: bool,
}

/// What a file that is written is.
pub struct InitFileView {
    pub path: Seq<char>,
    pub content: Seq<char>,
    pub executable: bool,
}

impl View for InitFile {
    type V = InitFileView;

    open spec fn view(&self) -> InitFileView {
        InitFileView {
            path: self.path@,
            content: self.content@,
            executable: self.executable,
        }
    }
}

/// The hooks and the script that installs them.
pub open spec fn hook_files(workspace: Seq<char>) -> Seq<InitFileView> {
    let dir = joined_path(workspace, "hooks"@);
    seq![
        InitFileView {
            path: joined_path(dir, "pre-commit"@),
            content: PRE_COMMIT_HOOK@,
            executable: true,
        },
        InitFileView {
            path: joined_path(dir, "pre-push"@),
            content: PRE_PUSH_HOOK@,
            executable: true,
        },
        InitFileView {
            path: joined_path(dir, "install.sh"@),
            content: INSTALL_SCRIPT@,
            executable: true,
        },
    ]
}

/// The configuration for Conductor.
pub open spec fn conductor_files(workspace: Seq<char>) -> Seq<InitFileView> {
    seq![
        InitFileView {
            path: joined_path(workspace, "conductor.json"@),
            content: CONDUCTOR_CONFIG@,
            executable: false,
        },
    ]
}

/// The configuration of the hooks.
pub open spec fn config_files(workspace: Seq<char>) -> Seq<InitFileView> {
    seq![
        InitFileView {
            path: joined_path(joined_path(workspace, ".config/capn"@), "config.styx"@),
            content: DEFAULT_CONFIG@,
            executable: false,
        },
    ]
}

/// The files if they are wanted.
pub open spec fn files_if(wanted: bool, files: Seq<InitFileView>) -> Seq<InitFileView> {
    if wanted {
        files
    } else {
        Seq::empty()
    }
}

/// The files that are written: those that were asked for, but for a configuration where there
/// is one already.
pub open spec fn init_files(
    workspace: Seq<char>,
    answers: InitAnswers,
    config_exists: bool,
) -> Seq<InitFileView> {
    files_if(answers.hooks, hook_files(workspace)) + files_if(
        answers.conductor,
        conductor_files(workspace),
    ) + files_if(answers.config && !config_exists, config_files(workspace))
}

/// What the files of a list are.
pub open spec fn file_views(files: Seq<InitFile>) -> Seq<InitFileView> {
    Seq::new(files.len(), |i: int| files[i]@)
}

/// The files that are written to initialize a repository, or the exit code where there is
/// none: then nothing is written. `check` is what came of `git rev-parse --git-dir`, and
/// `config_exists` tells whether there is a `.config/capn` already.
pub fn run_init(
    check: &Result<CommandOutput, String>,
    workspace_dir: &str,
    answers: &InitAnswers,
    config_exists: bool,
) -> (r: Result<Vec<InitFile>, i32>)
    ensures
        match r {
            Ok(files) => is_in_repository(*check) && file_views(files@) == init_files(
                workspace_dir@,
                *answers,
                config_exists,
            ),
            Err(code) => !is_in_repository(*check) && code == 1,
        },
{
    match start_init(check) {
        Ok(()) => {},
        Err(refusal) => {
            return Err(refusal.exit_code);
        },
    }
    let mut files: Vec<InitFile> = Vec::new();
    if answers.hooks {
        let dir = join_path(workspace_dir, "hooks");
        files.push(
            InitFile {
                path: join_path(dir.as_str(), "pre-commit"),
                content: PRE_COMMIT_HOOK,
                executable: true,
            },
        );
        files.push(
            InitFile {
                path: join_path(dir.as_str(), "pre-push"),
                content: PRE_PUSH_HOOK,
                executable: true,
            },
        );
        files.push(
            InitFile {
                path: join_path(dir.as_str(), "install.sh"),
                content: INSTALL_SCRIPT,
                executable: true,
            },
        );
    }
    if answers.conductor {
        files.push(
            InitFile {
                path: join_path(workspace_dir, "conductor.json"),
                content: CONDUCTOR_CONFIG,
                executable: false,
            },
        );
    }
    if answers.config && !config_exists {
        let dir = join_path(workspace_dir, ".config/capn");
        files.push(
            InitFile {
                path: join_path(dir.as_str(), "config.styx"),
                content: DEFAULT_CONFIG,
                executable: false,
            },
        );
    }
    proof {
        assert(file_views(files@) =~= init_files(workspace_dir@, *answers, config_exists));
    }
    Ok(files)
}

/// The files can be written answer by answer: what the answers come to together is what each
/// of them comes to alone, one after the other.
pub proof fn lemma_init_answer_by_answer(
    workspace: Seq<char>,
    answers: InitAnswers,
    config_exists: bool,
)
    ensures
        init_files(workspace, answers, config_exists) == init_files(
            workspace,
            one_answer(InitQuestion::Hooks, answers.hooks),
            config_exists,
        ) + init_files(
            workspace,
            one_answer(InitQuestion::Conductor, answers.conductor),
            config_exists,
        ) + init_files(
            workspace,
            one_answer(InitQuestion::Config, answers.config),
            config_exists,
        ),
{
    assert(init_files(workspace, answers, config_exists) =~= init_files(
        workspace,
        one_answer(InitQuestion::Hooks, answers.hooks),
        config_exists,
    ) + init_files(
        workspace,
        one_answer(InitQuestion::Conductor, answers.conductor),
        config_exists,
    ) + init_files(
        workspace,
        one_answer(InitQuestion::Config, answers.config),
        config_exists,
    ));
}

/// A configuration that is there is never overwritten: whatever was answered, the files are
/// those for a repository that wants none.
pub proof fn lemma_init_keeps_config(workspace: Seq<char>, answers: InitAnswers)
    ensures
        init_files(workspace, answers, true) == init_files(
            workspace,
            InitAnswers { config: false, ..answers },
            false,
        ),
{
}

// ---- laws of the questions ----

/// An answer is `y` or `yes`, in capital letters or not.
pub open spec fn spells_yes(answer: Seq<char>) -> bool {
    &&& answer.len() == 1 || answer.len() == 3
    &&& answer[0] == 'y' || answer[0] == 'Y'
    &&& answer.len() == 3 ==> (answer[1] == 'e' || answer[1] == 'E') && (answer[2] == 's'
        || answer[2] == 'S')
}

/// An answer of ASCII means yes exactly if it is `y` or `yes`, in capital letters or not and
/// whatever blanks stand around it; a blank one means the default.
pub proof fn lemma_answer(before: Seq<char>, answer: Seq<char>, after: Seq<char>, default: bool)
    requires
        is_blank(before),
        is_blank(after),
        is_ascii_chars(answer),
        answer.len() > 0,
        !is_whitespace(answer[0]),
        !is_whitespace(answer.last()),
    ensures
        means_yes(lower_text(trimmed(before + answer + after)), default) <==> spells_yes(answer),
        means_yes(lower_text(trimmed(before)), default) == default,
{
    reveal_strlit("y");
    reveal_strlit("yes");
    lemma_trimmed_to(before, answer, after);
    let lower = lower_text(answer);
    assert(lower.len() == answer.len());
    assert(lower[0] == ascii_lower(answer[0]));
    if answer.len() == 3 {
        assert(lower[1] == ascii_lower(answer[1]) && lower[2] == ascii_lower(answer[2]));
        if spells_yes(answer) {
            assert(lower =~= "yes"@);
        }
    }
    if answer.len() == 1 && spells_yes(answer) {
        assert(lower =~= "y"@);
    }
    lemma_trimmed(before);
    let t = trimmed(before);
    if t.len() > 0 {
        let (b, a) = choose|b: Seq<char>, a: Seq<char>| #[trigger]
            is_made_of(before, b, t, a) && is_blank(b) && is_blank(a);
        assert(before[b.len() as int] == t[0]);
        assert(is_whitespace(before[b.len() as int]));
    }
}

/// The hint at the end of a question shows its default in a capital letter.
pub proof fn lemma_question(question: Seq<char>)
    ensures
        question_line(question, true) == question + " [Y/n] "@,
        question_line(question, false) == question + " [y/N] "@,
{
    reveal_strlit(" ");
    reveal_strlit("[Y/n]");
    reveal_strlit("[y/N]");
    reveal_strlit(" [Y/n] ");
    reveal_strlit(" [y/N] ");
    assert(question_line(question, true) =~= question + " [Y/n] "@);
    assert(question_line(question, false) =~= question + " [y/N] "@);
}

/// A path leads to a file that is written.
pub open spec fn is_written(files: Seq<InitFileView>, path: Seq<char>) -> bool {
    exists|i: int| 0 <= i < files.len() && (#[trigger] files[i]).path == path
}

/// The files that are written are those that were asked for, in the workspace, and no other,
/// each with its own content; the hooks and their installer are executable, the configurations
/// are not.
pub proof fn lemma_written_files(
    workspace: Seq<Seq<char>>,
    answers: InitAnswers,
    config_exists: bool,
)
    requires
        are_plain_names(workspace),
    ensures
        ({
            let files = init_files(rooted(workspace), answers, config_exists);
            let hooks = workspace.push("hooks"@);
            let config = workspace.push(".config"@).push("capn"@);
            let hook_paths = seq![
                rooted(hooks.push("pre-commit"@)),
                rooted(hooks.push("pre-push"@)),
                rooted(hooks.push("install.sh"@)),
            ];
            &&& is_written(files, hook_paths[0]) == answers.hooks
            &&& is_written(files, hook_paths[1]) == answers.hooks
            &&& is_written(files, hook_paths[2]) == answers.hooks
            &&& is_written(files, rooted(workspace.push("conductor.json"@))) == answers.conductor
            &&& is_written(files, rooted(config.push("config.styx"@))) == (answers.config
                && !config_exists)
            &&& forall|i: int|
                0 <= i < files.len() ==> (hook_paths.contains((#[trigger] files[i]).path)
                    || files[i].path == rooted(workspace.push("conductor.json"@)) || files[i].path
                    == rooted(config.push("config.styx"@))) && files[i].executable
                    == hook_paths.contains(files[i].path)
            &&& forall|i: int|
                0 <= i < files.len() ==> {
                    &&& (#[trigger] files[i]).path == hook_paths[0] ==> files[i].content
                        == PRE_COMMIT_HOOK@
                    &&& files[i].path == hook_paths[1] ==> files[i].content == PRE_PUSH_HOOK@
                    &&& files[i].path == hook_paths[2] ==> files[i].content == INSTALL_SCRIPT@
                    &&& files[i].path == rooted(workspace.push("conductor.json"@))
                        ==> files[i].content == CONDUCTOR_CONFIG@
                    &&& files[i].path == rooted(config.push("config.styx"@)) ==> files[i].content
                        == DEFAULT_CONFIG@
                }
        }),
{
    let root = rooted(workspace);
    let files = init_files(root, answers, config_exists);
    let hooks = workspace.push("hooks"@);
    let dot = workspace.push(".config"@);
    let config = dot.push("capn"@);
    reveal_strlit("hooks");
    reveal_strlit("pre-commit");
    reveal_strlit("pre-push");
    reveal_strlit("install.sh");
    reveal_strlit("conductor.json");
    reveal_strlit(".config");
    reveal_strlit("capn");
    reveal_strlit(".config/capn");
    reveal_strlit("config.styx");
    assert("hooks"@[0] == 'h' && "pre-commit"@[0] == 'p' && "pre-push"@[0] == 'p');
    assert("pre-commit"@[4] == 'c' && "pre-push"@[4] == 'p' && "install.sh"@[0] == 'i');
    assert("conductor.json"@[0] == 'c' && ".config"@[1] == 'c' && "capn"@[0] == 'c');
    assert("config.styx"@[0] == 'c' && ".config"@[0] == '.');
    lemma_rooted_push(workspace, "hooks"@);
    lemma_rooted_push(hooks, "pre-commit"@);
    lemma_rooted_push(hooks, "pre-push"@);
    lemma_rooted_push(hooks, "install.sh"@);
    lemma_rooted_push(workspace, "conductor.json"@);
    lemma_rooted_push(workspace, ".config"@);
    lemma_rooted_push(dot, "capn"@);
    lemma_rooted_push(config, "config.styx"@);
    let two = seq![".config"@, "capn"@];
    assert forall|i: int| 0 <= i < two.len() implies is_plain_name(#[trigger] two[i]) by {}
    lemma_rooted_join(workspace, two);
    assert(two.drop_last() =~= seq![".config"@]);
    reveal_with_fuel(slashed, 3);
    assert(slashed(two) =~= ".config/capn"@);
    assert(workspace + two =~= config);
    let a = hooks.push("pre-commit"@);
    let b = hooks.push("pre-push"@);
    let c = hooks.push("install.sh"@);
    let d = workspace.push("conductor.json"@);
    let e = config.push("config.styx"@);
    lemma_paths_differ(a, b);
    lemma_paths_differ(a, c);
    lemma_paths_differ(a, d);
    lemma_paths_differ(a, e);
    lemma_paths_differ(b, c);
    lemma_paths_differ(b, d);
    lemma_paths_differ(b, e);
    lemma_paths_differ(c, d);
    lemma_paths_differ(c, e);
    lemma_paths_differ(d, e);
    let hook_paths = seq![rooted(a), rooted(b), rooted(c)];
    assert(hook_paths[0] == rooted(a) && hook_paths[1] == rooted(b) && hook_paths[2] == rooted(c));
    let n = if answers.hooks {
        3int
    } else {
        0int
    };
    let k = n + if answers.conductor {
        1int
    } else {
        0int
    };
    if answers.hooks {
        assert(files[0].path == rooted(a));
        assert(files[1].path == rooted(b));
        assert(files[2].path == rooted(c));
    }
    if answers.conductor {
        assert(files[n].path == rooted(d));
    }
    if answers.config && !config_exists {
        assert(files[k].path == rooted(e));
    }
}

proof fn lemma_paths_differ(a: Seq<Seq<char>>, b: Seq<Seq<char>>)
    requires
        are_plain_names(a),
        are_plain_names(b),
        a.last() != b.last(),
    ensures
        rooted(a) != rooted(b),
{
    if rooted(a) == rooted(b) {
        lemma_rooted_is_unique(a, b);
    }
}

/// A directory is in a repository exactly if git could be run there and exited with 0.
pub proof fn lemma_in_repository(output: CommandOutput, message: String)
    ensures
        is_in_repository(Ok(output)) <==> output.code == Some(0i32),
        !is_in_repository(Err(message)),
{
}

} // verus!
