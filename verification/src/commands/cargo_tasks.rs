//! Pre-push checks that cargo runs: the arguments that it gets and what its output means.

use crate::output::{
    decode_lossy, failure_details, format_command_failure, lemma_failure_tells, lossy_text,
    lower_text, shown_text, to_lower, ColorSupport, CommandOutput,
};
use crate::task::{plain_success, TaskOutcome, TaskResult};
use crate::text::{contains, has_text, join, joined, push_text, text_pairs, texts};
use vstd::prelude::*;
use vstd::string::*;

verus! {

// ---- arguments ----

/// The texts of a list that may be there.
pub open spec fn opt_texts(list: Option<Vec<String>>) -> Option<Seq<Seq<char>>> {
    match list {
        Some(l) => Some(texts(l@)),
        None => None,
    }
}

/// The arguments that select crates.
pub open spec fn package_args(crates: Seq<Seq<char>>) -> Seq<Seq<char>>
    decreases crates.len(),
{
    if crates.len() == 0 {
        Seq::empty()
    } else {
        package_args(crates.drop_last()) + seq!["-p"@, crates.last()]
    }
}

/// The arguments that select features: all of them where none are named, and no argument
/// for an empty list.
pub open spec fn feature_args(features: Option<Seq<Seq<char>>>) -> Seq<Seq<char>> {
    match features {
        None => seq!["--all-features"@],
        Some(list) => if list.len() > 0 {
            seq!["--features"@, joined(list, ","@)]
        } else {
            Seq::empty()
        },
    }
}

fn push_packages(args: &mut Vec<String>, crates: &Vec<String>)
    ensures
        texts(final(args)@) == texts(old(args)@) + package_args(texts(crates@)),
{
    let ghost before = texts(args@);
    let ghost all = texts(crates@);
    let mut i: usize = 0;
    assert(all.take(0) =~= Seq::empty());
    assert(before + package_args(all.take(0)) =~= before);
    while i < crates.len()
        invariant
            all == texts(crates@),
            i <= crates@.len(),
            texts(args@) == before + package_args(all.take(i as int)),
        decreases crates@.len() - i,
    {
        push_text(args, "-p");
        push_text(args, crates[i].as_str());
        proof {
            assert(all.take(i + 1).drop_last() =~= all.take(i as int));
            assert(texts(args@) =~= before + package_args(all.take(i + 1)));
        }
        i = i + 1;
    }
    proof {
        assert(all.take(i as int) =~= all);
    }
}

fn push_features(args: &mut Vec<String>, features: &Option<Vec<String>>)
    ensures
        texts(final(args)@) == texts(old(args)@) + feature_args(opt_texts(*features)),
{
    let ghost before = texts(args@);
    match features {
        None => {
            push_text(args, "--all-features");
        },
        Some(list) => {
            if list.len() > 0 {
                push_text(args, "--features");
                push_text(args, join(list, ",").as_str());
            }
        },
    }
    proof {
        assert(texts(args@) =~= before + feature_args(opt_texts(*features)));
    }
}

/// The arguments for clippy, with warnings as errors.
pub open spec fn clippy_words(features: Option<Seq<Seq<char>>>) -> Seq<Seq<char>> {
    seq!["clippy"@, "--workspace"@, "--all-targets"@] + feature_args(features) + seq![
        "--"@,
        "-D"@,
        "warnings"@,
    ]
}

/// The arguments for clippy, with warnings as errors.
pub fn clippy_args(features: &Option<Vec<String>>) -> (r: Vec<String>)
    ensures
        texts(r@) == clippy_words(opt_texts(*features)),
{
    let mut args: Vec<String> = Vec::new();
    push_text(&mut args, "clippy");
    push_text(&mut args, "--workspace");
    push_text(&mut args, "--all-targets");
    push_features(&mut args, features);
    push_text(&mut args, "--");
    push_text(&mut args, "-D");
    push_text(&mut args, "warnings");
    proof {
        assert(texts(args@) =~= clippy_words(opt_texts(*features)));
    }
    args
}

/// The arguments for the search for unused dependencies.
pub open spec fn shear_words() -> Seq<Seq<char>> {
    seq!["shear"@]
}

/// The arguments for the search for unused dependencies.
pub fn cargo_shear_args() -> (r: Vec<String>)
    ensures
        texts(r@) == shear_words(),
{
    let mut args: Vec<String> = Vec::new();
    push_text(&mut args, "shear");
    proof {
        assert(texts(args@) =~= shear_words());
    }
    args
}

/// The arguments that build the tests of some crates.
pub open spec fn build_tests_words(crates: Seq<Seq<char>>) -> Seq<Seq<char>> {
    seq!["nextest"@, "run"@, "--no-run"@] + package_args(crates)
}

/// The arguments that build the tests of some crates.
pub fn build_tests_args(crates: &Vec<String>) -> (r: Vec<String>)
    ensures
        texts(r@) == build_tests_words(texts(crates@)),
{
    let mut args: Vec<String> = Vec::new();
    push_text(&mut args, "nextest");
    push_text(&mut args, "run");
    push_text(&mut args, "--no-run");
    push_packages(&mut args, crates);
    proof {
        assert(texts(args@) =~= build_tests_words(texts(crates@)));
    }
    args
}

/// The arguments that run the tests of some crates. That there are none is no failure.
pub open spec fn run_tests_words(crates: Seq<Seq<char>>) -> Seq<Seq<char>> {
    seq!["nextest"@, "run"@] + package_args(crates) + seq!["--no-tests=pass"@]
}

/// The arguments that run the tests of some crates.
pub fn run_tests_args(crates: &Vec<String>) -> (r: Vec<String>)
    ensures
        texts(r@) == run_tests_words(texts(crates@)),
{
    let mut args: Vec<String> = Vec::new();
    push_text(&mut args, "nextest");
    push_text(&mut args, "run");
    push_packages(&mut args, crates);
    push_text(&mut args, "--no-tests=pass");
    proof {
        assert(texts(args@) =~= run_tests_words(texts(crates@)));
    }
    args
}

/// The arguments that run the documentation tests of some crates.
pub open spec fn doc_tests_words(
    crates: Seq<Seq<char>>,
    features: Option<Seq<Seq<char>>>,
) -> Seq<Seq<char>> {
    seq!["test"@, "--doc"@] + package_args(crates) + feature_args(features)
}

/// The arguments that run the documentation tests of some crates.
pub fn doc_tests_args(crates: &Vec<String>, features: &Option<Vec<String>>) -> (r: Vec<String>)
    ensures
        texts(r@) == doc_tests_words(texts(crates@), opt_texts(*features)),
{
    let mut args: Vec<String> = Vec::new();
    push_text(&mut args, "test");
    push_text(&mut args, "--doc");
    push_packages(&mut args, crates);
    push_features(&mut args, features);
    proof {
        assert(texts(args@) =~= doc_tests_words(texts(crates@), opt_texts(*features)));
    }
    args
}

/// The arguments that build the documentation of some crates.
pub open spec fn docs_words(
    crates: Seq<Seq<char>>,
    features: Option<Seq<Seq<char>>>,
) -> Seq<Seq<char>> {
    seq!["doc"@, "--no-deps"@] + package_args(crates) + feature_args(features)
}

/// The arguments that build the documentation of some crates.
pub fn docs_args(crates: &Vec<String>, features: &Option<Vec<String>>) -> (r: Vec<String>)
    ensures
        texts(r@) == docs_words(texts(crates@), opt_texts(*features)),
{
    let mut args: Vec<String> = Vec::new();
    push_text(&mut args, "doc");
    push_text(&mut args, "--no-deps");
    push_packages(&mut args, crates);
    push_features(&mut args, features);
    proof {
        assert(texts(args@) =~= docs_words(texts(crates@), opt_texts(*features)));
    }
    args
}

/// The environment that the documentation is built in: warnings are errors.
pub open spec fn docs_vars() -> Seq<(Seq<char>, Seq<char>)> {
    seq![("RUSTDOCFLAGS"@, "-D warnings"@)]
}

/// The environment that the documentation is built in.
pub fn docs_env() -> (r: Vec<(String, String)>)
    ensures
        text_pairs(r@) == docs_vars(),
{
    let mut vars: Vec<(String, String)> = Vec::new();
    vars.push(("RUSTDOCFLAGS".to_owned(), "-D warnings".to_owned()));
    proof {
        assert(text_pairs(vars@) =~= docs_vars());
    }
    vars
}

/// The `i`-th selection among some arguments is that of a crate.
pub open spec fn selects(args: Seq<Seq<char>>, i: int, name: Seq<char>) -> bool {
    args[2 * i] == "-p"@ && args[2 * i + 1] == name
}

/// The arguments select the crates, in their order, and nothing else.
pub proof fn lemma_package_args(crates: Seq<Seq<char>>)
    ensures
        package_args(crates).len() == 2 * crates.len(),
        forall|i: int| 0 <= i < crates.len() ==> #[trigger] selects(package_args(crates), i, crates[i]),
    decreases crates.len(),
{
    if crates.len() > 0 {
        let rest = crates.drop_last();
        lemma_package_args(rest);
        assert forall|i: int| 0 <= i < crates.len() implies #[trigger] selects(
            package_args(crates),
            i,
            crates[i],
        ) by {
            if i < rest.len() {
                assert(selects(package_args(rest), i, rest[i]));
            }
        }
    }
}

// ---- what the output means ----

/// What is told of cargo when it failed with some arguments.
pub open spec fn cargo_failure(
    args: Seq<Seq<char>>,
    output: CommandOutput,
    colors: ColorSupport,
) -> Seq<char> {
    failure_details(
        seq!["cargo"@] + args,
        output.code,
        shown_text(output.stdout@, colors.stdout),
        shown_text(output.stderr@, colors.stderr),
    )
}

/// What a check that cargo runs comes to.
pub open spec fn cargo_outcome(
    args: Seq<Seq<char>>,
    summary: Seq<char>,
    output: Result<CommandOutput, String>,
    colors: ColorSupport,
) -> TaskOutcome {
    match output {
        Ok(o) => if o.succeeded() {
            plain_success()
        } else {
            TaskOutcome::Failed(summary, cargo_failure(args, o, colors))
        },
        Err(message) => TaskOutcome::Failed("failed to run"@, message@),
    }
}

fn cargo_result(
    args: &Vec<String>,
    summary: &str,
    output: &Result<CommandOutput, String>,
    colors: &ColorSupport,
) -> (r: TaskResult)
    ensures
        r@ == cargo_outcome(texts(args@), summary@, *output, *colors),
{
    match output {
        Ok(o) => {
            if o.success() {
                return TaskResult::success();
            }
            let mut cargo: Vec<String> = Vec::new();
            push_text(&mut cargo, "cargo");
            proof {
                assert(texts(cargo@) =~= seq!["cargo"@]);
            }
            TaskResult::failed(
                summary.to_owned(),
                format_command_failure(&cargo, args, o, colors),
            )
        },
        Err(message) => TaskResult::failed("failed to run".to_owned(), message.clone()),
    }
}

/// What clippy comes to.
pub fn clippy_task(
    features: &Option<Vec<String>>,
    output: &Result<CommandOutput, String>,
    colors: &ColorSupport,
) -> (r: TaskResult)
    ensures
        r@ == cargo_outcome(
            clippy_words(opt_texts(*features)),
            "clippy errors"@,
            *output,
            *colors,
        ),
        r is Success <==> (*output matches Ok(o) && o.code == Some(0i32)),
        !(r is Skipped),
{
    cargo_result(&clippy_args(features), "clippy errors", output, colors)
}

/// What building the tests comes to.
pub fn build_tests_task(
    crates: &Vec<String>,
    output: &Result<CommandOutput, String>,
    colors: &ColorSupport,
) -> (r: TaskResult)
    ensures
        r@ == cargo_outcome(build_tests_words(texts(crates@)), "build failed"@, *output, *colors),
        r is Success <==> (*output matches Ok(o) && o.code == Some(0i32)),
        !(r is Skipped),
{
    cargo_result(&build_tests_args(crates), "build failed", output, colors)
}

/// What running the tests comes to.
pub fn run_tests_task(
    crates: &Vec<String>,
    output: &Result<CommandOutput, String>,
    colors: &ColorSupport,
) -> (r: TaskResult)
    ensures
        r@ == cargo_outcome(run_tests_words(texts(crates@)), "tests failed"@, *output, *colors),
        r is Success <==> (*output matches Ok(o) && o.code == Some(0i32)),
        !(r is Skipped),
{
    cargo_result(&run_tests_args(crates), "tests failed", output, colors)
}

/// What building the documentation comes to.
pub fn docs_task(
    crates: &Vec<String>,
    features: &Option<Vec<String>>,
    output: &Result<CommandOutput, String>,
    colors: &ColorSupport,
) -> (r: TaskResult)
    ensures
        r@ == cargo_outcome(
            docs_words(texts(crates@), opt_texts(*features)),
            "doc warnings"@,
            *output,
            *colors,
        ),
        r is Success <==> (*output matches Ok(o) && o.code == Some(0i32)),
        !(r is Skipped),
{
    cargo_result(&docs_args(crates, features), "doc warnings", output, colors)
}

// ---- checks that can be skipped ----

/// The ways in which cargo says that a subcommand is missing.
pub open spec fn missing_patterns(subcommand: Seq<char>) -> Seq<Seq<char>> {
    seq![
        "no such command: `"@ + subcommand + "`"@,
        "no such command: '"@ + subcommand + "'"@,
        "no such subcommand: `"@ + subcommand + "`"@,
        "no such subcommand: '"@ + subcommand + "'"@,
    ]
}

/// Some of the texts stand in `hay`.
pub open spec fn has_any(hay: Seq<char>, needles: Seq<Seq<char>>) -> bool {
    exists|i: int| 0 <= i < needles.len() && has_text(hay, #[trigger] needles[i])
}

/// Whether some of the texts stand in `hay`.
pub fn contains_any(hay: &str, needles: &Vec<String>) -> (r: bool)
    ensures
        r == has_any(hay@, texts(needles@)),
{
    let ghost all = texts(needles@);
    let mut i: usize = 0;
    while i < needles.len()
        invariant
            all == texts(needles@),
            i <= needles@.len(),
            forall|k: int| 0 <= k < i ==> !has_text(hay@, #[trigger] all[k]),
        decreases needles@.len() - i,
    {
        if contains(hay, needles[i].as_str()) {
            assert(has_text(hay@, all[i as int]));
            return true;
        }
        i = i + 1;
    }
    false
}

/// The texts in lower case.
pub open spec fn lower_texts(list: Seq<Seq<char>>) -> Seq<Seq<char>> {
    Seq::new(list.len(), |i: int| lower_text(list[i]))
}

fn between(before: &str, middle: &str, after: &str) -> (r: String)
    ensures
        r@ == before@ + middle@ + after@,
{
    let mut s = before.to_owned();
    s.append(middle);
    s.append(after);
    s
}

/// Whether cargo says that it has no such subcommand, in whatever case it writes it.
pub fn cargo_subcommand_missing_message(stderr: &str, subcommand: &str) -> (r: bool)
    ensures
        r == has_any(lower_text(stderr@), lower_texts(missing_patterns(subcommand@))),
{
    let mut patterns: Vec<String> = Vec::new();
    patterns.push(to_lower(between("no such command: `", subcommand, "`").as_str()));
    patterns.push(to_lower(between("no such command: '", subcommand, "'").as_str()));
    patterns.push(to_lower(between("no such subcommand: `", subcommand, "`").as_str()));
    patterns.push(to_lower(between("no such subcommand: '", subcommand, "'").as_str()));
    proof {
        assert(texts(patterns@) =~= lower_texts(missing_patterns(subcommand@)));
    }
    contains_any(to_lower(stderr).as_str(), &patterns)
}

/// The output of cargo says that a subcommand is missing.
pub open spec fn says_missing(output: CommandOutput, subcommand: Seq<char>) -> bool {
    has_any(lower_text(lossy_text(output.stderr@)), lower_texts(missing_patterns(subcommand)))
}

/// Whether the output of cargo says that a subcommand is missing.
pub fn indicates_missing_cargo_subcommand(output: &CommandOutput, subcommand: &str) -> (r: bool)
    ensures
        r == says_missing(*output, subcommand@),
{
    cargo_subcommand_missing_message(decode_lossy(&output.stderr).as_str(), subcommand)
}

/// What the search for unused dependencies comes to. It is skipped where `cargo-shear` is
/// not installed.
pub fn cargo_shear_task(output: &Result<CommandOutput, String>, colors: &ColorSupport) -> (r:
    TaskResult)
    ensures
        r@ == match *output {
            Ok(o) if !o.succeeded() && says_missing(o, "shear"@) => TaskOutcome::Skipped(
                "not installed"@,
            ),
            _ => cargo_outcome(shear_words(), "unused deps"@, *output, *colors),
        },
        r is Success <==> (*output matches Ok(o) && o.code == Some(0i32)),
{
    match output {
        Ok(o) => {
            if !o.success() && indicates_missing_cargo_subcommand(o, "shear") {
                return TaskResult::skipped("not installed".to_owned());
            }
        },
        Err(_) => {},
    }
    cargo_result(&cargo_shear_args(), "unused deps", output, colors)
}

/// The text says that there are no documentation tests to run.
pub open spec fn says_nothing_to_test(stderr: Seq<char>) -> bool {
    has_text(stderr, "there is nothing to test"@) || has_text(
        stderr,
        "found no library targets to test"@,
    ) || has_text(stderr, "found no binaries to test"@) || has_text(
        stderr,
        "no library targets found"@,
    )
}

/// Whether the text says that there are no documentation tests to run.
pub fn nothing_to_test(stderr: &str) -> (r: bool)
    ensures
        r == says_nothing_to_test(stderr@),
{
    contains(stderr, "there is nothing to test") || contains(
        stderr,
        "found no library targets to test",
    ) || contains(stderr, "found no binaries to test") || contains(
        stderr,
        "no library targets found",
    )
}

/// Cargo ended with the code and the words that mean that there are no documentation tests.
pub open spec fn has_no_doc_tests(output: CommandOutput) -> bool {
    output.code == Some(101i32) && says_nothing_to_test(lossy_text(output.stderr@))
}

/// Whether the failure of the documentation tests only means that there are none.
pub fn should_skip_doc_tests(output: &CommandOutput) -> (r: bool)
    ensures
        r == has_no_doc_tests(*output),
{
    let ended_so = match output.code {
        Some(code) => code == 101,
        None => false,
    };
    ended_so && nothing_to_test(decode_lossy(&output.stderr).as_str())
}

/// What running the documentation tests comes to. It is skipped where there are none.
pub fn doc_tests_task(
    crates: &Vec<String>,
    features: &Option<Vec<String>>,
    output: &Result<CommandOutput, String>,
    colors: &ColorSupport,
) -> (r: TaskResult)
    ensures
        r@ == match *output {
            Ok(o) if has_no_doc_tests(o) => TaskOutcome::Skipped("no lib to test"@),
            _ => cargo_outcome(
                doc_tests_words(texts(crates@), opt_texts(*features)),
                "doc tests failed"@,
                *output,
                *colors,
            ),
        },
        r is Success <==> (*output matches Ok(o) && o.code == Some(0i32)),
        r is Skipped ==> (*output matches Ok(o) && o.code == Some(101i32)),
{
    match output {
        Ok(o) => {
            if should_skip_doc_tests(o) {
                return TaskResult::skipped("no lib to test".to_owned());
            }
        },
        Err(_) => {},
    }
    cargo_result(&doc_tests_args(crates, features), "doc tests failed", output, colors)
}

// ---- laws ----

/// A check that cargo runs comes to a success exactly if the command could be run and ended
/// with exit code 0. Any other end is a failure, told under the summary of the check with the
/// command and what it wrote; that it could not be run is told with the reason.
pub proof fn lemma_cargo_check_succeeds(
    args: Seq<Seq<char>>,
    summary: Seq<char>,
    output: Result<CommandOutput, String>,
    colors: ColorSupport,
)
    ensures
        cargo_outcome(args, summary, output, colors) is Success <==> (output matches Ok(o)
            && o.code == Some(0i32)),
        output matches Ok(o) ==> (o.code == Some(0i32) ==> cargo_outcome(
            args,
            summary,
            output,
            colors,
        ) == TaskOutcome::Success(None, Seq::empty())),
        output matches Ok(o) ==> (o.code != Some(0i32) ==> (cargo_outcome(
            args,
            summary,
            output,
            colors,
        ) matches TaskOutcome::Failed(line, details) && line == summary && has_text(
            details,
            "command: "@ + joined(seq!["cargo"@] + args, " "@) + "\n"@,
        ))),
        output matches Err(message) ==> cargo_outcome(args, summary, output, colors)
            == TaskOutcome::Failed("failed to run"@, message@),
{
    if output is Ok {
        let o = output->Ok_0;
        lemma_failure_tells(
            seq!["cargo"@] + args,
            o.code,
            shown_text(o.stdout@, colors.stdout),
            shown_text(o.stderr@, colors.stderr),
        );
    }
}

/// Documentation tests are skipped exactly if cargo ended with exit code 101 and wrote one of
/// the four phrases that mean that there are none.
pub proof fn lemma_doc_tests_are_skipped(output: CommandOutput)
    ensures
        has_no_doc_tests(output) <==> output.code == Some(101i32) && (has_text(
            lossy_text(output.stderr@),
            "there is nothing to test"@,
        ) || has_text(lossy_text(output.stderr@), "found no library targets to test"@) || has_text(
            lossy_text(output.stderr@),
            "found no binaries to test"@,
        ) || has_text(lossy_text(output.stderr@), "no library targets found"@)),
{
}

/// That the search for unused dependencies is not installed is read from one of four phrases,
/// in whatever case cargo writes them.
pub proof fn lemma_shear_is_missing(output: CommandOutput)
    ensures
        says_missing(output, "shear"@) <==> ({
            let text = lower_text(lossy_text(output.stderr@));
            has_text(text, "no such command: `shear`"@) || has_text(
                text,
                "no such command: 'shear'"@,
            ) || has_text(text, "no such subcommand: `shear`"@) || has_text(
                text,
                "no such subcommand: 'shear'"@,
            )
        }),
{
    reveal_strlit("shear");
    reveal_strlit("`");
    reveal_strlit("'");
    reveal_strlit("no such command: `");
    reveal_strlit("no such command: '");
    reveal_strlit("no such subcommand: `");
    reveal_strlit("no such subcommand: '");
    reveal_strlit("no such command: `shear`");
    reveal_strlit("no such command: 'shear'");
    reveal_strlit("no such subcommand: `shear`");
    reveal_strlit("no such subcommand: 'shear'");
    let patterns = lower_texts(missing_patterns("shear"@));
    let found = missing_patterns("shear"@);
    assert(found[0] =~= "no such command: `shear`"@);
    assert(found[1] =~= "no such command: 'shear'"@);
    assert(found[2] =~= "no such subcommand: `shear`"@);
    assert(found[3] =~= "no such subcommand: 'shear'"@);
    assert(lower_text(found[0]) =~= found[0]);
    assert(lower_text(found[1]) =~= found[1]);
    assert(lower_text(found[2]) =~= found[2]);
    assert(lower_text(found[3]) =~= found[3]);
    let text = lower_text(lossy_text(output.stderr@));
    if has_any(text, patterns) {
        let i = choose|i: int| 0 <= i < patterns.len() && has_text(text, #[trigger] patterns[i]);
        assert(i == 0 || i == 1 || i == 2 || i == 3);
    }
    assert(patterns[0] == found[0] && patterns[1] == found[1] && patterns[2] == found[2]
        && patterns[3] == found[3]);
}

/// Clippy checks all targets of the whole workspace and denies warnings, with all features or
/// with those that are named.
pub proof fn lemma_clippy_words(features: Seq<Seq<char>>)
    ensures
        clippy_words(None) == seq![
            "clippy"@,
            "--workspace"@,
            "--all-targets"@,
            "--all-features"@,
            "--"@,
            "-D"@,
            "warnings"@,
        ],
        features.len() > 0 ==> clippy_words(Some(features)) == seq![
            "clippy"@,
            "--workspace"@,
            "--all-targets"@,
            "--features"@,
            joined(features, ","@),
            "--"@,
            "-D"@,
            "warnings"@,
        ],
        features.len() == 0 ==> clippy_words(Some(features)) == seq![
            "clippy"@,
            "--workspace"@,
            "--all-targets"@,
            "--"@,
            "-D"@,
            "warnings"@,
        ],
{
    assert(clippy_words(None) =~= seq![
        "clippy"@,
        "--workspace"@,
        "--all-targets"@,
        "--all-features"@,
        "--"@,
        "-D"@,
        "warnings"@,
    ]);
    if features.len() > 0 {
        assert(clippy_words(Some(features)) =~= seq![
            "clippy"@,
            "--workspace"@,
            "--all-targets"@,
            "--features"@,
            joined(features, ","@),
            "--"@,
            "-D"@,
            "warnings"@,
        ]);
    } else {
        assert(clippy_words(Some(features)) =~= seq![
            "clippy"@,
            "--workspace"@,
            "--all-targets"@,
            "--"@,
            "-D"@,
            "warnings"@,
        ]);
    }
}

/// The `i`-th pair of words behind the first `n` is `-p` and a name.
pub open spec fn names_crate(words: Seq<Seq<char>>, n: int, i: int, name: Seq<char>) -> bool {
    words[n + 2 * i] == "-p"@ && words[n + 2 * i + 1] == name
}

/// `words` begins with `head`, then selects each of the crates in turn, then ends with `tail`.
pub open spec fn selects_crates(
    words: Seq<Seq<char>>,
    head: Seq<Seq<char>>,
    crates: Seq<Seq<char>>,
    tail: Seq<Seq<char>>,
) -> bool {
    let n = head.len() as int;
    let end = n + 2 * crates.len();
    &&& words.len() == end + tail.len()
    &&& words.take(n) == head
    &&& words.skip(end) == tail
    &&& forall|i: int|
        0 <= i < crates.len() ==> #[trigger] names_crate(words, n, i, crates[i])
}

proof fn lemma_selects_crates(
    head: Seq<Seq<char>>,
    crates: Seq<Seq<char>>,
    tail: Seq<Seq<char>>,
)
    ensures
        selects_crates(head + package_args(crates) + tail, head, crates, tail),
{
    let words = head + package_args(crates) + tail;
    let n = head.len() as int;
    lemma_package_args(crates);
    let end = n + 2 * crates.len();
    assert(words.len() == end + tail.len());
    assert(words.take(n) =~= head);
    assert(words.skip(end) =~= tail);
    assert forall|i: int| 0 <= i < crates.len() implies #[trigger] names_crate(
        words,
        n,
        i,
        crates[i],
    ) by {
        assert(selects(package_args(crates), i, crates[i]));
    }
}

/// Tests are built and run with nextest, for exactly the crates that are given, in their
/// order; that a crate has none is no failure.
pub proof fn lemma_test_words(crates: Seq<Seq<char>>)
    ensures
        selects_crates(
            build_tests_words(crates),
            seq!["nextest"@, "run"@, "--no-run"@],
            crates,
            Seq::empty(),
        ),
        selects_crates(
            run_tests_words(crates),
            seq!["nextest"@, "run"@],
            crates,
            seq!["--no-tests=pass"@],
        ),
{
    lemma_selects_crates(seq!["nextest"@, "run"@, "--no-run"@], crates, Seq::empty());
    assert(build_tests_words(crates) + Seq::<Seq<char>>::empty() =~= build_tests_words(crates));
    lemma_selects_crates(seq!["nextest"@, "run"@], crates, seq!["--no-tests=pass"@]);
}

/// Documentation is tested and built for exactly the crates that are given, in their order,
/// with all features, or with those that are named, or with none where the list is empty.
pub proof fn lemma_doc_words(crates: Seq<Seq<char>>, features: Option<Seq<Seq<char>>>)
    ensures
        ({
            let tail = match features {
                None => seq!["--all-features"@],
                Some(list) => if list.len() == 0 {
                    Seq::empty()
                } else {
                    seq!["--features"@, joined(list, ","@)]
                },
            };
            &&& selects_crates(
                doc_tests_words(crates, features),
                seq!["test"@, "--doc"@],
                crates,
                tail,
            )
            &&& selects_crates(
                docs_words(crates, features),
                seq!["doc"@, "--no-deps"@],
                crates,
                tail,
            )
        }),
        docs_vars() == seq![("RUSTDOCFLAGS"@, "-D warnings"@)],
{
    lemma_selects_crates(seq!["test"@, "--doc"@], crates, feature_args(features));
    lemma_selects_crates(seq!["doc"@, "--no-deps"@], crates, feature_args(features));
    assert(feature_args(features) =~= match features {
        None => seq!["--all-features"@],
        Some(list) => if list.len() == 0 {
            Seq::empty()
        } else {
            seq!["--features"@, joined(list, ","@)]
        },
    });
}

} // verus!
