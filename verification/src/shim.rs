//! The `captain` compatibility shim, which forwards to `capn`.

use crate::path::{
    are_plain_names, is_plain_name, join_path, joined_path, lemma_rooted_parent,
    lemma_rooted_push, parent, parent_of, rooted,
};
use crate::text::{opt_text, push_text, strings_copy, texts};
use vstd::prelude::*;
use vstd::string::*;

verus! {

/// The path of `capn`: beside the running executable, if that is known.
pub open spec fn capn_beside(current_exe: Option<Seq<char>>) -> Seq<char> {
    match current_exe {
        Some(exe) => match parent(exe) {
            Some(dir) => joined_path(dir, "capn"@),
            None => "capn"@,
        },
        None => "capn"@,
    }
}

/// The path of `capn`: beside the running executable, if that is known.
pub fn capn_path(current_exe: &Option<String>) -> (r: String)
    ensures
        r@ == capn_beside(opt_text(*current_exe)),
{
    match current_exe {
        Some(exe) => match parent_of(exe.as_str()) {
            Some(dir) => join_path(dir.as_str(), "capn"),
            None => "capn".to_owned(),
        },
        None => "capn".to_owned(),
    }
}

/// A way to run `capn`.
#[derive(Debug, Clone, Copy, PartialEq, Eq, Structural)]
pub enum Attempt {
    /// The one beside the shim.
    Direct,
    /// The one that the search path leads to.
    SearchPath,
    /// The one that cargo builds.
    Cargo,
}

/// What follows an attempt that could not be started.
pub enum Fallback {
    /// Another attempt.
    Try(Attempt),
    /// The end, with what is told.
    Fail(String),
}

/// What is told where no attempt is left.
pub open spec fn give_up_text(attempt: Attempt, message: Seq<char>) -> Seq<char> {
    match attempt {
        Attempt::Cargo => "Failed to execute `capn` (direct, PATH, cargo fallback): "@ + message,
        _ => "Failed to execute `capn`: "@ + message,
    }
}

/// The attempt that follows one that could not be started, if there is one.
pub open spec fn next_attempt(attempt: Attempt, not_found: bool) -> Option<Attempt> {
    match attempt {
        Attempt::Direct => if not_found {
            Some(Attempt::SearchPath)
        } else {
            None
        },
        Attempt::SearchPath => if not_found {
            Some(Attempt::Cargo)
        } else {
            None
        },
        Attempt::Cargo => None,
    }
}

/// What follows an attempt that could not be started: the next one where the program was not
/// found, else the end.
pub fn after_failure(attempt: Attempt, not_found: bool, message: &str) -> (r: Fallback)
    ensures
        match r {
            Fallback::Try(next) => not_found && ((attempt == Attempt::Direct && next
                == Attempt::SearchPath) || (attempt == Attempt::SearchPath && next
                == Attempt::Cargo)),
            Fallback::Fail(text) => (!not_found || attempt == Attempt::Cargo) && text@
                == give_up_text(attempt, message@),
        },
        (match r {
            Fallback::Try(next) => Some(next),
            Fallback::Fail(text) => None,
        }) == next_attempt(attempt, not_found),
{
    match attempt {
        Attempt::Direct => {
            if not_found {
                return Fallback::Try(Attempt::SearchPath);
            }
        },
        Attempt::SearchPath => {
            if not_found {
                return Fallback::Try(Attempt::Cargo);
            }
        },
        Attempt::Cargo => {
            let mut text = "Failed to execute `capn` (direct, PATH, cargo fallback): ".to_owned();
            text.append(message);
            return Fallback::Fail(text);
        },
    }
    let mut text = "Failed to execute `capn`: ".to_owned();
    text.append(message);
    Fallback::Fail(text)
}

/// The words of the command for an attempt.
pub open spec fn attempt_words(
    attempt: Attempt,
    current_exe: Option<Seq<char>>,
    args: Seq<Seq<char>>,
) -> Seq<Seq<char>> {
    match attempt {
        Attempt::Direct => seq![capn_beside(current_exe)] + args,
        Attempt::SearchPath => seq!["capn"@] + args,
        Attempt::Cargo => seq![
            "cargo"@,
            "run"@,
            "--quiet"@,
            "--bin"@,
            "capn"@,
            "--"@,
        ] + args,
    }
}

/// The words of the command for an attempt: the program and its arguments.
pub fn attempt_command(attempt: Attempt, current_exe: &Option<String>, args: &Vec<String>) -> (r: Vec<
    String,
>)
    ensures
        texts(r@) == attempt_words(attempt, opt_text(*current_exe), texts(args@)),
{
    let mut words: Vec<String> = Vec::new();
    match attempt {
        Attempt::Direct => {
            push_text(&mut words, capn_path(current_exe).as_str());
        },
        Attempt::SearchPath => {
            push_text(&mut words, "capn");
        },
        Attempt::Cargo => {
            push_text(&mut words, "cargo");
            push_text(&mut words, "run");
            push_text(&mut words, "--quiet");
            push_text(&mut words, "--bin");
            push_text(&mut words, "capn");
            push_text(&mut words, "--");
        },
    }
    let mut rest = strings_copy(args);
    let ghost (first, second) = (words@, rest@);
    words.append(&mut rest);
    proof {
        assert(texts(words@) =~= texts(first) + texts(second));
        assert(texts(words@) =~= attempt_words(attempt, opt_text(*current_exe), texts(args@)));
    }
    words
}

/// The exit code of the shim: that of `capn`, or 1 where a signal ended it.
pub fn exit_code(code: Option<i32>) -> (r: i32)
    ensures
        r == match code {
            Some(n) => n,
            None => 1i32,
        },
{
    match code {
        Some(n) => n,
        None => 1,
    }
}

// ---- laws ----

/// The arguments are handed on as they are, behind the words that run `capn`: the one beside
/// the shim, then the one on the search path, then the one that cargo builds.
pub proof fn lemma_arguments_are_forwarded(
    attempt: Attempt,
    current_exe: Option<Seq<char>>,
    args: Seq<Seq<char>>,
)
    ensures
        ({
            let words = attempt_words(attempt, current_exe, args);
            &&& words.skip(words.len() - args.len()) == args
            &&& attempt == Attempt::Direct || attempt == Attempt::SearchPath ==> words.len()
                == args.len() + 1
            &&& attempt == Attempt::SearchPath ==> words[0] == "capn"@
            &&& attempt == Attempt::Cargo ==> words.take(6) == seq![
                "cargo"@,
                "run"@,
                "--quiet"@,
                "--bin"@,
                "capn"@,
                "--"@,
            ]
            &&& attempt == Attempt::Cargo ==> words.len() == args.len() + 6
        }),
{
    let words = attempt_words(attempt, current_exe, args);
    assert(words.skip(words.len() - args.len()) =~= args);
    if attempt == Attempt::Cargo {
        assert(words.take(6) =~= seq![
            "cargo"@,
            "run"@,
            "--quiet"@,
            "--bin"@,
            "capn"@,
            "--"@,
        ]);
    }
}

/// The `capn` that is tried first lies in the directory of the shim.
pub proof fn lemma_capn_lies_beside(dir: Seq<Seq<char>>, name: Seq<char>, args: Seq<Seq<char>>)
    requires
        are_plain_names(dir),
        is_plain_name(name),
    ensures
        attempt_words(Attempt::Direct, Some(rooted(dir.push(name))), args)[0] == rooted(
            dir.push("capn"@),
        ),
        attempt_words(Attempt::Direct, None, args)[0] == "capn"@,
{
    reveal_strlit("capn");
    assert("capn"@[0] == 'c');
    lemma_rooted_push(dir, name);
    lemma_rooted_push(dir, "capn"@);
    lemma_rooted_parent(dir.push(name));
    assert(dir.push(name).drop_last() =~= dir);
}

/// Only where a program is not found another is tried: what the search path leads to after the
/// one beside the shim, then what cargo builds, and nothing after that.
pub proof fn lemma_attempts(attempt: Attempt, not_found: bool)
    ensures
        !not_found ==> next_attempt(attempt, not_found) is None,
        next_attempt(Attempt::Direct, true) == Some(Attempt::SearchPath),
        next_attempt(next_attempt(Attempt::Direct, true)->0, true) == Some(Attempt::Cargo),
        next_attempt(Attempt::Cargo, not_found) is None,
{
}

/// What is told at the end ends with the reason.
pub proof fn lemma_reason_is_told(attempt: Attempt, message: Seq<char>)
    ensures
        give_up_text(attempt, message).len() > message.len(),
        give_up_text(attempt, message).skip(
            give_up_text(attempt, message).len() - message.len(),
        ) == message,
{
    reveal_strlit("Failed to execute `capn` (direct, PATH, cargo fallback): ");
    reveal_strlit("Failed to execute `capn`: ");
    let text = give_up_text(attempt, message);
    assert(text.skip(text.len() - message.len()) =~= message);
}

} // verus!
