//! Colour in messages, through `owo_colors`.

use owo_colors::OwoColorize;
use vstd::prelude::*;

verus! {

/// A text in red: between the ANSI sequences that set red and set the default colour.
pub open spec fn in_red(s: Seq<char>) -> Seq<char> {
    "\u{1b}[31m"@ + s + "\u{1b}[39m"@
}

/// A text in yellow: between the ANSI sequences that set yellow and set the default colour.
pub open spec fn in_yellow(s: Seq<char>) -> Seq<char> {
    "\u{1b}[33m"@ + s + "\u{1b}[39m"@
}

/// A text in green: between the ANSI sequences that set green and set the default colour.
pub open spec fn in_green(s: Seq<char>) -> Seq<char> {
    "\u{1b}[32m"@ + s + "\u{1b}[39m"@
}

/// A text in cyan: between the ANSI sequences that set cyan and set the default colour.
pub open spec fn in_cyan(s: Seq<char>) -> Seq<char> {
    "\u{1b}[36m"@ + s + "\u{1b}[39m"@
}

/// A text in bold: between the ANSI sequences that set bold and reset all.
pub open spec fn in_bold(s: Seq<char>) -> Seq<char> {
    "\u{1b}[1m"@ + s + "\u{1b}[0m"@
}

/// `owo_colors::OwoColorize::red`, displayed: the text between the sequences for red and
/// for the default foreground.
#[verifier::external_body]
pub(crate) fn red(s: &str) -> (r: String)
    ensures
        r@ == in_red(s@),
{
    format!("{}", s.red())
}

/// `owo_colors::OwoColorize::yellow`, displayed: the text between the sequences for yellow
/// and for the default foreground.
#[verifier::external_body]
pub(crate) fn yellow(s: &str) -> (r: String)
    ensures
        r@ == in_yellow(s@),
{
    format!("{}", s.yellow())
}

/// `owo_colors::OwoColorize::green`, displayed: the text between the sequences for green
/// and for the default foreground.
#[verifier::external_body]
pub(crate) fn green(s: &str) -> (r: String)
    ensures
        r@ == in_green(s@),
{
    format!("{}", s.green())
}

/// `owo_colors::OwoColorize::cyan`, displayed: the text between the sequences for cyan and
/// for the default foreground.
#[verifier::external_body]
pub(crate) fn cyan(s: &str) -> (r: String)
    ensures
        r@ == in_cyan(s@),
{
    format!("{}", s.cyan())
}

/// `owo_colors::OwoColorize::bold`, displayed: the text between the sequences for bold and
/// for the reset of all attributes.
#[verifier::external_body]
pub(crate) fn bold(s: &str) -> (r: String)
    ensures
        r@ == in_bold(s@),
{
    format!("{}", s.bold())
}

/// A dimmed text: between the ANSI sequences that set dim and reset all.
pub open spec fn in_dim(s: Seq<char>) -> Seq<char> {
    "\u{1b}[2m"@ + s + "\u{1b}[0m"@
}

/// `owo_colors::OwoColorize::dimmed`, displayed: the text between the sequences for dim and
/// for the reset of all attributes.
#[verifier::external_body]
pub(crate) fn dimmed(s: &str) -> (r: String)
    ensures
        r@ == in_dim(s@),
{
    format!("{}", s.dimmed())
}

} // verus!
