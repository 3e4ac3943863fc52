//! What commands print, and how their failures are told.

use crate::jobs::bytes_copy;
use crate::text::{
    has_text, is_made_of, join, joined, lemma_has_text, opt_text, signed_decimal, signed_number,
    strings_copy, text_pairs, texts, trim_end, trimmed_end,
};
use vstd::prelude::*;
use vstd::string::*;
use vstd::utf8::*;

verus! {

/// What a command that has ended left behind.
pub struct CommandOutput {
    /// The exit code; none where a signal ended the command.
    pub code: Option<i32>,
    /// What the command wrote to its standard output.
    pub stdout: Vec<u8>,
    /// What the command wrote to its standard error.
    pub stderr: Vec<u8>,
}

/// Whether the terminal supports colours.
pub struct ColorSupport {
    /// On its standard output.
    pub stdout: bool,
    /// On its standard error.
    pub stderr: bool,
}

impl CommandOutput {
    /// The command succeeded: it ended with exit code 0.
    pub open spec fn succeeded(self) -> bool {
        self.code == Some(0i32)
    }

    /// Whether the command succeeded.
    pub fn success(&self) -> (r: bool)
        ensures
            r == self.succeeded(),
    {
        match self.code {
            Some(code) => code == 0,
            None => false,
        }
    }
}

/// The environment in which a command keeps its colours, though its output is no terminal.
pub open spec fn color_vars() -> Seq<(Seq<char>, Seq<char>)> {
    seq![("FORCE_COLOR"@, "1"@), ("CARGO_TERM_COLOR"@, "always"@)]
}

/// The environment in which a command keeps its colours.
pub fn color_env() -> (r: Vec<(String, String)>)
    ensures
        text_pairs(r@) == color_vars(),
{
    let mut vars: Vec<(String, String)> = Vec::new();
    vars.push(("FORCE_COLOR".to_owned(), "1".to_owned()));
    vars.push(("CARGO_TERM_COLOR".to_owned(), "always".to_owned()));
    proof {
        assert(text_pairs(vars@) =~= color_vars());
    }
    vars
}

// ---- bytes as text ----

/// The text that is made of bytes that are no UTF-8, with the replacement character for what
/// cannot be read.
pub uninterp spec fn repaired_text(bytes: Seq<u8>) -> Seq<char>;

/// The text of some bytes: what they encode if they are UTF-8.
pub open spec fn lossy_text(bytes: Seq<u8>) -> Seq<char> {
    if valid_utf8(bytes) {
        decode_utf8(bytes)
    } else {
        repaired_text(bytes)
    }
}

/// `String::from_utf8_lossy`: the text of some bytes. Valid UTF-8 gives the text that it
/// encodes; of other bytes the result is a function.
#[verifier::external_body]
pub(crate) fn decode_lossy(bytes: &Vec<u8>) -> (r: String)
    ensures
        r@ == if valid_utf8(bytes@) {
            decode_utf8(bytes@)
        } else {
            repaired_text(bytes@)
        },
{
    String::from_utf8_lossy(bytes).into_owned()
}

/// A text that is not all ASCII in lower case.
pub uninterp spec fn unicode_lower(s: Seq<char>) -> Seq<char>;

/// A character of ASCII in lower case.
pub open spec fn ascii_lower(c: char) -> char {
    if 'A' <= c <= 'Z' {
        (c as u32 + 32) as char
    } else {
        c
    }
}

/// A text in lower case. A text of ASCII changes in its capital letters only.
pub open spec fn lower_text(s: Seq<char>) -> Seq<char> {
    if is_ascii_chars(s) {
        Seq::new(s.len(), |i: int| ascii_lower(s[i]))
    } else {
        unicode_lower(s)
    }
}

/// `str::to_lowercase`: a text in lower case. A text of ASCII changes in its capital letters
/// only; of other texts the result is a function.
#[verifier::external_body]
pub(crate) fn to_lower(s: &str) -> (r: String)
    ensures
        r@ == if is_ascii_chars(s@) {
            Seq::new(s@.len(), |i: int| ascii_lower(s@[i]))
        } else {
            unicode_lower(s@)
        },
{
    s.to_lowercase()
}

/// Bytes that are not all plain, without the escape sequences in them.
pub uninterp spec fn stripped_bytes(bytes: Seq<u8>) -> Seq<u8>;

/// All the bytes are printable ASCII or line feeds.
pub open spec fn is_plain(bytes: Seq<u8>) -> bool {
    forall|i: int| 0 <= i < bytes.len() ==> 0x20 <= #[trigger] bytes[i] <= 0x7e || bytes[i] == 0x0a
}

/// Bytes without the escape sequences in them. Plain bytes have none.
pub open spec fn without_escapes(bytes: Seq<u8>) -> Seq<u8> {
    if is_plain(bytes) {
        bytes
    } else {
        stripped_bytes(bytes)
    }
}

/// `strip_ansi_escapes::strip`: bytes without the ANSI escape sequences in them. Printable
/// ASCII and line feeds stay as they are; of other bytes the result is a function.
#[verifier::external_body]
pub(crate) fn strip_escapes(data: &Vec<u8>) -> (r: Vec<u8>)
    ensures
        r@ == if is_plain(data@) {
            data@
        } else {
            stripped_bytes(data@)
        },
{
    strip_ansi_escapes::strip(data)
}

/// What is shown of some output: all of it on a terminal with colours, else without the
/// escape sequences.
pub open spec fn shown_bytes(data: Seq<u8>, color: bool) -> Seq<u8> {
    if color {
        data
    } else {
        without_escapes(data)
    }
}

/// What is shown of some output. `color` tells whether the terminal supports colours.
pub fn maybe_strip_bytes(data: &Vec<u8>, color: bool) -> (r: Vec<u8>)
    ensures
        r@ == shown_bytes(data@, color),
{
    if color {
        bytes_copy(data)
    } else {
        strip_escapes(data)
    }
}

// ---- failures ----

/// The line that tells how a command ended.
pub open spec fn code_line(code: Option<i32>) -> Seq<char> {
    match code {
        Some(n) => "exit code: "@ + signed_decimal(n as int) + "\n"@,
        None => "exit code: terminated by signal\n"@,
    }
}

/// The lines that tell what a command wrote, under a heading; nothing if it wrote nothing.
pub open spec fn stream_lines(heading: Seq<char>, text: Option<Seq<char>>) -> Seq<char> {
    match text {
        Some(s) => heading + ":\n"@ + trimmed_end(s) + "\n"@,
        None => Seq::empty(),
    }
}

/// What is told of a command that failed: the command, how it ended and what it wrote.
pub open spec fn failure_details(
    words: Seq<Seq<char>>,
    code: Option<i32>,
    stdout: Option<Seq<char>>,
    stderr: Option<Seq<char>>,
) -> Seq<char> {
    "command: "@ + joined(words, " "@) + "\n"@ + code_line(code) + stream_lines("stdout"@, stdout)
        + stream_lines("stderr"@, stderr)
}

/// The text of some output as it is shown; none for no output.
pub open spec fn shown_text(data: Seq<u8>, color: bool) -> Option<Seq<char>> {
    if data.len() == 0 {
        None
    } else {
        Some(lossy_text(shown_bytes(data, color)))
    }
}

/// What is told of a command that failed, given its words and the texts that it wrote.
pub fn describe_failure(
    words: &Vec<String>,
    code: Option<i32>,
    stdout: &Option<String>,
    stderr: &Option<String>,
) -> (r: String)
    ensures
        r@ == failure_details(
            texts(words@),
            code,
            opt_text(*stdout),
            opt_text(*stderr),
        ),
{
    let mut details = "command: ".to_owned();
    details.append(join(words, " ").as_str());
    details.append("\n");
    let mut line = String::new();
    match code {
        Some(n) => {
            line.append("exit code: ");
            line.append(signed_number(n).as_str());
            line.append("\n");
        },
        None => {
            line.append("exit code: terminated by signal\n");
        },
    }
    assert(line@ =~= code_line(code));
    details.append(line.as_str());
    let mut out = String::new();
    match stdout {
        Some(s) => {
            out.append("stdout");
            out.append(":\n");
            out.append(trim_end(s.as_str()).as_str());
            out.append("\n");
            assert(out@ =~= stream_lines("stdout"@, Some(s@)));
        },
        None => {},
    }
    details.append(out.as_str());
    let mut err = String::new();
    match stderr {
        Some(s) => {
            err.append("stderr");
            err.append(":\n");
            err.append(trim_end(s.as_str()).as_str());
            err.append("\n");
            assert(err@ =~= stream_lines("stderr"@, Some(s@)));
        },
        None => {},
    }
    details.append(err.as_str());
    details
}

/// What is told of a command that failed.
pub fn format_command_failure(
    cmd: &Vec<String>,
    args: &Vec<String>,
    output: &CommandOutput,
    colors: &ColorSupport,
) -> (r: String)
    ensures
        r@ == failure_details(
            texts(cmd@) + texts(args@),
            output.code,
            shown_text(output.stdout@, colors.stdout),
            shown_text(output.stderr@, colors.stderr),
        ),
{
    let mut words = strings_copy(cmd);
    let mut rest = strings_copy(args);
    let ghost (first, second) = (words@, rest@);
    words.append(&mut rest);
    proof {
        assert(texts(words@) =~= texts(first) + texts(second));
    }
    let stdout = if output.stdout.len() == 0 {
        None
    } else {
        Some(decode_lossy(&maybe_strip_bytes(&output.stdout, colors.stdout)))
    };
    let stderr = if output.stderr.len() == 0 {
        None
    } else {
        Some(decode_lossy(&maybe_strip_bytes(&output.stderr, colors.stderr)))
    };
    describe_failure(&words, output.code, &stdout, &stderr)
}

// ---- laws ----

/// What is told of a failed command holds the command, how it ended, and all that it wrote but
/// for the whitespace at the end.
pub proof fn lemma_failure_tells(
    words: Seq<Seq<char>>,
    code: Option<i32>,
    stdout: Option<Seq<char>>,
    stderr: Option<Seq<char>>,
)
    ensures
        ({
            let details = failure_details(words, code, stdout, stderr);
            &&& has_text(details, "command: "@ + joined(words, " "@) + "\n"@)
            &&& code matches Some(n) ==> has_text(
                details,
                "exit code: "@ + signed_decimal(n as int) + "\n"@,
            )
            &&& code is None ==> has_text(details, "exit code: terminated by signal\n"@)
            &&& stdout matches Some(text) ==> has_text(
                details,
                "stdout:\n"@ + trimmed_end(text) + "\n"@,
            )
            &&& stderr matches Some(text) ==> has_text(
                details,
                "stderr:\n"@ + trimmed_end(text) + "\n"@,
            )
            &&& stdout is None && stderr is None ==> details == "command: "@ + joined(words, " "@)
                + "\n"@ + code_line(code)
        }),
{
    let details = failure_details(words, code, stdout, stderr);
    let first = "command: "@ + joined(words, " "@) + "\n"@;
    let second = code_line(code);
    let third = stream_lines("stdout"@, stdout);
    let fourth = stream_lines("stderr"@, stderr);
    reveal_strlit("stdout");
    reveal_strlit("stderr");
    reveal_strlit(":\n");
    reveal_strlit("stdout:\n");
    reveal_strlit("stderr:\n");
    assert("stdout"@ + ":\n"@ =~= "stdout:\n"@);
    assert("stderr"@ + ":\n"@ =~= "stderr:\n"@);
    assert(details =~= Seq::empty() + first + (second + third + fourth));
    assert(is_made_of(details, Seq::empty(), first, second + third + fourth));
    lemma_has_text(details, first);
    assert(details =~= first + second + (third + fourth));
    assert(is_made_of(details, first, second, third + fourth));
    lemma_has_text(details, second);
    assert(details =~= (first + second) + third + fourth);
    assert(is_made_of(details, first + second, third, fourth));
    lemma_has_text(details, third);
    assert(details =~= (first + second + third) + fourth + Seq::empty());
    assert(is_made_of(details, first + second + third, fourth, Seq::empty()));
    lemma_has_text(details, fourth);
    assert(stdout is None && stderr is None ==> details =~= first + second);
}

/// Output that is printable ASCII and line feeds is shown as it is, with colours or without;
/// with colours any output is. None is shown where there is none.
pub proof fn lemma_plain_output_is_shown(data: Seq<u8>, color: bool)
    requires
        color || forall|i: int|
            0 <= i < data.len() ==> 0x20 <= #[trigger] data[i] <= 0x7e || data[i] == 0x0a,
    ensures
        shown_bytes(data, color) == data,
        shown_text(data, color) == if data.len() == 0 {
            None
        } else {
            Some(lossy_text(data))
        },
{
}

/// What a command writes in UTF-8 is taken as it is, and a text of ASCII keeps its length in
/// lower case: only its capital letters change.
pub proof fn lemma_text_is_kept(s: Seq<char>, i: int)
    ensures
        lossy_text(encode_utf8(s)) == s,
        is_ascii_chars(s) && 0 <= i < s.len() ==> lower_text(s).len() == s.len() && lower_text(s)[i]
            == if 'A' <= s[i] <= 'Z' {
            (s[i] as u32 + 32) as char
        } else {
            s[i]
        },
{
    encode_utf8_valid_utf8(s);
    encode_utf8_decode_utf8(s);
}

/// A command could be run and succeeded.
pub open spec fn went_well(output: Result<CommandOutput, String>) -> bool {
    output matches Ok(o) && o.succeeded()
}

/// A command went well exactly if it could be run and exited with 0: an end by a signal does
/// not count, nor any other code.
pub proof fn lemma_went_well(output: CommandOutput, message: String)
    ensures
        went_well(Ok(output)) <==> output.code == Some(0i32),
        !went_well(Err(message)),
{
}

/// Without colours output that holds anything but printable ASCII and line feeds is shown
/// without its escape sequences.
pub proof fn lemma_coloured_output_is_stripped(data: Seq<u8>, i: int)
    requires
        0 <= i < data.len(),
        !(0x20 <= data[i] <= 0x7e) && data[i] != 0x0a,
    ensures
        shown_bytes(data, false) == stripped_bytes(data),
        shown_text(data, false) == Some(lossy_text(stripped_bytes(data))),
{
}

} // verus!
