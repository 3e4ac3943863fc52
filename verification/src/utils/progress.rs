//! The lines that show the progress of tasks.

use crate::paint::{dimmed, green, in_dim, in_green, in_red, in_yellow, red, yellow};
use crate::task::Ending;
use crate::text::is_made_of;
use vstd::prelude::*;
use vstd::string::*;
use vstd::utf8::*;

verus! {

/// A run of spaces.
pub open spec fn spaces(n: nat) -> Seq<char> {
    Seq::new(n, |i: int| ' ')
}

/// A name, filled up with spaces to the width of the column of names.
pub open spec fn padded(name: Seq<char>) -> Seq<char> {
    if name.len() < 14 {
        name + spaces((14 - name.len()) as nat)
    } else {
        name
    }
}

/// A name, filled up with spaces to the width of the column of names.
pub fn pad(name: &str) -> (r: String)
    ensures
        r@ == padded(name@),
{
    let mut s = name.to_owned();
    let mut n: usize = name.unicode_len();
    proof {
        reveal_strlit(" ");
        assert(name@ + spaces(0) =~= name@);
    }
    while n < 14
        invariant
            name@.len() <= n,
            n <= 14 || n == name@.len(),
            s@ == name@ + spaces((n - name@.len()) as nat),
            " "@ =~= seq![' '],
        decreases 14 - n,
    {
        s.append(" ");
        proof {
            assert(s@ =~= name@ + spaces((n + 1 - name@.len()) as nat));
        }
        n = n + 1;
    }
    s
}

/// The number of bytes that a status message may have before it is shortened.
pub const MAX_MESSAGE: usize = 50;

/// A message can be shown: it is short, or can be cut at the byte at which its end begins.
pub open spec fn can_shorten(msg: Seq<char>) -> bool {
    encode_utf8(msg).len() > MAX_MESSAGE ==> is_char_boundary(
        encode_utf8(msg),
        encode_utf8(msg).len() - MAX_MESSAGE + 1,
    )
}

/// A message as it is shown: all of it, or an ellipsis and its last bytes.
pub open spec fn shortened(msg: Seq<char>) -> Seq<char> {
    let bytes = encode_utf8(msg);
    if bytes.len() > MAX_MESSAGE {
        "…"@ + decode_utf8(bytes.skip(bytes.len() - MAX_MESSAGE + 1))
    } else {
        msg
    }
}

/// Whether a message can be shown.
pub fn message_can_be_shown(msg: &str) -> (r: bool)
    ensures
        r == can_shorten(msg@),
{
    let n: usize = msg.as_bytes().len();
    n <= MAX_MESSAGE || msg.is_char_boundary(n - MAX_MESSAGE + 1)
}

/// A message as it is shown.
pub fn shorten(msg: &str) -> (r: String)
    requires
        can_shorten(msg@),
    ensures
        r@ == shortened(msg@),
{
    let n: usize = msg.as_bytes().len();
    if n <= MAX_MESSAGE {
        return msg.to_owned();
    }
    let (_, end) = msg.split_at(n - MAX_MESSAGE + 1);
    proof {
        assert(encode_utf8(end@) =~= encode_utf8(msg@).skip(n - MAX_MESSAGE + 1));
        encode_utf8_decode_utf8(end@);
    }
    let mut s = "…".to_owned();
    s.append(end);
    s
}

/// The line of a task while it runs, with its message.
pub open spec fn running_line(name: Seq<char>, msg: Seq<char>) -> Seq<char> {
    padded(name) + " "@ + in_dim(shortened(msg))
}

/// A line with a mark, the name of a task and a note.
pub open spec fn marked_line(mark: Seq<char>, name: Seq<char>, note: Seq<char>) -> Seq<char> {
    "  "@ + mark + " "@ + padded(name) + " "@ + note
}

/// A note: dimmed on a terminal.
pub open spec fn noted(note: Seq<char>, tty: bool) -> Seq<char> {
    if tty {
        in_dim(note)
    } else {
        note
    }
}

/// The line of a task that has ended. `elapsed` tells how long it took.
pub open spec fn ending_line(
    name: Seq<char>,
    ending: Ending,
    elapsed: Seq<char>,
    tty: bool,
) -> Seq<char> {
    match ending {
        Ending::Succeeded(Some(message)) => marked_line(
            in_green("✓"@),
            name,
            in_dim(elapsed),
        ) + " "@ + in_dim(message@),
        Ending::Succeeded(None) => marked_line(in_green("✓"@), name, noted(elapsed, tty)),
        Ending::Skipped(reason) => marked_line(in_yellow("⊘"@), name, noted(reason@, tty)),
        Ending::Failed => marked_line(in_red("✗"@), name, noted(elapsed, tty)),
    }
}

fn mark_line(mark: &str, name: &str, note: &str) -> (r: String)
    ensures
        r@ == marked_line(mark@, name@, note@),
{
    let mut line = "  ".to_owned();
    line.append(mark);
    line.append(" ");
    line.append(pad(name).as_str());
    line.append(" ");
    line.append(note);
    line
}

fn note_text(note: &str, tty: bool) -> (r: String)
    ensures
        r@ == noted(note@, tty),
{
    if tty {
        dimmed(note)
    } else {
        note.to_owned()
    }
}

/// A task being tracked with a spinner
pub struct TaskSpinner {
    /// The name of the task.
    pub name: String,
    /// Whether the spinner is drawn on a terminal.
    pub tty: bool,
}

impl TaskSpinner {
    /// Mark task as successful with elapsed time: the line to show.
    pub fn succeed(&self, elapsed: &str) -> (r: String)
        ensures
            r@ == ending_line(self.name@, Ending::Succeeded(None), elapsed@, self.tty),
    {
        mark_line(
            green("✓").as_str(),
            self.name.as_str(),
            note_text(elapsed, self.tty).as_str(),
        )
    }

    /// Mark task as successful with elapsed time and a message: the line to show.
    pub fn succeed_with_message(&self, elapsed: &str, message: &String) -> (r: String)
        ensures
            r@ == ending_line(self.name@, Ending::Succeeded(Some(*message)), elapsed@, self.tty),
    {
        let mut line = mark_line(
            green("✓").as_str(),
            self.name.as_str(),
            dimmed(elapsed).as_str(),
        );
        line.append(" ");
        line.append(dimmed(message.as_str()).as_str());
        line
    }

    /// Mark task as failed with elapsed time: the line to show.
    pub fn fail(&self, elapsed: &str) -> (r: String)
        ensures
            r@ == ending_line(self.name@, Ending::Failed, elapsed@, self.tty),
    {
        mark_line(red("✗").as_str(), self.name.as_str(), note_text(elapsed, self.tty).as_str())
    }

    /// Mark task as skipped with reason: the line to show.
    pub fn skip(&self, reason: &str) -> (r: String)
        ensures
            r@ == marked_line(in_yellow("⊘"@), self.name@, noted(reason@, self.tty)),
    {
        mark_line(yellow("⊘").as_str(), self.name.as_str(), note_text(reason, self.tty).as_str())
    }

    /// The line of a task that has ended. `elapsed` tells how long it took.
    pub fn finish(&self, ending: &Ending, elapsed: &str) -> (r: String)
        ensures
            r@ == ending_line(self.name@, *ending, elapsed@, self.tty),
    {
        match ending {
            Ending::Succeeded(message) => match message {
                Some(text) => self.succeed_with_message(elapsed, text),
                None => self.succeed(elapsed),
            },
            Ending::Skipped(reason) => self.skip(reason.as_str()),
            Ending::Failed => self.fail(elapsed),
        }
    }

    /// Update the spinner message while running (e.g., show current status): the line to show.
    /// Nothing is shown where there is no terminal.
    pub fn set_message(&self, msg: &str) -> (r: Option<String>)
        requires
            self.tty ==> can_shorten(msg@),
        ensures
            match r {
                Some(line) => self.tty && line@ == running_line(self.name@, msg@),
                None => !self.tty,
            },
    {
        if !self.tty {
            return None;
        }
        let mut line = pad(self.name.as_str());
        line.append(" ");
        line.append(dimmed(shorten(msg).as_str()).as_str());
        Some(line)
    }
}

/// Manages multiple concurrent task spinners
pub struct TaskProgress {
    /// Whether the spinners are drawn on a terminal.
    pub tty: bool,
}

impl TaskProgress {
    /// Spinners on a terminal, or lines where there is none.
    pub fn new(tty: bool) -> (r: Self)
        ensures
            r.tty == tty,
    {
        TaskProgress { tty }
    }

    /// Add a new task spinner (starts spinning immediately), with the line that it shows first.
    pub fn add_task(&self, name: &str) -> (r: (TaskSpinner, String))
        ensures
            r.0.name@ == name@,
            r.0.tty == self.tty,
            r.1@ == padded(name@),
    {
        (TaskSpinner { name: name.to_owned(), tty: self.tty }, pad(name))
    }
}

// ---- laws ----

/// A padded name begins with the name and is filled up with spaces to fourteen characters; a
/// longer one stays as it is.
pub proof fn lemma_padded(name: Seq<char>)
    ensures
        padded(name).len() == if name.len() < 14 {
            14
        } else {
            name.len()
        },
        padded(name).take(name.len() as int) == name,
        forall|i: int| name.len() <= i < padded(name).len() ==> #[trigger] padded(name)[i] == ' ',
{
    assert(padded(name).take(name.len() as int) =~= name);
}

/// A message of up to fifty bytes is shown whole; of a longer one its last forty-nine bytes are
/// shown behind an ellipsis.
pub proof fn lemma_shortened_bytes(msg: Seq<char>, tail: Seq<char>)
    ensures
        encode_utf8(msg).len() <= 50 ==> can_shorten(msg) && shortened(msg) == msg,
        encode_utf8(msg).len() > 50 && encode_utf8(msg).skip(encode_utf8(msg).len() - 49)
            == encode_utf8(tail) ==> shortened(msg) == "…"@ + tail,
{
    encode_utf8_decode_utf8(tail);
}

/// A message of ASCII is shown whole up to fifty characters, else by its last forty-nine
/// behind an ellipsis.
pub proof fn lemma_shortened(msg: Seq<char>)
    requires
        is_ascii_chars(msg),
    ensures
        can_shorten(msg),
        msg.len() <= 50 ==> shortened(msg) == msg,
        msg.len() > 50 ==> shortened(msg) == "…"@ + msg.skip(msg.len() - 49),
{
    is_ascii_chars_encode_utf8(msg);
    if msg.len() > 50 {
        let k = msg.len() - 49;
        let end = msg.skip(k);
        assert(is_ascii_chars(end)) by {
            assert forall|i: int| 0 <= i < end.len() implies end[i] == msg[k + i] by {}
        }
        is_ascii_chars_encode_utf8(end);
        assert(encode_utf8(msg).skip(k) =~= encode_utf8(end));
        encode_utf8_decode_utf8(end);
        encode_utf8_valid_utf8(msg);
        assert(encode_utf8(msg)[k] <= 127);
        is_char_boundary_iff_is_leading_byte(encode_utf8(msg), k);
    }
}

/// The line of a task that has ended begins with the mark of how it ended and its name, and
/// off a terminal ends with how long it took, or with the reason why it was skipped.
pub proof fn lemma_ending_line(name: Seq<char>, elapsed: Seq<char>, reason: String, tty: bool)
    ensures
        is_made_of(
            ending_line(name, Ending::Succeeded(None), elapsed, false),
            "  "@ + in_green("✓"@) + " "@,
            padded(name) + " "@,
            elapsed,
        ),
        is_made_of(
            ending_line(name, Ending::Failed, elapsed, false),
            "  "@ + in_red("✗"@) + " "@,
            padded(name) + " "@,
            elapsed,
        ),
        is_made_of(
            ending_line(name, Ending::Skipped(reason), elapsed, false),
            "  "@ + in_yellow("⊘"@) + " "@,
            padded(name) + " "@,
            reason@,
        ),
        ending_line(name, Ending::Succeeded(Some(reason)), elapsed, tty) == "  "@ + in_green("✓"@)
            + " "@ + padded(name) + " "@ + in_dim(elapsed) + " "@ + in_dim(reason@),
        ending_line(name, Ending::Succeeded(None), elapsed, true) == ending_line(
            name,
            Ending::Succeeded(None),
            in_dim(elapsed),
            false,
        ),
        ending_line(name, Ending::Failed, elapsed, true) == ending_line(
            name,
            Ending::Failed,
            in_dim(elapsed),
            false,
        ),
{
    assert(ending_line(name, Ending::Succeeded(None), elapsed, false) =~= "  "@ + in_green("✓"@)
        + " "@ + (padded(name) + " "@) + elapsed);
    assert(ending_line(name, Ending::Failed, elapsed, false) =~= "  "@ + in_red("✗"@) + " "@ + (
    padded(name) + " "@) + elapsed);
    assert(ending_line(name, Ending::Skipped(reason), elapsed, false) =~= "  "@ + in_yellow("⊘"@)
        + " "@ + (padded(name) + " "@) + reason@);
}

/// The line of a running task begins with its name and shows its message, where that is short.
pub proof fn lemma_running_line(name: Seq<char>, msg: Seq<char>)
    ensures
        encode_utf8(msg).len() <= 50 ==> running_line(name, msg) == padded(name) + " "@ + in_dim(msg),
        running_line(name, msg).take(name.len() as int) == name,
{
    lemma_shortened_bytes(msg, msg);
    lemma_padded(name);
    assert(running_line(name, msg).take(name.len() as int) =~= padded(name).take(
        name.len() as int,
    ));
}

} // verus!
