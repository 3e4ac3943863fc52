//! Names of files as `git status --porcelain` prints them.

use crate::output::{decode_lossy, lossy_text};
use crate::text::{bytes_of, chars_of, find_text, occurs_at, part, text_index};
use vstd::prelude::*;
use vstd::string::*;
use vstd::utf8::*;

verus! {

// ---- renames ----

/// The index of the quote that closes what was opened before `from`, or the length of `s`. A
/// backslash takes the character behind it along.
pub open spec fn closing_quote(s: Seq<char>, from: int) -> int
    decreases s.len() - from,
{
    if from >= s.len() {
        s.len() as int
    } else if s[from] == '"' {
        from
    } else if s[from] == '\\' && from + 1 < s.len() {
        closing_quote(s, from + 2)
    } else {
        closing_quote(s, from + 1)
    }
}

/// Where the arrow of a rename is looked for: behind the first name, if that is in quotes.
pub open spec fn arrow_start(field: Seq<char>) -> int {
    if field.len() > 0 && field[0] == '"' {
        closing_quote(field, 1)
    } else {
        0
    }
}

/// The new name in a field that tells of a rename or a copy, `old -> new`: what follows the
/// first arrow. A field without an arrow is the name itself.
pub open spec fn new_name(field: Seq<char>) -> Seq<char> {
    let at = text_index(field, " -> "@, arrow_start(field));
    if at < field.len() {
        field.skip(at + 4)
    } else {
        field
    }
}

/// The index of the quote that closes what was opened before `from`, or the length of `v`.
fn find_closing_quote(v: &Vec<char>, from: usize) -> (r: usize)
    requires
        from <= v@.len(),
    ensures
        r == closing_quote(v@, from as int),
        r <= v@.len(),
{
    let len: usize = v.len();
    let mut i: usize = from;
    while i < len && v[i] != '"'
        invariant
            len == v@.len(),
            i <= len,
            closing_quote(v@, from as int) == closing_quote(v@, i as int),
        decreases len - i,
    {
        if v[i] == '\\' && len - i >= 2 {
            i = i + 2;
        } else {
            i = i + 1;
        }
    }
    i
}

/// The new name in a field that tells of a rename or a copy.
pub fn renamed_to(field: &str) -> (r: String)
    ensures
        r@ == new_name(field@),
{
    let v = chars_of(field);
    let arrow = chars_of(" -> ");
    proof {
        reveal_strlit(" -> ");
    }
    let from: usize = if v.len() > 0 && v[0] == '"' { find_closing_quote(&v, 1) } else { 0 };
    let at = find_text(&v, &arrow, from);
    if at < v.len() {
        proof {
            assert(field@.subrange(at + 4, field@.len() as int) =~= field@.skip(at + 4));
        }
        part(field, at + 4, v.len())
    } else {
        proof {
            assert(field@.subrange(0, field@.len() as int) =~= field@);
        }
        part(field, 0, v.len())
    }
}

// ---- quotes ----

pub open spec fn is_octal(c: char) -> bool {
    '0' <= c <= '7'
}

/// Three octal digits that write a byte.
pub open spec fn is_octal_byte(a: char, b: char, c: char) -> bool {
    is_octal(a) && is_octal(b) && is_octal(c) && a <= '3'
}

/// The byte that three octal digits write.
pub open spec fn octal_byte(a: char, b: char, c: char) -> u8 {
    ((a as int - 48) * 64 + (b as int - 48) * 8 + (c as int - 48)) as u8
}

/// The bytes that a backslash and `c` stand for.
pub open spec fn escaped(c: char) -> Seq<u8> {
    match c {
        'a' => seq![7u8],
        'b' => seq![8u8],
        't' => seq![9u8],
        'n' => seq![10u8],
        'v' => seq![11u8],
        'f' => seq![12u8],
        'r' => seq![13u8],
        _ => encode_utf8(seq![c]),
    }
}

/// The bytes of a name that is written with escapes, as in a string of C: a backslash and
/// three octal digits for a byte, a backslash and a letter for a control character, a
/// backslash before a quote or a backslash.
pub open spec fn unescaped(s: Seq<char>) -> Seq<u8>
    decreases s.len(),
{
    if s.len() == 0 {
        Seq::empty()
    } else if s[0] != '\\' || s.len() < 2 {
        encode_utf8(seq![s[0]]) + unescaped(s.skip(1))
    } else if s.len() >= 4 && is_octal_byte(s[1], s[2], s[3]) {
        seq![octal_byte(s[1], s[2], s[3])] + unescaped(s.skip(4))
    } else {
        escaped(s[1]) + unescaped(s.skip(2))
    }
}

pub open spec fn is_in_quotes(name: Seq<char>) -> bool {
    name.len() >= 2 && name[0] == '"' && name.last() == '"'
}

/// A name without the quotes and the escapes that git writes it with where it holds a special
/// character. A name that is not in quotes is taken as it is.
pub open spec fn unquoted(name: Seq<char>) -> Seq<char> {
    if is_in_quotes(name) {
        lossy_text(unescaped(name.subrange(1, name.len() - 1)))
    } else {
        name
    }
}

/// Adds bytes to the end of a list.
fn push_bytes(out: &mut Vec<u8>, bytes: &Vec<u8>)
    ensures
        final(out)@ == old(out)@ + bytes@,
{
    let mut i: usize = 0;
    assert(out@ =~= old(out)@ + bytes@.take(0));
    while i < bytes.len()
        invariant
            i <= bytes@.len(),
            out@ == old(out)@ + bytes@.take(i as int),
        decreases bytes@.len() - i,
    {
        out.push(bytes[i]);
        proof {
            assert(out@ =~= old(out)@ + bytes@.take(i + 1));
        }
        i = i + 1;
    }
    assert(bytes@.take(i as int) =~= bytes@);
}

/// The bytes that a backslash and `c`, the character of `s` at `at`, stand for.
fn escaped_bytes(s: &str, at: usize, c: char) -> (r: Vec<u8>)
    requires
        at < s@.len(),
        at < usize::MAX,
        s@[at as int] == c,
    ensures
        r@ == escaped(c),
{
    let mut bytes: Vec<u8> = Vec::new();
    if c == 'a' {
        bytes.push(7);
    } else if c == 'b' {
        bytes.push(8);
    } else if c == 't' {
        bytes.push(9);
    } else if c == 'n' {
        bytes.push(10);
    } else if c == 'v' {
        bytes.push(11);
    } else if c == 'f' {
        bytes.push(12);
    } else if c == 'r' {
        bytes.push(13);
    } else {
        let one = part(s, at, at + 1);
        assert(one@ =~= seq![c]);
        return bytes_of(one.as_str());
    }
    assert(bytes@ =~= escaped(c));
    bytes
}

/// The byte that three octal digits write.
fn read_octal(a: char, b: char, c: char) -> (r: u8)
    requires
        is_octal_byte(a, b, c),
    ensures
        r == octal_byte(a, b, c),
{
    let x: u32 = a as u32 - 48;
    let y: u32 = b as u32 - 48;
    let z: u32 = c as u32 - 48;
    (x * 64 + y * 8 + z) as u8
}

/// Whether three characters are octal digits that write a byte.
fn reads_octal(a: char, b: char, c: char) -> (r: bool)
    ensures
        r == is_octal_byte(a, b, c),
{
    '0' <= a && a <= '3' && '0' <= b && b <= '7' && '0' <= c && c <= '7'
}

/// The bytes of a name that is written with escapes.
fn unescape(s: &str) -> (r: Vec<u8>)
    ensures
        r@ == unescaped(s@),
{
    let v = chars_of(s);
    let len: usize = v.len();
    let mut out: Vec<u8> = Vec::new();
    let mut i: usize = 0;
    proof {
        assert(s@.skip(0) =~= s@);
        assert(out@ + unescaped(s@) =~= unescaped(s@));
    }
    while i < len
        invariant
            v@ == s@,
            len == v@.len(),
            i <= len,
            out@ + unescaped(s@.skip(i as int)) == unescaped(s@),
        decreases len - i,
    {
        let ghost rest = s@.skip(i as int);
        let ghost before = out@;
        if v[i] != '\\' || len - i < 2 {
            let one = part(s, i, i + 1);
            assert(one@ =~= seq![rest[0]]);
            push_bytes(&mut out, &bytes_of(one.as_str()));
            proof {
                assert(rest.skip(1) =~= s@.skip(i + 1));
                assert(out@ + unescaped(s@.skip(i + 1)) =~= before + unescaped(rest));
            }
            i = i + 1;
        } else if len - i >= 4 && reads_octal(v[i + 1], v[i + 2], v[i + 3]) {
            out.push(read_octal(v[i + 1], v[i + 2], v[i + 3]));
            proof {
                assert(rest.skip(4) =~= s@.skip(i + 4));
                assert(out@ + unescaped(s@.skip(i + 4)) =~= before + unescaped(rest));
            }
            i = i + 4;
        } else {
            push_bytes(&mut out, &escaped_bytes(s, i + 1, v[i + 1]));
            proof {
                assert(rest.skip(2) =~= s@.skip(i + 2));
                assert(out@ + unescaped(s@.skip(i + 2)) =~= before + unescaped(rest));
            }
            i = i + 2;
        }
    }
    proof {
        assert(out@ + unescaped(s@.skip(i as int)) =~= out@);
    }
    out
}

/// A name without the quotes and the escapes that git writes it with.
pub fn unquote(name: &str) -> (r: String)
    ensures
        r@ == unquoted(name@),
{
    let v = chars_of(name);
    let len: usize = v.len();
    if len >= 2 && v[0] == '"' && v[len - 1] == '"' {
        let inner = part(name, 1, len - 1);
        let bytes = unescape(inner.as_str());
        decode_lossy(&bytes)
    } else {
        name.to_owned()
    }
}

// ---- laws ----

proof fn lemma_nothing_escaped(name: Seq<char>)
    requires
        !name.contains('\\'),
    ensures
        unescaped(name) == encode_utf8(name),
    decreases name.len(),
{
    if name.len() > 0 {
        let rest = name.skip(1);
        assert(name[0] != '\\');
        assert forall|i: int| 0 <= i < rest.len() implies rest[i] != '\\' by {
            assert(name[i + 1] != '\\');
        }
        lemma_nothing_escaped(rest);
        assert(name.drop_first() =~= rest);
        let one = seq![name[0]];
        assert(one.drop_first() =~= Seq::empty());
        assert(encode_utf8(one.drop_first()) =~= Seq::empty());
        assert(one[0] == name[0]);
        assert(encode_utf8(one) =~= encode_scalar(name[0] as u32));
    } else {
        assert(unescaped(name) =~= encode_utf8(name));
    }
}

/// A name without a backslash that stands in quotes is what stands between them.
pub proof fn lemma_plain_name_in_quotes(name: Seq<char>)
    requires
        !name.contains('\\'),
    ensures
        unquoted(seq!['"'] + name + seq!['"']) == name,
{
    let whole = seq!['"'] + name + seq!['"'];
    assert(whole.subrange(1, whole.len() - 1) =~= name);
    lemma_nothing_escaped(name);
    encode_utf8_valid_utf8(name);
    encode_utf8_decode_utf8(name);
}

proof fn lemma_no_arrow_before(field: Seq<char>, from: int, at: int)
    requires
        0 <= from <= at,
        occurs_at(field, " -> "@, at),
        forall|i: int| from <= i < at ==> !occurs_at(field, " -> "@, i),
    ensures
        text_index(field, " -> "@, from) == at,
    decreases at - from,
{
    reveal_strlit(" -> ");
    if from < at {
        lemma_no_arrow_before(field, from + 1, at);
    }
}

/// Of a rename whose old name is not in quotes and holds no space, the new name is found,
/// whatever it is.
pub proof fn lemma_rename_gives_new_name(old_name: Seq<char>, name: Seq<char>)
    requires
        !old_name.contains(' '),
        old_name.len() > 0 ==> old_name[0] != '"',
    ensures
        new_name(old_name + " -> "@ + name) == name,
{
    reveal_strlit(" -> ");
    let arrow = " -> "@;
    let field = old_name + arrow + name;
    let at = old_name.len() as int;
    assert(field.subrange(at, at + 4) =~= arrow);
    assert(field[0] == if at > 0 { old_name[0] } else { ' ' });
    assert forall|i: int| 0 <= i < at implies !occurs_at(field, arrow, i) by {
        if occurs_at(field, arrow, i) {
            assert(field.subrange(i, i + 4)[0] == ' ');
            assert(old_name[i] == ' ');
        }
    }
    lemma_no_arrow_before(field, 0, at);
    assert(field.skip(at + 4) =~= name);
}

/// Of a rename whose old name is not in quotes the new name is what follows the first arrow.
pub proof fn lemma_first_arrow_counts(old_name: Seq<char>, name: Seq<char>)
    requires
        old_name.len() > 0 ==> old_name[0] != '"',
        forall|i: int|
            0 <= i < old_name.len() ==> !#[trigger] occurs_at(
                old_name + " -> "@ + name,
                " -> "@,
                i,
            ),
    ensures
        new_name(old_name + " -> "@ + name) == name,
{
    reveal_strlit(" -> ");
    let field = old_name + " -> "@ + name;
    let at = old_name.len() as int;
    assert(field.subrange(at, at + 4) =~= " -> "@);
    assert(field[0] == if at > 0 { old_name[0] } else { ' ' });
    lemma_no_arrow_before(field, 0, at);
    assert(field.skip(at + 4) =~= name);
}

/// A name is unescaped from its front: a character that is no backslash stands for itself, a
/// backslash and three octal digits up to `377` for a byte, a backslash and one of seven
/// letters for a control character, a backslash and another for that one.
pub proof fn lemma_unescaped(c: char, rest: Seq<char>)
    ensures
        c != '\\' ==> unescaped(seq![c] + rest) == encode_utf8(seq![c]) + unescaped(rest),
        unescaped(Seq::empty()).len() == 0,
        unescaped(seq!['\\', 'a'] + rest) == seq![7u8] + unescaped(rest),
        unescaped(seq!['\\', 'b'] + rest) == seq![8u8] + unescaped(rest),
        unescaped(seq!['\\', 't'] + rest) == seq![9u8] + unescaped(rest),
        unescaped(seq!['\\', 'n'] + rest) == seq![10u8] + unescaped(rest),
        unescaped(seq!['\\', 'v'] + rest) == seq![11u8] + unescaped(rest),
        unescaped(seq!['\\', 'f'] + rest) == seq![12u8] + unescaped(rest),
        unescaped(seq!['\\', 'r'] + rest) == seq![13u8] + unescaped(rest),
        unescaped(seq!['\\', '"'] + rest) == encode_utf8(seq!['"']) + unescaped(rest),
        unescaped(seq!['\\', '\\'] + rest) == encode_utf8(seq!['\\']) + unescaped(rest),
{
    assert((seq![c] + rest).skip(1) =~= rest);
    lemma_two_characters('a', rest);
    lemma_two_characters('b', rest);
    lemma_two_characters('t', rest);
    lemma_two_characters('n', rest);
    lemma_two_characters('v', rest);
    lemma_two_characters('f', rest);
    lemma_two_characters('r', rest);
    lemma_two_characters('"', rest);
    lemma_two_characters('\\', rest);
}

proof fn lemma_two_characters(c: char, rest: Seq<char>)
    requires
        !('0' <= c <= '7'),
    ensures
        unescaped(seq!['\\', c] + rest) == escaped(c) + unescaped(rest),
{
    let s = seq!['\\', c] + rest;
    assert(s.skip(2) =~= rest);
    assert(s[0] == '\\' && s[1] == c);
}

/// A backslash and three octal digits stand for a byte.
pub proof fn lemma_octal(a: char, b: char, c: char, rest: Seq<char>)
    requires
        '0' <= a <= '3',
        '0' <= b <= '7',
        '0' <= c <= '7',
    ensures
        unescaped(seq!['\\', a, b, c] + rest) == seq![
            ((a as int - '0' as int) * 64 + (b as int - '0' as int) * 8 + (c as int
                - '0' as int)) as u8,
        ] + unescaped(rest),
{
    let s = seq!['\\', a, b, c] + rest;
    assert(s.skip(4) =~= rest);
    assert(s[0] == '\\' && s[1] == a && s[2] == b && s[3] == c);
}

/// What stands between two quotes is unescaped; a name without them is taken as it is.
pub proof fn lemma_unquoted(name: Seq<char>)
    ensures
        unquoted(seq!['"'] + name + seq!['"']) == lossy_text(unescaped(name)),
        name.len() == 0 || name[0] != '"' || name.last() != '"' ==> unquoted(name) == name,
{
    let whole = seq!['"'] + name + seq!['"'];
    assert(whole.subrange(1, whole.len() - 1) =~= name);
}

/// What stands between two quotes: no quote but behind a backslash, which takes the character
/// behind it along.
pub open spec fn is_between_quotes(s: Seq<char>) -> bool
    decreases s.len(),
{
    if s.len() == 0 {
        true
    } else if s[0] == '\\' {
        s.len() >= 2 && is_between_quotes(s.skip(2))
    } else {
        s[0] != '"' && is_between_quotes(s.skip(1))
    }
}

proof fn lemma_closing_quote(s: Seq<char>, rest: Seq<char>, k: int)
    requires
        0 <= k <= s.len(),
        is_between_quotes(s.skip(k)),
    ensures
        closing_quote(seq!['"'] + s + seq!['"'] + rest, 1 + k) == 1 + s.len(),
    decreases s.len() - k,
{
    let all = seq!['"'] + s + seq!['"'] + rest;
    let left = s.skip(k);
    if k < s.len() {
        assert(all[1 + k] == s[k]);
        assert(left[0] == s[k]);
        if s[k] == '\\' {
            assert(left.skip(2) =~= s.skip(k + 2));
            lemma_closing_quote(s, rest, k + 2);
        } else {
            assert(left.skip(1) =~= s.skip(k + 1));
            lemma_closing_quote(s, rest, k + 1);
        }
    } else {
        assert(all[1 + k] == '"');
    }
}

/// Behind an old name in quotes the new name is what follows the arrow, whatever stands between
/// the quotes.
pub proof fn lemma_rename_of_quoted_name(old_name: Seq<char>, name: Seq<char>)
    requires
        is_between_quotes(old_name),
    ensures
        new_name(seq!['"'] + old_name + seq!['"'] + " -> "@ + name) == name,
{
    reveal_strlit(" -> ");
    let rest = " -> "@ + name;
    let field = seq!['"'] + old_name + seq!['"'] + rest;
    assert(field =~= seq!['"'] + old_name + seq!['"'] + " -> "@ + name);
    assert(old_name.skip(0) =~= old_name);
    lemma_closing_quote(old_name, rest, 0);
    let at = 1 + old_name.len() as int;
    assert(field[0] == '"');
    assert(field[at] == '"');
    assert(" -> "@[0] == ' ');
    assert(field.subrange(at, at + 4)[0] == field[at]);
    assert(!occurs_at(field, " -> "@, at));
    assert(field.subrange(at + 1, at + 5) =~= " -> "@);
    assert(occurs_at(field, " -> "@, at + 1));
    assert(text_index(field, " -> "@, at + 1) == at + 1);
    assert(text_index(field, " -> "@, at) == at + 1);
    assert(field.skip(at + 5) =~= name);
}

} // verus!
