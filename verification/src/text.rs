//! Text as sequences of characters: searching, trimming, splitting, numbers.

use vstd::prelude::*;
use vstd::string::*;
use vstd::utf8::encode_utf8;

verus! {

/// The Unicode `White_Space` property.
pub open spec fn is_whitespace(c: char) -> bool {
    let n = c as u32;
    ||| 0x9 <= n <= 0xd
    ||| n == 0x20
    ||| n == 0x85
    ||| n == 0xa0
    ||| n == 0x1680
    ||| 0x2000 <= n <= 0x200a
    ||| n == 0x2028
    ||| n == 0x2029
    ||| n == 0x202f
    ||| n == 0x205f
    ||| n == 0x3000
}

/// Whether a character has the Unicode `White_Space` property.
pub fn char_is_whitespace(c: char) -> (r: bool)
    ensures
        r == is_whitespace(c),
{
    let n: u32 = c as u32;
    (0x9 <= n && n <= 0xd) || n == 0x20 || n == 0x85 || n == 0xa0 || n == 0x1680 || (0x2000 <= n
        && n <= 0x200a) || n == 0x2028 || n == 0x2029 || n == 0x202f || n == 0x205f || n == 0x3000
}

/// The characters of a text.
pub fn chars_of(s: &str) -> (r: Vec<char>)
    ensures
        r@ == s@,
{
    let mut v: Vec<char> = Vec::new();
    for c in it: s.chars()
        invariant
            it.seq() == s@,
            v@ == s@.take(it.index() as int),
    {
        v.push(c);
        proof {
            assert(s@.take(it.index() as int + 1) =~= s@.take(it.index() as int).push(c));
        }
    }
    assert(s@.take(s@.len() as int) =~= s@);
    v
}

/// Whether two texts are the same.
pub fn text_eq(a: &str, b: &str) -> (r: bool)
    ensures
        r == (a@ == b@),
{
    a.to_owned() == b.to_owned()
}

/// The part of a text from character `from` up to character `to`.
pub fn part(s: &str, from: usize, to: usize) -> (r: String)
    requires
        from <= to <= s@.len(),
    ensures
        r@ == s@.subrange(from as int, to as int),
{
    s.substring_char(from, to).to_owned()
}


/// The UTF-8 bytes of a text.
pub fn bytes_of(s: &str) -> (r: Vec<u8>)
    ensures
        r@ == encode_utf8(s@),
{
    let bytes = s.as_bytes();
    let mut v: Vec<u8> = Vec::new();
    let mut i: usize = 0;
    while i < bytes.len()
        invariant
            i <= bytes@.len(),
            v@ == bytes@.take(i as int),
        decreases bytes@.len() - i,
    {
        v.push(bytes[i]);
        proof {
            assert(bytes@.take(i + 1) =~= bytes@.take(i as int).push(bytes@[i as int]));
        }
        i = i + 1;
    }
    proof {
        assert(bytes@.take(i as int) =~= bytes@);
    }
    v
}

/// The texts that a list of strings holds.
pub open spec fn texts(list: Seq<String>) -> Seq<Seq<char>> {
    Seq::new(list.len(), |i: int| list[i]@)
}

/// The texts that a list of pairs of strings holds.
pub open spec fn text_pairs(list: Seq<(String, String)>) -> Seq<(Seq<char>, Seq<char>)> {
    Seq::new(list.len(), |i: int| (list[i].0@, list[i].1@))
}

/// The text that an optional string holds.
pub open spec fn opt_text(o: Option<String>) -> Option<Seq<char>> {
    match o {
        Some(s) => Some(s@),
        None => None,
    }
}

/// The texts that the two sides of a result hold.
pub open spec fn result_text(r: Result<String, String>) -> Result<Seq<char>, Seq<char>> {
    match r {
        Ok(s) => Ok(s@),
        Err(e) => Err(e@),
    }
}

/// Adds a text to the end of a list.
pub fn push_text(list: &mut Vec<String>, text: &str)
    ensures
        texts(final(list)@) == texts(old(list)@).push(text@),
{
    list.push(text.to_owned());
    proof {
        assert(texts(list@) =~= texts(old(list)@).push(text@));
    }
}

/// A copy of a list of strings.
pub fn strings_copy(list: &Vec<String>) -> (r: Vec<String>)
    ensures
        texts(r@) == texts(list@),
{
    let mut copy: Vec<String> = Vec::new();
    let mut i: usize = 0;
    while i < list.len()
        invariant
            i <= list@.len(),
            texts(copy@) =~= texts(list@).take(i as int),
        decreases list@.len() - i,
    {
        let ghost before = copy@;
        copy.push(list[i].clone());
        proof {
            assert(texts(copy@) =~= texts(before).push(list@[i as int]@));
            assert(texts(list@).take(i + 1) =~= texts(list@).take(i as int).push(list@[i as int]@));
        }
        i = i + 1;
    }
    proof {
        assert(texts(list@).take(i as int) =~= texts(list@));
    }
    copy
}

// ---- searching ----

/// `needle` stands in `hay` at character `i`.
pub open spec fn occurs_at(hay: Seq<char>, needle: Seq<char>, i: int) -> bool {
    &&& 0 <= i
    &&& i + needle.len() <= hay.len()
    &&& hay.subrange(i, i + needle.len()) == needle
}

/// `needle` stands somewhere in `hay`.
pub open spec fn has_text(hay: Seq<char>, needle: Seq<char>) -> bool {
    exists|i: int| occurs_at(hay, needle, i)
}

/// Whether `needle` stands in `hay` at character `at`.
fn found_at(hay: &Vec<char>, needle: &Vec<char>, at: usize) -> (r: bool)
    requires
        at + needle@.len() <= hay@.len(),
    ensures
        r == occurs_at(hay@, needle@, at as int),
{
    let limit: usize = hay.len();
    let mut j: usize = 0;
    while j < needle.len()
        invariant
            limit == hay@.len(),
            at + needle@.len() <= limit,
            j <= needle@.len(),
            forall|k: int| 0 <= k < j ==> hay@[at + k] == needle@[k],
        decreases needle@.len() - j,
    {
        if hay[at + j] != needle[j] {
            proof {
                assert(hay@.subrange(at as int, at + needle@.len())[j as int] != needle@[j as int]);
            }
            return false;
        }
        j = j + 1;
    }
    proof {
        assert(hay@.subrange(at as int, at + needle@.len()) =~= needle@);
    }
    true
}

/// Whether `needle` stands somewhere in `hay`.
pub fn contains(hay: &str, needle: &str) -> (r: bool)
    ensures
        r == has_text(hay@, needle@),
{
    let h = chars_of(hay);
    let n = chars_of(needle);
    if n.len() > h.len() {
        return false;
    }
    let last: usize = h.len() - n.len();
    let mut i: usize = 0;
    loop
        invariant
            h@ == hay@,
            n@ == needle@,
            n@.len() <= h@.len(),
            last == h@.len() - n@.len(),
            i <= last,
            forall|k: int| 0 <= k < i ==> !occurs_at(hay@, needle@, k),
        decreases last - i,
    {
        if found_at(&h, &n, i) {
            return true;
        }
        if i == last {
            return false;
        }
        i = i + 1;
    }
}

/// The index of the first `needle` in `hay` at or after `from`, or the length of `hay`.
pub open spec fn text_index(hay: Seq<char>, needle: Seq<char>, from: int) -> int
    decreases hay.len() - from,
{
    if from >= hay.len() {
        hay.len() as int
    } else if occurs_at(hay, needle, from) {
        from
    } else {
        text_index(hay, needle, from + 1)
    }
}

/// The index of the first `needle` in `hay` at or after `from`, or the length of `hay`.
pub fn find_text(hay: &Vec<char>, needle: &Vec<char>, from: usize) -> (r: usize)
    requires
        from <= hay@.len(),
    ensures
        r == text_index(hay@, needle@, from as int),
        from <= r <= hay@.len(),
        r < hay@.len() ==> occurs_at(hay@, needle@, r as int),
{
    let len: usize = hay.len();
    let mut i: usize = from;
    while i < len
        invariant
            len == hay@.len(),
            from <= i <= len,
            text_index(hay@, needle@, from as int) == text_index(hay@, needle@, i as int),
        decreases len - i,
    {
        if len - i >= needle.len() && found_at(hay, needle, i) {
            return i;
        }
        i = i + 1;
    }
    len
}

/// `s` begins with `prefix`.
pub open spec fn begins_with(s: Seq<char>, prefix: Seq<char>) -> bool {
    occurs_at(s, prefix, 0)
}

/// Whether `s` begins with `prefix`.
pub fn starts_with(s: &str, prefix: &str) -> (r: bool)
    ensures
        r == begins_with(s@, prefix@),
{
    let h = chars_of(s);
    let n = chars_of(prefix);
    n.len() <= h.len() && found_at(&h, &n, 0)
}

/// Whether a list of strings holds a text.
pub fn list_has(list: &Vec<String>, text: &str) -> (r: bool)
    ensures
        r == texts(list@).contains(text@),
{
    let mut i: usize = 0;
    while i < list.len()
        invariant
            i <= list@.len(),
            forall|k: int| 0 <= k < i ==> list@[k]@ != text@,
        decreases list@.len() - i,
    {
        if text_eq(list[i].as_str(), text) {
            proof {
                assert(texts(list@)[i as int] == text@);
            }
            return true;
        }
        i = i + 1;
    }
    false
}

// ---- trimming ----

/// `s` without the whitespace at its end.
pub open spec fn trimmed_end(s: Seq<char>) -> Seq<char>
    decreases s.len(),
{
    if s.len() > 0 && is_whitespace(s.last()) {
        trimmed_end(s.drop_last())
    } else {
        s
    }
}

/// `s` without the whitespace at its start.
pub open spec fn trimmed_start(s: Seq<char>) -> Seq<char>
    decreases s.len(),
{
    if s.len() > 0 && is_whitespace(s[0]) {
        trimmed_start(s.drop_first())
    } else {
        s
    }
}

/// `s` without the whitespace at either end.
pub open spec fn trimmed(s: Seq<char>) -> Seq<char> {
    trimmed_start(trimmed_end(s))
}

/// `s` without the whitespace at its end.
pub fn trim_end(s: &str) -> (r: String)
    ensures
        r@ == trimmed_end(s@),
{
    let v = chars_of(s);
    let mut n: usize = v.len();
    assert(s@.take(n as int) =~= s@);
    while n > 0 && char_is_whitespace(v[n - 1])
        invariant
            v@ == s@,
            n <= v@.len(),
            trimmed_end(s@.take(n as int)) == trimmed_end(s@),
        decreases n,
    {
        proof {
            assert(s@.take(n as int).drop_last() =~= s@.take(n - 1));
        }
        n = n - 1;
    }
    proof {
        assert(s@.subrange(0, n as int) =~= s@.take(n as int));
        if n > 0 {
            assert(s@.take(n as int).last() == v@[n - 1]);
        }
    }
    part(s, 0, n)
}

/// `s` without the whitespace at its start.
pub fn trim_start(s: &str) -> (r: String)
    ensures
        r@ == trimmed_start(s@),
{
    let v = chars_of(s);
    let len: usize = v.len();
    let mut n: usize = 0;
    assert(s@.skip(0) =~= s@);
    while n < len && char_is_whitespace(v[n])
        invariant
            v@ == s@,
            len == v@.len(),
            n <= len,
            trimmed_start(s@.skip(n as int)) == trimmed_start(s@),
        decreases len - n,
    {
        proof {
            assert(s@.skip(n as int).drop_first() =~= s@.skip(n + 1));
        }
        n = n + 1;
    }
    proof {
        assert(s@.subrange(n as int, len as int) =~= s@.skip(n as int));
    }
    part(s, n, len)
}

/// `s` without the whitespace at either end.
pub fn trim(s: &str) -> (r: String)
    ensures
        r@ == trimmed(s@),
{
    let t = trim_end(s);
    trim_start(t.as_str())
}

// ---- splitting and joining ----

/// The index of the first `c` at or after `from`, or the length of `s`.
pub open spec fn first_index(s: Seq<char>, c: char, from: int) -> int
    decreases s.len() - from,
{
    if from >= s.len() {
        s.len() as int
    } else if s[from] == c {
        from
    } else {
        first_index(s, c, from + 1)
    }
}

/// A line without the carriage return before its line feed.
pub open spec fn without_return(line: Seq<char>) -> Seq<char> {
    if line.len() > 0 && line.last() == '\r' {
        line.drop_last()
    } else {
        line
    }
}

/// The lines of `s` from character `from` on. A line ends at a line feed, or at a
/// carriage return and a line feed; neither belongs to it. The last line may end at
/// the end of the text.
pub open spec fn lines_from(s: Seq<char>, from: int) -> Seq<Seq<char>>
    decreases s.len() - from,
{
    if from >= s.len() || from < 0 {
        Seq::empty()
    } else {
        let end = first_index(s, '\n', from);
        if end < from || end >= s.len() {
            seq![s.subrange(from, s.len() as int)]
        } else {
            seq![without_return(s.subrange(from, end))] + lines_from(s, end + 1)
        }
    }
}

/// The lines of a text.
pub open spec fn lines_of(s: Seq<char>) -> Seq<Seq<char>> {
    lines_from(s, 0)
}

/// The index of the first `c` at or after `from`, or the length of `v`.
fn find_char(v: &Vec<char>, c: char, from: usize) -> (r: usize)
    requires
        from <= v@.len(),
    ensures
        r == first_index(v@, c, from as int),
        from <= r <= v@.len(),
{
    let mut i: usize = from;
    while i < v.len() && v[i] != c
        invariant
            from <= i <= v@.len(),
            first_index(v@, c, from as int) == first_index(v@, c, i as int),
        decreases v@.len() - i,
    {
        i = i + 1;
    }
    i
}

/// The lines of a text.
pub fn lines(s: &str) -> (r: Vec<String>)
    ensures
        texts(r@) == lines_of(s@),
{
    let v = chars_of(s);
    let mut out: Vec<String> = Vec::new();
    let mut at: usize = 0;
    assert(texts(out@) + lines_from(s@, 0) =~= lines_of(s@));
    while at < v.len()
        invariant
            v@ == s@,
            at <= v@.len(),
            texts(out@) + lines_from(s@, at as int) == lines_of(s@),
        decreases v@.len() - at,
    {
        let end = find_char(&v, '\n', at);
        let ghost before = out@;
        if end == v.len() {
            let line = part(s, at, end);
            out.push(line);
            proof {
                assert(texts(out@) =~= texts(before).push(line@));
                assert(lines_from(s@, at as int) =~= seq![s@.subrange(at as int, s@.len() as int)]);
                assert(texts(out@) + lines_from(s@, end as int) =~= texts(before) + lines_from(s@, at as int));
            }
            at = end;
        } else {
            let stop: usize = if end > at && v[end - 1] == '\r' { end - 1 } else { end };
            let line = part(s, at, stop);
            out.push(line);
            proof {
                let whole = s@.subrange(at as int, end as int);
                assert(line@ =~= without_return(whole));
                assert(texts(out@) =~= texts(before).push(line@));
                assert(texts(out@) + lines_from(s@, end + 1) =~= texts(before) + (seq![line@] + lines_from(s@, end + 1)));
            }
            at = end + 1;
        }
    }
    proof {
        assert(texts(out@) + lines_from(s@, at as int) =~= texts(out@));
    }
    out
}

/// A text without a line feed from character `from` on has none to find.
pub proof fn lemma_no_line_end(s: Seq<char>, from: int)
    requires
        0 <= from,
        forall|i: int| from <= i < s.len() ==> s[i] != '\n',
    ensures
        first_index(s, '\n', from) == s.len(),
    decreases s.len() - from,
{
    if from < s.len() {
        lemma_no_line_end(s, from + 1);
    }
}

/// The texts of `list`, one after the other, with `sep` between two of them.
pub open spec fn joined(list: Seq<Seq<char>>, sep: Seq<char>) -> Seq<char>
    decreases list.len(),
{
    if list.len() == 0 {
        Seq::empty()
    } else if list.len() == 1 {
        list[0]
    } else {
        joined(list.drop_last(), sep) + sep + list.last()
    }
}

/// Joins strings with a separator.
pub fn join(list: &Vec<String>, sep: &str) -> (r: String)
    ensures
        r@ == joined(texts(list@), sep@),
{
    let mut out = String::new();
    let mut i: usize = 0;
    while i < list.len()
        invariant
            i <= list@.len(),
            out@ == joined(texts(list@).take(i as int), sep@),
        decreases list@.len() - i,
    {
        if i > 0 {
            out.append(sep);
        }
        out.append(list[i].as_str());
        proof {
            let t = texts(list@).take(i + 1);
            assert(t.drop_last() =~= texts(list@).take(i as int));
            assert(t.last() == list@[i as int]@);
            if i == 0 {
                assert(out@ =~= list@[0]@);
            }
        }
        i = i + 1;
    }
    proof {
        assert(texts(list@).take(i as int) =~= texts(list@));
    }
    out
}

// ---- numbers ----

/// The decimal digit for a number below ten.
pub open spec fn digit(n: nat) -> char {
    (48 + n) as char
}

/// A number in decimal notation.
pub open spec fn decimal(n: nat) -> Seq<char>
    decreases n,
{
    if n < 10 {
        seq![digit(n)]
    } else {
        decimal(n / 10).push(digit(n % 10))
    }
}

/// Decimal notation keeps the number: its digits have the value that was written.
pub proof fn lemma_decimal_value(n: nat)
    ensures
        decimal(n).len() > 0,
        forall|i: int| 0 <= i < decimal(n).len() ==> is_digit(#[trigger] decimal(n)[i]),
        digits_value(decimal(n)) == n,
    decreases n,
{
    if n >= 10 {
        lemma_decimal_value(n / 10);
        assert(decimal(n).drop_last() =~= decimal(n / 10));
        assert(decimal(n).last() == digit(n % 10));
        assert forall|i: int| 0 <= i < decimal(n).len() implies is_digit(
            #[trigger] decimal(n)[i],
        ) by {
            if i < decimal(n / 10).len() {
                assert(decimal(n)[i] == decimal(n / 10)[i]);
            }
        }
    } else {
        assert(decimal(n).drop_last() =~= Seq::empty());
        assert(digits_value(decimal(n).drop_last()) == 0);
    }
}

fn digit_text(n: u64) -> (r: &'static str)
    requires
        n < 10,
    ensures
        r@ == seq![digit(n as nat)],
{
    proof {
        reveal_strlit("0");
        reveal_strlit("1");
        reveal_strlit("2");
        reveal_strlit("3");
        reveal_strlit("4");
        reveal_strlit("5");
        reveal_strlit("6");
        reveal_strlit("7");
        reveal_strlit("8");
        reveal_strlit("9");
    }
    if n == 0 {
        "0"
    } else if n == 1 {
        "1"
    } else if n == 2 {
        "2"
    } else if n == 3 {
        "3"
    } else if n == 4 {
        "4"
    } else if n == 5 {
        "5"
    } else if n == 6 {
        "6"
    } else if n == 7 {
        "7"
    } else if n == 8 {
        "8"
    } else {
        "9"
    }
}

/// Writes a number in decimal notation.
pub fn number(n: u64) -> (r: String)
    ensures
        r@ == decimal(n as nat),
    decreases n,
{
    if n < 10 {
        digit_text(n).to_owned()
    } else {
        let mut s = number(n / 10);
        s.append(digit_text(n % 10));
        proof {
            assert(s@ =~= decimal((n / 10) as nat).push(digit((n % 10) as nat)));
        }
        s
    }
}

/// A number with its sign in decimal notation.
pub open spec fn signed_decimal(n: int) -> Seq<char> {
    if n < 0 {
        seq!['-'] + decimal((-n) as nat)
    } else {
        decimal(n as nat)
    }
}

/// Writes a number with its sign in decimal notation.
pub fn signed_number(n: i32) -> (r: String)
    ensures
        r@ == signed_decimal(n as int),
{
    let wide: i64 = n as i64;
    if wide < 0 {
        let mut s = "-".to_owned();
        s.append(number((-wide) as u64).as_str());
        proof {
            reveal_strlit("-");
            assert(s@ =~= seq!['-'] + decimal((-n) as nat));
        }
        s
    } else {
        number(wide as u64)
    }
}

pub open spec fn is_digit(c: char) -> bool {
    '0' <= c <= '9'
}

/// The value of a run of decimal digits.
pub open spec fn digits_value(s: Seq<char>) -> nat
    decreases s.len(),
{
    if s.len() == 0 {
        0
    } else {
        digits_value(s.drop_last()) * 10 + (s.last() as nat - 48) as nat
    }
}

/// `s` without a leading plus sign.
pub open spec fn without_plus(s: Seq<char>) -> Seq<char> {
    if s.len() > 0 && s[0] == '+' {
        s.skip(1)
    } else {
        s
    }
}

/// The number that `s` writes: an optional plus sign and at least one decimal digit,
/// with a value of at most `max`.
pub open spec fn unsigned(s: Seq<char>, max: nat) -> Option<nat> {
    let digits = without_plus(s);
    if digits.len() > 0 && (forall|i: int| 0 <= i < digits.len() ==> is_digit(digits[i]))
        && digits_value(digits) <= max {
        Some(digits_value(digits))
    } else {
        None
    }
}

proof fn lemma_digits_value_grows(s: Seq<char>, i: int)
    requires
        0 <= i <= s.len(),
    ensures
        digits_value(s.take(i)) <= digits_value(s),
    decreases s.len() - i,
{
    if i == s.len() {
        assert(s.take(i) =~= s);
    } else {
        lemma_digits_value_grows(s, i + 1);
        assert(s.take(i + 1).drop_last() =~= s.take(i));
    }
}

/// Reads a number of at most `max`.
pub fn parse_unsigned(s: &str, max: u64) -> (r: Option<u64>)
    requires
        max <= 0xffff_ffff,
    ensures
        match r {
            Some(n) => unsigned(s@, max as nat) == Some(n as nat),
            None => unsigned(s@, max as nat) is None,
        },
{
    let v = chars_of(s);
    let start: usize = if v.len() > 0 && v[0] == '+' { 1 } else { 0 };
    let ghost digits = without_plus(s@);
    proof {
        assert(digits =~= v@.skip(start as int));
    }
    if start == v.len() {
        return None;
    }
    let mut total: u64 = 0;
    let mut i: usize = start;
    assert(digits.take(0) =~= Seq::<char>::empty());
    while i < v.len()
        invariant
            v@ == s@,
            start <= i <= v@.len(),
            digits == without_plus(s@),
            digits == v@.skip(start as int),
            max <= 0xffff_ffff,
            forall|k: int| 0 <= k < i - start ==> is_digit(digits[k]),
            total == digits_value(digits.take(i - start)),
            total <= max,
        decreases v@.len() - i,
    {
        let c = v[i];
        proof {
            assert(digits[i - start] == c);
        }
        if c < '0' || c > '9' {
            return None;
        }
        total = total * 10 + (c as u64 - 48);
        proof {
            assert(digits.take(i - start + 1).drop_last() =~= digits.take(i - start));
            assert(digits.take(i - start + 1).last() == c);
            lemma_digits_value_grows(digits, i - start + 1);
        }
        if total > max {
            return None;
        }
        i = i + 1;
    }
    proof {
        assert(digits.take(i - start) =~= digits);
    }
    Some(total)
}

// ---- what the standard library computes ----

/// A text as `Debug` writes it, where it holds a character that may have to be escaped.
pub uninterp spec fn debug_text(s: Seq<char>) -> Seq<char>;

/// A character that stands for itself in a literal: it is printable ASCII, and neither a
/// quote nor a backslash.
pub open spec fn is_literal(c: char) -> bool {
    ' ' <= c <= '~' && c != '"' && c != '\'' && c != '\\'
}

/// A text as `Debug` writes it: in quotes, as it is where nothing in it is escaped.
pub open spec fn debug_string(s: Seq<char>) -> Seq<char> {
    if forall|i: int| 0 <= i < s.len() ==> is_literal(#[trigger] s[i]) {
        seq!['"'] + s + seq!['"']
    } else {
        debug_text(s)
    }
}

/// `<str as std::fmt::Debug>::fmt`: the text in quotes, with escapes. A text of printable
/// ASCII without quotes and backslashes needs none; of other texts the result is a function.
#[verifier::external_body]
pub(crate) fn quoted(s: &str) -> (r: String)
    ensures
        r@ == if forall|i: int| 0 <= i < s@.len() ==> is_literal(#[trigger] s@[i]) {
            seq!['"'] + s@ + seq!['"']
        } else {
            debug_text(s@)
        },
{
    format!("{:?}", s)
}

// ---- order ----

/// `a` stands before `b` in the order by character codes.
pub open spec fn precedes(a: Seq<char>, b: Seq<char>) -> bool
    decreases b.len(),
{
    if b.len() == 0 {
        false
    } else if a.len() == 0 {
        true
    } else if a[0] == b[0] {
        precedes(a.drop_first(), b.drop_first())
    } else {
        a[0] < b[0]
    }
}

/// Whether `a` stands before `b` in the order by character codes.
pub fn text_precedes(a: &str, b: &str) -> (r: bool)
    ensures
        r == precedes(a@, b@),
{
    let x = chars_of(a);
    let y = chars_of(b);
    let mut i: usize = 0;
    assert(x@.skip(0) =~= x@);
    assert(y@.skip(0) =~= y@);
    loop
        invariant
            x@ == a@,
            y@ == b@,
            i <= x@.len(),
            i <= y@.len(),
            precedes(a@, b@) == precedes(x@.skip(i as int), y@.skip(i as int)),
        decreases x@.len() - i,
    {
        if i == y.len() {
            return false;
        }
        if i == x.len() {
            return true;
        }
        if x[i] != y[i] {
            return x[i] < y[i];
        }
        proof {
            assert(x@.skip(i as int).drop_first() =~= x@.skip(i + 1));
            assert(y@.skip(i as int).drop_first() =~= y@.skip(i + 1));
        }
        i = i + 1;
    }
}

/// The order is total: of two different texts one stands before the other.
pub proof fn lemma_precedes_total(a: Seq<char>, b: Seq<char>)
    ensures
        precedes(a, b) || precedes(b, a) || a == b,
        !(precedes(a, b) && precedes(b, a)),
        precedes(a, b) ==> a != b,
    decreases a.len(),
{
    if a.len() > 0 && b.len() > 0 {
        lemma_precedes_total(a.drop_first(), b.drop_first());
        if a[0] == b[0] && a.drop_first() == b.drop_first() {
            assert(a =~= seq![a[0]] + a.drop_first());
            assert(b =~= seq![b[0]] + b.drop_first());
        }
    } else if a.len() == 0 && b.len() == 0 {
        assert(a =~= b);
    }
}

/// The order is transitive.
pub proof fn lemma_precedes_transitive(a: Seq<char>, b: Seq<char>, c: Seq<char>)
    requires
        precedes(a, b),
        precedes(b, c),
    ensures
        precedes(a, c),
    decreases a.len(),
{
    if a.len() > 0 && a[0] == b[0] && b[0] == c[0] {
        lemma_precedes_transitive(a.drop_first(), b.drop_first(), c.drop_first());
    }
}

// ---- laws ----

/// `text` is `before`, `middle` and `after`, one behind the other.
pub open spec fn is_made_of(
    text: Seq<char>,
    before: Seq<char>,
    middle: Seq<char>,
    after: Seq<char>,
) -> bool {
    text == before + middle + after
}

/// A text stands in another exactly if that is made of something, the text, and something.
pub proof fn lemma_has_text(hay: Seq<char>, needle: Seq<char>)
    ensures
        has_text(hay, needle) <==> exists|before: Seq<char>, after: Seq<char>| #[trigger]
            is_made_of(hay, before, needle, after),
{
    if has_text(hay, needle) {
        let i = choose|i: int| occurs_at(hay, needle, i);
        let (before, after) = (hay.take(i), hay.skip(i + needle.len()));
        assert(hay =~= before + hay.subrange(i, i + needle.len()) + after);
        assert(is_made_of(hay, before, needle, after));
    }
    if exists|before: Seq<char>, after: Seq<char>| #[trigger]
        is_made_of(hay, before, needle, after) {
        let (before, after) = choose|before: Seq<char>, after: Seq<char>| #[trigger]
            is_made_of(hay, before, needle, after);
        let i = before.len() as int;
        assert(hay.subrange(i, i + needle.len()) =~= needle);
        assert(occurs_at(hay, needle, i));
    }
}

/// A text begins with another exactly if that, and something behind it, makes it up.
pub proof fn lemma_begins_with(s: Seq<char>, prefix: Seq<char>)
    ensures
        begins_with(s, prefix) <==> prefix.len() <= s.len() && s == prefix + s.skip(
            prefix.len() as int,
        ),
{
    if begins_with(s, prefix) {
        assert(s =~= s.subrange(0, prefix.len() as int) + s.skip(prefix.len() as int));
    }
    if prefix.len() <= s.len() && s == prefix + s.skip(prefix.len() as int) {
        assert(s.subrange(0, prefix.len() as int) =~= prefix);
    }
}

proof fn lemma_first_index_shift(s: Seq<char>, c: char, start: int, from: int)
    requires
        0 <= start <= from <= s.len(),
    ensures
        first_index(s, c, from) == start + first_index(s.skip(start), c, from - start),
    decreases s.len() - from,
{
    if from < s.len() && s[from] != c {
        lemma_first_index_shift(s, c, start, from + 1);
    }
}

proof fn lemma_first_index_bounds(s: Seq<char>, c: char, from: int)
    requires
        0 <= from <= s.len(),
    ensures
        from <= first_index(s, c, from) <= s.len(),
    decreases s.len() - from,
{
    if from < s.len() && s[from] != c {
        lemma_first_index_bounds(s, c, from + 1);
    }
}

proof fn lemma_lines_shift(s: Seq<char>, start: int, from: int)
    requires
        0 <= start <= from <= s.len(),
    ensures
        lines_from(s, from) == lines_from(s.skip(start), from - start),
    decreases s.len() - from,
{
    if from < s.len() {
        let t = s.skip(start);
        let end = first_index(s, '\n', from);
        lemma_first_index_shift(s, '\n', start, from);
        lemma_first_index_bounds(s, '\n', from);
        if end < s.len() {
            assert(s.subrange(from, end) =~= t.subrange(from - start, end - start));
            lemma_lines_shift(s, start, end + 1);
        } else {
            assert(s.subrange(from, s.len() as int) =~= t.subrange(from - start, t.len() as int));
        }
    }
}

proof fn lemma_first_line_end(line: Seq<char>, rest: Seq<char>, from: int)
    requires
        !line.contains('\n'),
        0 <= from <= line.len(),
    ensures
        first_index(line + seq!['\n'] + rest, '\n', from) == line.len(),
    decreases line.len() - from,
{
    let whole = line + seq!['\n'] + rest;
    if from < line.len() {
        assert(whole[from] == line[from]);
        assert(line[from] != '\n');
        lemma_first_line_end(line, rest, from + 1);
    } else {
        assert(whole[from] == '\n');
    }
}

/// The lines of a text are what stands before its first line feed, without a carriage return
/// at the end, and the lines of what stands behind it.
pub proof fn lemma_first_line(line: Seq<char>, rest: Seq<char>)
    requires
        !line.contains('\n'),
    ensures
        line.len() == 0 || line.last() != '\r' ==> lines_of(line + seq!['\n'] + rest) == seq![line]
            + lines_of(rest),
        lines_of(line + seq!['\r', '\n'] + rest) == seq![line] + lines_of(rest),
{
    let whole = line + seq!['\n'] + rest;
    lemma_first_line_end(line, rest, 0);
    assert(whole.subrange(0, line.len() as int) =~= line);
    lemma_lines_shift(whole, line.len() as int + 1, line.len() as int + 1);
    assert(whole.skip(line.len() as int + 1) =~= rest);
    let long = line + seq!['\r'];
    let other = long + seq!['\n'] + rest;
    assert(other =~= line + seq!['\r', '\n'] + rest);
    assert(!long.contains('\n')) by {
        if long.contains('\n') {
            let k = choose|k: int| 0 <= k < long.len() && long[k] == '\n';
            assert(line[k] == '\n');
        }
    }
    lemma_first_line_end(long, rest, 0);
    assert(other.subrange(0, long.len() as int) =~= long);
    assert(long.drop_last() =~= line);
    lemma_lines_shift(other, long.len() as int + 1, long.len() as int + 1);
    assert(other.skip(long.len() as int + 1) =~= rest);
}

/// A text without a line feed is its only line; the empty text has none.
pub proof fn lemma_only_line(line: Seq<char>)
    requires
        !line.contains('\n'),
    ensures
        lines_of(line) == if line.len() == 0 {
            Seq::<Seq<char>>::empty()
        } else {
            seq![line]
        },
{
    if line.len() > 0 {
        assert forall|i: int| 0 <= i < line.len() implies line[i] != '\n' by {}
        lemma_no_line_end(line, 0);
        assert(line.subrange(0, line.len() as int) =~= line);
    }
}

/// Which characters of ASCII are whitespace: the space, the tab, the line feed, the carriage
/// return and two others; no visible one.
pub proof fn lemma_ascii_whitespace(c: char)
    requires
        c <= '\u{7f}',
    ensures
        is_whitespace(c) <==> c == ' ' || c == '\t' || c == '\n' || c == '\u{b}' || c == '\u{c}'
            || c == '\r',
{
}

/// All characters of a text are whitespace.
pub open spec fn is_blank(s: Seq<char>) -> bool {
    forall|i: int| 0 <= i < s.len() ==> is_whitespace(#[trigger] s[i])
}

proof fn lemma_trimmed_end_parts(s: Seq<char>)
    ensures
        trimmed_end(s).len() <= s.len(),
        s == trimmed_end(s) + s.skip(trimmed_end(s).len() as int),
        is_blank(s.skip(trimmed_end(s).len() as int)),
        trimmed_end(s).len() > 0 ==> !is_whitespace(trimmed_end(s).last()),
    decreases s.len(),
{
    if s.len() > 0 && is_whitespace(s.last()) {
        let rest = s.drop_last();
        lemma_trimmed_end_parts(rest);
        let t = trimmed_end(rest);
        let tail = s.skip(t.len() as int);
        assert forall|i: int| 0 <= i < tail.len() implies is_whitespace(#[trigger] tail[i]) by {
            if i < tail.len() - 1 {
                assert(tail[i] == rest.skip(t.len() as int)[i]);
            }
        }
        assert(rest =~= t + rest.skip(t.len() as int));
        assert(s =~= t + tail) by {
            assert(s =~= rest.push(s.last()));
        }
    } else {
        assert(s =~= trimmed_end(s) + s.skip(trimmed_end(s).len() as int));
    }
}

proof fn lemma_trimmed_start_parts(s: Seq<char>)
    ensures
        trimmed_start(s).len() <= s.len(),
        s == s.take(s.len() - trimmed_start(s).len()) + trimmed_start(s),
        is_blank(s.take(s.len() - trimmed_start(s).len())),
        trimmed_start(s).len() > 0 ==> !is_whitespace(trimmed_start(s)[0]),
    decreases s.len(),
{
    if s.len() > 0 && is_whitespace(s[0]) {
        let rest = s.drop_first();
        lemma_trimmed_start_parts(rest);
        let t = trimmed_start(rest);
        let head = s.take(s.len() - t.len());
        assert forall|i: int| 0 <= i < head.len() implies is_whitespace(#[trigger] head[i]) by {
            if i > 0 {
                assert(head[i] == rest.take(rest.len() - t.len())[i - 1]);
            }
        }
        assert(s =~= seq![s[0]] + rest);
        assert(s =~= head + t);
    } else {
        assert(s =~= s.take(0) + s);
    }
}

/// Trimming takes whitespace off both ends, all of it and nothing else: what is left, between
/// two blank texts, makes up the text, and neither begins nor ends with whitespace.
pub proof fn lemma_trimmed(s: Seq<char>)
    ensures
        exists|before: Seq<char>, after: Seq<char>| #[trigger]
            is_made_of(s, before, trimmed(s), after) && is_blank(before) && is_blank(after),
        trimmed(s).len() > 0 ==> !is_whitespace(trimmed(s)[0]) && !is_whitespace(trimmed(s).last()),
{
    let t = trimmed_end(s);
    lemma_trimmed_end_parts(s);
    lemma_trimmed_start_parts(t);
    let (before, after) = (t.take(t.len() - trimmed(s).len()), s.skip(t.len() as int));
    assert(s =~= before + trimmed(s) + after);
    assert(is_made_of(s, before, trimmed(s), after));
    if trimmed(s).len() > 0 {
        assert(trimmed(s).last() == t.last());
    }
}

/// What ends a text and is no whitespace stays when its end is trimmed, and what follows it
/// goes.
pub proof fn lemma_trimmed_end(s: Seq<char>, blank: Seq<char>)
    requires
        is_blank(blank),
        s.len() > 0 ==> !is_whitespace(s.last()),
    ensures
        trimmed_end(s + blank) == s,
    decreases blank.len(),
{
    if blank.len() == 0 {
        assert(s + blank =~= s);
    } else {
        let rest = blank.drop_last();
        assert forall|i: int| 0 <= i < rest.len() implies is_whitespace(#[trigger] rest[i]) by {
            assert(rest[i] == blank[i]);
        }
        assert(is_whitespace(blank[blank.len() - 1]));
        assert((s + blank).drop_last() =~= s + rest);
        lemma_trimmed_end(s, rest);
    }
}

/// Joining two lists puts the separator between what each gives.
pub proof fn lemma_joined(a: Seq<Seq<char>>, b: Seq<Seq<char>>, sep: Seq<char>)
    ensures
        a.len() > 0 && b.len() > 0 ==> joined(a + b, sep) == joined(a, sep) + sep + joined(b, sep),
        a.len() == 1 ==> joined(a, sep) == a[0],
        a.len() == 0 ==> joined(a, sep).len() == 0,
    decreases b.len(),
{
    if a.len() > 0 && b.len() > 0 {
        let rest = b.drop_last();
        assert((a + b).drop_last() =~= a + rest);
        assert((a + b).last() == b.last());
        if b.len() == 1 {
            assert(a + rest =~= a);
        } else {
            lemma_joined(a, rest, sep);
            assert(joined(a + b, sep) =~= joined(a, sep) + sep + joined(b, sep));
        }
    }
}

/// A number is written digit by digit, the last one behind what is written of the others.
pub proof fn lemma_decimal(n: nat, d: nat)
    requires
        d < 10,
    ensures
        decimal(d) == seq![(48 + d) as char],
        n > 0 ==> decimal(n * 10 + d) == decimal(n).push((48 + d) as char),
{
    if n > 0 {
        assert((n * 10 + d) / 10 == n);
        assert((n * 10 + d) % 10 == d);
    }
}

/// What is written of a number is read as that number, with a plus sign or without, unless it
/// is greater than what is allowed.
pub proof fn lemma_number_is_read(n: nat, max: nat)
    ensures
        unsigned(decimal(n), max) == if n <= max {
            Some(n)
        } else {
            None
        },
        unsigned(seq!['+'] + decimal(n), max) == if n <= max {
            Some(n)
        } else {
            None
        },
{
    lemma_decimal_value(n);
    let text = decimal(n);
    assert(is_digit(text[0]));
    assert(without_plus(text) == text);
    assert((seq!['+'] + text).skip(1) =~= text);
}

/// A text that is empty, or holds anything but digits behind its first character, is no
/// number.
pub proof fn lemma_no_number(s: Seq<char>, i: int, max: nat)
    ensures
        s.len() == 0 ==> unsigned(s, max) is None,
        0 < i < s.len() && !('0' <= s[i] <= '9') ==> unsigned(s, max) is None,
        s.len() > 0 && !('0' <= s[0] <= '9') && s[0] != '+' ==> unsigned(s, max) is None,
        s == seq!['+'] ==> unsigned(s, max) is None,
{
    let digits = without_plus(s);
    if 0 < i < s.len() && !('0' <= s[i] <= '9') {
        let k = if s[0] == '+' {
            i - 1
        } else {
            i
        };
        assert(digits[k] == s[i]);
        assert(!is_digit(digits[k]));
    }
    if s.len() > 0 && !('0' <= s[0] <= '9') && s[0] != '+' {
        assert(!is_digit(digits[0]));
    }
}

/// Texts stand in the order of their first differing characters; one that another begins with
/// stands before it.
pub proof fn lemma_precedes(start: Seq<char>, a: char, x: Seq<char>, b: char, y: Seq<char>)
    ensures
        a < b ==> precedes(start + seq![a] + x, start + seq![b] + y),
        precedes(start, start + seq![b] + y),
        !precedes(start, start),
    decreases start.len(),
{
    let (left, right) = (start + seq![a] + x, start + seq![b] + y);
    if start.len() > 0 {
        let rest = start.drop_first();
        lemma_precedes(rest, a, x, b, y);
        assert(left.drop_first() =~= rest + seq![a] + x);
        assert(right.drop_first() =~= rest + seq![b] + y);
    }
}

/// Of a text between two blank ones trimming leaves the text, if it neither begins nor ends
/// with whitespace.
pub proof fn lemma_trimmed_to(before: Seq<char>, text: Seq<char>, after: Seq<char>)
    requires
        is_blank(before),
        is_blank(after),
        text.len() > 0,
        !is_whitespace(text[0]),
        !is_whitespace(text.last()),
    ensures
        trimmed(before + text + after) == text,
{
    let s = before + text + after;
    let t = trimmed(s);
    lemma_trimmed(s);
    let (b, a) = choose|b: Seq<char>, a: Seq<char>| #[trigger]
        is_made_of(s, b, t, a) && is_blank(b) && is_blank(a);
    let first = before.len() as int;
    let last = before.len() + text.len() - 1;
    assert(s[first] == text[0] && s[last] == text.last());
    if first < b.len() {
        assert(s[first] == b[first]);
    }
    if last >= b.len() + t.len() {
        assert(s[last] == a[last - b.len() - t.len()]);
    }
    assert(t.len() > 0);
    assert(s[b.len() as int] == t[0]);
    assert(s[b.len() + t.len() - 1] == t.last());
    if b.len() < first {
        assert(s[b.len() as int] == before[b.len() as int]);
    }
    if b.len() + t.len() - 1 > last {
        assert(s[b.len() + t.len() - 1] == after[b.len() + t.len() - 1 - first - text.len()]);
    }
    assert(t =~= text) by {
        assert forall|i: int| 0 <= i < t.len() implies t[i] == text[i] by {
            assert(s[b.len() + i] == t[i]);
            assert(s[before.len() + i] == text[i]);
        }
    }
}

/// A number is read digit by digit: each further digit counts behind ten times what the digits
/// before it write, as long as that is allowed. A plus sign in front changes nothing.
pub proof fn lemma_number_by_digits(s: Seq<char>, d: char, max: nat)
    requires
        forall|i: int| 0 <= i < s.len() ==> '0' <= #[trigger] s[i] <= '9',
        '0' <= d <= '9',
    ensures
        ({
            let value = (d as nat - 48) as nat;
            &&& unsigned(seq![d], max) == if value <= max {
                Some(value)
            } else {
                None
            }
            &&& s.len() > 0 ==> unsigned(s.push(d), max) == match unsigned(s, max) {
                Some(n) => if n * 10 + value <= max {
                    Some(n * 10 + value)
                } else {
                    None
                },
                None => None,
            }
            &&& unsigned(seq!['+'] + s.push(d), max) == unsigned(s.push(d), max)
        }),
{
    let one = seq![d];
    assert(one.drop_last() =~= Seq::empty());
    assert(digits_value(one.drop_last()) == 0);
    assert(one.last() == d && one[0] == d);
    assert(without_plus(one) == one);
    assert(digits_value(one) == (d as nat - 48) as nat);
    assert(forall|i: int| 0 <= i < one.len() ==> is_digit(one[i]));
    let all = s.push(d);
    assert(all.drop_last() =~= s);
    assert(all.last() == d);
    if s.len() > 0 {
        assert('0' <= s[0] <= '9');
        assert(all[0] == s[0]);
    } else {
        assert(all[0] == d);
    }
    assert(without_plus(s) == s && without_plus(all) == all);
    assert forall|i: int| 0 <= i < all.len() implies is_digit(all[i]) by {
        if i < s.len() {
            assert(all[i] == s[i]);
        }
    }
    assert forall|i: int| 0 <= i < s.len() implies is_digit(s[i]) by {
        assert('0' <= s[i] <= '9');
    }
    assert((seq!['+'] + all).skip(1) =~= all);
}

/// A negative number is written as the positive one behind a minus sign.
pub proof fn lemma_signed_decimal(n: nat)
    ensures
        signed_decimal(n as int) == decimal(n),
        n > 0 ==> signed_decimal(-(n as int)) == seq!['-'] + decimal(n),
{
}

} // verus!
