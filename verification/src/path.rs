//! Unix paths as text.
//!
//! A path is split at `/`. Empty pieces and `.` pieces say nothing and are passed over;
//! only a leading `/` (the root) and a leading `.` are components of their own. All the
//! functions here agree with `std::path` on a Unix system, for paths that are text.

use crate::text::{
    chars_of, lemma_precedes_total, lemma_precedes_transitive, part, precedes, text_eq,
    text_precedes, texts,
};
use vstd::prelude::*;
use vstd::string::*;

verus! {

/// The number of characters that make up the leading `/` or the leading `.`, if any.
pub open spec fn head_len(p: Seq<char>) -> int {
    if p.len() > 0 && (p[0] == '/' || (p[0] == '.' && (p.len() == 1 || p[1] == '/'))) {
        1
    } else {
        0
    }
}

/// Where the last piece of `p[..hi]` starts: after the last `/` at or after `lo`, or at `lo`.
pub open spec fn piece_start(p: Seq<char>, lo: int, hi: int) -> int
    decreases hi - lo,
{
    if hi <= lo {
        lo
    } else if p[hi - 1] == '/' {
        hi
    } else {
        piece_start(p, lo, hi - 1)
    }
}

/// A piece starts inside the text that it ends.
pub proof fn lemma_piece_start(p: Seq<char>, lo: int, hi: int)
    requires
        lo <= hi,
    ensures
        lo <= piece_start(p, lo, hi) <= hi,
    decreases hi - lo,
{
    if hi > lo && p[hi - 1] != '/' {
        lemma_piece_start(p, lo, hi - 1);
    }
}

/// Where the text before a piece ends: before the `/` that the piece follows.
pub open spec fn piece_before(start: int, lo: int) -> int {
    if start > lo {
        start - 1
    } else {
        lo
    }
}

/// A piece that says nothing.
pub open spec fn is_idle(piece: Seq<char>) -> bool {
    piece.len() == 0 || piece == seq!['.']
}

/// Where `p[..hi]` ends once the idle pieces at its end are gone.
pub open spec fn trimmed_len(p: Seq<char>, lo: int, hi: int) -> int
    decreases hi - lo,
{
    if hi <= lo {
        lo
    } else {
        let s = piece_start(p, lo, hi);
        proof {
            lemma_piece_start(p, lo, hi);
        }
        if is_idle(p.subrange(s, hi)) {
            trimmed_len(p, lo, piece_before(s, lo))
        } else {
            hi
        }
    }
}

proof fn lemma_trimmed_len(p: Seq<char>, lo: int, hi: int)
    requires
        lo <= hi,
    ensures
        lo <= trimmed_len(p, lo, hi) <= hi,
    decreases hi - lo,
{
    if hi > lo {
        lemma_piece_start(p, lo, hi);
        lemma_trimmed_len(p, lo, piece_before(piece_start(p, lo, hi), lo));
    }
}

/// The pieces of `p[lo..hi]` that are components.
pub open spec fn pieces(p: Seq<char>, lo: int, hi: int) -> Seq<Seq<char>>
    decreases hi - lo,
{
    if hi <= lo {
        Seq::empty()
    } else {
        let s = piece_start(p, lo, hi);
        proof {
            lemma_piece_start(p, lo, hi);
        }
        let before = pieces(p, lo, piece_before(s, lo));
        if is_idle(p.subrange(s, hi)) {
            before
        } else {
            before.push(p.subrange(s, hi))
        }
    }
}

/// The components of a path: `/` for the root, `.` for a leading dot, then the pieces.
pub open spec fn components(p: Seq<char>) -> Seq<Seq<char>> {
    if head_len(p) == 0 {
        pieces(p, 0, p.len() as int)
    } else {
        seq![seq![p[0]]] + pieces(p, 1, p.len() as int)
    }
}

/// The path without its last component; none for the root and for the empty path.
pub open spec fn parent(p: Seq<char>) -> Option<Seq<char>> {
    let lo = head_len(p);
    let hi = trimmed_len(p, lo, p.len() as int);
    if hi > lo {
        let before = piece_before(piece_start(p, lo, hi), lo);
        Some(p.take(trimmed_len(p, lo, before)))
    } else if lo == 1 && p[0] == '.' {
        Some(Seq::empty())
    } else {
        None
    }
}

/// Walking up ends: a parent is shorter than the path.
pub proof fn lemma_parent_is_shorter(p: Seq<char>)
    ensures
        parent(p) matches Some(d) ==> d.len() < p.len(),
{
    let lo = head_len(p);
    let n = p.len() as int;
    lemma_trimmed_len(p, lo, n);
    let hi = trimmed_len(p, lo, n);
    if hi > lo {
        lemma_piece_start(p, lo, hi);
        lemma_last_piece(p, lo, n);
        let before = piece_before(piece_start(p, lo, hi), lo);
        lemma_trimmed_len(p, lo, before);
    }
}

/// What is left once the idle pieces at the end are gone ends in a piece.
proof fn lemma_last_piece(p: Seq<char>, lo: int, hi: int)
    requires
        0 <= lo <= hi <= p.len(),
        trimmed_len(p, lo, hi) > lo,
    ensures
        piece_start(p, lo, trimmed_len(p, lo, hi)) < trimmed_len(p, lo, hi),
    decreases hi - lo,
{
    if hi > lo {
        let s = piece_start(p, lo, hi);
        lemma_piece_start(p, lo, hi);
        if is_idle(p.subrange(s, hi)) {
            lemma_last_piece(p, lo, piece_before(s, lo));
        } else {
            assert(p.subrange(s, hi).len() == hi - s);
        }
    }
}

/// The directory of a file: its parent, or the path itself where it has none.
pub open spec fn parent_or_self(p: Seq<char>) -> Seq<char> {
    match parent(p) {
        Some(d) => d,
        None => p,
    }
}

/// `b` seen from the directory `a`.
pub open spec fn joined_path(a: Seq<char>, b: Seq<char>) -> Seq<char> {
    if b.len() > 0 && b[0] == '/' {
        b
    } else if a.len() == 0 || a.last() == '/' {
        a + b
    } else {
        a + seq!['/'] + b
    }
}

/// `base` is a directory above `p`, or `p` itself: its components begin those of `p`.
pub open spec fn is_under(p: Seq<char>, base: Seq<char>) -> bool {
    components(base).is_prefix_of(components(p))
}

/// The last component, unless it is the root, a leading dot or `..`.
pub open spec fn file_name(p: Seq<char>) -> Option<Seq<char>> {
    let lo = head_len(p);
    let hi = trimmed_len(p, lo, p.len() as int);
    let name = p.subrange(piece_start(p, lo, hi), hi);
    if hi > lo && name != seq!['.', '.'] {
        Some(name)
    } else {
        None
    }
}

/// The index of the last dot in `p[lo..hi]`, or `lo` if there is none.
pub open spec fn last_dot(p: Seq<char>, lo: int, hi: int) -> int
    decreases hi - lo,
{
    if hi <= lo {
        lo
    } else if p[hi - 1] == '.' {
        hi - 1
    } else {
        last_dot(p, lo, hi - 1)
    }
}

/// What follows the last dot of the file name, if that dot does not begin the name.
pub open spec fn extension(p: Seq<char>) -> Option<Seq<char>> {
    match file_name(p) {
        None => None,
        Some(name) => {
            let dot = last_dot(name, 0, name.len() as int);
            if dot > 0 {
                Some(name.skip(dot + 1))
            } else {
                None
            }
        },
    }
}

/// The path cut behind the stem of its file name, and an extension put there unless it is
/// empty; a path without a file name stays as it is.
pub open spec fn extension_set(p: Seq<char>, ext: Seq<char>) -> Seq<char> {
    let lo = head_len(p);
    let hi = trimmed_len(p, lo, p.len() as int);
    let start = piece_start(p, lo, hi);
    if file_name(p) is None {
        p
    } else {
        let dot = last_dot(p, start, hi);
        p.take(if dot > start { dot } else { hi }) + if ext.len() > 0 {
            seq!['.'] + ext
        } else {
            Seq::empty()
        }
    }
}

/// The path with another extension in place of the one that it has. The characters of the old
/// one are taken off the end of the path first.
pub open spec fn with_extension(p: Seq<char>, ext: Seq<char>) -> Seq<char> {
    match extension(p) {
        Some(old) => extension_set(p.take(p.len() - old.len()), ext),
        None => extension_set(p, ext),
    }
}

/// Where the last `n` pieces of `p[..hi]` start.
pub open spec fn last_pieces_start(p: Seq<char>, lo: int, hi: int, n: nat) -> int
    decreases hi - lo,
{
    if n == 0 || hi <= lo {
        hi
    } else {
        let s = piece_start(p, lo, hi);
        proof {
            lemma_piece_start(p, lo, hi);
        }
        let before = piece_before(s, lo);
        if is_idle(p.subrange(s, hi)) {
            last_pieces_start(p, lo, before, n)
        } else if n == 1 {
            s
        } else {
            last_pieces_start(p, lo, before, (n - 1) as nat)
        }
    }
}

/// What is left of `p` once the components of `base` are taken off its front.
pub open spec fn stripped(p: Seq<char>, base: Seq<char>) -> Option<Seq<char>> {
    let lo = head_len(p);
    let hi = trimmed_len(p, lo, p.len() as int);
    let left = components(p).len() - components(base).len();
    if !is_under(p, base) {
        None
    } else if components(base).len() == 0 {
        Some(p.take(hi))
    } else if left == 0 {
        Some(Seq::empty())
    } else {
        Some(p.subrange(last_pieces_start(p, lo, hi, left as nat), hi))
    }
}

// ---- the same on strings ----

fn head_of(v: &Vec<char>) -> (r: usize)
    ensures
        r == head_len(v@),
        r <= v@.len(),
{
    if v.len() > 0 && (v[0] == '/' || (v[0] == '.' && (v.len() == 1 || v[1] == '/'))) {
        1
    } else {
        0
    }
}

fn start_of_piece(v: &Vec<char>, lo: usize, hi: usize) -> (r: usize)
    requires
        lo <= hi <= v@.len(),
    ensures
        r == piece_start(v@, lo as int, hi as int),
        lo <= r <= hi,
{
    let mut i: usize = hi;
    while i > lo && v[i - 1] != '/'
        invariant
            lo <= i <= hi <= v@.len(),
            piece_start(v@, lo as int, hi as int) == piece_start(v@, lo as int, i as int),
        decreases i,
    {
        i = i - 1;
    }
    i
}

fn piece_is_idle(v: &Vec<char>, from: usize, to: usize) -> (r: bool)
    requires
        from <= to <= v@.len(),
    ensures
        r == is_idle(v@.subrange(from as int, to as int)),
{
    let ghost piece = v@.subrange(from as int, to as int);
    let r = from == to || (to - from == 1 && v[from] == '.');
    proof {
        if to - from == 1 {
            assert(piece[0] == v@[from as int]);
            if v@[from as int] == '.' {
                assert(piece =~= seq!['.']);
            } else {
                assert(seq!['.'][0] == '.');
            }
        }
    }
    r
}

fn end_before(start: usize, lo: usize) -> (r: usize)
    requires
        lo <= start,
    ensures
        r == piece_before(start as int, lo as int),
        lo <= r <= start,
{
    if start > lo {
        start - 1
    } else {
        lo
    }
}

fn end_trimmed(v: &Vec<char>, lo: usize, hi: usize) -> (r: usize)
    requires
        lo <= hi <= v@.len(),
    ensures
        r == trimmed_len(v@, lo as int, hi as int),
        lo <= r <= hi,
{
    let mut end: usize = hi;
    while end > lo
        invariant
            lo <= end <= hi <= v@.len(),
            trimmed_len(v@, lo as int, hi as int) == trimmed_len(v@, lo as int, end as int),
        decreases end,
    {
        let s = start_of_piece(v, lo, end);
        if !piece_is_idle(v, s, end) {
            return end;
        }
        end = end_before(s, lo);
    }
    end
}

fn pieces_of(p: &str, v: &Vec<char>, lo: usize, hi: usize) -> (r: Vec<String>)
    requires
        v@ == p@,
        lo <= hi <= v@.len(),
    ensures
        texts(r@) == pieces(p@, lo as int, hi as int),
    decreases hi - lo,
{
    if hi == lo {
        let none: Vec<String> = Vec::new();
        assert(texts(none@) =~= Seq::<Seq<char>>::empty());
        return none;
    }
    let s = start_of_piece(v, lo, hi);
    let mut list = pieces_of(p, v, lo, end_before(s, lo));
    if !piece_is_idle(v, s, hi) {
        let ghost before = list@;
        let piece = part(p, s, hi);
        list.push(piece);
        proof {
            assert(texts(list@) =~= texts(before).push(piece@));
        }
    }
    list
}

/// The components of a path.
pub fn components_of(p: &str) -> (r: Vec<String>)
    ensures
        texts(r@) == components(p@),
{
    let v = chars_of(p);
    let lo = head_of(&v);
    let rest = pieces_of(p, &v, lo, v.len());
    if lo == 0 {
        rest
    } else {
        let mut list: Vec<String> = Vec::new();
        let head = part(p, 0, 1);
        list.push(head);
        let mut tail = rest;
        list.append(&mut tail);
        proof {
            assert(head@ =~= seq![p@[0]]);
            assert(texts(list@) =~= seq![seq![p@[0]]] + texts(rest@));
        }
        list
    }
}

/// The path without its last component.
pub fn parent_of(p: &str) -> (r: Option<String>)
    ensures
        match r {
            Some(d) => parent(p@) == Some(d@),
            None => parent(p@) is None,
        },
{
    let v = chars_of(p);
    let lo = head_of(&v);
    let hi = end_trimmed(&v, lo, v.len());
    if hi > lo {
        let before = end_before(start_of_piece(&v, lo, hi), lo);
        let d = part(p, 0, end_trimmed(&v, lo, before));
        proof {
            assert(d@ =~= p@.take(trimmed_len(p@, lo as int, before as int)));
        }
        Some(d)
    } else if lo == 1 && v[0] == '.' {
        Some(String::new())
    } else {
        None
    }
}

/// The directory of a file: its parent, or the path itself where it has none.
pub fn parent_or_self_of(p: &str) -> (r: String)
    ensures
        r@ == parent_or_self(p@),
{
    match parent_of(p) {
        Some(d) => d,
        None => p.to_owned(),
    }
}

/// `b` seen from the directory `a`.
pub fn join_path(a: &str, b: &str) -> (r: String)
    ensures
        r@ == joined_path(a@, b@),
{
    let n = b.unicode_len();
    if n > 0 && b.get_char(0) == '/' {
        return b.to_owned();
    }
    let m = a.unicode_len();
    let mut s = a.to_owned();
    if m > 0 && a.get_char(m - 1) != '/' {
        proof {
            reveal_strlit("/");
            assert("/"@ =~= seq!['/']);
        }
        s.append("/");
    }
    s.append(b);
    s
}

/// Whether the components of `base` begin those of `p`.
pub fn is_path_under(p: &str, base: &str) -> (r: bool)
    ensures
        r == is_under(p@, base@),
{
    let x = components_of(p);
    let y = components_of(base);
    let n = common_prefix_len(&x, &y);
    proof {
        let a = components(p@);
        let b = components(base@);
        if n == b.len() {
            assert(b =~= a.take(b.len() as int));
        } else if n < a.len() {
            assert(a[n as int] != b[n as int]);
            assert(a.take(b.len() as int)[n as int] == a[n as int] || b.len() > a.len());
        }
    }
    n == y.len()
}

/// The number of leading texts that two lists share.
pub open spec fn shared_len(a: Seq<Seq<char>>, b: Seq<Seq<char>>) -> nat
    decreases a.len(),
{
    if a.len() == 0 || b.len() == 0 || a[0] != b[0] {
        0
    } else {
        1 + shared_len(a.drop_first(), b.drop_first())
    }
}

/// What `shared_len` counts: the texts up to it agree, and it stops at the first that
/// does not.
pub proof fn lemma_shared_len(a: Seq<Seq<char>>, b: Seq<Seq<char>>)
    ensures
        shared_len(a, b) <= a.len(),
        shared_len(a, b) <= b.len(),
        forall|i: int| 0 <= i < shared_len(a, b) ==> a[i] == b[i],
        shared_len(a, b) < a.len() && shared_len(a, b) < b.len() ==> a[shared_len(a, b) as int]
            != b[shared_len(a, b) as int],
    decreases a.len(),
{
    if a.len() > 0 && b.len() > 0 && a[0] == b[0] {
        let x = a.drop_first();
        let y = b.drop_first();
        lemma_shared_len(x, y);
        assert forall|i: int| 0 <= i < shared_len(a, b) implies a[i] == b[i] by {
            if i > 0 {
                assert(x[i - 1] == y[i - 1]);
            }
        }
    }
}

/// The number of leading texts that two lists share.
pub fn common_prefix_len(a: &Vec<String>, b: &Vec<String>) -> (r: usize)
    ensures
        r == shared_len(texts(a@), texts(b@)),
        r <= a@.len(),
        r <= b@.len(),
        forall|i: int| 0 <= i < r ==> texts(a@)[i] == texts(b@)[i],
        r < a@.len() && r < b@.len() ==> texts(a@)[r as int] != texts(b@)[r as int],
{
    let mut i: usize = 0;
    let ghost x = texts(a@);
    let ghost y = texts(b@);
    assert(x.skip(0) =~= x);
    assert(y.skip(0) =~= y);
    while i < a.len() && i < b.len() && text_eq(a[i].as_str(), b[i].as_str())
        invariant
            x == texts(a@),
            y == texts(b@),
            i <= a@.len(),
            i <= b@.len(),
            shared_len(x, y) == i + shared_len(x.skip(i as int), y.skip(i as int)),
        decreases a@.len() - i,
    {
        proof {
            assert(x.skip(i as int).drop_first() =~= x.skip(i + 1));
            assert(y.skip(i as int).drop_first() =~= y.skip(i + 1));
        }
        i = i + 1;
    }
    proof {
        lemma_shared_len(x, y);
    }
    i
}

/// The last component, unless it is the root, a leading dot or `..`.
pub fn file_name_of(p: &str) -> (r: Option<String>)
    ensures
        match r {
            Some(n) => file_name(p@) == Some(n@),
            None => file_name(p@) is None,
        },
{
    let v = chars_of(p);
    let lo = head_of(&v);
    let hi = end_trimmed(&v, lo, v.len());
    if hi == lo {
        return None;
    }
    let name = part(p, start_of_piece(&v, lo, hi), hi);
    proof {
        reveal_strlit("..");
        assert(".."@ =~= seq!['.', '.']);
    }
    if text_eq(name.as_str(), "..") {
        None
    } else {
        Some(name)
    }
}

fn dot_before(v: &Vec<char>, lo: usize, hi: usize) -> (r: usize)
    requires
        lo <= hi <= v@.len(),
    ensures
        r == last_dot(v@, lo as int, hi as int),
        lo <= r <= hi,
        r > lo ==> r < hi,
{
    let mut i: usize = hi;
    while i > lo
        invariant
            lo <= i <= hi <= v@.len(),
            last_dot(v@, lo as int, hi as int) == last_dot(v@, lo as int, i as int),
        decreases i,
    {
        if v[i - 1] == '.' {
            return i - 1;
        }
        i = i - 1;
    }
    lo
}

/// What follows the last dot of the file name, if that dot does not begin the name.
pub fn extension_of(p: &str) -> (r: Option<String>)
    ensures
        match r {
            Some(e) => extension(p@) == Some(e@),
            None => extension(p@) is None,
        },
{
    match file_name_of(p) {
        None => None,
        Some(name) => {
            let v = chars_of(name.as_str());
            let dot = dot_before(&v, 0, v.len());
            if dot > 0 {
                let e = part(name.as_str(), dot + 1, v.len());
                proof {
                    assert(e@ =~= name@.skip(dot + 1));
                }
                Some(e)
            } else {
                None
            }
        },
    }
}

fn set_extension(p: &str, ext: &str) -> (r: String)
    ensures
        r@ == extension_set(p@, ext@),
{
    let v = chars_of(p);
    let lo = head_of(&v);
    let hi = end_trimmed(&v, lo, v.len());
    match file_name_of(p) {
        None => p.to_owned(),
        Some(_) => {
            let start = start_of_piece(&v, lo, hi);
            let dot = dot_before(&v, start, hi);
            let end: usize = if dot > start { dot } else { hi };
            let mut s = part(p, 0, end);
            if ext.unicode_len() > 0 {
                s.append(".");
                s.append(ext);
            }
            proof {
                reveal_strlit(".");
                assert(s@ =~= extension_set(p@, ext@));
            }
            s
        },
    }
}

proof fn lemma_last_dot(p: Seq<char>, lo: int, hi: int)
    requires
        lo <= hi,
    ensures
        lo <= last_dot(p, lo, hi) <= hi,
        last_dot(p, lo, hi) > lo ==> last_dot(p, lo, hi) < hi,
    decreases hi - lo,
{
    if hi > lo && p[hi - 1] != '.' {
        lemma_last_dot(p, lo, hi - 1);
    }
}

proof fn lemma_extension_fits(p: Seq<char>)
    ensures
        extension(p) matches Some(old) ==> old.len() <= p.len(),
{
    let lo = head_len(p);
    lemma_trimmed_len(p, lo, p.len() as int);
    let hi = trimmed_len(p, lo, p.len() as int);
    lemma_piece_start(p, lo, hi);
    let name = p.subrange(piece_start(p, lo, hi), hi);
    lemma_last_dot(name, 0, name.len() as int);
}

/// The path with another extension in place of the one that it has.
pub fn change_extension(p: &str, ext: &str) -> (r: String)
    ensures
        r@ == with_extension(p@, ext@),
{
    match extension_of(p) {
        Some(old) => {
            proof {
                lemma_extension_fits(p@);
            }
            let keep: usize = p.unicode_len() - old.unicode_len();
            let cut = part(p, 0, keep);
            proof {
                assert(cut@ =~= p@.take(p@.len() - old@.len()));
            }
            set_extension(cut.as_str(), ext)
        },
        None => set_extension(p, ext),
    }
}

fn start_of_last_pieces(v: &Vec<char>, lo: usize, hi: usize, n: usize) -> (r: usize)
    requires
        lo <= hi <= v@.len(),
    ensures
        r == last_pieces_start(v@, lo as int, hi as int, n as nat),
        lo <= r <= hi,
    decreases hi,
{
    if n == 0 || hi == lo {
        return hi;
    }
    let s = start_of_piece(v, lo, hi);
    let before = end_before(s, lo);
    if piece_is_idle(v, s, hi) {
        start_of_last_pieces(v, lo, before, n)
    } else if n == 1 {
        s
    } else {
        start_of_last_pieces(v, lo, before, n - 1)
    }
}

/// What is left of `p` once the components of `base` are taken off its front.
pub fn strip_path(p: &str, base: &str) -> (r: Option<String>)
    ensures
        match r {
            Some(rest) => stripped(p@, base@) == Some(rest@),
            None => stripped(p@, base@) is None,
        },
{
    if !is_path_under(p, base) {
        return None;
    }
    let v = chars_of(p);
    let lo = head_of(&v);
    let hi = end_trimmed(&v, lo, v.len());
    let n = components_of(p).len();
    let m = components_of(base).len();
    proof {
        assert(components(p@).len() == n);
        assert(components(base@).len() == m);
    }
    if m == 0 {
        let rest = part(p, 0, hi);
        assert(rest@ =~= p@.take(hi as int));
        Some(rest)
    } else if n == m {
        let rest = String::new();
        assert(rest@ =~= Seq::<char>::empty());
        Some(rest)
    } else {
        let start = start_of_last_pieces(&v, lo, hi, n - m);
        Some(part(p, start, hi))
    }
}

// ---- laws of joining ----

/// The pieces of a text depend on its characters up to their end only.
proof fn lemma_pieces_of_prefix(p: Seq<char>, q: Seq<char>, lo: int, hi: int)
    requires
        0 <= lo <= hi <= p.len(),
        hi <= q.len(),
        forall|i: int| lo <= i < hi ==> p[i] == q[i],
    ensures
        pieces(p, lo, hi) == pieces(q, lo, hi),
    decreases hi - lo,
{
    if hi > lo {
        lemma_piece_start_of_prefix(p, q, lo, hi);
        lemma_piece_start(p, lo, hi);
        let s = piece_start(p, lo, hi);
        assert(p.subrange(s, hi) =~= q.subrange(s, hi));
        lemma_pieces_of_prefix(p, q, lo, piece_before(s, lo));
    }
}

proof fn lemma_piece_start_of_prefix(p: Seq<char>, q: Seq<char>, lo: int, hi: int)
    requires
        0 <= lo <= hi <= p.len(),
        hi <= q.len(),
        forall|i: int| lo <= i < hi ==> p[i] == q[i],
    ensures
        piece_start(p, lo, hi) == piece_start(q, lo, hi),
    decreases hi - lo,
{
    if hi > lo && p[hi - 1] != '/' {
        lemma_piece_start_of_prefix(p, q, lo, hi - 1);
    }
}

/// The last piece of a joined path starts where that of the joined part does.
proof fn lemma_joined_piece_start(j: Seq<char>, b: Seq<char>, k: int, hi: int)
    requires
        1 <= k <= hi <= j.len(),
        j.len() == k + b.len(),
        j[k - 1] == '/',
        forall|i: int| 0 <= i < b.len() ==> j[k + i] == b[i],
    ensures
        piece_start(j, 1, hi) == k + piece_start(b, 0, hi - k),
    decreases hi - k,
{
    if hi > k {
        assert(j[hi - 1] == b[hi - 1 - k]);
        if j[hi - 1] != '/' {
            lemma_joined_piece_start(j, b, k, hi - 1);
        }
    }
}

/// The pieces of a joined path are those of its two parts.
proof fn lemma_joined_pieces(j: Seq<char>, a: Seq<char>, b: Seq<char>, k: int, hi: int)
    requires
        1 <= a.len() <= k <= a.len() + 1,
        k <= hi <= j.len(),
        j.len() == k + b.len(),
        j[k - 1] == '/',
        forall|i: int| 0 <= i < a.len() ==> j[i] == a[i],
        forall|i: int| 0 <= i < b.len() ==> j[k + i] == b[i],
    ensures
        pieces(j, 1, hi) == pieces(a, 1, a.len() as int) + pieces(b, 0, hi - k),
    decreases hi - k,
{
    let n = a.len() as int;
    let s = piece_start(b, 0, hi - k);
    lemma_joined_piece_start(j, b, k, hi);
    lemma_piece_start(b, 0, hi - k);
    lemma_pieces_of_prefix(j, a, 1, n);
    // Up to the joint there are the pieces of the first part, whether it ends in a slash or not.
    assert(pieces(j, 1, piece_before(k, 1)) == pieces(a, 1, n)) by {
        if k == n && n > 1 {
            assert(a[n - 1] == '/');
            assert(piece_start(a, 1, n) == n);
            assert(a.subrange(n, n).len() == 0);
            lemma_pieces_of_prefix(j, a, 1, n - 1);
        }
    }
    if hi == k {
        if k > 1 {
            assert(piece_start(j, 1, k) == k);
            assert(j.subrange(k, k).len() == 0);
        }
        assert(pieces(j, 1, hi) =~= pieces(a, 1, n) + pieces(b, 0, 0));
    } else {
        assert(j.subrange(k + s, hi) =~= b.subrange(s, hi - k));
        if s > 0 {
            lemma_joined_pieces(j, a, b, k, k + s - 1);
        }
        let before = pieces(b, 0, piece_before(s, 0));
        assert(pieces(j, 1, piece_before(k + s, 1)) =~= pieces(a, 1, n) + before);
        assert(pieces(j, 1, hi) =~= pieces(a, 1, n) + pieces(b, 0, hi - k));
    }
}

/// Seen from an absolute directory, the components of a relative path follow those of the
/// directory.
pub proof fn lemma_joined_components(a: Seq<char>, b: Seq<char>)
    requires
        a.len() > 0 && a[0] == '/',
        b.len() > 0 ==> b[0] != '/',
    ensures
        joined_path(a, b)[0] == '/',
        joined_path(a, b).len() > 0,
        components(joined_path(a, b)) == components(a) + pieces(b, 0, b.len() as int),
{
    let j = joined_path(a, b);
    let k = j.len() - b.len();
    lemma_joined_pieces(j, a, b, k, j.len() as int);
    assert(components(j) =~= components(a) + pieces(b, 0, b.len() as int));
}

/// A name of a file, as a directory lists it: it is one piece of a path.
pub open spec fn is_plain_name(name: Seq<char>) -> bool {
    name.len() > 0 && name != seq!['.'] && !name.contains('/')
}

proof fn lemma_one_piece(name: Seq<char>, hi: int)
    requires
        !name.contains('/'),
        0 <= hi <= name.len(),
    ensures
        piece_start(name, 0, hi) == 0,
    decreases hi,
{
    if hi > 0 {
        assert(name[hi - 1] != '/');
        lemma_one_piece(name, hi - 1);
    }
}

/// Joining a name to an absolute path adds the name as the last component.
pub proof fn lemma_joined_name(a: Seq<char>, name: Seq<char>)
    requires
        a.len() > 0 && a[0] == '/',
        is_plain_name(name),
    ensures
        joined_path(a, name).len() > 0,
        joined_path(a, name)[0] == '/',
        components(joined_path(a, name)) == components(a).push(name),
{
    if name.len() > 0 {
        assert(name[0] != '/');
    }
    lemma_joined_components(a, name);
    lemma_one_piece(name, name.len() as int);
    assert(name.subrange(0, name.len() as int) =~= name);
    assert(pieces(name, 0, 0) =~= Seq::empty());
    assert(pieces(name, 0, name.len() as int) =~= seq![name]);
    assert(components(joined_path(a, name)) =~= components(a).push(name));
}

/// Idle pieces at the end make no components.
proof fn lemma_pieces_trimmed(p: Seq<char>, lo: int, hi: int)
    requires
        lo <= hi,
    ensures
        pieces(p, lo, hi) == pieces(p, lo, trimmed_len(p, lo, hi)),
    decreases hi - lo,
{
    if hi > lo {
        let s = piece_start(p, lo, hi);
        lemma_piece_start(p, lo, hi);
        if is_idle(p.subrange(s, hi)) {
            lemma_pieces_trimmed(p, lo, piece_before(s, lo));
        }
    }
}

/// What is left once the idle pieces are gone ends in a piece that is a component.
proof fn lemma_trimmed_is_busy(p: Seq<char>, lo: int, hi: int)
    requires
        lo <= hi,
        trimmed_len(p, lo, hi) > lo,
    ensures
        !is_idle(
            p.subrange(
                piece_start(p, lo, trimmed_len(p, lo, hi)),
                trimmed_len(p, lo, hi),
            ),
        ),
    decreases hi - lo,
{
    if hi > lo {
        let s = piece_start(p, lo, hi);
        lemma_piece_start(p, lo, hi);
        if is_idle(p.subrange(s, hi)) {
            lemma_trimmed_is_busy(p, lo, piece_before(s, lo));
        }
    }
}

/// The parent of an absolute path lacks its last component, and is absolute.
pub proof fn lemma_parent_components(p: Seq<char>)
    requires
        p.len() > 0 && p[0] == '/',
        components(p).len() > 1,
    ensures
        parent(p) matches Some(d) && d.len() > 0 && d[0] == '/' && components(d) == components(
            p,
        ).drop_last(),
{
    let n = p.len() as int;
    let hi = trimmed_len(p, 1, n);
    lemma_trimmed_len(p, 1, n);
    lemma_pieces_trimmed(p, 1, n);
    lemma_trimmed_is_busy(p, 1, n);
    lemma_piece_start(p, 1, hi);
    let before = piece_before(piece_start(p, 1, hi), 1);
    let cut = trimmed_len(p, 1, before);
    lemma_trimmed_len(p, 1, before);
    lemma_pieces_trimmed(p, 1, before);
    let d = p.take(cut);
    lemma_pieces_of_prefix(d, p, 1, cut);
    assert(components(d) =~= components(p).drop_last());
}

// ---- order ----

/// The class of a component: the root stands before a leading dot, that before `..`, that
/// before any name.
pub open spec fn component_class(c: Seq<char>) -> int {
    if c == seq!['/'] {
        0
    } else if c == seq!['.'] {
        1
    } else if c == seq!['.', '.'] {
        2
    } else {
        3
    }
}

/// A component stands before another: by their classes, names by their characters.
pub open spec fn component_precedes(a: Seq<char>, b: Seq<char>) -> bool {
    component_class(a) < component_class(b) || (component_class(a) == 3 && component_class(b) == 3
        && precedes(a, b))
}

/// A list of components stands before another: at the first place where they differ, or
/// because it ends there.
pub open spec fn components_precede(a: Seq<Seq<char>>, b: Seq<Seq<char>>) -> bool
    decreases b.len(),
{
    if b.len() == 0 {
        false
    } else if a.len() == 0 {
        true
    } else if a[0] == b[0] {
        components_precede(a.drop_first(), b.drop_first())
    } else {
        component_precedes(a[0], b[0])
    }
}

/// A path stands before another.
pub open spec fn path_precedes(a: Seq<char>, b: Seq<char>) -> bool {
    components_precede(components(a), components(b))
}

fn class_of(c: &str) -> (r: u8)
    ensures
        r == component_class(c@),
{
    proof {
        reveal_strlit("/");
        reveal_strlit(".");
        reveal_strlit("..");
        assert("/"@ =~= seq!['/']);
        assert("."@ =~= seq!['.']);
        assert(".."@ =~= seq!['.', '.']);
    }
    if text_eq(c, "/") {
        0
    } else if text_eq(c, ".") {
        1
    } else if text_eq(c, "..") {
        2
    } else {
        3
    }
}

/// Whether a path stands before another.
pub fn is_path_before(a: &str, b: &str) -> (r: bool)
    ensures
        r == path_precedes(a@, b@),
{
    let x = components_of(a);
    let y = components_of(b);
    let n = common_prefix_len(&x, &y);
    proof {
        lemma_shared_components(components(a@), components(b@));
    }
    if n == y.len() {
        false
    } else if n == x.len() {
        true
    } else {
        let p = class_of(x[n].as_str());
        let q = class_of(y[n].as_str());
        p < q || (p == 3 && q == 3 && text_precedes(x[n].as_str(), y[n].as_str()))
    }
}

/// What two lists of components share does not matter for their order.
proof fn lemma_shared_components(a: Seq<Seq<char>>, b: Seq<Seq<char>>)
    ensures
        components_precede(a, b) == {
            let n = shared_len(a, b) as int;
            n < b.len() && (n == a.len() || component_precedes(a[n], b[n]))
        },
    decreases a.len(),
{
    lemma_shared_len(a, b);
    if a.len() > 0 && b.len() > 0 && a[0] == b[0] {
        lemma_shared_components(a.drop_first(), b.drop_first());
    }
}

/// Of two components that differ one stands before the other, and not both.
proof fn lemma_component_order(a: Seq<char>, b: Seq<char>)
    ensures
        component_precedes(a, b) || component_precedes(b, a) || a == b,
        !(component_precedes(a, b) && component_precedes(b, a)),
        component_precedes(a, b) ==> a != b,
{
    lemma_precedes_total(a, b);
    lemma_precedes_total(b, a);
}

/// Of two paths with different components one stands before the other, and not both.
pub proof fn lemma_path_order_total(a: Seq<char>, b: Seq<char>)
    ensures
        path_precedes(a, b) || path_precedes(b, a) || components(a) == components(b),
        !(path_precedes(a, b) && path_precedes(b, a)),
{
    lemma_components_order(components(a), components(b));
}

proof fn lemma_components_order(a: Seq<Seq<char>>, b: Seq<Seq<char>>)
    ensures
        components_precede(a, b) || components_precede(b, a) || a == b,
        !(components_precede(a, b) && components_precede(b, a)),
    decreases a.len(),
{
    if a.len() > 0 && b.len() > 0 {
        lemma_component_order(a[0], b[0]);
        lemma_component_order(b[0], a[0]);
        lemma_components_order(a.drop_first(), b.drop_first());
        if a[0] == b[0] && a.drop_first() == b.drop_first() {
            assert(a =~= seq![a[0]] + a.drop_first());
            assert(b =~= seq![b[0]] + b.drop_first());
        }
    } else if a.len() == 0 && b.len() == 0 {
        assert(a =~= b);
    }
}

/// The order of paths is transitive, also where the first two have the same components.
pub proof fn lemma_path_order_transitive(a: Seq<char>, b: Seq<char>, c: Seq<char>)
    requires
        !path_precedes(b, a),
        !path_precedes(c, b),
    ensures
        !path_precedes(c, a),
{
    lemma_components_transitive(components(a), components(b), components(c));
}

proof fn lemma_components_transitive(a: Seq<Seq<char>>, b: Seq<Seq<char>>, c: Seq<Seq<char>>)
    requires
        !components_precede(b, a),
        !components_precede(c, b),
    ensures
        !components_precede(c, a),
    decreases a.len(),
{
    if a.len() > 0 && b.len() > 0 && c.len() > 0 {
        lemma_component_order(a[0], b[0]);
        lemma_component_order(b[0], c[0]);
        lemma_component_order(a[0], c[0]);
        lemma_component_order(c[0], a[0]);
        if a[0] == b[0] && b[0] == c[0] {
            lemma_components_transitive(a.drop_first(), b.drop_first(), c.drop_first());
        } else if component_precedes(a[0], b[0]) && component_precedes(b[0], c[0]) {
            if component_class(a[0]) == 3 && component_class(c[0]) == 3 && component_class(b[0])
                == 3 {
                lemma_precedes_transitive(a[0], b[0], c[0]);
            }
        }
    }
}

// ---- laws of tidy paths ----

/// All names of a list can stand in a path.
pub open spec fn are_plain_names(names: Seq<Seq<char>>) -> bool {
    forall|i: int| 0 <= i < names.len() ==> is_plain_name(#[trigger] names[i])
}

/// The absolute path that leads through some names: each behind a slash; the root where there
/// is none.
pub open spec fn rooted(names: Seq<Seq<char>>) -> Seq<char>
    decreases names.len(),
{
    if names.len() == 0 {
        seq!['/']
    } else if names.len() == 1 {
        seq!['/'] + names[0]
    } else {
        rooted(names.drop_last()) + seq!['/'] + names.last()
    }
}

/// The relative path that leads through some names: a slash between two of them.
pub open spec fn slashed(names: Seq<Seq<char>>) -> Seq<char>
    decreases names.len(),
{
    if names.len() == 0 {
        Seq::empty()
    } else if names.len() == 1 {
        names[0]
    } else {
        slashed(names.drop_last()) + seq!['/'] + names.last()
    }
}

proof fn lemma_rooted_ends(names: Seq<Seq<char>>)
    requires
        are_plain_names(names),
    ensures
        rooted(names).len() > 0,
        rooted(names)[0] == '/',
        names.len() > 0 ==> rooted(names).len() > 1 && rooted(names).last() != '/',
    decreases names.len(),
{
    if names.len() > 0 {
        let last = names[names.len() - 1];
        assert(is_plain_name(last));
        assert(last[last.len() - 1] != '/');
        if names.len() > 1 {
            lemma_plain_names_but_last(names);
            lemma_rooted_ends(names.drop_last());
        }
        assert(rooted(names).last() == last.last());
    }
}

proof fn lemma_plain_names_but_last(names: Seq<Seq<char>>)
    requires
        are_plain_names(names),
        names.len() > 0,
    ensures
        are_plain_names(names.drop_last()),
        is_plain_name(names.last()),
{
    assert forall|i: int| 0 <= i < names.drop_last().len() implies is_plain_name(
        #[trigger] names.drop_last()[i],
    ) by {
        assert(names.drop_last()[i] == names[i]);
    }
    assert(is_plain_name(names[names.len() - 1]));
}

/// A path is built name by name.
pub proof fn lemma_rooted_push(names: Seq<Seq<char>>, name: Seq<char>)
    requires
        are_plain_names(names),
        is_plain_name(name),
    ensures
        are_plain_names(names.push(name)),
        joined_path(rooted(names), name) == rooted(names.push(name)),
{
    let all = names.push(name);
    assert forall|i: int| 0 <= i < all.len() implies is_plain_name(#[trigger] all[i]) by {
        if i < names.len() {
            assert(all[i] == names[i]);
        }
    }
    assert(name[0] != '/');
    lemma_rooted_ends(names);
    assert(all.drop_last() =~= names);
    assert(all.last() == name);
    if names.len() == 0 {
        assert(joined_path(rooted(names), name) =~= rooted(all));
    }
}

/// The components of an absolute path are the root and its names.
pub proof fn lemma_rooted_components(names: Seq<Seq<char>>)
    requires
        are_plain_names(names),
    ensures
        components(rooted(names)) == seq![seq!['/']] + names,
    decreases names.len(),
{
    if names.len() == 0 {
        assert(components(rooted(names)) =~= seq![seq!['/']] + names);
    } else {
        let rest = names.drop_last();
        lemma_plain_names_but_last(names);
        lemma_rooted_components(rest);
        lemma_rooted_ends(rest);
        lemma_rooted_push(rest, names.last());
        assert(rest.push(names.last()) =~= names);
        lemma_joined_name(rooted(rest), names.last());
        assert(components(rooted(names)) =~= seq![seq!['/']] + names);
    }
}

/// Two absolute paths are the same text only if they lead through the same names.
pub proof fn lemma_rooted_is_unique(a: Seq<Seq<char>>, b: Seq<Seq<char>>)
    requires
        are_plain_names(a),
        are_plain_names(b),
        rooted(a) == rooted(b),
    ensures
        a == b,
{
    lemma_rooted_components(a);
    lemma_rooted_components(b);
    assert(a =~= components(rooted(a)).skip(1));
    assert(b =~= components(rooted(b)).skip(1));
}

/// Where a text ends in a slash and a name, the name is its last piece.
proof fn lemma_name_behind_slash(p: Seq<char>, name: Seq<char>, hi: int)
    requires
        is_plain_name(name),
        1 <= p.len() - name.len() <= hi <= p.len(),
        p[p.len() - name.len() - 1] == '/',
        p.skip(p.len() - name.len()) == name,
    ensures
        piece_start(p, 1, hi) == p.len() - name.len(),
    decreases hi,
{
    let start = p.len() - name.len();
    if hi > start {
        assert(p[hi - 1] == p.skip(start)[hi - 1 - start]);
        assert(name[hi - 1 - start] != '/');
        lemma_name_behind_slash(p, name, hi - 1);
    }
}

/// The last piece of an absolute path is its last name.
proof fn lemma_rooted_last_piece(names: Seq<Seq<char>>)
    requires
        are_plain_names(names),
        names.len() > 0,
    ensures
        ({
            let p = rooted(names);
            let start = p.len() - names.last().len();
            &&& start >= 1
            &&& piece_start(p, 1, p.len() as int) == start
            &&& p.subrange(start, p.len() as int) == names.last()
            &&& trimmed_len(p, 1, p.len() as int) == p.len()
            &&& p.take(piece_before(start, 1)) == rooted(names.drop_last())
        }),
{
    let p = rooted(names);
    let last = names.last();
    let start = p.len() - last.len();
    lemma_plain_names_but_last(names);
    lemma_rooted_ends(names.drop_last());
    if names.len() == 1 {
        assert(names.last() == names[0]);
    }
    assert(p.skip(start) =~= last);
    assert(p.subrange(start, p.len() as int) =~= last);
    assert(p[start - 1] == '/');
    lemma_name_behind_slash(p, last, p.len() as int);
    assert(p.take(piece_before(start, 1)) =~= rooted(names.drop_last()));
}

/// The parent of an absolute path lacks its last name; the root has none.
pub proof fn lemma_rooted_parent(names: Seq<Seq<char>>)
    requires
        are_plain_names(names),
    ensures
        parent(rooted(names)) == if names.len() > 0 {
            Some(rooted(names.drop_last()))
        } else {
            None
        },
{
    lemma_rooted_ends(names);
    if names.len() > 0 {
        let p = rooted(names);
        let rest = names.drop_last();
        let q = rooted(rest);
        lemma_plain_names_but_last(names);
        lemma_rooted_last_piece(names);
        let before = piece_before(p.len() - names.last().len(), 1);
        assert(q.len() == before);
        if rest.len() > 0 {
            lemma_rooted_last_piece(rest);
            lemma_rooted_ends(rest);
            assert forall|i: int| 1 <= i < before implies p[i] == q[i] by {
                assert(p.take(before)[i] == q[i]);
            }
            lemma_piece_start_of_prefix(p, q, 1, before);
            let s = piece_start(p, 1, before);
            assert(p.subrange(s, before) =~= q.subrange(s, before));
        }
        assert(trimmed_len(p, 1, before) == before);
    }
}

/// The file name of an absolute path is its last name, unless that is `..`.
pub proof fn lemma_rooted_file_name(names: Seq<Seq<char>>)
    requires
        are_plain_names(names),
    ensures
        file_name(rooted(names)) == if names.len() > 0 && names.last() != seq!['.', '.'] {
            Some(names.last())
        } else {
            None
        },
{
    lemma_rooted_ends(names);
    if names.len() > 0 {
        lemma_rooted_last_piece(names);
    }
}

/// Seen from an absolute path, a relative path leads on through its names.
pub proof fn lemma_rooted_join(a: Seq<Seq<char>>, b: Seq<Seq<char>>)
    requires
        are_plain_names(a),
        are_plain_names(b),
        b.len() > 0,
    ensures
        slashed(b).len() > 0,
        slashed(b)[0] != '/',
        joined_path(rooted(a), slashed(b)) == rooted(a + b),
        are_plain_names(a + b),
    decreases b.len(),
{
    lemma_plain_names_but_last(b);
    lemma_rooted_ends(a);
    assert forall|i: int| 0 <= i < (a + b).len() implies is_plain_name(#[trigger] (a + b)[i]) by {
        if i < a.len() {
            assert((a + b)[i] == a[i]);
        } else {
            assert((a + b)[i] == b[i - a.len()]);
        }
    }
    if b.len() == 1 {
        assert(a + b =~= a.push(b[0]));
        assert(b[0] == b.last());
        assert(b[0][0] != '/');
        lemma_rooted_push(a, b[0]);
    } else {
        let rest = b.drop_last();
        lemma_rooted_join(a, rest);
        assert((a + b).drop_last() =~= a + rest);
        assert((a + b).last() == b.last());
        assert(slashed(b) =~= slashed(rest) + seq!['/'] + b.last());
        assert(joined_path(rooted(a), slashed(b)) =~= joined_path(rooted(a), slashed(rest))
            + seq!['/'] + b.last());
        assert(joined_path(rooted(a), slashed(b)) =~= rooted(a + b));
    }
}

/// A path lies under another exactly if it leads through its names first.
pub proof fn lemma_rooted_under(a: Seq<Seq<char>>, b: Seq<Seq<char>>)
    requires
        are_plain_names(a),
        are_plain_names(b),
    ensures
        is_under(rooted(a), rooted(b)) == b.is_prefix_of(a),
{
    lemma_rooted_components(a);
    lemma_rooted_components(b);
    let (x, y) = (components(rooted(a)), components(rooted(b)));
    if b.is_prefix_of(a) {
        assert(y =~= x.subrange(0, y.len() as int));
    }
    if y.is_prefix_of(x) {
        assert forall|i: int| 0 <= i < b.len() implies b[i] == a[i] by {
            assert(y[i + 1] == x.subrange(0, y.len() as int)[i + 1]);
        }
        assert(b =~= a.subrange(0, b.len() as int));
    }
}

proof fn lemma_last_dot_behind_stem(stem: Seq<char>, ext: Seq<char>, hi: int)
    requires
        !ext.contains('.'),
        stem.len() < hi <= stem.len() + 1 + ext.len(),
    ensures
        last_dot(stem + seq!['.'] + ext, 0, hi) == stem.len(),
    decreases hi,
{
    let name = stem + seq!['.'] + ext;
    if hi > stem.len() + 1 {
        assert(name[hi - 1] == ext[hi - 1 - stem.len() - 1]);
        assert(ext[hi - 1 - stem.len() - 1] != '.');
        lemma_last_dot_behind_stem(stem, ext, hi - 1);
    }
}

proof fn lemma_no_dot(name: Seq<char>, hi: int)
    requires
        0 <= hi <= name.len(),
        forall|i: int| 0 < i < name.len() ==> name[i] != '.',
    ensures
        last_dot(name, 0, hi) == 0,
    decreases hi,
{
    if hi > 0 {
        lemma_no_dot(name, hi - 1);
    }
}

/// The extension of a file is what follows the last dot of its name, unless that dot begins
/// the name or there is none.
pub proof fn lemma_rooted_extension(dir: Seq<Seq<char>>, stem: Seq<char>, ext: Seq<char>)
    requires
        are_plain_names(dir),
    ensures
        is_plain_name(stem + seq!['.'] + ext) && stem.len() > 0 && !ext.contains('.') && stem
            + seq!['.'] + ext != seq!['.', '.'] ==> extension(
            rooted(dir.push(stem + seq!['.'] + ext)),
        ) == Some(ext),
        is_plain_name(stem) && (forall|i: int| 0 < i < stem.len() ==> stem[i] != '.') ==> extension(
            rooted(dir.push(stem)),
        ) is None,
{
    let name = stem + seq!['.'] + ext;
    if is_plain_name(name) && stem.len() > 0 && !ext.contains('.') && name != seq!['.', '.'] {
        lemma_rooted_push(dir, name);
        lemma_rooted_file_name(dir.push(name));
        lemma_last_dot_behind_stem(stem, ext, name.len() as int);
        assert(dir.push(name).last() == name);
        assert(name.skip(stem.len() as int + 1) =~= ext);
    }
    if is_plain_name(stem) && (forall|i: int| 0 < i < stem.len() ==> stem[i] != '.') {
        lemma_rooted_push(dir, stem);
        lemma_rooted_file_name(dir.push(stem));
        lemma_no_dot(stem, stem.len() as int);
    }
}

/// Absolute paths stand in the order of their first differing names, with `..` before any other;
/// one that another leads through stands before it.
pub proof fn lemma_rooted_order(
    start: Seq<Seq<char>>,
    a: Seq<char>,
    x: Seq<Seq<char>>,
    b: Seq<char>,
    y: Seq<Seq<char>>,
)
    requires
        are_plain_names(start + seq![a] + x),
        are_plain_names(start + seq![b] + y),
        are_plain_names(start),
    ensures
        precedes(a, b) && a != seq!['.', '.'] && b != seq!['.', '.'] ==> path_precedes(
            rooted(start + seq![a] + x),
            rooted(start + seq![b] + y),
        ),
        a == seq!['.', '.'] && b != seq!['.', '.'] ==> path_precedes(
            rooted(start + seq![a] + x),
            rooted(start + seq![b] + y),
        ),
        path_precedes(rooted(start), rooted(start + seq![b] + y)),
        !path_precedes(rooted(start), rooted(start)),
{
    let (left, right) = (start + seq![a] + x, start + seq![b] + y);
    lemma_rooted_components(left);
    lemma_rooted_components(right);
    lemma_rooted_components(start);
    let head = seq![seq!['/']] + start;
    assert(seq![seq!['/']] + left =~= head + (seq![a] + x));
    assert(seq![seq!['/']] + right =~= head + (seq![b] + y));
    assert(head =~= head + Seq::empty());
    assert(is_plain_name(left[start.len() as int]));
    assert(is_plain_name(right[start.len() as int]));
    if precedes(a, b) {
        lemma_precedes_total(a, b);
    }
    lemma_components_after(head, seq![a] + x, seq![b] + y);
    lemma_components_after(head, Seq::empty(), seq![b] + y);
    lemma_components_after(head, Seq::empty(), Seq::empty());
    assert(a != seq!['/']) by {
        if a == seq!['/'] {
            assert(a[0] == '/');
            assert(a.contains('/'));
        }
    }
    assert(b != seq!['/']) by {
        if b == seq!['/'] {
            assert(b[0] == '/');
            assert(b.contains('/'));
        }
    }
}

proof fn lemma_components_after(head: Seq<Seq<char>>, a: Seq<Seq<char>>, b: Seq<Seq<char>>)
    ensures
        components_precede(head + a, head + b) == components_precede(a, b),
    decreases head.len(),
{
    if head.len() == 0 {
        assert(head + a =~= a);
        assert(head + b =~= b);
    } else {
        lemma_components_after(head.drop_first(), a, b);
        assert((head + a).drop_first() =~= head.drop_first() + a);
        assert((head + b).drop_first() =~= head.drop_first() + b);
    }
}

proof fn lemma_last_pieces_of_prefix(p: Seq<char>, q: Seq<char>, lo: int, hi: int, n: nat)
    requires
        0 <= lo <= hi <= p.len(),
        hi <= q.len(),
        forall|i: int| lo <= i < hi ==> p[i] == q[i],
    ensures
        last_pieces_start(p, lo, hi, n) == last_pieces_start(q, lo, hi, n),
    decreases hi - lo,
{
    if n > 0 && hi > lo {
        lemma_piece_start_of_prefix(p, q, lo, hi);
        lemma_piece_start(p, lo, hi);
        let s = piece_start(p, lo, hi);
        assert(p.subrange(s, hi) =~= q.subrange(s, hi));
        if is_idle(p.subrange(s, hi)) {
            lemma_last_pieces_of_prefix(p, q, lo, piece_before(s, lo), n);
        } else if n > 1 {
            lemma_last_pieces_of_prefix(p, q, lo, piece_before(s, lo), (n - 1) as nat);
        }
    }
}

proof fn lemma_last_names(names: Seq<Seq<char>>, n: nat)
    requires
        are_plain_names(names),
        1 <= n <= names.len(),
    ensures
        ({
            let p = rooted(names);
            let start = last_pieces_start(p, 1, p.len() as int, n);
            &&& 0 <= start <= p.len()
            &&& p.skip(start) == slashed(names.skip(names.len() - n))
        }),
    decreases n,
{
    let p = rooted(names);
    let last = names.last();
    let from = names.len() - n;
    lemma_plain_names_but_last(names);
    lemma_rooted_ends(names);
    lemma_rooted_last_piece(names);
    let s = p.len() - last.len();
    if n == 1 {
        assert(names.skip(from) =~= seq![last]);
        assert(p.skip(s) =~= last);
    } else {
        let rest = names.drop_last();
        let q = rooted(rest);
        lemma_rooted_ends(rest);
        lemma_last_names(rest, (n - 1) as nat);
        let before = piece_before(s, 1);
        assert(p.take(before) == q);
        assert(before == q.len());
        assert forall|i: int| 1 <= i < before implies p[i] == q[i] by {
            assert(p.take(before)[i] == q[i]);
        }
        lemma_last_pieces_of_prefix(p, q, 1, before, (n - 1) as nat);
        let start = last_pieces_start(q, 1, before, (n - 1) as nat);
        assert(names.skip(from).drop_last() =~= rest.skip(rest.len() - (n - 1)));
        assert(names.skip(from).last() == last);
        assert(p =~= q + seq!['/'] + last);
        assert(p.skip(start) =~= q.skip(start) + seq!['/'] + last);
    }
}

/// What is left of an absolute path once another is taken off its front are the names behind
/// it; nothing can be taken off that does not lead there.
pub proof fn lemma_rooted_stripped(base: Seq<Seq<char>>, rest: Seq<Seq<char>>)
    requires
        are_plain_names(base),
        are_plain_names(rest),
    ensures
        stripped(rooted(base + rest), rooted(base)) == Some(slashed(rest)),
        !base.is_prefix_of(rest) ==> stripped(rooted(rest), rooted(base)) is None,
{
    let all = base + rest;
    assert forall|i: int| 0 <= i < all.len() implies is_plain_name(#[trigger] all[i]) by {
        if i < base.len() {
            assert(all[i] == base[i]);
        } else {
            assert(all[i] == rest[i - base.len()]);
        }
    }
    let p = rooted(all);
    lemma_rooted_components(all);
    lemma_rooted_components(base);
    lemma_rooted_ends(all);
    lemma_rooted_under(all, base);
    lemma_rooted_under(rest, base);
    assert(base =~= all.subrange(0, base.len() as int));
    if rest.len() > 0 {
        lemma_rooted_last_piece(all);
        lemma_last_names(all, rest.len());
        assert(all.skip(base.len() as int) =~= rest);
        let start = last_pieces_start(p, 1, p.len() as int, rest.len());
        assert(p.subrange(start, p.len() as int) =~= p.skip(start));
    }
}

/// A slash or a dot at the end of an absolute path says nothing.
pub proof fn lemma_idle_end(p: Seq<char>)
    requires
        p.len() > 0 && p[0] == '/',
    ensures
        components(p + seq!['/']) == components(p),
        components(p + seq!['/', '.']) == components(p),
{
    let n = p.len() as int;
    let q = p + seq!['/'];
    lemma_pieces_of_prefix(p, q, 1, n);
    assert(piece_start(q, 1, n + 1) == n + 1);
    assert(q.subrange(n + 1, n + 1).len() == 0);
    assert(components(q) =~= components(p));
    let r = p + seq!['/', '.'];
    lemma_pieces_of_prefix(p, r, 1, n);
    assert(r[n + 1] == '.' && r[n] == '/');
    assert(piece_start(r, 1, n + 1) == n + 1);
    assert(piece_start(r, 1, n + 2) == n + 1);
    assert(r.subrange(n + 1, n + 2) =~= seq!['.']);
    assert(components(r) =~= components(p));
}

/// A name alone lies in the directory that is the empty path.
pub proof fn lemma_name_alone(name: Seq<char>)
    requires
        is_plain_name(name),
    ensures
        parent(name) == Some(Seq::<char>::empty()),
        components(name) == seq![name],
{
    assert(name[0] != '/');
    if name.len() > 1 {
        assert(name[1] != '/');
    } else {
        assert(name[0] != '.') by {
            if name[0] == '.' {
                assert(name =~= seq!['.']);
            }
        }
    }
    lemma_one_piece(name, name.len() as int);
    assert(name.subrange(0, name.len() as int) =~= name);
    assert(pieces(name, 0, 0) =~= Seq::empty());
    assert(components(name) =~= seq![name]);
    assert(name.take(0) =~= Seq::empty());
}

/// What is put behind the last name of an absolute path stands at its end.
proof fn lemma_rooted_longer_name(dir: Seq<Seq<char>>, name: Seq<char>, end: Seq<char>)
    ensures
        rooted(dir.push(name + end)) == rooted(dir.push(name)) + end,
{
    let (a, b) = (dir.push(name), dir.push(name + end));
    assert(a.drop_last() =~= dir && b.drop_last() =~= dir);
    assert(a.last() == name && b.last() == name + end);
    if dir.len() == 0 {
        assert(a[0] == name && b[0] == name + end);
    }
    assert(rooted(b) =~= rooted(a) + end);
}

proof fn lemma_last_dot_from(p: Seq<char>, start: int, hi: int)
    requires
        0 <= start <= hi <= p.len(),
    ensures
        last_dot(p, start, hi) == start + last_dot(p.skip(start), 0, hi - start),
    decreases hi,
{
    if hi > start {
        lemma_last_dot_from(p, start, hi - 1);
        assert(p.skip(start)[hi - 1 - start] == p[hi - 1]);
    }
}

/// Another extension is put behind the stem of a file's name: behind the last dot, or behind
/// the whole name where no dot follows its first character.
pub proof fn lemma_rooted_with_extension(
    dir: Seq<Seq<char>>,
    stem: Seq<char>,
    old: Seq<char>,
    ext: Seq<char>,
)
    requires
        are_plain_names(dir),
        is_plain_name(stem),
        ext.len() > 0,
    ensures
        (forall|i: int| 0 < i < stem.len() ==> stem[i] != '.') ==> with_extension(
            rooted(dir.push(stem)),
            ext,
        ) == rooted(dir.push(stem + seq!['.'] + ext)),
        !old.contains('.') && !old.contains('/') ==> with_extension(
            rooted(dir.push(stem + seq!['.'] + old)),
            ext,
        ) == rooted(dir.push(stem + seq!['.'] + ext)),
{
    lemma_rooted_longer_name(dir, stem, seq!['.'] + ext);
    assert(stem + (seq!['.'] + ext) =~= stem + seq!['.'] + ext);
    if forall|i: int| 0 < i < stem.len() ==> stem[i] != '.' {
        let p = rooted(dir.push(stem));
        let start = p.len() - stem.len();
        assert(dir.push(stem).last() == stem);
        lemma_rooted_push(dir, stem);
        lemma_rooted_ends(dir.push(stem));
        lemma_rooted_last_piece(dir.push(stem));
        lemma_rooted_file_name(dir.push(stem));
        lemma_rooted_extension(dir, stem, ext);
        lemma_last_dot_from(p, start, p.len() as int);
        assert(p.skip(start) =~= stem);
        lemma_no_dot(stem, stem.len() as int);
        assert(p.take(p.len() as int) =~= p);
    }
    if !old.contains('.') && !old.contains('/') {
        let dotted = stem + seq!['.'];
        let name = dotted + old;
        let p = rooted(dir.push(dotted));
        let start = p.len() - dotted.len();
        assert(name =~= stem + seq!['.'] + old);
        assert forall|c: char| #[trigger] name.contains(c) && c == '/' implies false by {
            let i = name.index_of(c);
            if i < stem.len() {
                assert(stem[i] == c);
            } else if i > stem.len() {
                assert(old[i - stem.len() - 1] == c);
            }
        }
        assert(!dotted.contains('/')) by {
            if dotted.contains('/') {
                let i = dotted.index_of('/');
                assert(stem[i] == '/');
            }
        }
        assert(stem != seq!['.']);
        assert(dotted[0] == stem[0]);
        if dotted == seq!['.', '.'] {
            assert(stem =~= seq!['.']);
        }
        if name == seq!['.', '.'] {
            assert(stem =~= seq!['.']);
        }
        lemma_rooted_longer_name(dir, dotted, old);
        lemma_rooted_longer_name(dir, stem, seq!['.']);
        lemma_rooted_extension(dir, stem, old);
        let whole = rooted(dir.push(name));
        assert(whole.take(whole.len() - old.len()) =~= p);
        assert(dir.push(dotted).last() == dotted);
        lemma_rooted_push(dir, dotted);
        lemma_rooted_ends(dir.push(dotted));
        lemma_rooted_last_piece(dir.push(dotted));
        lemma_rooted_file_name(dir.push(dotted));
        lemma_last_dot_from(p, start, p.len() as int);
        assert(p.skip(start) =~= dotted);
        assert(dotted + Seq::<char>::empty() =~= dotted);
        lemma_last_dot_behind_stem(stem, Seq::empty(), dotted.len() as int);
        assert(p.take(p.len() - 1) =~= rooted(dir.push(stem)));
    }
}

/// An absolute path is the same wherever it is seen from; a relative one is put behind the
/// directory, with one slash between them. The directory that a path has none of is itself.
pub proof fn lemma_seen_from(a: Seq<char>, b: Seq<char>)
    requires
        b.len() > 0,
    ensures
        b[0] == '/' ==> joined_path(a, b) == b,
        b[0] != '/' ==> joined_path(Seq::empty(), b) == b,
        b[0] != '/' ==> joined_path(a + seq!['/'], b) == a + seq!['/'] + b,
        b[0] != '/' && a.len() > 0 && a.last() != '/' ==> joined_path(a, b) == a + seq!['/'] + b,
        joined_path(a, Seq::empty()) == if a.len() == 0 || a.last() == '/' {
            a
        } else {
            a + seq!['/']
        },
        parent_or_self(a) == if parent(a) is Some {
            parent(a)->0
        } else {
            a
        },
{
    assert(joined_path(Seq::empty(), b) =~= b);
    assert((a + seq!['/']).last() == '/');
    assert(a + Seq::<char>::empty() =~= a);
    assert(a + seq!['/'] + Seq::<char>::empty() =~= a + seq!['/']);
}

/// An absolute path stands before a name alone.
pub proof fn lemma_absolute_comes_first(names: Seq<Seq<char>>, name: Seq<char>)
    requires
        are_plain_names(names),
        is_plain_name(name),
    ensures
        path_precedes(rooted(names), name),
        !path_precedes(name, rooted(names)),
{
    lemma_rooted_components(names);
    lemma_name_alone(name);
    assert(components(rooted(names))[0] == seq!['/']);
    assert(components(name)[0] == name);
    if name == seq!['/'] {
        assert(name[0] == '/');
        assert(name.contains('/'));
    }
}

} // verus!
