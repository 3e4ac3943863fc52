//! The size of a directory, and sizes as people read them.

use crate::text::{decimal, number};
use vstd::prelude::*;
use vstd::string::*;

verus! {

/// What a walk through a directory tells of an entry.
pub struct DirEntry {
    /// Whether the entry is a file.
    pub is_file: bool,
    /// The length of the entry in bytes, if it could be read.
    pub len: Option<u64>,
}

/// The bytes that an entry counts for: its length if it is a file.
pub open spec fn entry_size(entry: DirEntry) -> nat {
    match entry.len {
        Some(len) => if entry.is_file {
            len as nat
        } else {
            0
        },
        None => 0,
    }
}

/// The bytes of all entries together.
pub open spec fn total_size(entries: Seq<DirEntry>) -> nat
    decreases entries.len(),
{
    if entries.len() == 0 {
        0
    } else {
        total_size(entries.drop_last()) + entry_size(entries.last())
    }
}

/// More entries never count for less.
pub proof fn lemma_total_size_grows(entries: Seq<DirEntry>, n: int)
    requires
        0 <= n <= entries.len(),
    ensures
        total_size(entries.take(n)) <= total_size(entries),
    decreases entries.len() - n,
{
    if n == entries.len() {
        assert(entries.take(n) =~= entries);
    } else {
        lemma_total_size_grows(entries, n + 1);
        assert(entries.take(n + 1).drop_last() =~= entries.take(n));
    }
}

/// The entries that are visited before the walk is cancelled.
pub open spec fn visited(entries: Seq<DirEntry>, cancelled_at: Option<usize>) -> Seq<DirEntry> {
    match cancelled_at {
        Some(n) => if n < entries.len() {
            entries.take(n as int)
        } else {
            entries
        },
        None => entries,
    }
}

/// A cancelled walk never gives more than the whole, and one that is not cancelled gives the
/// whole.
pub proof fn lemma_partial_size(entries: Seq<DirEntry>, cancelled_at: Option<usize>)
    ensures
        total_size(visited(entries, cancelled_at)) <= total_size(entries),
        cancelled_at is None ==> visited(entries, cancelled_at) == entries,
{
    match cancelled_at {
        Some(n) => {
            if n < entries.len() {
                lemma_total_size_grows(entries, n as int);
            }
        },
        None => {},
    }
}

/// Calculate directory size recursively (returns bytes). A directory that does not exist
/// has size 0.
pub fn dir_size(present: bool, entries: &Vec<DirEntry>) -> (r: u64)
    requires
        total_size(entries@) <= u64::MAX,
    ensures
        r == if present {
            total_size(entries@)
        } else {
            0
        },
{
    dir_size_with_cancel(present, entries, None)
}

/// Calculate directory size recursively with cancellation support (returns bytes).
///
/// `cancelled_at` is the entry before which the cancellation was noticed. The result is the
/// partial sum accumulated so far.
pub fn dir_size_with_cancel(
    present: bool,
    entries: &Vec<DirEntry>,
    cancelled_at: Option<usize>,
) -> (r: u64)
    requires
        total_size(entries@) <= u64::MAX,
    ensures
        r == if present {
            total_size(visited(entries@, cancelled_at))
        } else {
            0
        },
{
    if !present {
        return 0;
    }
    let stop: usize = match cancelled_at {
        Some(n) => if n < entries.len() {
            n
        } else {
            entries.len()
        },
        None => entries.len(),
    };
    let mut total: u64 = 0;
    let mut i: usize = 0;
    assert(entries@.take(0) =~= Seq::empty());
    while i < stop
        invariant
            i <= stop <= entries@.len(),
            total_size(entries@) <= u64::MAX,
            total == total_size(entries@.take(i as int)),
        decreases stop - i,
    {
        let entry = &entries[i];
        proof {
            assert(entries@.take(i + 1).drop_last() =~= entries@.take(i as int));
            assert(entries@.take(i + 1).last() == entries@[i as int]);
            lemma_total_size_grows(entries@, i + 1);
        }
        if entry.is_file {
            match entry.len {
                Some(len) => {
                    total = total + len;
                },
                None => {},
            }
        }
        i = i + 1;
    }
    proof {
        assert(entries@.take(i as int) =~= visited(entries@, cancelled_at));
    }
    total
}

// ---- sizes as text ----

/// `n / unit`, rounded to the nearest whole number, and to the even one of two that are
/// as near.
pub open spec fn rounded(n: nat, unit: nat) -> nat
    recommends
        unit > 0,
{
    let q = n / unit;
    let r = n % unit;
    if 2 * r > unit || (2 * r == unit && q % 2 == 1) {
        q + 1
    } else {
        q
    }
}

/// The distance between numbers of the size of `n` that a 64-bit floating-point number,
/// which has 53 significant bits, can hold.
pub open spec fn float_step(n: nat) -> nat
    decreases n,
{
    if n < 0x20_0000_0000_0000 {
        1
    } else {
        2 * float_step(n / 2)
    }
}

/// The number that a 64-bit floating-point number holds for `n`.
pub open spec fn nearest_float(n: nat) -> nat {
    rounded(n, float_step(n)) * float_step(n)
}

/// A number of tenths, with one digit after the point.
pub open spec fn tenths_text(tenths: nat) -> Seq<char> {
    decimal(tenths / 10) + "."@ + decimal(tenths % 10)
}

/// A size in a unit, with one digit after the point.
pub open spec fn size_in(bytes: nat, unit: nat) -> Seq<char> {
    tenths_text(rounded(nearest_float(bytes) * 10, unit))
}

/// A size as people read it.
pub open spec fn size_text(bytes: nat) -> Seq<char> {
    if bytes >= 0x4000_0000 {
        size_in(bytes, 0x4000_0000) + " GB"@
    } else if bytes >= 0x10_0000 {
        size_in(bytes, 0x10_0000) + " MB"@
    } else if bytes >= 0x400 {
        size_in(bytes, 0x400) + " KB"@
    } else {
        decimal(bytes) + " B"@
    }
}

proof fn lemma_float_step(n: nat)
    ensures
        float_step(n) >= 1,
        n >= 0x20_0000_0000_0000 ==> float_step(n) * 0x10_0000_0000_0000 <= n,
    decreases n,
{
    if n >= 0x20_0000_0000_0000 {
        lemma_float_step(n / 2);
    }
}

fn step_of(n: u64) -> (r: u64)
    ensures
        r == float_step(n as nat),
        1 <= r <= 0x1000,
    decreases n,
{
    proof {
        lemma_float_step(n as nat);
    }
    if n < 0x20_0000_0000_0000 {
        1
    } else {
        2 * step_of(n / 2)
    }
}

fn round_to(n: u128, unit: u128) -> (r: u128)
    requires
        0 < unit,
        n < 0x1_0000_0000_0000_0000_0000,
    ensures
        r == rounded(n as nat, unit as nat),
        r <= n / unit + 1,
{
    let q: u128 = n / unit;
    let r: u128 = n % unit;
    proof {
        assert(n % unit <= n) by (nonlinear_arith)
            requires
                0 < unit,
        ;
        assert(n / unit <= n) by (nonlinear_arith)
            requires
                0 < unit,
        ;
    }
    if 2 * r > unit || (2 * r == unit && q % 2 == 1) {
        q + 1
    } else {
        q
    }
}

fn float_of(n: u64) -> (r: u128)
    ensures
        r == nearest_float(n as nat),
        r <= 0x2_0000_0000_0000_0000,
{
    let step: u128 = step_of(n) as u128;
    let q = round_to(n as u128, step);
    proof {
        let w = n as u128;
        assert(q * step <= w + step) by (nonlinear_arith)
            requires
                q <= w / step + 1,
                0 < step,
        ;
    }
    q * step
}

fn write_size(bytes: u64, unit: u128) -> (r: String)
    requires
        unit == 0x4000_0000 || unit == 0x10_0000 || unit == 0x400,
        unit == 0x10_0000 ==> bytes < 0x4000_0000,
        unit == 0x400 ==> bytes < 0x10_0000,
    ensures
        r@ == size_in(bytes as nat, unit as nat),
{
    let exact = float_of(bytes);
    proof {
        if bytes < 0x20_0000_0000_0000 {
            assert(float_step(bytes as nat) == 1);
            assert(nearest_float(bytes as nat) == bytes);
        }
    }
    let tenths: u128 = round_to(exact * 10, unit);
    let mut s = number((tenths / 10) as u64);
    s.append(".");
    s.append(number((tenths % 10) as u64).as_str());
    s
}

/// Format bytes as human-readable size
pub fn format_size(bytes: u64) -> (r: String)
    ensures
        r@ == size_text(bytes as nat),
{
    if bytes >= 0x4000_0000 {
        let mut s = write_size(bytes, 0x4000_0000);
        s.append(" GB");
        s
    } else if bytes >= 0x10_0000 {
        let mut s = write_size(bytes, 0x10_0000);
        s.append(" MB");
        s
    } else if bytes >= 0x400 {
        let mut s = write_size(bytes, 0x400);
        s.append(" KB");
        s
    } else {
        let mut s = number(bytes);
        s.append(" B");
        s
    }
}

/// The size that is shown is off by at most half a tenth of its unit, for all sizes that a
/// floating-point number holds exactly.
pub proof fn lemma_size_is_near(bytes: nat, unit: nat)
    requires
        bytes < 0x20_0000_0000_0000,
        unit > 0,
    ensures
        2 * (rounded(nearest_float(bytes) * 10, unit) * unit - bytes * 10) <= unit,
        2 * (bytes * 10 - rounded(nearest_float(bytes) * 10, unit) * unit) <= unit,
{
    let n = bytes * 10;
    assert(float_step(bytes) == 1);
    assert(nearest_float(bytes) == bytes);
    let q = n / unit;
    let r = n % unit;
    assert(q * unit + r == n && 0 <= r < unit) by (nonlinear_arith)
        requires
            unit > 0,
            q == n / unit,
            r == n % unit,
    ;
    assert((q + 1) * unit == q * unit + unit) by (nonlinear_arith);
}

/// The size of a directory is the sum of what its entries count for, and a file counts for its
/// length, all else for nothing: what two walks find together is the sum of what each finds.
pub proof fn lemma_sizes_add_up(a: Seq<DirEntry>, b: Seq<DirEntry>, len: u64)
    ensures
        total_size(a + b) == total_size(a) + total_size(b),
        total_size(Seq::empty()) == 0,
        total_size(seq![DirEntry { is_file: true, len: Some(len) }]) == len,
        total_size(seq![DirEntry { is_file: false, len: Some(len) }]) == 0,
        total_size(seq![DirEntry { is_file: true, len: None }]) == 0,
        total_size(seq![DirEntry { is_file: false, len: None }]) == 0,
    decreases b.len(),
{
    lemma_one_size(DirEntry { is_file: true, len: Some(len) });
    lemma_one_size(DirEntry { is_file: false, len: Some(len) });
    lemma_one_size(DirEntry { is_file: true, len: None });
    lemma_one_size(DirEntry { is_file: false, len: None });
    if b.len() == 0 {
        assert(a + b =~= a);
    } else {
        lemma_sizes_add_up(a, b.drop_last(), len);
        assert((a + b).drop_last() =~= a + b.drop_last());
        assert((a + b).last() == b.last());
    }
}

proof fn lemma_one_size(entry: DirEntry)
    ensures
        total_size(seq![entry]) == entry_size(entry),
{
    assert(seq![entry].drop_last() =~= Seq::empty());
    assert(total_size(seq![entry].drop_last()) == 0);
    assert(seq![entry].last() == entry);
}

/// A walk that is cancelled before an entry counts the entries before it.
pub proof fn lemma_cancelled_walk(a: Seq<DirEntry>, b: Seq<DirEntry>, at: usize)
    requires
        at == a.len(),
    ensures
        total_size(visited(a + b, Some(at))) == total_size(a),
        total_size(visited(a + b, None)) == total_size(a + b),
{
    assert((a + b).take(at as int) =~= a);
    if b.len() == 0 {
        assert(a + b =~= a);
    }
}

/// `tenths` is the number of tenths of a unit that is nearest to some bytes, and the even one
/// of two that are as near.
pub open spec fn is_nearest_tenths(bytes: nat, unit: nat, tenths: nat) -> bool {
    &&& 2 * (tenths * unit - bytes * 10) <= unit
    &&& 2 * (bytes * 10 - tenths * unit) <= unit
    &&& 2 * (tenths * unit - bytes * 10) == unit || 2 * (bytes * 10 - tenths * unit) == unit
        ==> tenths % 2 == 0
}

proof fn lemma_nearest_tenths(bytes: nat, unit: nat)
    requires
        bytes < 0x20_0000_0000_0000,
        unit > 0,
    ensures
        is_nearest_tenths(bytes, unit, rounded(nearest_float(bytes) * 10, unit)),
{
    lemma_size_is_near(bytes, unit);
    let n = bytes * 10;
    assert(float_step(bytes) == 1);
    assert(nearest_float(bytes) == bytes);
    let q = n / unit;
    let r = n % unit;
    assert(q * unit + r == n && 0 <= r < unit) by (nonlinear_arith)
        requires
            unit > 0,
            q == n / unit,
            r == n % unit,
    ;
    assert((q + 1) * unit == q * unit + unit) by (nonlinear_arith);
}

/// A size is shown in bytes below 1024, else in the greatest of three units that it reaches,
/// with the nearest tenth, for all sizes that a floating-point number holds exactly.
pub proof fn lemma_size_text(bytes: nat)
    requires
        bytes < 0x20_0000_0000_0000,
    ensures
        bytes < 1024 ==> size_text(bytes) == decimal(bytes) + " B"@,
        1024 <= bytes < 1024 * 1024 ==> shows_size(size_text(bytes), bytes, 1024, " KB"@),
        1024 * 1024 <= bytes < 1024 * 1024 * 1024 ==> shows_size(
            size_text(bytes),
            bytes,
            1024 * 1024,
            " MB"@,
        ),
        1024 * 1024 * 1024 <= bytes ==> shows_size(
            size_text(bytes),
            bytes,
            1024 * 1024 * 1024,
            " GB"@,
        ),
{
    lemma_nearest_tenths(bytes, 0x400);
    lemma_nearest_tenths(bytes, 0x10_0000);
    lemma_nearest_tenths(bytes, 0x4000_0000);
    let a = rounded(nearest_float(bytes) * 10, 0x400);
    let b = rounded(nearest_float(bytes) * 10, 0x10_0000);
    let c = rounded(nearest_float(bytes) * 10, 0x4000_0000);
    assert(is_nearest_tenths(bytes, 0x400, a));
    assert(is_nearest_tenths(bytes, 0x10_0000, b));
    assert(is_nearest_tenths(bytes, 0x4000_0000, c));
}

/// A text shows the nearest tenths of a unit, with one digit behind the point, and the unit.
pub open spec fn shows_size(text: Seq<char>, bytes: nat, unit: nat, name: Seq<char>) -> bool {
    exists|tenths: nat| #[trigger]
        is_nearest_tenths(bytes, unit, tenths) && text == decimal(tenths / 10) + "."@ + decimal(
            tenths % 10,
        ) + name
}

} // verus!
