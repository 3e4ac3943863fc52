//! Which jobs are applied, and in which order.

use crate::jobs::{changes_nothing, Job};
use crate::path::{
    is_path_before, lemma_path_order_total, lemma_path_order_transitive, path_precedes,
};
use vstd::prelude::*;
use vstd::seq_lib::*;

verus! {

// ---- which ----

/// What is known of a job's file.
#[derive(Debug, Clone, Copy)]
pub struct FileState {
    /// The file has an execute permission.
    pub executable: bool,
    /// Git ignores the file.
    pub ignored: bool,
}

/// The jobs that would change something in a file that git does not ignore.
pub open spec fn kept_jobs(jobs: Seq<Job>, states: Seq<FileState>) -> Seq<Job>
    decreases jobs.len(),
{
    if jobs.len() == 0 {
        Seq::empty()
    } else {
        let rest = kept_jobs(jobs.drop_first(), states.drop_first());
        if changes_nothing(jobs[0], states[0].executable) || states[0].ignored {
            rest
        } else {
            seq![jobs[0]] + rest
        }
    }
}

/// A job is kept exactly if it would change something in a file that git does not ignore.
pub proof fn lemma_kept_jobs(jobs: Seq<Job>, states: Seq<FileState>, job: Job)
    requires
        states.len() == jobs.len(),
    ensures
        kept_jobs(jobs, states).contains(job) <==> exists|i: int|
            0 <= i < jobs.len() && #[trigger] jobs[i] == job && !changes_nothing(
                job,
                states[i].executable,
            ) && !states[i].ignored,
    decreases jobs.len(),
{
    if jobs.len() > 0 {
        let (rest, rest_states) = (jobs.drop_first(), states.drop_first());
        let kept = kept_jobs(rest, rest_states);
        let all = kept_jobs(jobs, states);
        lemma_kept_jobs(rest, rest_states, job);
        let first = !changes_nothing(jobs[0], states[0].executable) && !states[0].ignored;
        if all.contains(job) {
            let k = all.index_of(job);
            if first && k == 0 {
                assert(jobs[0] == job);
            } else {
                assert(kept[if first { k - 1 } else { k }] == job);
                let i = choose|i: int|
                    0 <= i < rest.len() && #[trigger] rest[i] == job && !changes_nothing(
                        job,
                        rest_states[i].executable,
                    ) && !rest_states[i].ignored;
                assert(jobs[i + 1] == job);
                assert(states[i + 1] == rest_states[i]);
            }
        }
        if exists|i: int|
            0 <= i < jobs.len() && #[trigger] jobs[i] == job && !changes_nothing(
                job,
                states[i].executable,
            ) && !states[i].ignored {
            let i = choose|i: int|
                0 <= i < jobs.len() && #[trigger] jobs[i] == job && !changes_nothing(
                    job,
                    states[i].executable,
                ) && !states[i].ignored;
            if i == 0 {
                assert(all[0] == job);
            } else {
                assert(rest[i - 1] == job && rest_states[i - 1] == states[i]);
                let k = kept.index_of(job);
                assert(all[if first { k + 1 } else { k }] == job);
            }
        }
    }
}

/// Keeps the jobs that would change something in a file that git does not ignore.
pub fn keep_jobs(jobs: Vec<Job>, states: &Vec<FileState>) -> (r: Vec<Job>)
    requires
        states@.len() == jobs@.len(),
    ensures
        r@ == kept_jobs(jobs@, states@),
{
    let mut rest = jobs;
    let ghost all = kept_jobs(rest@, states@);
    let mut kept: Vec<Job> = Vec::new();
    let mut i: usize = 0;
    let count: usize = states.len();
    assert(states@.skip(0) =~= states@);
    assert(all =~= kept@ + kept_jobs(rest@, states@.skip(0)));
    while rest.len() > 0
        invariant
            count == states@.len(),
            i + rest@.len() == count,
            all == kept@ + kept_jobs(rest@, states@.skip(i as int)),
        decreases rest@.len(),
    {
        let ghost before = rest@;
        let ghost so_far = kept@;
        let job = rest.remove(0);
        proof {
            assert(rest@ =~= before.drop_first());
            assert(states@.skip(i as int).drop_first() =~= states@.skip(i + 1));
            assert(states@.skip(i as int)[0] == states@[i as int]);
        }
        if !job.is_noop(states[i].executable) && !states[i].ignored {
            kept.push(job);
        }
        i = i + 1;
        proof {
            assert(kept@ + kept_jobs(rest@, states@.skip(i as int)) =~= so_far + kept_jobs(
                before,
                states@.skip(i - 1),
            ));
        }
    }
    proof {
        assert(kept@ + kept_jobs(rest@, states@.skip(i as int)) =~= kept@);
    }
    kept
}

// ---- in which order ----

/// Where a job is put into an ordered list: after all the jobs that it does not stand
/// before.
pub open spec fn place(ordered: Seq<Job>, job: Job) -> nat
    decreases ordered.len(),
{
    if ordered.len() == 0 || path_precedes(job.path@, ordered[0].path@) {
        0
    } else {
        1 + place(ordered.drop_first(), job)
    }
}

/// The jobs in the order of their paths. Jobs for the same path keep their order.
pub open spec fn by_path(jobs: Seq<Job>) -> Seq<Job>
    decreases jobs.len(),
{
    if jobs.len() == 0 {
        Seq::empty()
    } else {
        let ordered = by_path(jobs.drop_last());
        ordered.insert(place(ordered, jobs.last()) as int, jobs.last())
    }
}

/// No job stands before one that its path stands after.
pub open spec fn is_ordered(jobs: Seq<Job>) -> bool {
    forall|i: int, j: int|
        0 <= i < j < jobs.len() ==> !path_precedes(
            (#[trigger] jobs[j]).path@,
            (#[trigger] jobs[i]).path@,
        )
}

proof fn lemma_place(ordered: Seq<Job>, job: Job)
    ensures
        place(ordered, job) <= ordered.len(),
        place(ordered, job) < ordered.len() ==> path_precedes(
            job.path@,
            ordered[place(ordered, job) as int].path@,
        ),
        forall|i: int|
            0 <= i < place(ordered, job) ==> !path_precedes(
                job.path@,
                (#[trigger] ordered[i]).path@,
            ),
    decreases ordered.len(),
{
    if ordered.len() > 0 && !path_precedes(job.path@, ordered[0].path@) {
        let rest = ordered.drop_first();
        lemma_place(rest, job);
        assert forall|i: int| 0 <= i < place(ordered, job) implies !path_precedes(
            job.path@,
            (#[trigger] ordered[i]).path@,
        ) by {
            if i > 0 {
                assert(rest[i - 1] == ordered[i]);
            }
        }
    }
}

/// Ordering the jobs puts them in the order of their paths, and neither drops a job nor adds
/// one.
pub proof fn lemma_by_path(jobs: Seq<Job>)
    ensures
        is_ordered(by_path(jobs)),
        by_path(jobs).to_multiset() == jobs.to_multiset(),
        by_path(jobs).len() == jobs.len(),
    decreases jobs.len(),
{
    broadcast use group_to_multiset_ensures;

    if jobs.len() > 0 {
        let job = jobs.last();
        let ordered = by_path(jobs.drop_last());
        lemma_by_path(jobs.drop_last());
        lemma_place(ordered, job);
        let at = place(ordered, job) as int;
        let after = ordered.insert(at, job);
        assert forall|i: int, j: int| 0 <= i < j < after.len() implies !path_precedes(
            (#[trigger] after[j]).path@,
            (#[trigger] after[i]).path@,
        ) by {
            let k = if i < at { i } else { i - 1 };
            let l = if j < at { j } else { j - 1 };
            if i == at {
                lemma_path_order_total(job.path@, ordered[at].path@);
                assert(!path_precedes(ordered[at].path@, job.path@));
                if l > at {
                    assert(!path_precedes(ordered[l].path@, ordered[at].path@));
                    lemma_path_order_transitive(job.path@, ordered[at].path@, ordered[l].path@);
                }
            } else if j != at {
                assert(after[i] == ordered[k] && after[j] == ordered[l]);
            }
        }
        assert(jobs =~= jobs.drop_last().push(job));
        assert(ordered.insert(at, job).to_multiset() =~= ordered.to_multiset().insert(job));
    } else {
        assert(by_path(jobs) =~= jobs);
    }
}

/// Jobs for the same path keep their order.
pub proof fn lemma_by_path_is_stable(jobs: Seq<Job>, job: Job)
    ensures
        by_path(jobs.push(job)).len() == jobs.len() + 1,
        exists|at: int|
            0 <= at <= jobs.len() && #[trigger] by_path(jobs.push(job))[at] == job && (forall|i: int|
                at < i < by_path(jobs.push(job)).len() ==> path_precedes(
                    job.path@,
                    (#[trigger] by_path(jobs.push(job))[i]).path@,
                )),
{
    let ordered = by_path(jobs);
    lemma_by_path(jobs);
    lemma_place(ordered, job);
    let at = place(ordered, job) as int;
    assert(jobs.push(job).drop_last() =~= jobs);
    let after = by_path(jobs.push(job));
    assert(after == ordered.insert(at, job));
    assert(after[at] == job);
    assert forall|i: int| at < i < after.len() implies path_precedes(
        job.path@,
        (#[trigger] after[i]).path@,
    ) by {
        assert(after[i] == ordered[i - 1]);
        if i - 1 > at {
            assert(!path_precedes(ordered[i - 1].path@, ordered[at].path@));
            lemma_path_order_total(job.path@, ordered[i - 1].path@);
            lemma_path_order_total(job.path@, ordered[at].path@);
            lemma_strictly_before(job.path@, ordered[at].path@, ordered[i - 1].path@);
        }
    }
}

/// A path that stands before another stands before all that do not stand before that one.
proof fn lemma_strictly_before(a: Seq<char>, b: Seq<char>, c: Seq<char>)
    requires
        path_precedes(a, b),
        !path_precedes(c, b),
    ensures
        path_precedes(a, c),
{
    if !path_precedes(a, c) {
        lemma_path_order_total(b, c);
        lemma_path_order_transitive(b, c, a);
    }
}

/// Puts jobs in the order of their paths.
pub fn sort_jobs(jobs: Vec<Job>) -> (r: Vec<Job>)
    ensures
        r@ == by_path(jobs@),
{
    let mut rest = jobs;
    let ghost all = rest@;
    let mut ordered: Vec<Job> = Vec::new();
    let ghost mut n: int = 0;
    assert(all.take(0) =~= Seq::empty());
    assert(all.skip(0) =~= all);
    while rest.len() > 0
        invariant
            0 <= n <= all.len(),
            rest@ == all.skip(n),
            ordered@ == by_path(all.take(n)),
        decreases rest@.len(),
    {
        let job = rest.remove(0);
        let at = place_of(&ordered, &job);
        proof {
            assert(job == all[n]);
            assert(rest@ =~= all.skip(n + 1));
            assert(all.take(n + 1).drop_last() =~= all.take(n));
            assert(all.take(n + 1).last() == job);
            n = n + 1;
        }
        ordered.insert(at, job);
    }
    proof {
        assert(all.take(n) =~= all);
    }
    ordered
}

fn place_of(ordered: &Vec<Job>, job: &Job) -> (r: usize)
    ensures
        r == place(ordered@, *job),
        r <= ordered@.len(),
{
    let mut i: usize = 0;
    assert(ordered@.skip(0) =~= ordered@);
    while i < ordered.len() && !is_path_before(job.path.as_str(), ordered[i].path.as_str())
        invariant
            i <= ordered@.len(),
            place(ordered@, *job) == i + place(ordered@.skip(i as int), *job),
        decreases ordered@.len() - i,
    {
        proof {
            assert(ordered@.skip(i as int).drop_first() =~= ordered@.skip(i + 1));
        }
        i = i + 1;
    }
    i
}

// ---- laws of keeping ----

/// Of two lists the jobs that are kept are those of each, one after the other.
pub proof fn lemma_kept_of_two_lists(
    a: Seq<Job>,
    x: Seq<FileState>,
    b: Seq<Job>,
    y: Seq<FileState>,
)
    requires
        a.len() == x.len(),
        b.len() == y.len(),
    ensures
        kept_jobs(a + b, x + y) == kept_jobs(a, x) + kept_jobs(b, y),
    decreases a.len(),
{
    if a.len() == 0 {
        assert(a + b =~= b);
        assert(x + y =~= y);
        assert(kept_jobs(a + b, x + y) =~= kept_jobs(a, x) + kept_jobs(b, y));
    } else {
        lemma_kept_of_two_lists(a.drop_first(), x.drop_first(), b, y);
        assert((a + b).drop_first() =~= a.drop_first() + b);
        assert((x + y).drop_first() =~= x.drop_first() + y);
        assert(kept_jobs(a + b, x + y) =~= kept_jobs(a, x) + kept_jobs(b, y));
    }
}

/// A job alone is kept exactly if git does not ignore its file and it changes it: its content,
/// or whether it is executable; where there is no file, it is enough that one is wanted that
/// is not empty or is executable.
pub proof fn lemma_one_job_is_kept(job: Job, state: FileState)
    ensures
        kept_jobs(seq![job], seq![state]) == if !state.ignored && (match job.old_content {
            Some(old) => job.new_content@ != old@ || job.executable != state.executable,
            None => job.new_content@.len() > 0 || job.executable,
        }) {
            seq![job]
        } else {
            Seq::<Job>::empty()
        },
{
    let (jobs, states) = (seq![job], seq![state]);
    assert(jobs.drop_first() =~= Seq::empty());
    assert(kept_jobs(jobs.drop_first(), states.drop_first()) =~= Seq::empty());
    assert(jobs[0] == job && states[0] == state);
    assert(kept_jobs(jobs, states) =~= if !state.ignored && (match job.old_content {
        Some(old) => job.new_content@ != old@ || job.executable != state.executable,
        None => job.new_content@.len() > 0 || job.executable,
    }) {
        seq![job]
    } else {
        Seq::<Job>::empty()
    });
}

} // verus!
