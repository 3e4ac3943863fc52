//! Cargo.lock staging jobs.

use crate::jobs::{bytes_copy, content_copy, job_views, opt_bytes, Job, JobView};
use crate::output::{decode_lossy, lossy_text, CommandOutput};
use crate::text::{lemma_first_line, lemma_no_line_end, lines, lines_of, texts};
use vstd::prelude::*;
use vstd::string::*;

verus! {

/// The jobs that stage the lockfile: one if it is modified in the working tree and could be
/// read.
pub open spec fn lock_jobs(
    modified: bool,
    content: Option<Seq<u8>>,
    committed: Option<Seq<u8>>,
) -> Seq<JobView> {
    match content {
        Some(bytes) => if modified {
            seq![
                JobView {
                    path: "Cargo.lock"@,
                    old_content: committed,
                    new_content: bytes,
                    executable: false,
                },
            ]
        } else {
            Seq::empty()
        },
        None => Seq::empty(),
    }
}

/// A line of `git status --porcelain` tells of a file that is modified in the working tree:
/// the second of its two letters for the state is an `M`, whatever is staged.
pub open spec fn is_modified_line(line: Seq<char>) -> bool {
    line.len() >= 3 && line[1] == 'M'
}

/// The status that git prints of the lockfile says that it is modified in the working tree.
pub open spec fn says_modified(status: Seq<char>) -> bool {
    exists|i: int|
        0 <= i < lines_of(status).len() && is_modified_line(#[trigger] lines_of(status)[i])
}

/// Whether the status that git prints of the lockfile says that it is modified in the working
/// tree.
pub fn is_lock_modified(status: &str) -> (r: bool)
    ensures
        r == says_modified(status@),
{
    let list = lines(status);
    let ghost all = lines_of(status@);
    let mut i: usize = 0;
    while i < list.len()
        invariant
            all == lines_of(status@),
            all == texts(list@),
            i <= list@.len(),
            forall|k: int| 0 <= k < i ==> !is_modified_line(#[trigger] all[k]),
        decreases list@.len() - i,
    {
        let line = list[i].as_str();
        assert(line@ == all[i as int]);
        if line.unicode_len() >= 3 && line.get_char(1) == 'M' {
            assert(is_modified_line(lines_of(status@)[i as int]));
            return true;
        }
        i = i + 1;
    }
    false
}

/// What is staged does not matter: of a line with an `M` as its second letter, the first
/// letter may be any.
pub proof fn lemma_modified_whatever_is_staged(x: char, path: Seq<char>)
    requires
        !path.contains('\n'),
        x != '\n',
    ensures
        says_modified(seq![x, 'M', ' '] + path),
{
    let line = seq![x, 'M', ' '] + path;
    assert forall|i: int| 0 <= i < line.len() implies line[i] != '\n' by {
        if i >= 3 {
            assert(line[i] == path[i - 3]);
        }
    }
    lemma_no_line_end(line, 0);
    assert(line.subrange(0, line.len() as int) =~= line);
    assert(lines_of(line) =~= seq![line]);
    assert(is_modified_line(lines_of(line)[0]));
}

/// The jobs that stage the lockfile, given what it holds and what the last commit holds.
pub fn stage_lock(
    modified: bool,
    content: &Option<Vec<u8>>,
    committed: &Option<Vec<u8>>,
) -> (r: Vec<Job>)
    ensures
        job_views(r@) == lock_jobs(modified, opt_bytes(*content), opt_bytes(*committed)),
{
    let mut jobs: Vec<Job> = Vec::new();
    match content {
        Some(bytes) => {
            if modified {
                jobs.push(
                    Job {
                        path: "Cargo.lock".to_owned(),
                        old_content: content_copy(committed),
                        new_content: bytes_copy(bytes),
                        executable: false,
                    },
                );
            }
        },
        None => {},
    }
    proof {
        assert(job_views(jobs@) =~= lock_jobs(
            modified,
            opt_bytes(*content),
            opt_bytes(*committed),
        ));
    }
    jobs
}

/// What a command printed, if it could be run and succeeded.
pub open spec fn success_bytes(output: Result<CommandOutput, String>) -> Option<Seq<u8>> {
    match output {
        Ok(o) => if o.succeeded() {
            Some(o.stdout@)
        } else {
            None
        },
        Err(_) => None,
    }
}

/// The jobs that stage the lockfile, given what git prints of its status, what it holds, and
/// what git shows of it in the last commit.
pub fn collect_cargo_lock_jobs(
    status: &Result<CommandOutput, String>,
    content: &Option<Vec<u8>>,
    committed: &Result<CommandOutput, String>,
) -> (r: Vec<Job>)
    ensures
        job_views(r@) == lock_jobs(
            (*status matches Ok(o) && says_modified(lossy_text(o.stdout@))),
            opt_bytes(*content),
            success_bytes(*committed),
        ),
{
    let modified = match status {
        Ok(o) => is_lock_modified(decode_lossy(&o.stdout).as_str()),
        Err(_) => false,
    };
    let old = match committed {
        Ok(o) => if o.success() {
            Some(bytes_copy(&o.stdout))
        } else {
            None
        },
        Err(_) => None,
    };
    stage_lock(modified, content, &old)
}

// ---- laws ----

/// The status is read line by line: of a line as git writes it, two letters for the state, a
/// space and a path, the second letter tells, and then what follows. An empty status tells of
/// no change.
pub proof fn lemma_modified_by_lines(x: char, y: char, path: Seq<char>, rest: Seq<char>)
    requires
        x != '\n' && y != '\n',
        !path.contains('\n'),
        path.len() > 0 && path.last() != '\r',
    ensures
        says_modified(seq![x, y, ' '] + path + seq!['\n'] + rest) <==> y == 'M' || says_modified(
            rest,
        ),
        !says_modified(Seq::empty()),
{
    let line = seq![x, y, ' '] + path;
    if line.contains('\n') {
        let k = choose|k: int| 0 <= k < line.len() && line[k] == '\n';
        assert(path[k - 3] == '\n');
    }
    lemma_first_line(line, rest);
    let whole = line + seq!['\n'] + rest;
    let (all, others) = (lines_of(whole), lines_of(rest));
    assert(all[0] == line);
    assert(line[1] == y);
    if says_modified(whole) && y != 'M' {
        let i = choose|i: int| 0 <= i < all.len() && is_modified_line(#[trigger] all[i]);
        assert(all[i] == others[i - 1]);
    }
    if y == 'M' {
        assert(is_modified_line(lines_of(whole)[0]));
    }
    if says_modified(rest) {
        let i = choose|i: int| 0 <= i < others.len() && is_modified_line(#[trigger] others[i]);
        assert(lines_of(whole)[i + 1] == others[i]);
    }
}

/// What the last commit holds is what git printed, if it exited with 0; else nothing is known
/// of it.
pub proof fn lemma_committed_content(output: CommandOutput, message: String)
    ensures
        success_bytes(Ok(output)) == if output.code == Some(0i32) {
            Some(output.stdout@)
        } else {
            None
        },
        success_bytes(Err(message)) is None,
{
}

/// The lockfile is staged exactly if it is modified and could be read: with its content, over
/// what the last commit holds.
pub proof fn lemma_lock_is_staged(
    modified: bool,
    content: Option<Seq<u8>>,
    committed: Option<Seq<u8>>,
)
    ensures
        lock_jobs(modified, content, committed).len() == if modified && content is Some {
            1nat
        } else {
            0nat
        },
        modified ==> (content matches Some(bytes) ==> {
            let job = lock_jobs(modified, content, committed)[0];
            job.path == "Cargo.lock"@ && job.new_content == bytes && job.old_content == committed
                && !job.executable
        }),
{
}

} // verus!
