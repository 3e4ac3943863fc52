//! Jobs: file modifications that get staged to git.

pub mod arborium;
pub mod cargo_lock;
pub mod order;
pub mod readme;
pub mod rustfmt;

use crate::path::{parent, parent_of};
use vstd::prelude::*;

verus! {

/// A file with the content that it had and the content that it is to have.
#[derive(Debug, Clone)]
pub struct Job {
    /// The file.
    pub path: String,
    /// What the file held, if it existed.
    pub old_content: Option<Vec<u8>>,
    /// What the file is to hold.
    pub new_content: Vec<u8>,
    /// Whether the file is to be executable.
    pub executable: bool,
}

/// What a job says.
pub struct JobView {
    pub path: Seq<char>,
    pub old_content: Option<Seq<u8>>,
    pub new_content: Seq<u8>,
    pub executable: bool,
}

impl View for Job {
    type V = JobView;

    open spec fn view(&self) -> JobView {
        JobView {
            path: self.path@,
            old_content: opt_bytes(self.old_content),
            new_content: self.new_content@,
            executable: self.executable,
        }
    }
}

/// What the jobs of a list say.
pub open spec fn job_views(jobs: Seq<Job>) -> Seq<JobView> {
    Seq::new(jobs.len(), |i: int| jobs[i]@)
}

/// What a job that may be there says.
pub open spec fn opt_job(job: Option<Job>) -> Option<JobView> {
    match job {
        Some(j) => Some(j@),
        None => None,
    }
}

/// The jobs that are there, in their order.
pub open spec fn as_list(job: Option<JobView>) -> Seq<JobView> {
    match job {
        Some(j) => seq![j],
        None => Seq::empty(),
    }
}

/// A step of applying a job.
pub enum ApplyStep {
    /// Create a directory, with those that lead to it.
    CreateDir(String),
    /// Write a file with a content.
    Write(String, Vec<u8>),
    /// Add the execute permissions to a file.
    MarkExecutable(String),
    /// Stage a file.
    Stage(String),
}

/// What a step of applying a job does.
pub enum ApplyStepView {
    CreateDir(Seq<char>),
    Write(Seq<char>, Seq<u8>),
    MarkExecutable(Seq<char>),
    Stage(Seq<char>),
}

impl ApplyStepView {
    /// Applying the job fails where the step does.
    pub open spec fn must_succeed(self) -> bool {
        !(self is Stage)
    }
}

/// Only staging a file may fail: that a directory is created, a file is written and made
/// executable is required, whatever the file.
pub proof fn lemma_only_staging_may_fail(path: Seq<char>, content: Seq<u8>)
    ensures
        !ApplyStepView::Stage(path).must_succeed(),
        ApplyStepView::CreateDir(path).must_succeed(),
        ApplyStepView::Write(path, content).must_succeed(),
        ApplyStepView::MarkExecutable(path).must_succeed(),
{
}

impl View for ApplyStep {
    type V = ApplyStepView;

    open spec fn view(&self) -> ApplyStepView {
        match *self {
            ApplyStep::CreateDir(dir) => ApplyStepView::CreateDir(dir@),
            ApplyStep::Write(path, content) => ApplyStepView::Write(path@, content@),
            ApplyStep::MarkExecutable(path) => ApplyStepView::MarkExecutable(path@),
            ApplyStep::Stage(path) => ApplyStepView::Stage(path@),
        }
    }
}

impl ApplyStep {
    /// Whether applying the job fails, and goes no further, where the step fails. A file that
    /// cannot be staged is no reason to.
    pub fn is_required(&self) -> (r: bool)
        ensures
            r == !(*self is Stage),
            r == self@.must_succeed(),
    {
        match self {
            ApplyStep::Stage(_) => false,
            _ => true,
        }
    }
}

/// What the steps of a list do.
pub open spec fn step_views(steps: Seq<ApplyStep>) -> Seq<ApplyStepView> {
    Seq::new(steps.len(), |i: int| steps[i]@)
}

/// The steps that apply a job, in their order: its directory is created, if there is one to
/// name, the content is written, the file is made executable if it is to be, and staged.
pub open spec fn apply_steps(job: JobView) -> Seq<ApplyStepView> {
    (match parent(job.path) {
        Some(dir) => seq![ApplyStepView::CreateDir(dir)],
        None => Seq::empty(),
    }) + seq![ApplyStepView::Write(job.path, job.new_content)] + (if job.executable {
        seq![ApplyStepView::MarkExecutable(job.path)]
    } else {
        Seq::empty()
    }) + seq![ApplyStepView::Stage(job.path)]
}

/// The contents that a file may have.
pub open spec fn opt_bytes(content: Option<Vec<u8>>) -> Option<Seq<u8>> {
    match content {
        Some(bytes) => Some(bytes@),
        None => None,
    }
}

/// A copy of a byte string.
pub fn bytes_copy(a: &Vec<u8>) -> (r: Vec<u8>)
    ensures
        r@ == a@,
{
    let mut v: Vec<u8> = Vec::new();
    let mut i: usize = 0;
    while i < a.len()
        invariant
            i <= a@.len(),
            v@ == a@.take(i as int),
        decreases a@.len() - i,
    {
        v.push(a[i]);
        proof {
            assert(a@.take(i + 1) =~= a@.take(i as int).push(a@[i as int]));
        }
        i = i + 1;
    }
    proof {
        assert(a@.take(i as int) =~= a@);
    }
    v
}

/// A copy of the contents that a file may have.
pub fn content_copy(content: &Option<Vec<u8>>) -> (r: Option<Vec<u8>>)
    ensures
        opt_bytes(r) == opt_bytes(*content),
{
    match content {
        Some(bytes) => Some(bytes_copy(bytes)),
        None => None,
    }
}

/// Whether two byte strings are the same.
pub fn bytes_eq(a: &Vec<u8>, b: &Vec<u8>) -> (r: bool)
    ensures
        r == (a@ == b@),
{
    if a.len() != b.len() {
        return false;
    }
    let mut i: usize = 0;
    while i < a.len()
        invariant
            i <= a@.len(),
            a@.len() == b@.len(),
            forall|k: int| 0 <= k < i ==> a@[k] == b@[k],
        decreases a@.len() - i,
    {
        if a[i] != b[i] {
            return false;
        }
        i = i + 1;
    }
    proof {
        assert(a@ =~= b@);
    }
    true
}

/// A job changes nothing: the file holds what it is to hold and is as executable as it is
/// to be; or there is no file and none is wanted.
pub open spec fn changes_nothing(job: Job, currently_executable: bool) -> bool {
    match job.old_content {
        Some(old) => job.new_content@ == old@ && currently_executable == job.executable,
        None => job.new_content@.len() == 0 && !job.executable,
    }
}

impl Job {
    /// Whether applying the job would change nothing. `currently_executable` tells whether
    /// the file on disk has an execute permission.
    pub fn is_noop(&self, currently_executable: bool) -> (r: bool)
        ensures
            r == changes_nothing(*self, currently_executable),
    {
        match &self.old_content {
            Some(old) => bytes_eq(&self.new_content, old) && currently_executable == self.executable,
            None => self.new_content.len() == 0 && !self.executable,
        }
    }

    /// The steps that apply the job, in their order.
    pub fn apply(&self) -> (r: Vec<ApplyStep>)
        ensures
            step_views(r@) == apply_steps(self@),
    {
        let mut steps: Vec<ApplyStep> = Vec::new();
        match parent_of(self.path.as_str()) {
            Some(dir) => steps.push(ApplyStep::CreateDir(dir)),
            None => {},
        }
        steps.push(ApplyStep::Write(self.path.clone(), bytes_copy(&self.new_content)));
        if self.executable {
            steps.push(ApplyStep::MarkExecutable(self.path.clone()));
        }
        steps.push(ApplyStep::Stage(self.path.clone()));
        proof {
            assert(step_views(steps@) =~= apply_steps(self@));
        }
        steps
    }
}

/// A file mode has an execute permission.
pub open spec fn is_executable_mode(mode: u32) -> bool {
    mode & 0o111 != 0
}

/// The file mode with all the execute permissions.
pub open spec fn made_executable(mode: u32) -> u32 {
    mode | 0o111
}

/// Whether a file mode has an execute permission.
pub fn mode_is_executable(mode: u32) -> (r: bool)
    ensures
        r == (mode & 0o111 != 0),
        r == is_executable_mode(mode),
{
    mode & 0o111 != 0
}

/// The file mode with all the execute permissions.
pub fn executable_mode(mode: u32) -> (r: u32)
    ensures
        r == mode | 0o111,
        r == made_executable(mode),
{
    mode | 0o111
}

/// A file that was made executable is executable, and keeps its other permissions.
pub proof fn lemma_executable_mode(mode: u32)
    ensures
        (mode | 0o111) & 0o111 != 0,
        (mode | 0o111) & !0o111u32 == mode & !0o111u32,
{
    assert((mode | 0o111) & 0o111 != 0) by (bit_vector);
    assert((mode | 0o111) & !0o111u32 == mode & !0o111u32) by (bit_vector);
}

/// A mode is that of an executable file exactly if its owner, its group or others may execute
/// it. Made executable, all of them may, and what else is permitted stays as it was.
pub proof fn lemma_execute_permissions(mode: u32)
    ensures
        is_executable_mode(mode) <==> mode & 0o100 == 0o100 || mode & 0o010 == 0o010 || mode
            & 0o001 == 0o001,
        made_executable(mode) & 0o100 == 0o100,
        made_executable(mode) & 0o010 == 0o010,
        made_executable(mode) & 0o001 == 0o001,
        made_executable(mode) & !0o111u32 == mode & !0o111u32,
{
    assert((mode & 0o111 != 0) == (mode & 0o100 == 0o100 || mode & 0o010 == 0o010 || mode & 0o001
        == 0o001)) by (bit_vector);
    assert((mode | 0o111) & 0o100 == 0o100) by (bit_vector);
    assert((mode | 0o111) & 0o010 == 0o010) by (bit_vector);
    assert((mode | 0o111) & 0o001 == 0o001) by (bit_vector);
    lemma_executable_mode(mode);
}

/// Applying a job leaves nothing to do: once the file holds the new content and is as
/// executable as it is to be, the job changes nothing.
pub proof fn lemma_applied_job_is_noop(job: Job, content: Vec<u8>)
    requires
        content@ == job.new_content@,
    ensures
        changes_nothing(Job { old_content: Some(content), ..job }, job.executable),
{
}

/// A job is applied in this order: the directory of its file is created where the path has
/// one, its content is written, the file is made executable exactly if the job says so, and it
/// is staged. Nothing is done twice, and nothing to another file.
pub proof fn lemma_apply_steps(job: JobView)
    ensures
        ({
            let steps = apply_steps(job);
            let n = if parent(job.path) is Some {
                1int
            } else {
                0int
            };
            &&& steps.len() == n + (if job.executable {
                3int
            } else {
                2int
            })
            &&& parent(job.path) matches Some(dir) ==> steps[0] == ApplyStepView::CreateDir(dir)
            &&& steps[n] == ApplyStepView::Write(job.path, job.new_content)
            &&& job.executable ==> steps[n + 1] == ApplyStepView::MarkExecutable(job.path)
            &&& steps.last() == ApplyStepView::Stage(job.path)
        }),
{
}

/// A job changes nothing exactly if its file holds what it is to hold and is as executable as
/// it is to be, or there is no file and an empty one that is not executable is wanted.
pub proof fn lemma_changes_nothing(job: Job, currently_executable: bool)
    ensures
        job.old_content matches Some(old) ==> (changes_nothing(job, currently_executable) <==> old@
            == job.new_content@ && job.executable == currently_executable),
        job.old_content is None ==> (changes_nothing(job, currently_executable)
            <==> job.new_content@ == Seq::<u8>::empty() && !job.executable),
{
    if job.new_content@.len() == 0 {
        assert(job.new_content@ =~= Seq::empty());
    }
}

} // verus!
