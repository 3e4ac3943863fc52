//! Unified task system for checks and jobs.
//!
//! All work (checks, jobs) runs as tasks that run in parallel, report progress, can update
//! their status, and report success or failure consistently. Once a task has failed, the
//! remaining tasks are cancelled.
//!
//! The runner here decides: it is told what happened and says what to do. Starting
//! threads and drawing spinners is left to its caller.

use crate::jobs::{job_views, Job, JobView};
use crate::paint::{in_red, in_yellow, red, yellow};
use crate::text::{opt_text, texts};
use vstd::prelude::*;
use vstd::string::*;

verus! {

/// Unique identifier for a task.
#[derive(Debug, Clone, Copy, PartialEq, Eq, Structural, Hash)]
pub struct TaskId(pub u64);

/// The counter that identifiers are drawn from. A process makes one, and hands it from runner
/// to runner: it can be neither copied nor shared.
pub struct TaskIds {
    /// The number for the next task.
    pub next: u64,
}

impl TaskIds {
    /// A counter that nothing was drawn from.
    pub fn new() -> (r: Self)
        ensures
            r.next == 0,
    {
        TaskIds { next: 0 }
    }
}

/// `id` is what is drawn from a counter that was `before` and is `after`.
pub open spec fn is_drawn(before: TaskIds, id: TaskId, after: TaskIds) -> bool {
    id.0 == before.next && after.next == before.next + 1
}

impl TaskId {
    /// Draws the next identifier.
    pub fn new(ids: &mut TaskIds) -> (r: Self)
        requires
            old(ids).next < u64::MAX,
        ensures
            is_drawn(*old(ids), r, *final(ids)),
    {
        let id = TaskId(ids.next);
        ids.next = ids.next + 1;
        id
    }
}

/// Every identifier is unique: of all that are drawn from a counter, each is greater than
/// those before it. `counters` gives the counter before each and after the last.
pub proof fn lemma_ids_are_unique(counters: Seq<TaskIds>, ids: Seq<TaskId>)
    requires
        counters.len() == ids.len() + 1,
        forall|i: int|
            0 <= i < ids.len() ==> is_drawn(
                counters[i],
                #[trigger] ids[i],
                counters[i + 1],
            ),
    ensures
        forall|i: int, j: int|
            0 <= i < j < ids.len() ==> (#[trigger] ids[i]).0 < (#[trigger] ids[j]).0,
{
    assert forall|i: int, j: int| 0 <= i < j < ids.len() implies (#[trigger] ids[i]).0 < (
    #[trigger] ids[j]).0 by {
        lemma_counter_grows(counters, ids, i, j);
    }
}

proof fn lemma_counter_grows(counters: Seq<TaskIds>, ids: Seq<TaskId>, i: int, j: int)
    requires
        counters.len() == ids.len() + 1,
        forall|i: int|
            0 <= i < ids.len() ==> is_drawn(
                counters[i],
                #[trigger] ids[i],
                counters[i + 1],
            ),
        0 <= i <= j <= ids.len(),
    ensures
        counters[j].next == counters[i].next + (j - i),
    decreases j - i,
{
    if i < j {
        lemma_counter_grows(counters, ids, i, j - 1);
        assert(is_drawn(counters[j - 1], ids[j - 1], counters[j]));
    }
}

/// Result of a task execution.
pub enum TaskResult {
    /// Task succeeded, optionally with a message and jobs to apply
    Success {
        /// Optional message to show (e.g., "3 files formatted")
        message: Option<String>,
        /// Jobs (file changes) to apply after all tasks complete
        jobs: Vec<Job>,
    },
    /// Task was skipped (e.g., not enabled in config, nothing to do)
    Skipped {
        /// Why it was skipped
        reason: String,
    },
    /// Task failed
    Failed {
        /// One-line summary shown in the spinner output
        summary: String,
        /// Detailed error info printed after all tasks complete
        details: String,
    },
}

/// What a task result says.
pub enum TaskOutcome {
    /// The task succeeded, with a message or without, and with these jobs to apply.
    Success(Option<Seq<char>>, Seq<JobView>),
    /// The task was skipped for a reason.
    Skipped(Seq<char>),
    /// The task failed, with a summary and details.
    Failed(Seq<char>, Seq<char>),
}

impl View for TaskResult {
    type V = TaskOutcome;

    open spec fn view(&self) -> TaskOutcome {
        match *self {
            TaskResult::Success { message, jobs } => TaskOutcome::Success(
                opt_text(message),
                job_views(jobs@),
            ),
            TaskResult::Skipped { reason } => TaskOutcome::Skipped(reason@),
            TaskResult::Failed { summary, details } => TaskOutcome::Failed(summary@, details@),
        }
    }
}

/// Success, with nothing to show and nothing to apply.
pub open spec fn plain_success() -> TaskOutcome {
    TaskOutcome::Success(None, Seq::empty())
}

impl TaskResult {
    /// Success, with nothing to show and nothing to apply.
    pub fn success() -> (r: Self)
        ensures
            r@ == plain_success(),
    {
        let jobs: Vec<Job> = Vec::new();
        assert(job_views(jobs@) =~= Seq::empty());
        TaskResult::Success { message: None, jobs }
    }

    /// Success with a message.
    pub fn success_with(message: String) -> (r: Self)
        ensures
            r@ == TaskOutcome::Success(Some(message@), Seq::empty()),
    {
        let jobs: Vec<Job> = Vec::new();
        assert(job_views(jobs@) =~= Seq::empty());
        TaskResult::Success { message: Some(message), jobs }
    }

    /// Success with jobs to apply.
    pub fn success_with_jobs(jobs: Vec<Job>) -> (r: Self)
        ensures
            r == (TaskResult::Success { message: None, jobs }),
    {
        TaskResult::Success { message: None, jobs }
    }

    /// Success with a message and jobs to apply.
    pub fn success_with_jobs_and_message(message: String, jobs: Vec<Job>) -> (r: Self)
        ensures
            r == (TaskResult::Success { message: Some(message), jobs }),
    {
        TaskResult::Success { message: Some(message), jobs }
    }

    /// The task had nothing to do.
    pub fn skipped(reason: String) -> (r: Self)
        ensures
            r == (TaskResult::Skipped { reason }),
    {
        TaskResult::Skipped { reason }
    }

    /// The task failed.
    pub fn failed(summary: String, details: String) -> (r: Self)
        ensures
            r == (TaskResult::Failed { summary, details }),
    {
        TaskResult::Failed { summary, details }
    }
}

/// What a task or its thread tells the runner.
pub enum Event {
    /// Update spinner message
    SetMessage(TaskId, String),
    /// Spawn a new child task
    Spawn(String),
    /// Task completed
    Complete(TaskId, String, TaskResult),
}

/// Handle for a task to update its spinner and spawn subtasks.
#[derive(Clone)]
pub struct TaskHandle {
    pub id: TaskId,
}

impl TaskHandle {
    /// Update the spinner message (e.g., "checking 3/10 files..."): the event to send.
    pub fn set_message(&self, msg: String) -> (r: Event)
        ensures
            r == Event::SetMessage(self.id, msg),
    {
        Event::SetMessage(self.id, msg)
    }

    /// Spawn a child task that runs in parallel with its own spinner: the event to send.
    pub fn spawn(&self, name: String) -> (r: Event)
        ensures
            r == Event::Spawn(name),
    {
        Event::Spawn(name)
    }
}

/// Collected results from running all tasks.
pub struct TaskResults {
    /// The name and the result of each task, in the order in which they completed.
    pub results: Vec<(String, TaskResult)>,
}

/// The lines that tell of a failed task; nothing for the others.
pub open spec fn failure_lines(name: Seq<char>, result: TaskResult) -> Seq<Seq<char>> {
    match result {
        TaskResult::Failed { summary, details } => seq![
            "\n"@ + in_red("✗"@) + " "@ + in_yellow(name) + ": "@ + summary@,
        ] + if details@.len() > 0 {
            seq![details@]
        } else {
            Seq::empty()
        },
        _ => Seq::empty(),
    }
}

/// The lines that tell of all failed tasks.
pub open spec fn all_failure_lines(results: Seq<(String, TaskResult)>) -> Seq<Seq<char>>
    decreases results.len(),
{
    if results.len() == 0 {
        Seq::empty()
    } else {
        all_failure_lines(results.drop_last()) + failure_lines(results.last().0@, results.last().1)
    }
}

/// The jobs of a task; none where it did not succeed.
pub open spec fn jobs_of(result: TaskResult) -> Seq<Job> {
    match result {
        TaskResult::Success { message, jobs } => jobs@,
        _ => Seq::empty(),
    }
}

/// The jobs of all tasks.
pub open spec fn all_jobs(results: Seq<(String, TaskResult)>) -> Seq<Job>
    decreases results.len(),
{
    if results.len() == 0 {
        Seq::empty()
    } else {
        jobs_of(results[0].1) + all_jobs(results.drop_first())
    }
}

/// Some task failed.
pub open spec fn any_failed(results: Seq<(String, TaskResult)>) -> bool {
    exists|i: int| 0 <= i < results.len() && (#[trigger] results[i]).1 is Failed
}

/// No task failed.
pub open spec fn all_went_well(results: Seq<(String, TaskResult)>) -> bool {
    !any_failed(results)
}

impl TaskResults {
    /// Whether some task failed.
    pub fn has_failures(&self) -> (r: bool)
        ensures
            r == any_failed(self.results@),
    {
        let mut i: usize = 0;
        while i < self.results.len()
            invariant
                i <= self.results@.len(),
                forall|k: int| 0 <= k < i ==> !((#[trigger] self.results@[k]).1 is Failed),
            decreases self.results@.len() - i,
        {
            match &self.results[i].1 {
                TaskResult::Failed { .. } => {
                    assert(self.results@[i as int].1 is Failed);
                    return true;
                },
                _ => {},
            }
            i = i + 1;
        }
        false
    }

    /// Detailed failure information for all failed tasks: the lines to print.
    pub fn print_failures(&self) -> (r: Vec<String>)
        ensures
            texts(r@) == all_failure_lines(self.results@),
    {
        let mut lines: Vec<String> = Vec::new();
        let mut i: usize = 0;
        assert(self.results@.take(0) =~= Seq::empty());
        assert(texts(lines@) =~= Seq::empty());
        while i < self.results.len()
            invariant
                i <= self.results@.len(),
                texts(lines@) == all_failure_lines(self.results@.take(i as int)),
            decreases self.results@.len() - i,
        {
            let ghost before = lines@;
            proof {
                let seen = self.results@.take(i + 1);
                assert(seen.drop_last() =~= self.results@.take(i as int));
                assert(seen.last() == self.results@[i as int]);
            }
            match &self.results[i].1 {
                TaskResult::Failed { summary, details } => {
                    let mut line = "\n".to_owned();
                    line.append(red("✗").as_str());
                    line.append(" ");
                    line.append(yellow(self.results[i].0.as_str()).as_str());
                    line.append(": ");
                    line.append(summary.as_str());
                    lines.push(line);
                    if details.unicode_len() > 0 {
                        lines.push(details.clone());
                    }
                },
                _ => {},
            }
            proof {
                assert(texts(lines@) =~= texts(before) + failure_lines(
                    self.results@[i as int].0@,
                    self.results@[i as int].1,
                ));
            }
            i = i + 1;
        }
        proof {
            assert(self.results@.take(i as int) =~= self.results@);
        }
        lines
    }

    /// Collect all jobs from successful tasks.
    pub fn collect_jobs(self) -> (r: Vec<Job>)
        ensures
            r@ == all_jobs(self.results@),
    {
        let mut rest = self.results;
        let ghost all = rest@;
        let mut jobs: Vec<Job> = Vec::new();
        assert(all_jobs(all) =~= jobs@ + all_jobs(rest@));
        while rest.len() > 0
            invariant
                all_jobs(all) == jobs@ + all_jobs(rest@),
            decreases rest@.len(),
        {
            let ghost before = rest@;
            let ghost so_far = jobs@;
            let (_, result) = rest.remove(0);
            proof {
                assert(rest@ =~= before.drop_first());
            }
            match result {
                TaskResult::Success { message: _, jobs: task_jobs } => {
                    let mut more = task_jobs;
                    jobs.append(&mut more);
                },
                _ => {},
            }
            proof {
                assert(jobs@ =~= so_far + jobs_of(before[0].1));
                assert(jobs@ + all_jobs(rest@) =~= so_far + all_jobs(before));
            }
        }
        proof {
            assert(jobs@ + all_jobs(rest@) =~= jobs@);
        }
        jobs
    }
}

/// How a task's spinner ends.
pub enum Ending {
    /// The task succeeded, with a message to show or without.
    Succeeded(Option<String>),
    /// The task was skipped, for a reason.
    Skipped(String),
    /// The task failed.
    Failed,
}

/// How the spinner of a task with a result ends.
pub open spec fn ending_of(result: TaskResult) -> Ending {
    match result {
        TaskResult::Success { message, jobs } => Ending::Succeeded(message),
        TaskResult::Skipped { reason } => Ending::Skipped(reason),
        TaskResult::Failed { summary, details } => Ending::Failed,
    }
}

/// How the spinner of a task with a result ends.
pub fn finalize_spinner(result: &TaskResult) -> (r: Ending)
    ensures
        r == ending_of(*result),
{
    match result {
        TaskResult::Success { message, .. } => match message {
            Some(text) => Ending::Succeeded(Some(text.clone())),
            None => Ending::Succeeded(None),
        },
        TaskResult::Skipped { reason } => Ending::Skipped(reason.clone()),
        TaskResult::Failed { .. } => Ending::Failed,
    }
}

/// What the runner wants done.
pub enum Action {
    /// Nothing.
    Ignore,
    /// Show a message on the spinner of a task.
    ShowMessage(TaskId, String),
    /// Start a spinner and a thread for a task with a name.
    Start(TaskId, String),
    /// End the spinner of a task.
    Finish(TaskId, Ending),
}

/// Runs tasks in parallel.
pub struct TaskRunner {
    /// The number of its first task.
    pub first_id: u64,
    /// The counter that the numbers of its tasks are drawn from.
    pub ids: TaskIds,
    /// The tasks that are running, with their names.
    pub running: Vec<(TaskId, String)>,
    /// The name and the result of each task that has completed.
    pub results: Vec<(String, TaskResult)>,
    /// Whether a task has failed and the others were cancelled.
    pub cancelled: bool,
}

/// The position of a task among those that are running, or their number.
pub open spec fn position(running: Seq<(TaskId, String)>, id: TaskId) -> nat
    decreases running.len(),
{
    if running.len() == 0 || running[0].0 == id {
        0
    } else {
        1 + position(running.drop_first(), id)
    }
}

proof fn lemma_position(running: Seq<(TaskId, String)>, id: TaskId)
    ensures
        position(running, id) <= running.len(),
        position(running, id) < running.len() ==> running[position(running, id) as int].0 == id,
        forall|k: int| 0 <= k < position(running, id) ==> (#[trigger] running[k]).0 != id,
    decreases running.len(),
{
    if running.len() > 0 && running[0].0 != id {
        let rest = running.drop_first();
        lemma_position(rest, id);
        assert forall|k: int| 0 <= k < position(running, id) implies (#[trigger] running[k]).0
            != id by {
            if k > 0 {
                assert(rest[k - 1] == running[k]);
            }
        }
    }
}

impl TaskRunner {
    /// A task is running.
    pub open spec fn is_running(self, id: TaskId) -> bool {
        position(self.running@, id) < self.running@.len()
    }

    /// The runner gave a task this number.
    pub open spec fn has_given(self, id: TaskId) -> bool {
        self.first_id <= id.0 < self.ids.next
    }

    /// What always holds of a runner. The running tasks have different numbers, all of them
    /// given out by it. As long as no task has failed, each task that was started is running or
    /// has its one result. Once a task has failed, its result is the last one and no task
    /// is running.
    pub open spec fn well_formed(self) -> bool {
        &&& self.first_id <= self.ids.next
        &&& forall|i: int|
            0 <= i < self.running@.len() ==> self.has_given((#[trigger] self.running@[i]).0)
        &&& forall|i: int, j: int|
            0 <= i < j < self.running@.len() ==> (#[trigger] self.running@[i]).0 != (
            #[trigger] self.running@[j]).0
        &&& forall|i: int|
            0 <= i < self.results@.len() - 1 ==> !((#[trigger] self.results@[i]).1 is Failed)
        &&& if self.cancelled {
            &&& self.running@.len() == 0
            &&& self.results@.len() > 0
            &&& self.results@.last().1 is Failed
        } else {
            &&& !any_failed(self.results@)
            &&& self.running@.len() + self.results@.len() == self.ids.next - self.first_id
        }
    }

    /// Nothing of the runner has changed.
    pub open spec fn same_as(self, other: TaskRunner) -> bool {
        &&& self.first_id == other.first_id
        &&& self.ids == other.ids
        &&& self.running@ == other.running@
        &&& self.results@ == other.results@
        &&& self.cancelled == other.cancelled
    }

    /// A runner without tasks, whose tasks get their numbers from a counter.
    pub fn new(ids: TaskIds) -> (r: Self)
        ensures
            r.well_formed(),
            r.is_fresh(),
            r.ids == ids,
    {
        TaskRunner {
            first_id: ids.next,
            ids,
            running: Vec::new(),
            results: Vec::new(),
            cancelled: false,
        }
    }

    /// The runner has not been given a task.
    pub open spec fn is_fresh(self) -> bool {
        &&& self.first_id == self.ids.next
        &&& self.running@.len() == 0
        &&& self.results@.len() == 0
        &&& !self.cancelled
    }

    /// What an event makes of the runner. A message changes nothing. A child task is running,
    /// unless the tasks were cancelled. A completed task has its result; a failed one cancels
    /// all that are running. What comes from a task that is not running changes nothing.
    pub open spec fn becomes(self, event: Event, after: TaskRunner) -> bool {
        match event {
            Event::SetMessage(id, msg) => after.same_as(self),
            Event::Spawn(name) => if self.cancelled {
                after.same_as(self)
            } else {
                &&& is_drawn(self.ids, TaskId(self.ids.next), after.ids)
                &&& after.first_id == self.first_id
                &&& after.running@ == self.running@.push((TaskId(self.ids.next), name))
                &&& after.results@ == self.results@
                &&& !after.cancelled
            },
            Event::Complete(id, name, result) => if !self.is_running(id) {
                after.same_as(self)
            } else {
                &&& after.ids == self.ids
                &&& after.first_id == self.first_id
                &&& after.results@ == self.results@.push((name, result))
                &&& after.cancelled == (result is Failed)
                &&& after.running@ == if result is Failed {
                    Seq::empty()
                } else {
                    self.running@.remove(position(self.running@, id) as int)
                }
            },
        }
    }

    /// What an event calls for.
    pub open spec fn answer(self, event: Event) -> Action {
        match event {
            Event::SetMessage(id, msg) => if self.is_running(id) {
                Action::ShowMessage(id, msg)
            } else {
                Action::Ignore
            },
            Event::Spawn(name) => if self.cancelled {
                Action::Ignore
            } else {
                Action::Start(TaskId(self.ids.next), name)
            },
            Event::Complete(id, name, result) => if self.is_running(id) {
                Action::Finish(id, ending_of(result))
            } else {
                Action::Ignore
            },
        }
    }

    /// The number of tasks that are running.
    pub fn pending(&self) -> (r: usize)
        ensures
            r == self.running@.len(),
    {
        self.running.len()
    }

    /// Add a task to run, as if it had been spawned. It gets the next number of the counter.
    pub fn add(&mut self, name: String) -> (r: TaskId)
        requires
            old(self).well_formed(),
            !old(self).cancelled,
            old(self).ids.next < u64::MAX,
        ensures
            final(self).well_formed(),
            is_drawn(old(self).ids, r, final(self).ids),
            old(self).becomes(Event::Spawn(name), *final(self)),
    {
        let id = TaskId::new(&mut self.ids);
        self.running.push((id, name));
        id
    }

    fn find(&self, id: TaskId) -> (r: usize)
        ensures
            r == position(self.running@, id),
            r <= self.running@.len(),
    {
        let mut i: usize = 0;
        assert(self.running@.skip(0) =~= self.running@);
        while i < self.running.len() && self.running[i].0 != id
            invariant
                i <= self.running@.len(),
                position(self.running@, id) == i + position(self.running@.skip(i as int), id),
            decreases self.running@.len() - i,
        {
            proof {
                assert(self.running@.skip(i as int).drop_first() =~= self.running@.skip(i + 1));
            }
            i = i + 1;
        }
        i
    }

    /// Takes in what happened and says what to do.
    ///
    /// A message is shown if its task is running. A child task is started, unless the tasks
    /// were cancelled. A completed task gives its result; a failed one cancels all that are
    /// running. What comes from a task that is not running changes nothing.
    pub fn handle(&mut self, event: Event) -> (r: Action)
        requires
            old(self).well_formed(),
            old(self).ids.next < u64::MAX,
        ensures
            final(self).well_formed(),
            old(self).becomes(event, *final(self)),
            r == old(self).answer(event),
    {
        match event {
            Event::SetMessage(id, msg) => {
                let at = self.find(id);
                if at < self.running.len() {
                    Action::ShowMessage(id, msg)
                } else {
                    Action::Ignore
                }
            },
            Event::Spawn(name) => {
                if self.cancelled {
                    Action::Ignore
                } else {
                    let shown = name.clone();
                    let id = self.add(name);
                    Action::Start(id, shown)
                }
            },
            Event::Complete(id, name, result) => {
                let at = self.find(id);
                if at == self.running.len() {
                    return Action::Ignore;
                }
                let ghost results = self.results@;
                let ghost running = self.running@;
                let ending = finalize_spinner(&result);
                let failed = match &result {
                    TaskResult::Failed { .. } => true,
                    _ => false,
                };
                self.results.push((name, result));
                if failed {
                    self.running.clear();
                    self.cancelled = true;
                } else {
                    self.running.remove(at);
                    proof {
                        assert forall|i: int|
                            0 <= i < self.results@.len() implies !((#[trigger] self.results@[i]).1 is Failed) by {
                            if i < results.len() {
                                assert(results[i] == self.results@[i]);
                            }
                        }
                    }
                }
                proof {
                    assert forall|i: int| 0 <= i < self.results@.len() - 1 implies !((
                    #[trigger] self.results@[i]).1 is Failed) by {
                        assert(results[i] == self.results@[i]);
                    }
                }
                Action::Finish(id, ending)
            },
        }
    }

    /// The results that were collected, and the counter for the next runner.
    pub fn into_results(self) -> (r: (TaskResults, TaskIds))
        ensures
            r.0.results@ == self.results@,
            r.1 == self.ids,
    {
        (TaskResults { results: self.results }, self.ids)
    }
}

/// No two runners give the same number, whatever was drawn in between, where one has its
/// counter from the other.
pub proof fn lemma_runners_share_no_id(
    earlier: TaskRunner,
    later: TaskRunner,
    a: TaskId,
    b: TaskId,
)
    requires
        earlier.ids.next <= later.first_id,
        earlier.has_given(a),
        later.has_given(b),
    ensures
        a != b,
        a.0 < b.0,
{
}

/// The results tell of a failure exactly where the tasks were cancelled, and then of one
/// alone.
pub proof fn lemma_failure_cancels(runner: TaskRunner)
    requires
        runner.well_formed(),
    ensures
        any_failed(runner.results@) == runner.cancelled,
        runner.cancelled ==> runner.running@.len() == 0,
        forall|i: int, j: int|
            0 <= i < runner.results@.len() && 0 <= j < runner.results@.len()
                && (#[trigger] runner.results@[i]).1 is Failed
                && (#[trigger] runner.results@[j]).1 is Failed ==> i == j,
{
    if runner.cancelled {
        assert(runner.results@[runner.results@.len() - 1].1 is Failed);
    }
}

// ---- runs ----

/// The names of tasks that are running.
pub open spec fn running_names(running: Seq<(TaskId, String)>) -> Seq<Seq<char>> {
    Seq::new(running.len(), |i: int| running[i].1@)
}

/// The names under which results stand.
pub open spec fn result_names(results: Seq<(String, TaskResult)>) -> Seq<Seq<char>> {
    Seq::new(results.len(), |i: int| results[i].0@)
}

/// An event tells of a task under the name that it was started with, if it is running.
pub open spec fn is_true_to_name(runner: TaskRunner, event: Event) -> bool {
    event matches Event::Complete(id, name, result) ==> (runner.is_running(id) ==> name@
        == runner.running@[position(runner.running@, id) as int].1@)
}

/// A run: `runners` gives the runner before each of the events and after the last. It begins
/// without tasks. Each completed task is told of under its own name.
pub open spec fn is_run(runners: Seq<TaskRunner>, events: Seq<Event>) -> bool {
    &&& runners.len() == events.len() + 1
    &&& runners[0].is_fresh()
    &&& forall|i: int| 0 <= i < runners.len() ==> (#[trigger] runners[i]).well_formed()
    &&& forall|i: int|
        0 <= i < events.len() ==> {
            &&& runners[i].becomes(#[trigger] events[i], runners[i + 1])
            &&& is_true_to_name(runners[i], events[i])
        }
}

/// The names of the tasks that were started in a run, in their order.
pub open spec fn started_names(runners: Seq<TaskRunner>, events: Seq<Event>) -> Seq<Seq<char>>
    decreases events.len(),
{
    if events.len() == 0 {
        Seq::empty()
    } else {
        let before = started_names(runners.drop_last(), events.drop_last());
        match events.last() {
            Event::Spawn(name) => if runners[events.len() - 1].cancelled {
                before
            } else {
                before.push(name@)
            },
            _ => before,
        }
    }
}

/// How many of the running tasks and of the results have a name.
spec fn count_named(runner: TaskRunner, name: Seq<char>) -> nat {
    running_names(runner.running@).to_multiset().count(name) + result_names(
        runner.results@,
    ).to_multiset().count(name)
}

/// How many tasks of a name an event starts.
spec fn count_started(runner: TaskRunner, event: Event, name: Seq<char>) -> nat {
    match event {
        Event::Spawn(n) => if !runner.cancelled && n@ == name {
            1
        } else {
            0
        },
        _ => 0,
    }
}

proof fn lemma_event_counts(runner: TaskRunner, event: Event, after: TaskRunner, name: Seq<char>)
    requires
        runner.well_formed(),
        runner.becomes(event, after),
        is_true_to_name(runner, event),
    ensures
        runner.cancelled ==> after.cancelled,
        count_named(after, name) <= count_named(runner, name) + count_started(runner, event, name),
        !after.cancelled ==> count_named(after, name) == count_named(runner, name) + count_started(
            runner,
            event,
            name,
        ),
{
    broadcast use vstd::seq_lib::group_to_multiset_ensures;
    broadcast use vstd::multiset::group_multiset_axioms;

    let running = running_names(runner.running@);
    let results = result_names(runner.results@);
    match event {
        Event::SetMessage(_, _) => {},
        Event::Spawn(n) => {
            if !runner.cancelled {
                assert(running_names(after.running@) =~= running.push(n@));
            }
        },
        Event::Complete(id, n, result) => {
            if runner.is_running(id) {
                let at = position(runner.running@, id) as int;
                assert(result_names(after.results@) =~= results.push(n@));
                assert(running[at] == n@);
                assert(running.contains(n@));
                if result is Failed {
                    assert(running_names(after.running@) =~= Seq::empty());
                    assert(running_names(after.running@).to_multiset().len() == 0);
                } else {
                    assert(running_names(after.running@) =~= running.remove(at));
                }
            }
        },
    }
}

proof fn lemma_run_counts(runners: Seq<TaskRunner>, events: Seq<Event>, name: Seq<char>)
    requires
        is_run(runners, events),
    ensures
        count_named(runners.last(), name) <= started_names(runners, events).to_multiset().count(
            name,
        ),
        !runners.last().cancelled ==> count_named(runners.last(), name) == started_names(
            runners,
            events,
        ).to_multiset().count(name),
    decreases events.len(),
{
    broadcast use vstd::seq_lib::group_to_multiset_ensures;
    broadcast use vstd::multiset::group_multiset_axioms;

    if events.len() == 0 {
        assert(running_names(runners.last().running@) =~= Seq::empty());
        assert(result_names(runners.last().results@) =~= Seq::empty());
    } else {
        let n = events.len() - 1;
        let (rest, first) = (runners.drop_last(), events.drop_last());
        assert forall|i: int| 0 <= i < first.len() implies rest[i].becomes(
            #[trigger] first[i],
            rest[i + 1],
        ) && is_true_to_name(rest[i], first[i]) by {
            assert(first[i] == events[i]);
        }
        assert(rest[0] == runners[0]);
        lemma_run_counts(rest, first, name);
        assert(rest.last() == runners[n]);
        assert(runners[n].becomes(events[n], runners[n + 1]));
        lemma_event_counts(runners[n], events[n], runners[n + 1], name);
    }
}

/// Each task that is started in a run has its one result under its own name: the results are
/// of the tasks that were started, none twice. Where no task has failed and none is running,
/// all have one.
pub proof fn lemma_each_task_has_its_result(runners: Seq<TaskRunner>, events: Seq<Event>)
    requires
        is_run(runners, events),
    ensures
        result_names(runners.last().results@).to_multiset().subset_of(
            started_names(runners, events).to_multiset(),
        ),
        !runners.last().cancelled ==> running_names(runners.last().running@).to_multiset().add(
            result_names(runners.last().results@).to_multiset(),
        ) == started_names(runners, events).to_multiset(),
        !runners.last().cancelled && runners.last().running@.len() == 0 ==> result_names(
            runners.last().results@,
        ).to_multiset() == started_names(runners, events).to_multiset(),
{
    broadcast use vstd::seq_lib::group_to_multiset_ensures;
    broadcast use vstd::multiset::group_multiset_axioms;

    let last = runners.last();
    let running = running_names(last.running@).to_multiset();
    let results = result_names(last.results@).to_multiset();
    let started = started_names(runners, events).to_multiset();
    assert forall|name: Seq<char>| true implies #[trigger] results.count(name) <= started.count(
        name,
    ) && (!last.cancelled ==> running.count(name) + results.count(name) == started.count(name)) by {
        lemma_run_counts(runners, events, name);
    }
    if !last.cancelled {
        assert(running.add(results) =~= started);
        if last.running@.len() == 0 {
            assert(running_names(last.running@) =~= Seq::empty());
            assert(results =~= started);
        }
    }
}

// ---- what a failure does ----

/// A task stands in a list of running tasks.
pub open spec fn stands_in(running: Seq<(TaskId, String)>, id: TaskId) -> bool {
    exists|i: int| 0 <= i < running.len() && (#[trigger] running[i]).0 == id
}

/// A task is running exactly if it stands in the list of those that are.
pub proof fn lemma_runs_if_listed(runner: TaskRunner, id: TaskId)
    ensures
        runner.is_running(id) <==> stands_in(runner.running@, id),
{
    let at = position(runner.running@, id);
    lemma_position(runner.running@, id);
    if runner.is_running(id) {
        assert(runner.running@[at as int].0 == id);
    }
}

/// A task that completes is shown to end as it did, gives its result under its name, and runs
/// no longer. If it failed, no other runs any longer either, and none can be started; else all
/// others run on. One that is not running changes nothing and is not answered.
pub proof fn lemma_completion(
    runner: TaskRunner,
    id: TaskId,
    name: String,
    result: TaskResult,
    after: TaskRunner,
    other: TaskId,
    child: String,
)
    requires
        runner.well_formed(),
        runner.becomes(Event::Complete(id, name, result), after),
    ensures
        ({
            let answer = runner.answer(Event::Complete(id, name, result));
            if stands_in(runner.running@, id) {
                &&& after.results@ == runner.results@ + seq![(name, result)]
                &&& !stands_in(after.running@, id)
                &&& result is Failed ==> !stands_in(after.running@, other)
                &&& result is Failed ==> after.answer(Event::Spawn(child)) is Ignore
                &&& !(result is Failed) && other != id ==> stands_in(after.running@, other)
                    == stands_in(runner.running@, other)
                &&& answer == Action::Finish(
                    id,
                    match result {
                        TaskResult::Success { message, jobs } => Ending::Succeeded(message),
                        TaskResult::Skipped { reason } => Ending::Skipped(reason),
                        TaskResult::Failed { summary, details } => Ending::Failed,
                    },
                )
            } else {
                &&& after.results@ == runner.results@
                &&& after.running@ == runner.running@
                &&& answer is Ignore
            }
        }),
{
    lemma_runs_if_listed(runner, id);
    let (running, left) = (runner.running@, after.running@);
    let at = position(running, id) as int;
    lemma_position(running, id);
    assert(runner.results@.push((name, result)) =~= runner.results@ + seq![(name, result)]);
    if stands_in(running, id) && !(result is Failed) {
        if stands_in(left, id) {
            let i = choose|i: int| 0 <= i < left.len() && (#[trigger] left[i]).0 == id;
            let k = if i < at {
                i
            } else {
                i + 1
            };
            assert(left[i] == running[k]);
            assert(running[at].0 != running[k].0);
        }
        if stands_in(running, other) && other != id {
            let i = choose|i: int| 0 <= i < running.len() && (#[trigger] running[i]).0 == other;
            assert(i != at);
            if i < at {
                assert(left[i] == running[i]);
            } else {
                assert(left[i - 1] == running[i]);
            }
        }
        if stands_in(left, other) {
            let i = choose|i: int| 0 <= i < left.len() && (#[trigger] left[i]).0 == other;
            let k = if i < at {
                i
            } else {
                i + 1
            };
            assert(left[i] == running[k]);
        }
    }
}

/// A child task runs and is started under a number that no task has had, unless a task has
/// failed: then it is not.
pub proof fn lemma_child(runner: TaskRunner, name: String, after: TaskRunner)
    requires
        runner.well_formed(),
        runner.ids.next < u64::MAX,
        runner.becomes(Event::Spawn(name), after),
    ensures
        after.results@ == runner.results@,
        any_failed(runner.results@) ==> after.running@ == runner.running@ && runner.answer(
            Event::Spawn(name),
        ) is Ignore,
        !any_failed(runner.results@) ==> {
            &&& runner.answer(Event::Spawn(name)) matches Action::Start(id, shown) && shown == name
                && !runner.has_given(id) && after.running@ == runner.running@ + seq![(id, name)]
        },
{
    lemma_failure_cancels(runner);
    let id = TaskId(runner.ids.next);
    assert(runner.running@.push((id, name)) =~= runner.running@ + seq![(id, name)]);
}

/// A message is shown exactly if its task is running, and changes nothing.
pub proof fn lemma_message(runner: TaskRunner, id: TaskId, msg: String, after: TaskRunner)
    requires
        runner.becomes(Event::SetMessage(id, msg), after),
    ensures
        after.running@ == runner.running@ && after.results@ == runner.results@ && after.ids
            == runner.ids && after.cancelled == runner.cancelled,
        stands_in(runner.running@, id) ==> runner.answer(Event::SetMessage(id, msg))
            == Action::ShowMessage(id, msg),
        !stands_in(runner.running@, id) ==> runner.answer(Event::SetMessage(id, msg)) is Ignore,
{
    lemma_runs_if_listed(runner, id);
}

/// The failures of two lists of results are those of each, one after the other, and so are the
/// jobs.
pub proof fn lemma_results_of_two_lists(
    a: Seq<(String, TaskResult)>,
    b: Seq<(String, TaskResult)>,
)
    ensures
        all_failure_lines(a + b) == all_failure_lines(a) + all_failure_lines(b),
        all_jobs(a + b) == all_jobs(a) + all_jobs(b),
        any_failed(a + b) == (any_failed(a) || any_failed(b)),
{
    lemma_failures_of_two_lists(a, b);
    lemma_jobs_of_two_lists(a, b);
    let all = a + b;
    if any_failed(a) {
        let i = choose|i: int| 0 <= i < a.len() && (#[trigger] a[i]).1 is Failed;
        assert(all[i].1 is Failed);
    }
    if any_failed(b) {
        let i = choose|i: int| 0 <= i < b.len() && (#[trigger] b[i]).1 is Failed;
        assert(all[a.len() + i].1 is Failed);
    }
    if any_failed(all) {
        let i = choose|i: int| 0 <= i < all.len() && (#[trigger] all[i]).1 is Failed;
        if i < a.len() {
            assert(a[i].1 is Failed);
        } else {
            assert(b[i - a.len()].1 is Failed);
        }
    }
}

proof fn lemma_failures_of_two_lists(a: Seq<(String, TaskResult)>, b: Seq<(String, TaskResult)>)
    ensures
        all_failure_lines(a + b) == all_failure_lines(a) + all_failure_lines(b),
    decreases b.len(),
{
    if b.len() == 0 {
        assert(a + b =~= a);
    } else {
        lemma_failures_of_two_lists(a, b.drop_last());
        assert((a + b).drop_last() =~= a + b.drop_last());
        assert((a + b).last() == b.last());
    }
    assert(all_failure_lines(a + b) =~= all_failure_lines(a) + all_failure_lines(b));
}

proof fn lemma_jobs_of_two_lists(a: Seq<(String, TaskResult)>, b: Seq<(String, TaskResult)>)
    ensures
        all_jobs(a + b) == all_jobs(a) + all_jobs(b),
    decreases a.len(),
{
    if a.len() == 0 {
        assert(a + b =~= b);
    } else {
        lemma_jobs_of_two_lists(a.drop_first(), b);
        assert((a + b).drop_first() =~= a.drop_first() + b);
        assert((a + b)[0] == a[0]);
    }
    assert(all_jobs(a + b) =~= all_jobs(a) + all_jobs(b));
}

/// All tasks went well exactly if none of the results is a failure.
pub proof fn lemma_all_went_well(results: Seq<(String, TaskResult)>)
    ensures
        all_went_well(results) <==> forall|i: int|
            0 <= i < results.len() ==> (#[trigger] results[i]).1 is Success
                || results[i].1 is Skipped,
{
    if all_went_well(results) {
        assert forall|i: int| 0 <= i < results.len() implies (
        #[trigger] results[i]).1 is Success || results[i].1 is Skipped by {
            if results[i].1 is Failed {
                assert(any_failed(results));
            }
        }
    }
}

/// A task that failed is told of under its name, with its summary, then its details if there
/// are any, and no job of it is applied. One that succeeded is not told of, and all its jobs
/// are applied. One that was skipped does neither.
pub proof fn lemma_one_result(name: String, result: TaskResult)
    ensures
        ({
            let results = seq![(name, result)];
            let lines = all_failure_lines(results);
            match result {
                TaskResult::Success { message, jobs } => lines.len() == 0 && all_jobs(results)
                    == jobs@,
                TaskResult::Skipped { reason } => lines.len() == 0 && all_jobs(results).len() == 0,
                TaskResult::Failed { summary, details } => {
                    &&& all_jobs(results).len() == 0
                    &&& lines.len() == if details@.len() > 0 {
                        2int
                    } else {
                        1int
                    }
                    &&& lines[0] == "\n"@ + in_red("✗"@) + " "@ + in_yellow(name@) + ": "@
                        + summary@
                    &&& details@.len() > 0 ==> lines[1] == details@
                },
            }
        }),
{
    let results = seq![(name, result)];
    assert(results.drop_last() =~= Seq::empty());
    assert(results.drop_first() =~= Seq::empty());
    assert(all_failure_lines(results.drop_last()) =~= Seq::empty());
    assert(all_jobs(results.drop_first()) =~= Seq::empty());
    assert(results.last() == (name, result) && results[0] == (name, result));
    assert(all_failure_lines(results) =~= failure_lines(name@, result));
    assert(all_jobs(results) =~= jobs_of(result));
}

} // verus!
