//! A task: a description, the body and event log that go with it, its
//! triggers, and whether they are installed.
//!
//! A task is `Deactivated` until every one of its triggers is installed, and
//! `Activated` from then until they are uninstalled. Every install and
//! uninstall is recorded in the task's event log, as is every run.

use crate::clock::{fresh_id, system_now};
use crate::job::AsyncTask;
use crate::message::{
    event_views, outcome_view, Event, EventType, EventView, Outcome, TaskError, TaskErrorView,
    TaskResult, TaskResultView, TaskSpec, TaskSpecView, TaskTypeView, Timestamp,
    TriggerSpecView,
};
use crate::scheduler::{runs_of, without_job, CronScheduler, JobView};
use crate::trigger::{
    bad_expression, install_view, shapes, Trigger, TriggerTrait, TriggerView,
};
use std::collections::VecDeque;
use vstd::prelude::*;

verus! {

/// What an event says, apart from its identifier and its two instants.
pub struct EventShape {
    pub type_: EventType,
    pub result: Result<TaskResultView, TaskErrorView>,
}

/// The event of an install or uninstall that went well.
pub open spec fn installed_shape() -> EventShape {
    EventShape { type_: EventType::TriggerInstall, result: Ok(TaskResultView::success()) }
}

/// The event of an install that found a bad cron expression.
pub open spec fn refused_shape() -> EventShape {
    EventShape {
        type_: EventType::TriggerInstall,
        result: Err(bad_expression()->Err_0),
    }
}

/// Whether the log `after` is `before` followed by one event for each of
/// `shapes`, in order.
pub open spec fn log_grows(before: Seq<EventView>, after: Seq<EventView>, shapes: Seq<EventShape>) -> bool {
    &&& after.len() == before.len() + shapes.len()
    &&& after.take(before.len() as int) == before
    &&& forall|j: int|
        0 <= j < shapes.len() ==> (#[trigger] after[before.len() + j]).type_ == shapes[j].type_
            && after[before.len() + j].result == shapes[j].result
}

/// The log after each of `events` is appended to `log`, in order.
pub open spec fn appended(log: Seq<EventView>, events: Seq<EventView>) -> Seq<EventView>
    decreases events.len(),
{
    if events.len() == 0 {
        log
    } else {
        appended(log, events.drop_last()).push(events.last())
    }
}

/// What an export hands out of `log`, and what it leaves: every event,
/// oldest first, and an empty log.
pub open spec fn drained(log: Seq<EventView>) -> (Seq<EventView>, Seq<EventView>) {
    (log, Seq::empty())
}

/// The event log is a first-in, first-out queue that an export drains:
/// after the events `events` were appended to an empty log, an export hands
/// out exactly `events`, in the order they were appended, and a second
/// export hands out nothing.
pub proof fn lemma_log_is_fifo(events: Seq<EventView>)
    ensures
        drained(appended(Seq::empty(), events)).0 == events,
        drained(appended(Seq::empty(), events)).0.len() == events.len(),
        drained(drained(appended(Seq::empty(), events)).1).0 == Seq::<EventView>::empty(),
    decreases events.len(),
{
    if events.len() > 0 {
        lemma_log_is_fifo(events.drop_last());
        assert(events.drop_last().push(events.last()) =~= events);
    }
}

/// The body of a task, the events recorded about it, oldest first, and
/// the state of its runs: at most one run is under way at any time, and
/// firings that arrive meanwhile wait.
pub struct TaskExecContext {
    pub task: AsyncTask,
    pub run_history: VecDeque<Event>,
    /// When the run that is under way began; `None` where none is.
    pub started: Option<Timestamp>,
    /// How many firings wait for the run that is under way to end.
    pub waiting: usize,
}

impl TaskExecContext {
    /// The recorded events, oldest first.
    pub open spec fn log(&self) -> Seq<EventView> {
        event_views(self.run_history@)
    }

    /// Whether a run is under way.
    pub open spec fn running(&self) -> bool {
        self.started is Some
    }

    /// A context for `task` with an empty log and no run under way.
    pub fn new(task: AsyncTask) -> (r: TaskExecContext)
        ensures
            r.task@ == task@,
            r.log() == Seq::<EventView>::empty(),
            !r.running(),
            r.waiting == 0,
    {
        let r = TaskExecContext { task, run_history: VecDeque::new(), started: None, waiting: 0 };
        assert(r.log() =~= Seq::<EventView>::empty());
        r
    }

    /// Takes one firing. Where no run is under way, one begins now and the
    /// body is handed out for the host to run. Where one is under way, the
    /// firing waits, and nothing is handed out.
    pub fn begin(&mut self) -> (body: Option<AsyncTask>)
        ensures
            final(self).task == old(self).task,
            final(self).run_history == old(self).run_history,
            final(self).running(),
            body is Some == !old(self).running(),
            body is Some ==> body.unwrap()@ == old(self).task@,
            final(self).waiting == if !old(self).running() || old(self).waiting == usize::MAX {
                old(self).waiting as int
            } else {
                old(self).waiting + 1
            },
            old(self).running() ==> final(self).started == old(self).started,
    {
        if self.started.is_some() {
            if self.waiting < usize::MAX {
                self.waiting = self.waiting + 1;
            }
            None
        } else {
            self.started = Some(system_now());
            Some(self.task.dup())
        }
    }

    /// Appends an event of kind `type_` that began at `start` and ends now,
    /// under a fresh identifier.
    pub fn record(&mut self, type_: EventType, start: Timestamp, result: Outcome)
        ensures
            final(self).task == old(self).task,
            final(self).started == old(self).started,
            final(self).waiting == old(self).waiting,
            final(self).log().len() == old(self).log().len() + 1,
            final(self).log().drop_last() == old(self).log(),
            final(self).log() == appended(old(self).log(), seq![final(self).log().last()]),
            final(self).log().last().type_ == type_,
            final(self).log().last().start == start,
            final(self).log().last().result == outcome_view(result),
    {
        let event = Event { id: fresh_id(), type_, start, end: system_now(), result };
        self.run_history.push_back(event);
        assert(self.log().drop_last() =~= old(self).log());
        proof {
            let one = seq![self.log().last()];
            assert(one.drop_last() =~= Seq::<EventView>::empty());
            assert(appended(old(self).log(), one.drop_last()) == old(self).log());
            assert(appended(old(self).log(), one) == old(self).log().push(one.last()));
            assert(self.log() =~= old(self).log().push(self.log().last()));
        }
    }

    /// Ends the run that is under way: records it with `result` as the
    /// newest event, from the instant it began until now. Where a firing
    /// waits, its run begins now and the body is handed out for the host to
    /// run; else no run is under way any more. A run that never began is
    /// recorded as beginning now.
    pub fn run(&mut self, result: Outcome) -> (next: Option<AsyncTask>)
        ensures
            final(self).task == old(self).task,
            final(self).log().len() == old(self).log().len() + 1,
            final(self).log().drop_last() == old(self).log(),
            final(self).log() == appended(old(self).log(), seq![final(self).log().last()]),
            final(self).log().last().type_ == EventType::Run,
            old(self).started is Some ==> final(self).log().last().start == old(
                self,
            ).started.unwrap(),
            final(self).log().last().result == outcome_view(result),
            next is Some == (old(self).waiting > 0),
            next is Some ==> next.unwrap()@ == old(self).task@,
            final(self).running() == (old(self).waiting > 0),
            final(self).waiting == if old(self).waiting > 0 {
                old(self).waiting - 1
            } else {
                0
            },
    {
        let start = match self.started {
            Some(t) => t,
            None => system_now(),
        };
        self.record(EventType::Run, start, result);
        if self.waiting > 0 {
            self.waiting = self.waiting - 1;
            self.started = Some(system_now());
            Some(self.task.dup())
        } else {
            self.started = None;
            None
        }
    }

    /// Drains the log: returns every recorded event, oldest first, and
    /// leaves the log empty.
    pub fn export_log(&mut self) -> (res: Vec<Event>)
        ensures
            (event_views(res@), final(self).log()) == drained(old(self).log()),
            event_views(res@) == old(self).log(),
            final(self).log() == Seq::<EventView>::empty(),
            final(self).task == old(self).task,
            final(self).started == old(self).started,
            final(self).waiting == old(self).waiting,
    {
        let mut res: Vec<Event> = Vec::new();
        while self.run_history.len() > 0
            invariant
                self.task == old(self).task,
                self.started == old(self).started,
                self.waiting == old(self).waiting,
                event_views(res@) + self.log() == old(self).log(),
            decreases self.run_history@.len(),
        {
            let ghost before = self.log();
            let ghost got = event_views(res@);
            match self.run_history.pop_front() {
                Some(run) => {
                    res.push(run);
                    assert(event_views(res@) =~= got.push(before[0]));
                    assert(self.log() =~= before.skip(1));
                    assert(event_views(res@) + self.log() =~= got + before);
                },
                None => {},
            }
        }
        assert(self.log() =~= Seq::<EventView>::empty());
        assert(event_views(res@) =~= event_views(res@) + self.log());
        res
    }
}

/// Whether a task's triggers are installed.
#[derive(Debug, Clone, Copy, PartialEq, Eq, Structural)]
pub enum TaskState {
    Activated,
    Deactivated,
}

/// A task of the live set.
pub struct Task {
    id: u128,
    spec: TaskSpec,
    context: TaskExecContext,
    triggers: Vec<Trigger>,
    state: TaskState,
}

/// What a task is in contracts.
pub struct TaskView {
    pub id: u128,
    pub spec: TaskSpecView,
    pub body: TaskTypeView,
    pub log: Seq<EventView>,
    pub triggers: Seq<TriggerView>,
    pub activated: bool,
    /// When the run that is under way began; `None` where none is.
    pub started: Option<Timestamp>,
    /// How many firings wait for the run that is under way to end.
    pub waiting: nat,
}

/// One uninstalled trigger for each description, in order.
pub open spec fn fresh_triggers(specs: Seq<TriggerSpecView>) -> Seq<TriggerView> {
    Seq::new(specs.len(), |i: int| TriggerView::fresh(specs[i]))
}

/// Each trigger once it is uninstalled.
pub open spec fn released_triggers(ts: Seq<TriggerView>) -> Seq<TriggerView> {
    Seq::new(ts.len(), |i: int| ts[i].released())
}

/// The index of the first trigger whose install fails, or the number of
/// triggers where every install succeeds.
pub open spec fn first_bad(ts: Seq<TriggerView>) -> int
    decreases ts.len(),
{
    if ts.len() == 0 {
        0
    } else if !ts[0].installable() {
        0
    } else {
        1 + first_bad(ts.skip(1))
    }
}

/// The identifiers of the jobs that the triggers hold, in order.
pub open spec fn held_ids(ts: Seq<TriggerView>) -> Seq<u128>
    decreases ts.len(),
{
    if ts.len() == 0 {
        Seq::empty()
    } else {
        match ts.last() {
            TriggerView::Cron { expr, job_id: Some(id) } => held_ids(ts.drop_last()).push(id),
            _ => held_ids(ts.drop_last()),
        }
    }
}

/// How many of the triggers owe a run at once when installed.
pub open spec fn at_once_count(ts: Seq<TriggerView>) -> nat
    decreases ts.len(),
{
    if ts.len() == 0 {
        0
    } else if ts.last().runs_at_once() {
        at_once_count(ts.drop_last()) + 1
    } else {
        at_once_count(ts.drop_last())
    }
}

/// The jobs that are left of `jobs` after the job of each identifier of
/// `ids` is removed, in order.
pub open spec fn strip(jobs: Seq<JobView>, ids: Seq<u128>) -> Seq<JobView>
    decreases ids.len(),
{
    if ids.len() == 0 {
        jobs
    } else {
        without_job(strip(jobs, ids.drop_last()), ids.last())
    }
}

/// The expressions of the cron triggers among `ts`, in order.
pub open spec fn cron_exprs(ts: Seq<TriggerView>) -> Seq<Seq<char>>
    decreases ts.len(),
{
    if ts.len() == 0 {
        Seq::empty()
    } else {
        match ts.last() {
            TriggerView::Cron { expr, job_id } => cron_exprs(ts.drop_last()).push(expr),
            _ => cron_exprs(ts.drop_last()),
        }
    }
}

/// The expression of each job's schedule, in order.
pub open spec fn job_exprs(jobs: Seq<JobView>) -> Seq<Seq<char>> {
    Seq::new(jobs.len(), |i: int| jobs[i].expr)
}

/// The identifier of each job, in order.
pub open spec fn job_ids(jobs: Seq<JobView>) -> Seq<u128> {
    Seq::new(jobs.len(), |i: int| jobs[i].job_id)
}

/// The events of an activation that installs `good` triggers and then, where
/// `refused` is set, fails on the next.
pub open spec fn install_shapes(good: int, refused: bool) -> Seq<EventShape> {
    Seq::new(
        (if refused {
            good + 1
        } else {
            good
        }) as nat,
        |j: int|
            if j < good {
                installed_shape()
            } else {
                refused_shape()
            },
    )
}

/// The events of a deactivation of `n` triggers.
pub open spec fn uninstall_shapes(n: int) -> Seq<EventShape> {
    Seq::new(n as nat, |j: int| installed_shape())
}

impl TaskView {
    /// One trigger for each description, in order, and the body that the
    /// description names.
    pub open spec fn wf(self) -> bool {
        &&& self.triggers.len() == self.spec.triggers.len()
        &&& forall|i: int|
            0 <= i < self.triggers.len() ==> (#[trigger] self.triggers[i]).spec()
                == self.spec.triggers[i]
        &&& self.body == self.spec.task
    }

    /// A new task for `spec`: deactivated, nothing installed, nothing
    /// recorded.
    pub open spec fn created(id: u128, spec: TaskSpecView) -> TaskView {
        TaskView {
            id,
            spec,
            body: spec.task,
            log: Seq::empty(),
            triggers: fresh_triggers(spec.triggers),
            activated: false,
            started: None,
            waiting: 0,
        }
    }

    /// What `activate` returns.
    pub open spec fn activate_result(self) -> Result<(), TaskErrorView> {
        if self.activated || first_bad(self.triggers) == self.triggers.len() {
            Ok(())
        } else {
            bad_expression()
        }
    }
}

/// What `activate` does: to the task (`pre`, `post`), to the scheduler's
/// jobs (`s0`, `s1`) and to the runs that are due (`d0`, `d1`).
///
/// An activated task is left alone. Otherwise the triggers are installed in
/// order up to the first that fails: each one installed is recorded, a cron
/// trigger among them holds the job that was appended for it on its
/// schedule, each of the others owes one run; the failing one is recorded too, and the triggers
/// after it are not touched. The task is activated where none failed.
pub open spec fn activate_effect(
    pre: TaskView,
    post: TaskView,
    s0: Seq<JobView>,
    s1: Seq<JobView>,
    d0: Seq<u128>,
    d1: Seq<u128>,
) -> bool {
    if pre.activated {
        post == pre && s1 == s0 && d1 == d0
    } else {
        let n = pre.triggers.len();
        let k = first_bad(pre.triggers);
        &&& post.id == pre.id
        &&& post.spec == pre.spec
        &&& post.body == pre.body
        &&& post.started == pre.started
        &&& post.waiting == pre.waiting
        &&& post.activated == (k == n)
        &&& post.triggers.len() == n
        &&& forall|i: int|
            0 <= i < k ==> (#[trigger] post.triggers[i]).spec() == pre.triggers[i].spec() && (
            pre.triggers[i] is Cron ==> post.triggers[i]->job_id is Some) && (pre.triggers[i]
                !is Cron ==> post.triggers[i] == pre.triggers[i])
        &&& forall|i: int| k <= i < n ==> #[trigger] post.triggers[i] == pre.triggers[i]
        &&& s1.len() >= s0.len()
        &&& s1.take(s0.len() as int) == s0
        &&& job_ids(s1.skip(s0.len() as int)) == held_ids(post.triggers.take(k))
        &&& job_exprs(s1.skip(s0.len() as int)) == cron_exprs(pre.triggers.take(k))
        &&& forall|j: int| s0.len() <= j < s1.len() ==> (#[trigger] s1[j]).task == pre.id
        &&& d1 == d0 + runs_of(pre.id, at_once_count(pre.triggers.take(k)))
        &&& log_grows(pre.log, post.log, install_shapes(k, k < n))
    }
}

/// What `deactivate` does: to the task (`pre`, `post`) and to the
/// scheduler's jobs (`s0`, `s1`).
///
/// A deactivated task is left alone. Otherwise every trigger is uninstalled
/// in order and each uninstall is recorded; the scheduler loses the jobs
/// that the triggers held.
pub open spec fn deactivate_effect(
    pre: TaskView,
    post: TaskView,
    s0: Seq<JobView>,
    s1: Seq<JobView>,
) -> bool {
    if !pre.activated {
        post == pre && s1 == s0
    } else {
        &&& post.id == pre.id
        &&& post.spec == pre.spec
        &&& post.body == pre.body
        &&& post.started == pre.started
        &&& post.waiting == pre.waiting
        &&& !post.activated
        &&& post.triggers == released_triggers(pre.triggers)
        &&& s1 == strip(s0, held_ids(pre.triggers))
        &&& log_grows(pre.log, post.log, uninstall_shapes(pre.triggers.len() as int))
    }
}

/// The task between the two halves of an update to `spec`: what
/// deactivation left (`mid`), with the new description, the body it names,
/// and fresh triggers where the triggers changed.
pub open spec fn respecified(mid: TaskView, spec: TaskSpecView, triggers_changed: bool) -> TaskView {
    TaskView {
        spec,
        body: spec.task,
        triggers: if triggers_changed {
            fresh_triggers(spec.triggers)
        } else {
            mid.triggers
        },
        ..mid
    }
}

/// What `update` to `spec` does, by way of the task `mid` and the jobs
/// `smid` that deactivation leaves: where the body or the triggers change,
/// the task is deactivated first and what changed is rebuilt; the
/// description is replaced; then the task is activated.
pub open spec fn update_steps(
    pre: TaskView,
    mid: TaskView,
    post: TaskView,
    spec: TaskSpecView,
    s0: Seq<JobView>,
    smid: Seq<JobView>,
    s1: Seq<JobView>,
    d0: Seq<u128>,
    d1: Seq<u128>,
) -> bool {
    let body_changed = pre.spec.task != spec.task;
    let triggers_changed = pre.spec.triggers != spec.triggers;
    &&& if body_changed || triggers_changed {
        deactivate_effect(pre, mid, s0, smid)
    } else {
        mid == pre && smid == s0
    }
    &&& activate_effect(respecified(mid, spec, triggers_changed), post, smid, s1, d0, d1)
}

/// What `update` to `spec` does: to the task (`pre`, `post`), to the
/// scheduler's jobs (`s0`, `s1`) and to the runs that are due (`d0`, `d1`).
pub open spec fn update_effect(
    pre: TaskView,
    post: TaskView,
    spec: TaskSpecView,
    s0: Seq<JobView>,
    s1: Seq<JobView>,
    d0: Seq<u128>,
    d1: Seq<u128>,
) -> bool {
    exists|mid: TaskView, smid: Seq<JobView>| #[trigger]
        update_steps(pre, mid, post, spec, s0, smid, s1, d0, d1)
}

/// The first failing trigger is the first index that is not installable.
pub proof fn lemma_first_bad(ts: Seq<TriggerView>, k: int)
    requires
        0 <= k <= ts.len(),
        forall|j: int| 0 <= j < k ==> (#[trigger] ts[j]).installable(),
        k < ts.len() ==> !ts[k].installable(),
    ensures
        first_bad(ts) == k,
    decreases ts.len(),
{
    if ts.len() == 0 {
    } else if k == 0 {
    } else {
        assert(ts[0].installable());
        let rest = ts.skip(1);
        assert forall|j: int| 0 <= j < k - 1 implies (#[trigger] rest[j]).installable() by {
            assert(rest[j] == ts[j + 1]);
        }
        if k - 1 < rest.len() {
            assert(rest[k - 1] == ts[k]);
        }
        lemma_first_bad(rest, k - 1);
    }
}

/// Every trigger before the first failing one is installable, and the first
/// failing one is not.
pub proof fn lemma_first_bad_is_first(ts: Seq<TriggerView>)
    ensures
        0 <= first_bad(ts) <= ts.len(),
        forall|j: int| 0 <= j < first_bad(ts) ==> (#[trigger] ts[j]).installable(),
        first_bad(ts) < ts.len() ==> !ts[first_bad(ts)].installable(),
    decreases ts.len(),
{
    if ts.len() == 0 {
    } else if !ts[0].installable() {
    } else {
        let rest = ts.skip(1);
        lemma_first_bad_is_first(rest);
        assert forall|j: int| 0 <= j < first_bad(ts) implies (#[trigger] ts[j]).installable() by {
            if j > 0 {
                assert(rest[j - 1] == ts[j]);
            }
        }
        if first_bad(ts) < ts.len() {
            assert(rest[first_bad(rest)] == ts[first_bad(ts)]);
        }
    }
}

impl View for Task {
    type V = TaskView;

    closed spec fn view(&self) -> TaskView {
        TaskView {
            id: self.id,
            spec: self.spec@,
            body: self.context.task@,
            log: self.context.log(),
            triggers: shapes(self.triggers@),
            activated: self.state == TaskState::Activated,
            started: self.context.started,
            waiting: self.context.waiting as nat,
        }
    }
}

impl Task {
    /// A task for `spec` under the identifier `id`: deactivated, with one
    /// uninstalled trigger for each description and an empty log.
    pub fn new(id: u128, spec: TaskSpec) -> (r: Task)
        ensures
            r@ == TaskView::created(id, spec@),
            r@.wf(),
    {
        let mut triggers: Vec<Trigger> = Vec::new();
        let mut i: usize = 0;
        while i < spec.triggers.len()
            invariant
                i <= spec.triggers.len(),
                triggers@.len() == i,
                forall|j: int|
                    0 <= j < i ==> (#[trigger] triggers@[j]).shape() == TriggerView::fresh(
                        spec.triggers@[j]@,
                    ),
            decreases spec.triggers.len() - i,
        {
            triggers.push(Trigger::make(&spec.triggers[i]));
            i = i + 1;
        }
        let context = TaskExecContext::new(AsyncTask::make(&spec.task));
        let r = Task { id, context, triggers, spec, state: TaskState::Deactivated };
        proof {
            assert(r@.triggers =~= fresh_triggers(spec@.triggers));
            assert(r@ == TaskView::created(id, spec@));
        }
        r
    }

    /// The identifier it stands under.
    pub fn id(&self) -> (r: u128)
        ensures
            r == self@.id,
    {
        self.id
    }

    /// The body to run on a firing.
    pub fn body(&self) -> (r: &AsyncTask)
        ensures
            r@ == self@.body,
    {
        &self.context.task
    }

    /// The current description.
    pub fn spec(&self) -> (r: &TaskSpec)
        ensures
            r@ == self@.spec,
    {
        &self.spec
    }

    /// Drains the event log: returns every recorded event, oldest first,
    /// and leaves the log empty.
    pub fn export_log(&mut self) -> (res: Vec<Event>)
        ensures
            event_views(res@) == old(self)@.log,
            final(self)@ == (TaskView { log: Seq::empty(), ..old(self)@ }),
    {
        self.context.export_log()
    }

    /// Takes one firing. Where no run is under way, one begins now and the
    /// body is handed out for the host to run. Where one is under way, the
    /// firing waits, and nothing is handed out.
    pub fn begin_run(&mut self) -> (body: Option<AsyncTask>)
        ensures
            body is Some == (old(self)@.started is None),
            body is Some ==> body.unwrap()@ == old(self)@.body,
            final(self)@.started is Some,
            old(self)@.started is Some ==> final(self)@.started == old(self)@.started,
            final(self)@.waiting == if old(self)@.started is None || old(self)@.waiting
                == usize::MAX {
                old(self)@.waiting
            } else {
                old(self)@.waiting + 1
            },
            final(self)@ == (TaskView {
                started: final(self)@.started,
                waiting: final(self)@.waiting,
                ..old(self)@
            }),
    {
        self.context.begin()
    }

    /// Ends the run that is under way: records it with `result` as the
    /// newest event, from the instant it began until now. Where a firing
    /// waits, its run begins now and the body is handed out for the host to
    /// run; else no run is under way any more.
    pub fn finish_run(&mut self, result: Outcome) -> (next: Option<AsyncTask>)
        ensures
            final(self)@.log.len() == old(self)@.log.len() + 1,
            final(self)@.log.drop_last() == old(self)@.log,
            final(self)@.log.last().type_ == EventType::Run,
            old(self)@.started is Some ==> final(self)@.log.last().start == old(
                self,
            )@.started.unwrap(),
            final(self)@.log.last().result == outcome_view(result),
            next is Some == (old(self)@.waiting > 0),
            next is Some ==> next.unwrap()@ == old(self)@.body,
            (final(self)@.started is Some) == (old(self)@.waiting > 0),
            final(self)@.waiting == if old(self)@.waiting > 0 {
                old(self)@.waiting - 1
            } else {
                0
            },
            final(self)@ == (TaskView {
                log: final(self)@.log,
                started: final(self)@.started,
                waiting: final(self)@.waiting,
                ..old(self)@
            }),
    {
        self.context.run(result)
    }

    pub fn is_activated(&self) -> (r: bool)
        ensures
            r == self@.activated,
    {
        match self.state {
            TaskState::Activated => true,
            TaskState::Deactivated => false,
        }
    }

    /// Installs the triggers in order and records each install. Stops at
    /// the first that fails and returns its error; the task then stays
    /// deactivated, with the earlier triggers installed. A task that is
    /// activated already is left alone.
    pub fn activate(&mut self, sched: &mut CronScheduler, due: &mut Vec<u128>) -> (r: Result<
        (),
        TaskError,
    >)
        ensures
            activate_effect(
                old(self)@,
                final(self)@,
                old(sched)@,
                final(sched)@,
                old(due)@,
                final(due)@,
            ),
            install_view(r) == old(self)@.activate_result(),
            old(self)@.wf() ==> final(self)@.wf(),
    {
        if self.is_activated() {
            return Ok(());
        }
        let ghost pre = self@;
        let ghost s0 = sched@;
        let ghost d0 = due@;
        let n = self.triggers.len();
        let mut i: usize = 0;
        proof {
            assert(pre.triggers.take(0) =~= Seq::<TriggerView>::empty());
            assert(sched@.skip(s0.len() as int) =~= Seq::<JobView>::empty());
            assert(job_ids(Seq::<JobView>::empty()) =~= Seq::<u128>::empty());
            assert(job_exprs(Seq::<JobView>::empty()) =~= Seq::<Seq<char>>::empty());
            assert(due@ =~= d0 + runs_of(pre.id, 0));
            assert(self@.triggers.take(0) =~= Seq::<TriggerView>::empty());
            assert(self@.log.take(pre.log.len() as int) =~= pre.log);
        }
        while i < n
            invariant
                i <= n,
                n == pre.triggers.len(),
                !pre.activated,
                pre == old(self)@,
                s0 == old(sched)@,
                d0 == old(due)@,
                self@.id == pre.id,
                self@.spec == pre.spec,
                self@.body == pre.body,
                self@.started == pre.started,
                self@.waiting == pre.waiting,
                !self@.activated,
                self@.triggers.len() == n,
                forall|j: int| 0 <= j < i ==> (#[trigger] pre.triggers[j]).installable(),
                forall|j: int|
                    0 <= j < i ==> (#[trigger] self@.triggers[j]).spec() == pre.triggers[j].spec()
                        && (pre.triggers[j] is Cron ==> self@.triggers[j]->job_id is Some) && (
                    pre.triggers[j] !is Cron ==> self@.triggers[j] == pre.triggers[j]),
                forall|j: int| i <= j < n ==> #[trigger] self@.triggers[j] == pre.triggers[j],
                sched@.len() >= s0.len(),
                sched@.take(s0.len() as int) == s0,
                job_ids(sched@.skip(s0.len() as int)) == held_ids(self@.triggers.take(i as int)),
                job_exprs(sched@.skip(s0.len() as int)) == cron_exprs(pre.triggers.take(i as int)),
                forall|j: int| s0.len() <= j < sched@.len() ==> (#[trigger] sched@[j]).task == pre.id,
                due@ == d0 + runs_of(pre.id, at_once_count(pre.triggers.take(i as int))),
                log_grows(pre.log, self@.log, install_shapes(i as int, false)),
            decreases n - i,
        {
            let ghost cur = self@;
            let ghost s_cur = sched@;
            let ghost d_cur = due@;
            let start = system_now();
            let mut trigger = self.triggers.remove(i);
            let ghost t_pre = trigger.shape();
            assert(t_pre == pre.triggers[i as int]) by {
                assert(cur.triggers[i as int] == pre.triggers[i as int]);
            }
            let result = trigger.install(self.id, sched, due);
            let ghost t_post = trigger.shape();
            self.triggers.insert(i, trigger);
            let outcome: Outcome = match &result {
                Ok(_) => Ok(TaskResult::success()),
                Err(e) => Err(e.dup()),
            };
            self.context.record(EventType::TriggerInstall, start, outcome);
            proof {
                assert(self@.triggers =~= cur.triggers.update(i as int, t_post));
                assert(self@.log.drop_last() == cur.log);
                let m = pre.log.len() as int;
                assert(self@.log.take(m) =~= cur.log.take(m));
                assert forall|j: int| 0 <= j < i implies (#[trigger] self@.log[m + j]).type_
                    == installed_shape().type_ && self@.log[m + j].result
                    == installed_shape().result by {
                    assert(self@.log[m + j] == cur.log[m + j]);
                    assert(install_shapes(i as int, false)[j] == installed_shape());
                }
            }
            if result.is_err() {
                proof {
                    lemma_first_bad(pre.triggers, i as int);
                    assert(self@.triggers =~= cur.triggers);
                    assert(self@.triggers.take(i as int) =~= cur.triggers.take(i as int));
                    assert(log_grows(pre.log, self@.log, install_shapes(i as int, true))) by {
                        let m = pre.log.len() as int;
                        assert forall|j: int|
                            0 <= j < install_shapes(i as int, true).len() implies (
                        #[trigger] self@.log[m + j]).type_ == install_shapes(
                            i as int,
                            true,
                        )[j].type_ && self@.log[m + j].result == install_shapes(
                            i as int,
                            true,
                        )[j].result by {
                            if j < i {
                                assert(self@.log[m + j] == cur.log[m + j]);
                            } else {
                                assert(self@.log[m + j] == self@.log.last());
                            }
                        }
                    }
                }
                return result;
            }
            proof {
                assert(t_pre.installable());
                let next = i as int + 1;
                assert(self@.triggers.take(next).drop_last() =~= cur.triggers.take(i as int));
                assert(self@.triggers.take(next).last() == t_post);
                assert(pre.triggers.take(next).drop_last() =~= pre.triggers.take(i as int));
                assert(pre.triggers.take(next).last() == t_pre);
                let added = sched@.skip(s0.len() as int);
                let added_cur = s_cur.skip(s0.len() as int);
                if t_pre is Cron {
                    assert(sched@.drop_last() == s_cur);
                    assert forall|j: int| s0.len() <= j < sched@.len() implies (
                    #[trigger] sched@[j]).task == pre.id by {
                        if j < s_cur.len() {
                            assert(sched@[j] == sched@.drop_last()[j]);
                        }
                    }
                    assert(sched@.take(s0.len() as int) =~= s_cur.take(s0.len() as int));
                    assert(added =~= added_cur.push(sched@.last()));
                    assert(job_ids(added) =~= job_ids(added_cur).push(sched@.last().job_id));
                    assert(job_exprs(added) =~= job_exprs(added_cur).push(sched@.last().expr));
                    assert(due@ == d_cur);
                } else {
                    assert(sched@ == s_cur);
                    assert(due@ == d_cur.push(pre.id));
                    assert(due@ =~= d0 + runs_of(pre.id, at_once_count(pre.triggers.take(next))));
                }
                assert(log_grows(pre.log, self@.log, install_shapes(next, false))) by {
                    let m = pre.log.len() as int;
                    assert forall|j: int|
                        0 <= j < install_shapes(next, false).len() implies (
                    #[trigger] self@.log[m + j]).type_ == install_shapes(next, false)[j].type_
                        && self@.log[m + j].result == install_shapes(next, false)[j].result by {
                        if j < i {
                            assert(self@.log[m + j] == cur.log[m + j]);
                        } else {
                            assert(self@.log[m + j] == self@.log.last());
                        }
                    }
                }
            }
            i = i + 1;
        }
        self.state = TaskState::Activated;
        proof {
            lemma_first_bad(pre.triggers, n as int);
            assert(self@.triggers.take(n as int) =~= self@.triggers);
            assert(pre.triggers.take(n as int) =~= pre.triggers);
        }
        Ok(())
    }

    /// Uninstalls every trigger in order, records each uninstall as a
    /// `TriggerInstall` event, and leaves the task deactivated. A task that
    /// is deactivated already is left alone.
    pub fn deactivate(&mut self, sched: &mut CronScheduler)
        ensures
            deactivate_effect(old(self)@, final(self)@, old(sched)@, final(sched)@),
            old(self)@.wf() ==> final(self)@.wf(),
    {
        if !self.is_activated() {
            return ;
        }
        let ghost pre = self@;
        let ghost s0 = sched@;
        let n = self.triggers.len();
        let mut i: usize = 0;
        proof {
            assert(pre.triggers.take(0) =~= Seq::<TriggerView>::empty());
            assert(self@.log.take(pre.log.len() as int) =~= pre.log);
        }
        while i < n
            invariant
                i <= n,
                n == pre.triggers.len(),
                pre.activated,
                pre == old(self)@,
                s0 == old(sched)@,
                self@.id == pre.id,
                self@.spec == pre.spec,
                self@.body == pre.body,
                self@.started == pre.started,
                self@.waiting == pre.waiting,
                self@.activated,
                self@.triggers.len() == n,
                forall|j: int| 0 <= j < i ==> #[trigger] self@.triggers[j] == pre.triggers[j].released(),
                forall|j: int| i <= j < n ==> #[trigger] self@.triggers[j] == pre.triggers[j],
                sched@ == strip(s0, held_ids(pre.triggers.take(i as int))),
                log_grows(pre.log, self@.log, uninstall_shapes(i as int)),
            decreases n - i,
        {
            let ghost cur = self@;
            let ghost s_cur = sched@;
            let start = system_now();
            let mut trigger = self.triggers.remove(i);
            let ghost t_pre = trigger.shape();
            assert(t_pre == pre.triggers[i as int]) by {
                assert(cur.triggers[i as int] == pre.triggers[i as int]);
            }
            trigger.uninstall(sched);
            let ghost t_post = trigger.shape();
            self.triggers.insert(i, trigger);
            self.context.record(EventType::TriggerInstall, start, Ok(TaskResult::success()));
            proof {
                let next = i as int + 1;
                assert(self@.triggers =~= cur.triggers.update(i as int, t_post));
                assert(pre.triggers.take(next).drop_last() =~= pre.triggers.take(i as int));
                assert(pre.triggers.take(next).last() == t_pre);
                let ids = held_ids(pre.triggers.take(i as int));
                match t_pre {
                    TriggerView::Cron { expr, job_id: Some(id) } => {
                        assert(held_ids(pre.triggers.take(next)) == ids.push(id));
                        assert(ids.push(id).drop_last() =~= ids);
                    },
                    _ => {},
                }
                assert(log_grows(pre.log, self@.log, uninstall_shapes(next))) by {
                    let m = pre.log.len() as int;
                    assert(self@.log.drop_last() == cur.log);
                    assert(self@.log.take(m) =~= cur.log.take(m));
                    assert forall|j: int| 0 <= j < next implies (#[trigger] self@.log[m + j]).type_
                        == uninstall_shapes(next)[j].type_ && self@.log[m + j].result
                        == uninstall_shapes(next)[j].result by {
                        if j < i {
                            assert(self@.log[m + j] == cur.log[m + j]);
                            assert(uninstall_shapes(i as int)[j] == installed_shape());
                        } else {
                            assert(self@.log[m + j] == self@.log.last());
                        }
                    }
                }
            }
            i = i + 1;
        }
        self.state = TaskState::Deactivated;
        proof {
            assert(pre.triggers.take(n as int) =~= pre.triggers);
            assert(self@.triggers =~= released_triggers(pre.triggers));
        }
    }

    /// Activates the task; where that fails, the error is dropped and the
    /// task stays deactivated.
    pub fn try_activate(&mut self, sched: &mut CronScheduler, due: &mut Vec<u128>)
        ensures
            activate_effect(
                old(self)@,
                final(self)@,
                old(sched)@,
                final(sched)@,
                old(due)@,
                final(due)@,
            ),
            old(self)@.wf() ==> final(self)@.wf(),
    {
        let _ = self.activate(sched, due);
    }

    /// Reconfigures the task in place. Where the body or the triggers
    /// differ from the current ones, the task is deactivated and they are
    /// rebuilt from `spec`. The description is replaced in any case, and the
    /// task is activated again.
    pub fn update(&mut self, spec: TaskSpec, sched: &mut CronScheduler, due: &mut Vec<u128>)
        requires
            old(self)@.wf(),
        ensures
            update_effect(
                old(self)@,
                final(self)@,
                spec@,
                old(sched)@,
                final(sched)@,
                old(due)@,
                final(due)@,
            ),
            final(self)@.wf(),
    {
        let body_changed = !self.spec.task.same_as(&spec.task);
        let triggers_changed = !crate::message::same_triggers(&self.spec.triggers, &spec.triggers);
        let ghost pre = self@;
        let ghost mid = self@;
        let ghost smid = sched@;
        if body_changed {
            let task = AsyncTask::make(&spec.task);
            self.deactivate(sched);
            proof {
                mid = self@;
                smid = sched@;
            }
            self.context.task = task;
        }
        if triggers_changed {
            let mut new_triggers: Vec<Trigger> = Vec::new();
            let mut i: usize = 0;
            while i < spec.triggers.len()
                invariant
                    i <= spec.triggers.len(),
                    new_triggers@.len() == i,
                    forall|j: int|
                        0 <= j < i ==> (#[trigger] new_triggers@[j]).shape() == TriggerView::fresh(
                            spec.triggers@[j]@,
                        ),
                decreases spec.triggers.len() - i,
            {
                new_triggers.push(Trigger::make(&spec.triggers[i]));
                i = i + 1;
            }
            self.deactivate(sched);
            proof {
                mid = (TaskView { body: pre.body, ..self@ });
                smid = sched@;
            }
            self.triggers = new_triggers;
            assert(self@.triggers =~= fresh_triggers(spec@.triggers));
        }
        self.spec = spec;
        proof {
            if body_changed || triggers_changed {
                assert(deactivate_effect(pre, mid, old(sched)@, smid));
            } else {
                assert(mid == pre);
            }
            assert(self@ == respecified(mid, spec@, triggers_changed));
            assert(self@.wf()) by {
                if !triggers_changed {
                    assert forall|i: int| 0 <= i < self@.triggers.len() implies (
                    #[trigger] self@.triggers[i]).spec() == self@.spec.triggers[i] by {
                        assert(pre.triggers[i].spec() == pre.spec.triggers[i]);
                        assert(pre.triggers[i].released().spec() == pre.triggers[i].spec());
                    }
                }
            }
        }
        self.try_activate(sched, due);
        assert(update_steps(
            pre,
            mid,
            self@,
            spec@,
            old(sched)@,
            smid,
            sched@,
            old(due)@,
            due@,
        ));
    }
}

} // verus!
