//! The task manager: the live task set, the scheduler its cron triggers
//! register with, and the runs that are due.
//!
//! `reload` converges the live set to a desired one: tasks that are no
//! longer wanted are deactivated and dropped, tasks that stay are updated in
//! place, and new ones are created and activated. A task whose body and
//! triggers did not change is not torn down.

use crate::job::AsyncTask;
use crate::message::{
    event_views, outcome_view, Event, EventType, EventView, Outcome, TaskError, TaskSpec,
    TaskSpecView, Timestamp,
};
use crate::scheduler::{runs_due, ticked_jobs, CronScheduler, JobView};
use crate::task::{
    activate_effect, deactivate_effect, first_bad, fresh_triggers, lemma_first_bad,
    lemma_first_bad_is_first, respecified, update_effect, update_steps, Task, TaskView,
};
use std::collections::HashMap;
use tokio::task::{JoinError, JoinHandle};
use vstd::prelude::*;
use vstd::std_specs::iter::IteratorSpec;

verus! {

broadcast use vstd::std_specs::hash::group_hash_axioms;

/// `tokio::task::JoinError`: why a spawned task did not run to its end.
/// Nothing is known of a value.
#[verifier::external_type_specification]
#[verifier::external_body]
pub struct ExJoinError(JoinError);

/// `tokio::task::JoinHandle`: the handle of a spawned task. Nothing is
/// known of a value; the manager only keeps one and hands it back.
#[verifier::external_type_specification]
#[verifier::external_body]
#[verifier::reject_recursive_types(T)]
pub struct ExJoinHandle<T>(JoinHandle<T>);

/// The keys of `m`, each once, in the order the map walks them.
pub fn keys_of<V>(m: &HashMap<u128, V>) -> (r: Vec<u128>)
    ensures
        r@.no_duplicates(),
        r@.to_set() == m@.dom(),
{
    let mut r: Vec<u128> = Vec::new();
    let ghost all = m.keys().remaining().unref();
    for k in it: m.keys()
        invariant
            r@ == it.seq().take(it.index() as int).unref(),
            it.seq().unref() == all,
            it.index() <= it.seq().len(),
    {
        r.push(*k);
    }
    assert(r@ =~= all);
    r
}

/// What a manager is in contracts.
pub struct ManagerView {
    pub tasks: Map<u128, TaskView>,
    pub jobs: Seq<JobView>,
    pub due: Seq<u128>,
    /// Whether a tick driver is registered.
    pub ticking: bool,
}

/// The view of each task of `m`.
pub open spec fn task_views(m: Map<u128, Task>) -> Map<u128, TaskView> {
    Map::new(|id: u128| m.contains_key(id), |id: u128| m[id]@)
}

/// The view of each description of `m`.
pub open spec fn spec_views(m: Map<u128, TaskSpec>) -> Map<u128, TaskSpecView> {
    Map::new(|id: u128| m.contains_key(id), |id: u128| m[id]@)
}

/// The events of each list of `m`.
pub open spec fn log_views(m: Map<u128, Vec<Event>>) -> Map<u128, Seq<EventView>> {
    Map::new(|id: u128| m.contains_key(id), |id: u128| event_views(m[id]@))
}

/// Whether every install of a task with the description `spec` succeeds.
pub open spec fn installable(spec: TaskSpecView) -> bool {
    first_bad(fresh_triggers(spec.triggers)) == spec.triggers.len()
}

/// How `reload` leaves a task that stays in the set: it is what an update
/// to `spec` makes of `pre`, against some state of the scheduler.
pub open spec fn kept(pre: TaskView, spec: TaskSpecView, post: TaskView) -> bool {
    exists|s0: Seq<JobView>, s1: Seq<JobView>, d0: Seq<u128>, d1: Seq<u128>| #[trigger]
        update_effect(pre, post, spec, s0, s1, d0, d1)
}

/// How `reload` leaves a task that is new to the set: it is what an
/// activation makes of a task created for `spec`, against some state of the
/// scheduler.
pub open spec fn made(id: u128, spec: TaskSpecView, post: TaskView) -> bool {
    exists|s0: Seq<JobView>, s1: Seq<JobView>, d0: Seq<u128>, d1: Seq<u128>| #[trigger]
        activate_effect(TaskView::created(id, spec), post, s0, s1, d0, d1)
}

/// Whether `specs` asks for nothing to be rebuilt: the same tasks as are
/// live, each activated, with the body and triggers it has.
pub open spec fn settled(pre: ManagerView, specs: Map<u128, TaskSpecView>) -> bool {
    &&& pre.tasks.dom() == specs.dom()
    &&& forall|id: u128| #[trigger]
        specs.contains_key(id) ==> pre.tasks[id].activated && pre.tasks[id].spec.task
            == specs[id].task && pre.tasks[id].spec.triggers == specs[id].triggers
}

impl ManagerView {
    /// The manager after a tick at time `now`, on a clock that is `offset`
    /// seconds ahead of UTC.
    pub open spec fn ticked(self, offset: i32, now: i64) -> ManagerView {
        ManagerView {
            jobs: ticked_jobs(self.jobs, offset, now),
            due: self.due + runs_due(self.jobs, offset, now),
            ..self
        }
    }

    /// Every task is well formed and stands under its own identifier.
    pub open spec fn wf(self) -> bool {
        forall|id: u128| #[trigger]
            self.tasks.contains_key(id) ==> self.tasks[id].wf() && self.tasks[id].id == id
    }
}

/// What `reload` with the desired set `specs` does to a manager.
///
/// The live set becomes the desired set. A task that was live is updated in
/// place, a new one is created and activated. No run that was due is lost.
/// Where nothing is to be rebuilt, the scheduler and the runs that are due
/// are left as they were.
pub open spec fn reload_effect(
    pre: ManagerView,
    specs: Map<u128, TaskSpecView>,
    post: ManagerView,
) -> bool {
    &&& post.tasks.dom() == specs.dom()
    &&& forall|id: u128| #[trigger]
        specs.contains_key(id) ==> if pre.tasks.contains_key(id) {
            kept(pre.tasks[id], specs[id], post.tasks[id])
        } else {
            made(id, specs[id], post.tasks[id])
        }
    &&& post.due.len() >= pre.due.len()
    &&& post.due.take(pre.due.len() as int) == pre.due
    &&& post.ticking == pre.ticking
    &&& settled(pre, specs) ==> post.jobs == pre.jobs && post.due == pre.due
}

/// One removal of a reload: the task `id` is deactivated against the
/// scheduler and dropped from the live set.
pub open spec fn drop_step(pre: ManagerView, id: u128, post: ManagerView) -> bool {
    &&& pre.tasks.contains_key(id)
    &&& exists|gone: TaskView| #[trigger]
        deactivate_effect(pre.tasks[id], gone, pre.jobs, post.jobs)
    &&& post.tasks == pre.tasks.remove(id)
    &&& post.due == pre.due
    &&& post.ticking == pre.ticking
}

/// One upsert of a reload: the task `id` is updated to `spec` in place where
/// it is live, and created and activated where it is not.
pub open spec fn upsert_step(pre: ManagerView, id: u128, spec: TaskSpecView, post: ManagerView) -> bool {
    &&& post.tasks.contains_key(id)
    &&& post.tasks == pre.tasks.insert(id, post.tasks[id])
    &&& post.ticking == pre.ticking
    &&& if pre.tasks.contains_key(id) {
        update_effect(pre.tasks[id], post.tasks[id], spec, pre.jobs, post.jobs, pre.due, post.due)
    } else {
        activate_effect(
            TaskView::created(id, spec),
            post.tasks[id],
            pre.jobs,
            post.jobs,
            pre.due,
            post.due,
        )
    }
}

/// A run of `reload` step by step. First each live task that `specs` does
/// not name is dropped, each once, in the order `dropped`. Then each task of
/// `specs` is upserted, each once, in the order `upserted`. `states` holds
/// the manager before the first step and after every step.
pub open spec fn reload_trace(
    pre: ManagerView,
    specs: Map<u128, TaskSpecView>,
    post: ManagerView,
    dropped: Seq<u128>,
    upserted: Seq<u128>,
    states: Seq<ManagerView>,
) -> bool {
    &&& dropped.no_duplicates()
    &&& forall|id: u128|
        dropped.contains(id) <==> pre.tasks.contains_key(id) && !specs.contains_key(id)
    &&& upserted.no_duplicates()
    &&& forall|id: u128| upserted.contains(id) <==> specs.contains_key(id)
    &&& states.len() == dropped.len() + upserted.len() + 1
    &&& states[0] == pre
    &&& states.last() == post
    &&& forall|i: int|
        0 <= i < dropped.len() ==> drop_step(states[i], #[trigger] dropped[i], states[i + 1])
    &&& forall|i: int|
        0 <= i < upserted.len() ==> upsert_step(
            states[dropped.len() + i],
            #[trigger] upserted[i],
            specs[upserted[i]],
            states[dropped.len() + i + 1],
        )
}

/// What `reload` does, step by step: removals first, then upserts, each in
/// some order.
pub open spec fn reload_steps(
    pre: ManagerView,
    specs: Map<u128, TaskSpecView>,
    post: ManagerView,
) -> bool {
    exists|dropped: Seq<u128>, upserted: Seq<u128>, states: Seq<ManagerView>| #[trigger]
        reload_trace(pre, specs, post, dropped, upserted, states)
}

/// An update that changes neither body nor triggers of an activated task
/// replaces its description and touches nothing else.
pub proof fn lemma_update_settled(
    pre: TaskView,
    post: TaskView,
    spec: TaskSpecView,
    s0: Seq<JobView>,
    s1: Seq<JobView>,
    d0: Seq<u128>,
    d1: Seq<u128>,
)
    requires
        pre.wf(),
        update_effect(pre, post, spec, s0, s1, d0, d1),
        pre.activated,
        pre.spec.task == spec.task,
        pre.spec.triggers == spec.triggers,
    ensures
        post == (TaskView { spec, ..pre }),
        s1 == s0,
        d1 == d0,
{
    let (mid, smid) = choose|mid: TaskView, smid: Seq<JobView>| #[trigger]
        update_steps(pre, mid, post, spec, s0, smid, s1, d0, d1);
    assert(respecified(mid, spec, false) == (TaskView { spec, ..pre }));
}

/// After an update the task has the new description and the body it names,
/// keeps its identifier and every event it had recorded, and is activated
/// where every install of the new description succeeds.
pub proof fn lemma_update_summary(
    pre: TaskView,
    post: TaskView,
    spec: TaskSpecView,
    s0: Seq<JobView>,
    s1: Seq<JobView>,
    d0: Seq<u128>,
    d1: Seq<u128>,
)
    requires
        pre.wf(),
        update_effect(pre, post, spec, s0, s1, d0, d1),
    ensures
        post.id == pre.id,
        post.spec == spec,
        post.body == spec.task,
        post.log.len() >= pre.log.len(),
        post.log.take(pre.log.len() as int) == pre.log,
        installable(spec) ==> post.activated,
        d1.len() >= d0.len(),
        d1.take(d0.len() as int) == d0,
{
    let (mid, smid) = choose|mid: TaskView, smid: Seq<JobView>| #[trigger]
        update_steps(pre, mid, post, spec, s0, smid, s1, d0, d1);
    let triggers_changed = pre.spec.triggers != spec.triggers;
    let re = respecified(mid, spec, triggers_changed);
    assert(mid.log.len() >= pre.log.len() && mid.log.take(pre.log.len() as int) == pre.log) by {
        assert(pre.log.take(pre.log.len() as int) =~= pre.log);
    }
    assert(post.log.len() >= re.log.len() && post.log.take(re.log.len() as int) == re.log) by {
        assert(re.log.take(re.log.len() as int) =~= re.log);
    }
    assert(post.log.take(pre.log.len() as int) =~= post.log.take(mid.log.len() as int).take(
        pre.log.len() as int,
    ));
    assert(d0.take(d0.len() as int) =~= d0);
    assert(d1.take(d0.len() as int) =~= d0);
    if installable(spec) && !re.activated {
        let fresh = fresh_triggers(spec.triggers);
        lemma_first_bad_is_first(fresh);
        assert(re.triggers.len() == spec.triggers.len());
        assert forall|j: int| 0 <= j < re.triggers.len() implies (
        #[trigger] re.triggers[j]).installable() by {
            assert(fresh[j].installable());
            if triggers_changed {
            } else {
                assert(pre.triggers[j].spec() == pre.spec.triggers[j]);
                assert(mid.triggers[j].spec() == pre.triggers[j].spec());
                assert(fresh[j].spec() == spec.triggers[j]);
            }
        }
        lemma_first_bad(re.triggers, re.triggers.len() as int);
    }
}

/// After the activation of a new task, the task has its description, is
/// activated where every install succeeds, and no run that was due is lost.
pub proof fn lemma_made_summary(
    id: u128,
    post: TaskView,
    spec: TaskSpecView,
    s0: Seq<JobView>,
    s1: Seq<JobView>,
    d0: Seq<u128>,
    d1: Seq<u128>,
)
    requires
        activate_effect(TaskView::created(id, spec), post, s0, s1, d0, d1),
    ensures
        post.id == id,
        post.spec == spec,
        post.body == spec.task,
        installable(spec) ==> post.activated,
        d1.len() >= d0.len(),
        d1.take(d0.len() as int) == d0,
{
    assert(d1.take(d0.len() as int) =~= d0);
}

/// Reconcile idempotence. Where every install of the desired set succeeds,
/// a second reload with the same set changes nothing: the tasks, the
/// scheduler's jobs and the runs that are due are what the first reload
/// left.
pub proof fn lemma_reload_twice(
    m0: ManagerView,
    m1: ManagerView,
    m2: ManagerView,
    specs: Map<u128, TaskSpecView>,
)
    requires
        m0.wf(),
        m1.wf(),
        reload_effect(m0, specs, m1),
        reload_effect(m1, specs, m2),
        forall|id: u128| #[trigger] specs.contains_key(id) ==> installable(specs[id]),
    ensures
        m2 == m1,
        m2.jobs.len() == m1.jobs.len(),
{
    assert forall|id: u128| #[trigger] specs.contains_key(id) implies m1.tasks[id].activated
        && m1.tasks[id].spec == specs[id] by {
        lemma_reload_task(m0, specs, m1, id);
    }
    assert(settled(m1, specs));
    assert forall|id: u128| #[trigger] specs.contains_key(id) implies m2.tasks[id]
        == m1.tasks[id] by {
        assert(m1.tasks.contains_key(id));
        let (s0, s1, d0, d1) = choose|
            s0: Seq<JobView>,
            s1: Seq<JobView>,
            d0: Seq<u128>,
            d1: Seq<u128>,
        | #[trigger] update_effect(m1.tasks[id], m2.tasks[id], specs[id], s0, s1, d0, d1);
        lemma_update_settled(m1.tasks[id], m2.tasks[id], specs[id], s0, s1, d0, d1);
    }
    assert(m2.tasks =~= m1.tasks);
}

/// After a reload, each task of the desired set is live with its
/// description and the body it names, under its own identifier, and is
/// activated where every install succeeds.
pub proof fn lemma_reload_task(
    m0: ManagerView,
    specs: Map<u128, TaskSpecView>,
    m1: ManagerView,
    id: u128,
)
    requires
        m0.wf(),
        reload_effect(m0, specs, m1),
        specs.contains_key(id),
    ensures
        m1.tasks.contains_key(id),
        m1.tasks[id].id == id,
        m1.tasks[id].spec == specs[id],
        m1.tasks[id].body == specs[id].task,
        installable(specs[id]) ==> m1.tasks[id].activated,
{
    if m0.tasks.contains_key(id) {
        let (s0, s1, d0, d1) = choose|
            s0: Seq<JobView>,
            s1: Seq<JobView>,
            d0: Seq<u128>,
            d1: Seq<u128>,
        | #[trigger] update_effect(m0.tasks[id], m1.tasks[id], specs[id], s0, s1, d0, d1);
        lemma_update_summary(m0.tasks[id], m1.tasks[id], specs[id], s0, s1, d0, d1);
    } else {
        let (s0, s1, d0, d1) = choose|
            s0: Seq<JobView>,
            s1: Seq<JobView>,
            d0: Seq<u128>,
            d1: Seq<u128>,
        | #[trigger]
            activate_effect(TaskView::created(id, specs[id]), m1.tasks[id], s0, s1, d0, d1);
        lemma_made_summary(id, m1.tasks[id], specs[id], s0, s1, d0, d1);
    }
}

/// Reconcile diff. After a reload with `specs1` and then one with `specs2`,
/// the live tasks are those of `specs2`. A task that is in both sets with
/// the same description is the task it was: it keeps every event it had
/// recorded, and where it was activated it is left exactly as it was.
pub proof fn lemma_reload_diff(
    m0: ManagerView,
    m1: ManagerView,
    m2: ManagerView,
    specs1: Map<u128, TaskSpecView>,
    specs2: Map<u128, TaskSpecView>,
)
    requires
        m0.wf(),
        m1.wf(),
        reload_effect(m0, specs1, m1),
        reload_effect(m1, specs2, m2),
    ensures
        m2.tasks.dom() == specs2.dom(),
        forall|id: u128|
            specs1.contains_key(id) && #[trigger] specs2.contains_key(id) && specs1[id]
                == specs2[id] ==> {
                &&& m2.tasks[id].id == m1.tasks[id].id
                &&& m2.tasks[id].spec == m1.tasks[id].spec
                &&& m2.tasks[id].body == m1.tasks[id].body
                &&& m2.tasks[id].log.len() >= m1.tasks[id].log.len()
                &&& m2.tasks[id].log.take(m1.tasks[id].log.len() as int) == m1.tasks[id].log
                &&& m1.tasks[id].activated ==> m2.tasks[id] == m1.tasks[id]
            },
{
    assert forall|id: u128|
        specs1.contains_key(id) && #[trigger] specs2.contains_key(id) && specs1[id]
            == specs2[id] implies {
        &&& m2.tasks[id].id == m1.tasks[id].id
        &&& m2.tasks[id].spec == m1.tasks[id].spec
        &&& m2.tasks[id].body == m1.tasks[id].body
        &&& m2.tasks[id].log.len() >= m1.tasks[id].log.len()
        &&& m2.tasks[id].log.take(m1.tasks[id].log.len() as int) == m1.tasks[id].log
        &&& m1.tasks[id].activated ==> m2.tasks[id] == m1.tasks[id]
    } by {
        lemma_reload_task(m0, specs1, m1, id);
        assert(m1.tasks.contains_key(id));
        let (s0, s1, d0, d1) = choose|
            s0: Seq<JobView>,
            s1: Seq<JobView>,
            d0: Seq<u128>,
            d1: Seq<u128>,
        | #[trigger] update_effect(m1.tasks[id], m2.tasks[id], specs2[id], s0, s1, d0, d1);
        lemma_update_summary(m1.tasks[id], m2.tasks[id], specs2[id], s0, s1, d0, d1);
        if m1.tasks[id].activated {
            lemma_update_settled(m1.tasks[id], m2.tasks[id], specs2[id], s0, s1, d0, d1);
        }
    }
}

/// The live task set with its scheduler.
pub struct TaskManager {
    cron: CronScheduler,
    crond: Option<JoinHandle<()>>,
    tasks: HashMap<u128, Task>,
    due: Vec<u128>,
}

impl View for TaskManager {
    type V = ManagerView;

    closed spec fn view(&self) -> ManagerView {
        ManagerView {
            tasks: task_views(self.tasks@),
            jobs: self.cron@,
            due: self.due@,
            ticking: self.crond is Some,
        }
    }
}

impl TaskManager {
    /// A manager with no task, no job and no run due.
    pub fn new() -> (r: TaskManager)
        ensures
            r@.tasks == Map::<u128, TaskView>::empty(),
            r@.jobs == Seq::<JobView>::empty(),
            r@.due == Seq::<u128>::empty(),
            !r@.ticking,
            r@.wf(),
    {
        let r = TaskManager {
            cron: CronScheduler::new(),
            crond: None,
            tasks: HashMap::new(),
            due: Vec::new(),
        };
        assert(r@.tasks =~= Map::<u128, TaskView>::empty());
        r
    }

    /// Registers `handle` as the handle of the tick driver, which the host
    /// has started. Returns the handle that was registered before, if there
    /// was one: its driver is not stopped.
    pub fn start_tick(&mut self, handle: JoinHandle<()>) -> (replaced: Option<JoinHandle<()>>)
        ensures
            replaced is Some == old(self)@.ticking,
            final(self)@ == (ManagerView { ticking: true, ..old(self)@ }),
    {
        let mut slot = Some(handle);
        std::mem::swap(&mut self.crond, &mut slot);
        slot
    }

    /// Hands out the tick driver's handle, for the host to abort the driver
    /// and wait for its end; `None` where no driver is registered.
    pub fn stop_tick(&mut self) -> (handle: Option<JoinHandle<()>>)
        ensures
            handle is Some == old(self)@.ticking,
            final(self)@ == (ManagerView { ticking: false, ..old(self)@ }),
    {
        self.crond.take()
    }

    /// The number of live tasks.
    pub fn task_count(&self) -> (n: usize)
        ensures
            n == self@.tasks.dom().len(),
    {
        assert(self@.tasks.dom() =~= self.tasks@.dom());
        self.tasks.len()
    }

    /// The number of jobs registered with the scheduler.
    pub fn job_count(&self) -> (n: usize)
        ensures
            n == self@.jobs.len(),
    {
        self.cron.job_count()
    }

    /// Whether the task `id` is live.
    pub fn contains(&self, id: u128) -> (r: bool)
        ensures
            r == self@.tasks.contains_key(id),
    {
        self.tasks.contains_key(&id)
    }

    /// Whether the task `id` is live and activated.
    pub fn is_activated(&self, id: u128) -> (r: bool)
        ensures
            r == (self@.tasks.contains_key(id) && self@.tasks[id].activated),
    {
        match self.tasks.get(&id) {
            Some(task) => task.is_activated(),
            None => false,
        }
    }

    /// Takes one firing of the task `id`. Where the task is live and none of
    /// its runs is under way, a run begins and the body is handed out for
    /// the host to run. Where a run is under way, the firing waits. Where
    /// the task is not live, nothing changes.
    pub fn begin_run(&mut self, id: u128) -> (body: Option<AsyncTask>)
        ensures
            body is Some == (old(self)@.tasks.contains_key(id) && old(self)@.tasks[id].started
                is None),
            body is Some ==> body.unwrap()@ == old(self)@.tasks[id].body,
            !old(self)@.tasks.contains_key(id) ==> final(self)@ == old(self)@,
            old(self)@.tasks.contains_key(id) ==> {
                let before = old(self)@.tasks[id];
                let after = final(self)@.tasks[id];
                &&& final(self)@ == (ManagerView {
                    tasks: old(self)@.tasks.insert(id, after),
                    ..old(self)@
                })
                &&& after == (TaskView { started: after.started, waiting: after.waiting, ..before })
                &&& after.started is Some
                &&& before.started is Some ==> after.started == before.started
                &&& after.waiting == if before.started is None || before.waiting == usize::MAX {
                    before.waiting
                } else {
                    before.waiting + 1
                }
            },
            old(self)@.wf() ==> final(self)@.wf(),
    {
        match self.tasks.remove(&id) {
            Some(mut task) => {
                let body = task.begin_run();
                let ghost after = task@;
                self.tasks.insert(id, task);
                assert(self@.tasks =~= old(self)@.tasks.insert(id, after));
                body
            },
            None => {
                assert(self@.tasks =~= old(self)@.tasks);
                None
            },
        }
    }

    /// Ends the run of the task `id` that is under way: records it with
    /// `result` as the task's newest event. Where a firing of the task
    /// waits, its run begins and the body is handed out for the host to run.
    /// Where the task is not live, nothing changes.
    pub fn finish_run(&mut self, id: u128, result: Outcome) -> (next: Option<AsyncTask>)
        ensures
            next is Some == (old(self)@.tasks.contains_key(id) && old(self)@.tasks[id].waiting > 0),
            next is Some ==> next.unwrap()@ == old(self)@.tasks[id].body,
            !old(self)@.tasks.contains_key(id) ==> final(self)@ == old(self)@,
            old(self)@.tasks.contains_key(id) ==> {
                let before = old(self)@.tasks[id];
                let after = final(self)@.tasks[id];
                &&& final(self)@ == (ManagerView {
                    tasks: old(self)@.tasks.insert(id, after),
                    ..old(self)@
                })
                &&& after == (TaskView {
                    log: after.log,
                    started: after.started,
                    waiting: after.waiting,
                    ..before
                })
                &&& after.log.len() == before.log.len() + 1
                &&& after.log.drop_last() == before.log
                &&& after.log.last().type_ == EventType::Run
                &&& before.started is Some ==> after.log.last().start == before.started.unwrap()
                &&& after.log.last().result == outcome_view(result)
                &&& (after.started is Some) == (before.waiting > 0)
                &&& after.waiting == if before.waiting > 0 {
                    before.waiting - 1
                } else {
                    0
                }
            },
            old(self)@.wf() ==> final(self)@.wf(),
    {
        match self.tasks.remove(&id) {
            Some(mut task) => {
                let next = task.finish_run(result);
                let ghost after = task@;
                self.tasks.insert(id, task);
                assert(self@.tasks =~= old(self)@.tasks.insert(id, after));
                next
            },
            None => {
                assert(self@.tasks =~= old(self)@.tasks);
                None
            },
        }
    }

    /// Drains every task's event log. The result maps each live task to the
    /// events it had recorded, oldest first; every log is left empty.
    pub fn export_log(&mut self) -> (res: HashMap<u128, Vec<Event>>)
        ensures
            log_views(res@).dom() == old(self)@.tasks.dom(),
            forall|id: u128| #[trigger]
                old(self)@.tasks.contains_key(id) ==> log_views(res@)[id] == old(
                    self,
                )@.tasks[id].log,
            final(self)@.tasks.dom() == old(self)@.tasks.dom(),
            forall|id: u128| #[trigger]
                old(self)@.tasks.contains_key(id) ==> final(self)@.tasks[id] == (TaskView {
                    log: Seq::empty(),
                    ..old(self)@.tasks[id]
                }),
            final(self)@.jobs == old(self)@.jobs,
            final(self)@.due == old(self)@.due,
            final(self)@.ticking == old(self)@.ticking,
            old(self)@.wf() ==> final(self)@.wf(),
    {
        let mut res: HashMap<u128, Vec<Event>> = HashMap::new();
        let ghost pre = self@;
        let ids = keys_of(&self.tasks);
        assert(pre.tasks.dom() =~= self.tasks@.dom());
        let mut i: usize = 0;
        while i < ids.len()
            invariant
                i <= ids.len(),
                pre == old(self)@,
                ids@.no_duplicates(),
                ids@.to_set() == pre.tasks.dom(),
                self@.jobs == pre.jobs,
                self@.due == pre.due,
                self@.ticking == pre.ticking,
                self@.tasks.dom() == pre.tasks.dom(),
                forall|k: u128| #[trigger] res@.contains_key(k) ==> pre.tasks.contains_key(k),
                forall|j: int| 0 <= j < i ==> res@.contains_key(#[trigger] ids@[j]),
                forall|j: int|
                    0 <= j < i ==> event_views((#[trigger] res@[ids@[j]])@)
                        == pre.tasks[ids@[j]].log,
                forall|j: int|
                    0 <= j < i ==> #[trigger] self@.tasks[ids@[j]] == (TaskView {
                        log: Seq::empty(),
                        ..pre.tasks[ids@[j]]
                    }),
                forall|j: int|
                    i <= j < ids.len() ==> #[trigger] self@.tasks[ids@[j]] == pre.tasks[ids@[j]],
            decreases ids.len() - i,
        {
            let id = ids[i];
            let ghost tv = self@.tasks;
            let ghost res_before = res@;
            assert(ids@.to_set().contains(id));
            assert(tv.contains_key(id));
            match self.tasks.remove(&id) {
                Some(mut task) => {
                    assert(task@ == tv[id]);
                    let events = task.export_log();
                    let ghost after = task@;
                    self.tasks.insert(id, task);
                    res.insert(id, events);
                    assert(self@.tasks =~= tv.insert(id, after));
                },
                None => {
                    assert(false);
                },
            }
            proof {
                assert forall|j: int| 0 <= j < i implies res@.contains_key(#[trigger] ids@[j])
                    && event_views(res@[ids@[j]]@) == pre.tasks[ids@[j]].log && self@.tasks[ids@[j]]
                    == tv[ids@[j]] by {
                    assert(ids@[j] != id);
                    assert(res@[ids@[j]] == res_before[ids@[j]]);
                }
                assert forall|j: int| i < j < ids.len() implies #[trigger] self@.tasks[ids@[j]]
                    == pre.tasks[ids@[j]] by {
                    assert(ids@[j] != id);
                }
            }
            i = i + 1;
        }
        proof {
            assert forall|id: u128| #[trigger] pre.tasks.contains_key(id) implies res@.contains_key(
                id,
            ) && log_views(res@)[id] == pre.tasks[id].log && self@.tasks[id] == (TaskView {
                log: Seq::empty(),
                ..pre.tasks[id]
            }) by {
                assert(ids@.to_set().contains(id));
                let j = choose|j: int| 0 <= j < ids@.len() && ids@[j] == id;
                assert(res@.contains_key(ids@[j]));
                assert(event_views(res@[ids@[j]]@) == pre.tasks[ids@[j]].log);
                assert(self@.tasks[ids@[j]] == (TaskView {
                    log: Seq::empty(),
                    ..pre.tasks[ids@[j]]
                }));
            }
            assert(log_views(res@).dom() =~= pre.tasks.dom());
        }
        res
    }

    /// Advances the scheduler to the time `now`, on a clock that is `offset`
    /// seconds ahead of UTC: every job takes the firings that are due to it,
    /// and the runs they owe become due after those that were due already,
    /// in the order of the jobs. Tasks are not touched.
    pub fn tick_at(&mut self, now: i64, offset: i32)
        ensures
            final(self)@ == old(self)@.ticked(offset, now),
    {
        self.cron.tick_at(now, offset, &mut self.due)
    }

    /// Advances the scheduler to the present by the local clock: what
    /// `tick_at` does at the instant and offset that the clock gives.
    pub fn tick(&mut self)
        ensures
            exists|now: i64, offset: i32| final(self)@ == #[trigger] old(self)@.ticked(offset, now),
    {
        self.cron.tick(&mut self.due);
        proof {
            let (now, offset) = choose|now: i64, offset: i32|
                self.cron@ == #[trigger] ticked_jobs(old(self).cron@, offset, now) && self.due@
                    == old(self).due@ + runs_due(old(self).cron@, offset, now);
            assert(self@ == old(self)@.ticked(offset, now));
        }
    }

    /// Hands out the runs that are due, oldest first, and leaves none due.
    /// Each entry is the identifier of a task that is owed one run.
    pub fn take_due(&mut self) -> (runs: Vec<u128>)
        ensures
            runs@ == old(self)@.due,
            final(self)@ == (ManagerView { due: Seq::empty(), ..old(self)@ }),
    {
        let mut runs: Vec<u128> = Vec::new();
        std::mem::swap(&mut runs, &mut self.due);
        runs
    }

    /// Creates a task for `task_spec` under `id`, activates it where it can,
    /// and puts it into the live set; a task that stood under `id` is
    /// replaced.
    pub fn add_task(&mut self, id: u128, task_spec: TaskSpec)
        ensures
            final(self)@.tasks.dom() == old(self)@.tasks.dom().insert(id),
            final(self)@.tasks == old(self)@.tasks.insert(id, final(self)@.tasks[id]),
            final(self)@.ticking == old(self)@.ticking,
            activate_effect(
                TaskView::created(id, task_spec@),
                final(self)@.tasks[id],
                old(self)@.jobs,
                final(self)@.jobs,
                old(self)@.due,
                final(self)@.due,
            ),
            old(self)@.wf() ==> final(self)@.wf(),
    {
        let mut task = Task::new(id, task_spec);
        task.try_activate(&mut self.cron, &mut self.due);
        let ghost after = task@;
        self.tasks.insert(id, task);
        assert(self@.tasks =~= old(self)@.tasks.insert(id, after));
    }

    /// Converges the live set to `specs`: tasks that `specs` does not name
    /// are deactivated and dropped, then each task of `specs` is updated in
    /// place where it is live and created and activated where it is not. A
    /// task that fails to activate stays in the set, deactivated.
    pub fn reload(&mut self, specs: HashMap<u128, TaskSpec>) -> (r: Result<(), TaskError>)
        requires
            old(self)@.wf(),
        ensures
            r is Ok,
            reload_effect(old(self)@, spec_views(specs@), final(self)@),
            reload_steps(old(self)@, spec_views(specs@), final(self)@),
            final(self)@.wf(),
    {
        let ghost pre = self@;
        let ghost wanted = spec_views(specs@);
        assert(wanted.dom() =~= specs@.dom());
        // remove tasks that are not in specs
        let current = keys_of(&self.tasks);
        assert(pre.tasks.dom() =~= self.tasks@.dom());
        let mut to_remove: Vec<u128> = Vec::new();
        let mut i: usize = 0;
        while i < current.len()
            invariant
                i <= current.len(),
                current@.no_duplicates(),
                current@.to_set() == pre.tasks.dom(),
                to_remove@.no_duplicates(),
                forall|j: int|
                    0 <= j < to_remove@.len() ==> exists|k: int|
                        0 <= k < i && current@[k] == #[trigger] to_remove@[j],
                forall|j: int|
                    0 <= j < to_remove@.len() ==> pre.tasks.contains_key(#[trigger] to_remove@[j])
                        && !specs@.contains_key(to_remove@[j]),
                forall|j: int|
                    0 <= j < i && !specs@.contains_key(#[trigger] current@[j])
                        ==> to_remove@.contains(current@[j]),
            decreases current.len() - i,
        {
            let id = current[i];
            assert(current@.to_set().contains(id));
            if !specs.contains_key(&id) {
                let ghost before = to_remove@;
                to_remove.push(id);
                proof {
                    assert(to_remove@[before.len() as int] == id);
                    assert forall|a: int, b: int|
                        0 <= a < to_remove@.len() && 0 <= b < to_remove@.len() && a
                            != b implies to_remove@[a] != to_remove@[b] by {
                        if a < before.len() && b < before.len() {
                            assert(before[a] != before[b]);
                        } else if a < before.len() {
                            let k = choose|k: int| 0 <= k < i && current@[k] == before[a];
                        } else if b < before.len() {
                            let k = choose|k: int| 0 <= k < i && current@[k] == before[b];
                        }
                    }
                    assert forall|j: int| 0 <= j < to_remove@.len() implies exists|k: int|
                        0 <= k < i + 1 && current@[k] == #[trigger] to_remove@[j] by {
                        if j < before.len() {
                            let k = choose|k: int| 0 <= k < i && current@[k] == before[j];
                            assert(current@[k] == to_remove@[j]);
                        } else {
                            assert(current@[i as int] == to_remove@[j]);
                        }
                    }
                    assert forall|j: int|
                        0 <= j < i && !specs@.contains_key(
                            #[trigger] current@[j],
                        ) implies to_remove@.contains(current@[j]) by {
                        let w = choose|w: int| 0 <= w < before.len() && before[w] == current@[j];
                        assert(to_remove@[w] == current@[j]);
                    }
                }
            } else {
                proof {
                    assert forall|j: int| 0 <= j < to_remove@.len() implies exists|k: int|
                        0 <= k < i + 1 && current@[k] == #[trigger] to_remove@[j] by {
                        let k = choose|k: int| 0 <= k < i && current@[k] == to_remove@[j];
                        assert(current@[k] == to_remove@[j]);
                    }
                }
            }
            i = i + 1;
        }
        proof {
            assert forall|id: u128|
                pre.tasks.contains_key(id) && !specs@.contains_key(id) implies to_remove@.contains(
                id,
            ) by {
                assert(current@.to_set().contains(id));
                let j = choose|j: int| 0 <= j < current@.len() && current@[j] == id;
                assert(to_remove@.contains(current@[j]));
            }
        }
        let ghost mut states: Seq<ManagerView> = seq![pre];
        let mut i: usize = 0;
        while i < to_remove.len()
            invariant
                i <= to_remove.len(),
                pre == old(self)@,
                pre.wf(),
                self@.due == pre.due,
                self@.ticking == pre.ticking,
                to_remove@.no_duplicates(),
                forall|j: int|
                    0 <= j < to_remove@.len() ==> pre.tasks.contains_key(#[trigger] to_remove@[j]),
                forall|j: int|
                    i <= j < to_remove@.len() ==> self@.tasks.contains_key(#[trigger] to_remove@[j]),
                states.len() == i + 1,
                states[0] == pre,
                states.last() == self@,
                forall|j: int|
                    0 <= j < i ==> drop_step(states[j], #[trigger] to_remove@[j], states[j + 1]),
                forall|j: int|
                    0 <= j < to_remove@.len() ==> !specs@.contains_key(#[trigger] to_remove@[j]),
                forall|id: u128| #[trigger]
                    self@.tasks.contains_key(id) ==> pre.tasks.contains_key(id) && self@.tasks[id]
                        == pre.tasks[id],
                forall|id: u128|
                    pre.tasks.contains_key(id) && specs@.contains_key(id)
                        ==> #[trigger] self@.tasks.contains_key(id),
                forall|id: u128|
                    #[trigger] self@.tasks.contains_key(id) && !specs@.contains_key(id) ==> exists|
                        j: int,
                    |
                        i <= j < to_remove@.len() && to_remove@[j] == id,
                to_remove@.len() == 0 ==> self@.jobs == pre.jobs,
            decreases to_remove.len() - i,
        {
            let id = to_remove[i];
            let ghost tv = self@.tasks;
            let ghost before = self@;
            assert(tv.contains_key(id));
            match self.tasks.remove(&id) {
                Some(mut task) => {
                    let ghost t_pre = task@;
                    task.deactivate(&mut self.cron);
                    assert(self@.tasks =~= tv.remove(id));
                    assert(deactivate_effect(t_pre, task@, before.jobs, self@.jobs));
                },
                None => {
                    assert(false);
                },
            }
            proof {
                let older = states;
                states = states.push(self@);
                assert(drop_step(before, id, self@));
                assert forall|j: int| 0 <= j < i + 1 implies drop_step(
                    states[j],
                    #[trigger] to_remove@[j],
                    states[j + 1],
                ) by {
                    if j < i {
                        assert(states[j] == older[j]);
                        assert(states[j + 1] == older[j + 1]);
                    }
                }
                assert forall|j: int| i + 1 <= j < to_remove@.len() implies self@.tasks.contains_key(
                    #[trigger] to_remove@[j],
                ) by {
                    assert(to_remove@[j] != id);
                }
                assert forall|k: u128|
                    #[trigger] self@.tasks.contains_key(k) && !specs@.contains_key(
                        k,
                    ) implies exists|j: int| i + 1 <= j < to_remove@.len() && to_remove@[j] == k by {
                    assert(tv.contains_key(k));
                    let j = choose|j: int| i <= j < to_remove@.len() && to_remove@[j] == k;
                    assert(j != i);
                }
            }
            i = i + 1;
        }
        proof {
            assert forall|id: u128| #[trigger] self@.tasks.contains_key(id) implies wanted.contains_key(
                id,
            ) by {
                if !specs@.contains_key(id) {
                    let j = choose|j: int|
                        to_remove@.len() <= j < to_remove@.len() && to_remove@[j] == id;
                }
            }
            if settled(pre, wanted) {
                if to_remove@.len() > 0 {
                    let id = to_remove@[0];
                    assert(!wanted.dom().contains(id));
                }
            }
        }
        // update or add tasks
        let ids = keys_of(&specs);
        let ghost dropped = to_remove@;
        let mut i: usize = 0;
        while i < ids.len()
            invariant
                i <= ids.len(),
                pre == old(self)@,
                pre.wf(),
                self@.ticking == pre.ticking,
                dropped == to_remove@,
                states.len() == dropped.len() + i + 1,
                states[0] == pre,
                states.last() == self@,
                forall|j: int|
                    0 <= j < dropped.len() ==> drop_step(
                        states[j],
                        #[trigger] dropped[j],
                        states[j + 1],
                    ),
                forall|j: int|
                    0 <= j < i ==> upsert_step(
                        states[dropped.len() + j],
                        #[trigger] ids@[j],
                        wanted[ids@[j]],
                        states[dropped.len() + j + 1],
                    ),
                wanted == spec_views(specs@),
                wanted.dom() == specs@.dom(),
                ids@.no_duplicates(),
                ids@.to_set() == specs@.dom(),
                forall|id: u128| #[trigger]
                    self@.tasks.contains_key(id) ==> wanted.contains_key(id),
                forall|j: int| 0 <= j < i ==> self@.tasks.contains_key(#[trigger] ids@[j]),
                forall|j: int|
                    0 <= j < i ==> {
                        let id = #[trigger] ids@[j];
                        &&& self@.tasks[id].wf()
                        &&& self@.tasks[id].id == id
                        &&& if pre.tasks.contains_key(id) {
                            kept(pre.tasks[id], wanted[id], self@.tasks[id])
                        } else {
                            made(id, wanted[id], self@.tasks[id])
                        }
                    },
                forall|j: int|
                    i <= j < ids.len() ==> (self@.tasks.contains_key(#[trigger] ids@[j])
                        <==> pre.tasks.contains_key(ids@[j])),
                forall|j: int|
                    i <= j < ids.len() && self@.tasks.contains_key(#[trigger] ids@[j])
                        ==> self@.tasks[ids@[j]] == pre.tasks[ids@[j]],
                self@.due.len() >= pre.due.len(),
                self@.due.take(pre.due.len() as int) == pre.due,
                settled(pre, wanted) ==> self@.jobs == pre.jobs && self@.due == pre.due,
            decreases ids.len() - i,
        {
            let id = ids[i];
            assert(ids@.to_set().contains(id));
            let ghost tv = self@.tasks;
            let ghost before = self@;
            let ghost s_before = self@.jobs;
            let ghost d_before = self@.due;
            let spec = match specs.get(&id) {
                Some(s) => s.dup(),
                None => {
                    assert(false);
                    return Ok(());
                },
            };
            assert(spec@ == wanted[id]);
            assert(wanted.contains_key(id));
            match self.tasks.remove(&id) {
                Some(mut task) => {
                    let ghost t_pre = task@;
                    assert(tv.contains_key(id));
                    assert(t_pre == tv[id]);
                    assert(t_pre == pre.tasks[id]);
                    task.update(spec, &mut self.cron, &mut self.due);
                    let ghost t_post = task@;
                    proof {
                        lemma_update_summary(
                            t_pre,
                            t_post,
                            wanted[id],
                            s_before,
                            self@.jobs,
                            d_before,
                            self@.due,
                        );
                        if settled(pre, wanted) {
                            lemma_update_settled(
                                t_pre,
                                t_post,
                                wanted[id],
                                s_before,
                                self@.jobs,
                                d_before,
                                self@.due,
                            );
                        }
                    }
                    self.tasks.insert(id, task);
                    assert(self@.tasks =~= tv.insert(id, t_post));
                },
                None => {
                    assert(!tv.contains_key(id));
                    assert(!pre.tasks.contains_key(id));
                    assert(self@.tasks =~= tv);
                    proof {
                        if settled(pre, wanted) {
                            assert(pre.tasks.dom().contains(id));
                        }
                    }
                    self.add_task(id, spec);
                    proof {
                        assert(self@.tasks.dom().contains(id));
                        lemma_made_summary(
                            id,
                            self@.tasks[id],
                            wanted[id],
                            s_before,
                            self@.jobs,
                            d_before,
                            self@.due,
                        );
                        assert(self@.tasks[id].wf()) by {
                            assert(TaskView::created(id, wanted[id]).wf());
                        }
                    }
                },
            }
            proof {
                assert(self@.tasks.dom() =~= tv.dom().insert(id));
                assert(self@.tasks =~= tv.insert(id, self@.tasks[id]));
                assert(upsert_step(before, id, wanted[id], self@));
                let older = states;
                states = states.push(self@);
                assert forall|j: int| 0 <= j < dropped.len() implies drop_step(
                    states[j],
                    #[trigger] dropped[j],
                    states[j + 1],
                ) by {
                    assert(states[j] == older[j]);
                    assert(states[j + 1] == older[j + 1]);
                }
                assert forall|j: int| 0 <= j < i + 1 implies upsert_step(
                    states[dropped.len() + j],
                    #[trigger] ids@[j],
                    wanted[ids@[j]],
                    states[dropped.len() + j + 1],
                ) by {
                    if j < i {
                        assert(states[dropped.len() + j] == older[dropped.len() + j]);
                        assert(states[dropped.len() + j + 1] == older[dropped.len() + j + 1]);
                    }
                }
                assert(self@.due.take(pre.due.len() as int) =~= d_before.take(
                    pre.due.len() as int,
                ));
                assert forall|j: int| 0 <= j < ids.len() && j != i implies self@.tasks.contains_key(
                    #[trigger] ids@[j],
                ) == tv.contains_key(ids@[j]) && (tv.contains_key(ids@[j]) ==> self@.tasks[ids@[j]]
                    == tv[ids@[j]]) by {
                    assert(ids@[j] != id);
                }
            }
            i = i + 1;
        }
        proof {
            assert(self@.tasks.dom() =~= wanted.dom()) by {
                assert forall|id: u128| wanted.dom().contains(id) implies self@.tasks.dom().contains(
                    id,
                ) by {
                    assert(ids@.to_set().contains(id));
                    let j = choose|j: int| 0 <= j < ids@.len() && ids@[j] == id;
                    assert(self@.tasks.contains_key(ids@[j]));
                }
            }
            assert forall|id: u128| #[trigger] wanted.contains_key(id) implies self@.tasks[id].wf()
                && self@.tasks[id].id == id && if pre.tasks.contains_key(id) {
                kept(pre.tasks[id], wanted[id], self@.tasks[id])
            } else {
                made(id, wanted[id], self@.tasks[id])
            } by {
                assert(ids@.to_set().contains(id));
                let j = choose|j: int| 0 <= j < ids@.len() && ids@[j] == id;
                assert(self@.tasks[ids@[j]].wf());
            }
            assert forall|id: u128| ids@.contains(id) <==> wanted.contains_key(id) by {
                assert(ids@.to_set().contains(id) == ids@.contains(id));
            }
            assert(reload_trace(pre, wanted, self@, dropped, ids@, states));
        }
        Ok(())
    }
}

} // verus!
