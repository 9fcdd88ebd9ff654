//! Triggers: what makes a task run.
//!
//! A cron trigger registers a job with the scheduler and keeps the job's
//! identifier until it is uninstalled. An immediate trigger and a startup
//! trigger owe the task one run at once and register nothing.

use crate::message::{TaskError, TaskErrorView, TaskSpecError, TriggerSpec, TriggerSpecView};
use crate::schedule::{cron_expression_valid, is_cron_expression};
use crate::scheduler::{without_job, CronScheduler, JobView, ScheduledJob};
use vstd::prelude::*;

verus! {

/// What a trigger is in contracts: its kind, and for a cron trigger its
/// expression and the job it holds.
pub enum TriggerView {
    Cron { expr: Seq<char>, job_id: Option<u128> },
    Immediate,
    Startup,
}

impl TriggerView {
    /// The description this trigger was made from.
    pub open spec fn spec(self) -> TriggerSpecView {
        match self {
            TriggerView::Cron { expr, job_id } => TriggerSpecView::Cron(expr),
            TriggerView::Immediate => TriggerSpecView::Immediate,
            TriggerView::Startup => TriggerSpecView::Startup,
        }
    }

    /// A trigger made from `spec` that holds no job.
    pub open spec fn fresh(spec: TriggerSpecView) -> TriggerView {
        match spec {
            TriggerSpecView::Cron(expr) => TriggerView::Cron { expr, job_id: None },
            TriggerSpecView::Immediate => TriggerView::Immediate,
            TriggerSpecView::Startup => TriggerView::Startup,
        }
    }

    /// Whether installing this trigger succeeds: always, but for a cron
    /// trigger whose expression does not parse.
    pub open spec fn installable(self) -> bool {
        self matches TriggerView::Cron { expr, job_id } ==> cron_expression_valid(expr)
    }

    /// Whether installing this trigger owes the task a run at once.
    pub open spec fn runs_at_once(self) -> bool {
        self is Immediate || self is Startup
    }

    /// This trigger once it is uninstalled.
    pub open spec fn released(self) -> TriggerView {
        match self {
            TriggerView::Cron { expr, job_id } => TriggerView::Cron { expr, job_id: None },
            other => other,
        }
    }
}

/// The result of an install in contracts.
pub open spec fn install_view(r: Result<(), TaskError>) -> Result<(), TaskErrorView> {
    match r {
        Ok(u) => Ok(()),
        Err(e) => Err(e@),
    }
}

/// The error of an install that found a bad cron expression.
pub open spec fn bad_expression() -> Result<(), TaskErrorView> {
    Err(TaskErrorView::TaskSpecError(TaskSpecError::InvalidCronExpresion))
}

/// What `install` does for the task `task`: to the trigger (`pre`, `post`),
/// to the scheduler's jobs (`s0`, `s1`) and to the runs that are due
/// (`d0`, `d1`).
///
/// A cron trigger with a valid expression appends one job for `task` on
/// its schedule and holds the job's identifier. With an invalid one it fails and nothing changes.
/// The other two owe `task` one run.
pub open spec fn install_effect(
    pre: TriggerView,
    post: TriggerView,
    task: u128,
    s0: Seq<JobView>,
    s1: Seq<JobView>,
    d0: Seq<u128>,
    d1: Seq<u128>,
    r: Result<(), TaskErrorView>,
) -> bool {
    match pre {
        TriggerView::Cron { expr, job_id } => {
            if cron_expression_valid(expr) {
                &&& r is Ok
                &&& s1.len() == s0.len() + 1
                &&& s1.drop_last() == s0
                &&& s1.last().task == task
                &&& s1.last().expr == expr
                &&& post == (TriggerView::Cron { expr, job_id: Some(s1.last().job_id) })
                &&& d1 == d0
            } else {
                &&& r == bad_expression()
                &&& post == pre
                &&& s1 == s0
                &&& d1 == d0
            }
        },
        _ => {
            &&& r is Ok
            &&& post == pre
            &&& s1 == s0
            &&& d1 == d0.push(task)
        },
    }
}

/// What `uninstall` does: a cron trigger lets go of the job it holds, and
/// the scheduler drops the job with that identifier. Nothing else changes.
pub open spec fn uninstall_effect(
    pre: TriggerView,
    post: TriggerView,
    s0: Seq<JobView>,
    s1: Seq<JobView>,
) -> bool {
    &&& post == pre.released()
    &&& s1 == match pre {
        TriggerView::Cron { expr, job_id: Some(id) } => without_job(s0, id),
        _ => s0,
    }
}

/// The interface of every trigger.
pub trait TriggerTrait {
    /// What this trigger is in contracts.
    spec fn shape(&self) -> TriggerView;

    /// Binds the trigger to the task `task`.
    fn install(&mut self, task: u128, sched: &mut CronScheduler, due: &mut Vec<u128>) -> (r:
        Result<(), TaskError>)
        ensures
            install_effect(
                old(self).shape(),
                final(self).shape(),
                task,
                old(sched)@,
                final(sched)@,
                old(due)@,
                final(due)@,
                install_view(r),
            ),
    ;

    /// Takes back what `install` registered.
    fn uninstall(&mut self, sched: &mut CronScheduler)
        ensures
            uninstall_effect(old(self).shape(), final(self).shape(), old(sched)@, final(sched)@),
    ;
}

/// Fires by a cron expression.
pub struct CronTrigger {
    cron_expr: String,
    job_id: Option<u128>,
}

impl CronTrigger {
    pub fn new(cron_expr: String) -> (r: CronTrigger)
        ensures
            r.shape() == (TriggerView::Cron { expr: cron_expr@, job_id: None }),
    {
        CronTrigger { cron_expr, job_id: None }
    }

    /// The identifier of the job this trigger holds.
    pub fn job_id(&self) -> (r: Option<u128>)
        ensures
            self.shape() == (TriggerView::Cron { expr: self.shape()->expr, job_id: r }),
    {
        self.job_id
    }
}

impl TriggerTrait for CronTrigger {
    closed spec fn shape(&self) -> TriggerView {
        TriggerView::Cron { expr: self.cron_expr@, job_id: self.job_id }
    }

    fn install(&mut self, task: u128, sched: &mut CronScheduler, due: &mut Vec<u128>) -> (r:
        Result<(), TaskError>) {
        if !is_cron_expression(self.cron_expr.as_str()) {
            return Err(TaskError::from_spec_error(TaskSpecError::InvalidCronExpresion));
        }
        let job = ScheduledJob::from(self.cron_expr.clone(), task);
        self.job_id = Some(job.id());
        sched.add(job);
        assert(sched@.drop_last() =~= old(sched)@);
        Ok(())
    }

    fn uninstall(&mut self, sched: &mut CronScheduler) {
        match self.job_id.take() {
            Some(id) => {
                sched.remove(id);
            },
            None => {},
        }
    }
}

/// Fires once, as soon as it is installed.
pub struct ImmediateTrigger {}

impl ImmediateTrigger {
    pub fn new() -> (r: ImmediateTrigger)
        ensures
            r.shape() == TriggerView::Immediate,
    {
        ImmediateTrigger {  }
    }
}

impl TriggerTrait for ImmediateTrigger {
    open spec fn shape(&self) -> TriggerView {
        TriggerView::Immediate
    }

    fn install(&mut self, task: u128, sched: &mut CronScheduler, due: &mut Vec<u128>) -> (r:
        Result<(), TaskError>) {
        due.push(task);
        Ok(())
    }

    fn uninstall(&mut self, sched: &mut CronScheduler) {
    }
}

/// Fires once, as soon as it is installed: it behaves as an immediate
/// trigger does.
pub struct StartupTrigger {}

impl StartupTrigger {
    pub fn new() -> (r: StartupTrigger)
        ensures
            r.shape() == TriggerView::Startup,
    {
        StartupTrigger {  }
    }
}

impl TriggerTrait for StartupTrigger {
    open spec fn shape(&self) -> TriggerView {
        TriggerView::Startup
    }

    fn install(&mut self, task: u128, sched: &mut CronScheduler, due: &mut Vec<u128>) -> (r:
        Result<(), TaskError>) {
        due.push(task);
        Ok(())
    }

    fn uninstall(&mut self, sched: &mut CronScheduler) {
    }
}

/// Any of the three triggers.
pub enum Trigger {
    Cron(CronTrigger),
    Immediate(ImmediateTrigger),
    Startup(StartupTrigger),
}

impl Trigger {
    /// The trigger that `spec` describes, not yet installed.
    pub fn make(spec: &TriggerSpec) -> (r: Trigger)
        ensures
            r.shape() == TriggerView::fresh(spec@),
    {
        match spec {
            TriggerSpec::Cron(expr) => Trigger::Cron(CronTrigger::new(expr.clone())),
            TriggerSpec::Immediate => Trigger::Immediate(ImmediateTrigger::new()),
            TriggerSpec::Startup => Trigger::Startup(StartupTrigger::new()),
        }
    }
}

impl TriggerTrait for Trigger {
    open spec fn shape(&self) -> TriggerView {
        match self {
            Trigger::Cron(t) => t.shape(),
            Trigger::Immediate(t) => t.shape(),
            Trigger::Startup(t) => t.shape(),
        }
    }

    fn install(&mut self, task: u128, sched: &mut CronScheduler, due: &mut Vec<u128>) -> (r:
        Result<(), TaskError>) {
        match self {
            Trigger::Cron(t) => t.install(task, sched, due),
            Trigger::Immediate(t) => t.install(task, sched, due),
            Trigger::Startup(t) => t.install(task, sched, due),
        }
    }

    fn uninstall(&mut self, sched: &mut CronScheduler) {
        match self {
            Trigger::Cron(t) => t.uninstall(sched),
            Trigger::Immediate(t) => t.uninstall(sched),
            Trigger::Startup(t) => t.uninstall(sched),
        }
    }
}

/// The view of each trigger of `v`, in order.
pub open spec fn shapes(v: Seq<Trigger>) -> Seq<TriggerView> {
    Seq::new(v.len(), |i: int| v[i].shape())
}

} // verus!
