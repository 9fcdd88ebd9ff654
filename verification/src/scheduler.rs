//! The in-process cron scheduler: an ordered list of jobs, each with its
//! schedule and the instant it last fired.
//!
//! A job names the task it runs. Ticking the scheduler does not run
//! anything: it appends the task's identifier to a list of runs that are
//! due, once for every firing, and the host starts them.

use crate::clock::{fresh_id, local_now};
use crate::schedule::{cron_next, next_fire, MAX_INSTANT};
use vstd::prelude::*;

verus! {

/// A registered job: the cron expression of its schedule, the task it
/// runs, its identifier and the instant of its last firing in seconds since
/// the Unix epoch.
pub struct ScheduledJob {
    expr: String,
    task: u128,
    job_id: u128,
    last_run: i64,
}

pub struct JobView {
    pub expr: Seq<char>,
    pub job_id: u128,
    pub task: u128,
    pub last_run: i64,
}

impl View for ScheduledJob {
    type V = JobView;

    closed spec fn view(&self) -> JobView {
        JobView {
            expr: self.expr@,
            job_id: self.job_id,
            task: self.task,
            last_run: self.last_run,
        }
    }
}

/// Whether a job that last fired at `last` looks up its next firing at time
/// `now`: only from an instant within `0..=MAX_INSTANT` that lies before
/// `now`.
pub open spec fn looks_up(last: i64, now: i64) -> bool {
    0 <= last <= MAX_INSTANT && last < now
}

/// How many firings of the schedule `expr` a job that last fired at `last`
/// takes at time `now`: one for each instant in the chain of next firings
/// that begins after `last`, as long as each lies after the one before and
/// not after `now`.
pub open spec fn fired(expr: Seq<char>, offset: i32, last: i64, now: i64) -> nat
    decreases now - last,
{
    if looks_up(last, now) {
        match cron_next(expr, last, offset) {
            Some(t) => if last < t && t <= now {
                1 + fired(expr, offset, t, now)
            } else {
                0
            },
            None => 0,
        }
    } else {
        0
    }
}

/// The last firing that such a job has taken after time `now`: the last
/// instant of that chain, or `last` where the chain is empty.
pub open spec fn last_fired(expr: Seq<char>, offset: i32, last: i64, now: i64) -> i64
    decreases now - last,
{
    if looks_up(last, now) {
        match cron_next(expr, last, offset) {
            Some(t) => if last < t && t <= now {
                last_fired(expr, offset, t, now)
            } else {
                last
            },
            None => last,
        }
    } else {
        last
    }
}

impl JobView {
    /// The job after a tick at time `now`.
    pub open spec fn ticked(self, offset: i32, now: i64) -> JobView {
        JobView { last_run: last_fired(self.expr, offset, self.last_run, now), ..self }
    }

    /// The runs that a tick at time `now` owes the job's task.
    pub open spec fn runs_due(self, offset: i32, now: i64) -> Seq<u128> {
        runs_of(self.task, fired(self.expr, offset, self.last_run, now))
    }
}

/// `n` runs of `task`.
pub open spec fn runs_of(task: u128, n: nat) -> Seq<u128> {
    Seq::new(n, |i: int| task)
}

impl ScheduledJob {
    /// A job for `task` on the schedule `expr`, with the given identifier,
    /// that counts `last_run` as its last firing.
    pub fn with(expr: String, task: u128, job_id: u128, last_run: i64) -> (r: ScheduledJob)
        ensures
            r@ == (JobView { expr: expr@, job_id, task, last_run }),
    {
        ScheduledJob { expr, task, job_id, last_run }
    }

    /// A job for `task` on the schedule `expr`, with a fresh identifier,
    /// whose schedule counts from now.
    pub fn from(expr: String, task: u128) -> (r: ScheduledJob)
        ensures
            r@.expr == expr@,
            r@.task == task,
    {
        let (now, _) = local_now();
        ScheduledJob::with(expr, task, fresh_id(), now)
    }

    pub fn id(&self) -> (r: u128)
        ensures
            r == self@.job_id,
    {
        self.job_id
    }

    /// The task this job runs.
    pub fn task(&self) -> (r: u128)
        ensures
            r == self@.task,
    {
        self.task
    }

    /// The instant of the last firing.
    pub fn last_run(&self) -> (r: i64)
        ensures
            r == self@.last_run,
    {
        self.last_run
    }

    /// Whether a firing at `next` is taken at time `now`: it lies after the
    /// last firing and not after `now`.
    pub open spec fn takes(self, next: Option<i64>, now: i64) -> bool {
        next matches Some(t) && self@.last_run < t <= now
    }

    /// Takes the schedule's next firing where it is due: one run of the task
    /// is owed and the firing becomes the last one. Returns whether it was
    /// taken.
    pub fn fire(&mut self, next: Option<i64>, now: i64, due: &mut Vec<u128>) -> (taken: bool)
        ensures
            taken == old(self).takes(next, now),
            taken ==> final(self)@ == (JobView { last_run: next.unwrap(), ..old(self)@ }),
            taken ==> final(due)@ == old(due)@.push(old(self)@.task),
            !taken ==> final(self)@ == old(self)@ && final(due)@ == old(due)@,
    {
        match next {
            Some(t) => {
                if self.last_run < t && t <= now {
                    due.push(self.task);
                    self.last_run = t;
                    true
                } else {
                    false
                }
            },
            None => false,
        }
    }

    /// Takes every firing of the schedule after the last one and up to
    /// `now`, in order, on a clock that is `offset` seconds ahead of UTC.
    /// Each owes the task one run; the last one taken becomes the last
    /// firing. Instants outside `0..=MAX_INSTANT` are not looked up.
    pub fn tick_at(&mut self, now: i64, offset: i32, due: &mut Vec<u128>)
        ensures
            final(self)@ == old(self)@.ticked(offset, now),
            final(due)@ == old(due)@ + old(self)@.runs_due(offset, now),
    {
        let ghost count: nat = 0;
        let ghost first = self@;
        assert(due@ =~= old(due)@ + runs_of(self@.task, 0));
        loop
            invariant
                first == old(self)@,
                self@ == (JobView { last_run: self@.last_run, ..first }),
                due@ == old(due)@ + runs_of(first.task, count),
                fired(first.expr, offset, first.last_run, now) == count + fired(
                    first.expr,
                    offset,
                    self@.last_run,
                    now,
                ),
                last_fired(first.expr, offset, first.last_run, now) == last_fired(
                    first.expr,
                    offset,
                    self@.last_run,
                    now,
                ),
            ensures
                self@ == (JobView { last_run: self@.last_run, ..first }),
                due@ == old(due)@ + runs_of(first.task, count),
                fired(first.expr, offset, first.last_run, now) == count,
                last_fired(first.expr, offset, first.last_run, now) == self@.last_run,
            decreases now - self@.last_run,
        {
            if !(0 <= self.last_run && self.last_run <= MAX_INSTANT && self.last_run < now) {
                break ;
            }
            let next = next_fire(self.expr.as_str(), self.last_run, offset);
            if !self.fire(next, now, due) {
                break ;
            }
            proof {
                assert(due@ =~= old(due)@ + runs_of(first.task, count + 1));
                count = count + 1;
            }
        }
    }

    /// Takes every firing that is due by the local clock: what `tick_at`
    /// does at the instant and offset that the clock gives.
    pub fn tick(&mut self, due: &mut Vec<u128>)
        ensures
            exists|now: i64, offset: i32|
                final(self)@ == #[trigger] old(self)@.ticked(offset, now) && final(due)@ == old(
                    due,
                )@ + old(self)@.runs_due(offset, now),
    {
        let (now, offset) = local_now();
        self.tick_at(now, offset, due)
    }
}

/// The view of each job of `v`, in order.
pub open spec fn job_views(v: Seq<ScheduledJob>) -> Seq<JobView> {
    Seq::new(v.len(), |i: int| v[i]@)
}

/// The jobs of `jobs` whose identifier is not `id`, in order.
pub open spec fn without_job(jobs: Seq<JobView>, id: u128) -> Seq<JobView> {
    jobs.filter(|j: JobView| j.job_id != id)
}

/// Each of `jobs` after a tick at time `now`.
pub open spec fn ticked_jobs(jobs: Seq<JobView>, offset: i32, now: i64) -> Seq<JobView> {
    Seq::new(jobs.len(), |k: int| jobs[k].ticked(offset, now))
}

/// The runs that a tick of `jobs` at time `now` owes: those of the first
/// job, then those of the second, and so on.
pub open spec fn runs_due(jobs: Seq<JobView>, offset: i32, now: i64) -> Seq<u128>
    decreases jobs.len(),
{
    if jobs.len() == 0 {
        Seq::empty()
    } else {
        runs_due(jobs.drop_last(), offset, now) + jobs.last().runs_due(offset, now)
    }
}

/// The scheduler: its jobs in the order they were added.
pub struct CronScheduler {
    pub jobs: Vec<ScheduledJob>,
}

impl View for CronScheduler {
    type V = Seq<JobView>;

    open spec fn view(&self) -> Seq<JobView> {
        job_views(self.jobs@)
    }
}

impl CronScheduler {
    pub fn new() -> (r: CronScheduler)
        ensures
            r@ == Seq::<JobView>::empty(),
    {
        let r = CronScheduler { jobs: Vec::new() };
        assert(r@ =~= Seq::<JobView>::empty());
        r
    }

    /// Appends `job`.
    pub fn add(&mut self, job: ScheduledJob)
        ensures
            final(self)@ == old(self)@.push(job@),
    {
        self.jobs.push(job);
        assert(self@ =~= old(self)@.push(job@));
    }

    /// Deletes the job with identifier `uuid` if there is one; the others
    /// keep their order.
    pub fn remove(&mut self, uuid: u128)
        ensures
            final(self)@ == without_job(old(self)@, uuid),
    {
        let ghost keep = |j: JobView| j.job_id != uuid;
        let mut i: usize = 0;
        let ghost done: int = 0;
        assert(old(self)@.take(0) =~= Seq::<JobView>::empty());
        assert(old(self)@.skip(0) =~= old(self)@);
        assert(self@ =~= old(self)@.take(0).filter(keep) + old(self)@.skip(0));
        while i < self.jobs.len()
            invariant
                keep == |j: JobView| j.job_id != uuid,
                0 <= done <= old(self)@.len(),
                i <= self.jobs@.len(),
                i == old(self)@.take(done).filter(keep).len(),
                self.jobs@.len() - i == old(self)@.len() - done,
                self@ == old(self)@.take(done).filter(keep) + old(self)@.skip(done),
            decreases self.jobs@.len() - i,
        {
            let ghost cur = self@;
            let ghost head = old(self)@.take(done);
            let ghost x = old(self)@[done];
            proof {
                assert(old(self)@.take(done + 1) =~= head.push(x));
                assert(head.push(x) =~= head + seq![x]);
                Seq::filter_distributes_over_add(head, seq![x], keep);
                Seq::<JobView>::lemma_filter_prepend(Seq::<JobView>::empty(), x, keep);
                assert(seq![x] =~= seq![x] + Seq::<JobView>::empty());
                assert(Seq::<JobView>::empty().filter(keep) =~= Seq::<JobView>::empty());
                assert(cur[i as int] == x);
                assert(self.jobs@[i as int]@ == x);
            }
            if self.jobs[i].job_id == uuid {
                self.jobs.remove(i);
                proof {
                    assert(self@ =~= cur.remove(i as int));
                    assert(seq![x].filter(keep) =~= Seq::<JobView>::empty());
                    assert(self@ =~= head.filter(keep) + old(self)@.skip(done + 1));
                }
            } else {
                proof {
                    assert(seq![x].filter(keep) =~= seq![x]);
                    assert(self@ =~= (head + seq![x]).filter(keep) + old(self)@.skip(done + 1));
                }
                i = i + 1;
            }
            proof {
                done = done + 1;
            }
        }
        proof {
            assert(old(self)@.take(done) =~= old(self)@);
            assert(old(self)@.skip(done) =~= Seq::<JobView>::empty());
        }
    }

    /// The number of jobs.
    pub fn job_count(&self) -> (n: usize)
        ensures
            n == self@.len(),
    {
        self.jobs.len()
    }

    /// Ticks every job in order at time `now`, on a clock that is `offset`
    /// seconds ahead of UTC. Every job takes the firings that are due to it;
    /// the runs they owe become due in the order of the jobs.
    pub fn tick_at(&mut self, now: i64, offset: i32, due: &mut Vec<u128>)
        ensures
            final(self)@ == ticked_jobs(old(self)@, offset, now),
            final(due)@ == old(due)@ + runs_due(old(self)@, offset, now),
    {
        let n = self.jobs.len();
        let mut i: usize = 0;
        assert(old(self)@.take(0) =~= Seq::<JobView>::empty());
        assert(due@ =~= old(due)@ + runs_due(old(self)@.take(0), offset, now));
        while i < n
            invariant
                i <= n,
                n == old(self)@.len(),
                self@.len() == old(self)@.len(),
                forall|k: int| 0 <= k < i ==> #[trigger] self@[k] == old(self)@[k].ticked(offset, now),
                forall|k: int| i <= k < old(self)@.len() ==> (#[trigger] self@[k]) == old(self)@[k],
                due@ == old(due)@ + runs_due(old(self)@.take(i as int), offset, now),
            decreases n - i,
        {
            let ghost before = self@;
            let ghost due_before = due@;
            let mut job = self.jobs.remove(i);
            assert(job@ == before[i as int]);
            assert(before[i as int] == old(self)@[i as int]);
            job.tick_at(now, offset, due);
            let ghost ticked = job@;
            self.jobs.insert(i, job);
            proof {
                assert(self@.len() == before.len());
                assert(self@[i as int] == ticked);
                assert forall|k: int| 0 <= k < before.len() && k != i implies #[trigger] self@[k]
                    == before[k] by {
                    if k < i {
                    } else {
                    }
                }
                let head = old(self)@.take(i as int);
                let next = old(self)@.take(i as int + 1);
                assert(next.drop_last() =~= head);
                assert(next.last() == old(self)@[i as int]);
                assert(due@ =~= old(due)@ + runs_due(next, offset, now));
            }
            i = i + 1;
        }
        proof {
            assert(old(self)@.take(n as int) =~= old(self)@);
            assert(self@ =~= ticked_jobs(old(self)@, offset, now));
        }
    }

    /// Ticks every job in order by the local clock: what `tick_at` does at
    /// the instant and offset that the clock gives.
    pub fn tick(&mut self, due: &mut Vec<u128>)
        ensures
            exists|now: i64, offset: i32|
                final(self)@ == #[trigger] ticked_jobs(old(self)@, offset, now) && final(due)@
                    == old(due)@ + runs_due(old(self)@, offset, now),
    {
        let (now, offset) = local_now();
        self.tick_at(now, offset, due)
    }
}

} // verus!
