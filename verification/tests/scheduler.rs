use taskfleet::scheduler::{CronScheduler, ScheduledJob};

fn every_second() -> String {
    "* * * * * *".to_string()
}

#[test]
fn a_job_keeps_what_it_was_made_with() {
    let job = ScheduledJob::with(every_second(), 7, 9, 1_700_000_000);
    assert_eq!(job.id(), 9);
    assert_eq!(job.task(), 7);
    assert_eq!(job.last_run(), 1_700_000_000);
}

#[test]
fn fresh_jobs_get_distinct_identifiers() {
    let a = ScheduledJob::from(every_second(), 1);
    let b = ScheduledJob::from(every_second(), 1);
    assert_ne!(a.id(), b.id());
    assert_eq!(a.task(), 1);
    assert!(a.last_run() > 1_600_000_000);
}

#[test]
fn fire_takes_a_due_firing() {
    let mut job = ScheduledJob::with(every_second(), 7, 9, 100);
    let mut due = vec![1u128];
    assert!(job.fire(Some(101), 105, &mut due));
    assert_eq!(job.last_run(), 101);
    assert_eq!(due, vec![1, 7]);
}

#[test]
fn fire_leaves_a_future_firing() {
    let mut job = ScheduledJob::with(every_second(), 7, 9, 100);
    let mut due = Vec::new();
    assert!(!job.fire(Some(106), 105, &mut due));
    assert!(!job.fire(Some(100), 105, &mut due));
    assert!(!job.fire(None, 105, &mut due));
    assert_eq!(job.last_run(), 100);
    assert!(due.is_empty());
    assert!(job.fire(Some(105), 105, &mut due));
    assert_eq!(job.last_run(), 105);
}

#[test]
fn tick_catches_up_on_every_missed_second() {
    let start = 1_700_000_000;
    let mut job = ScheduledJob::with(every_second(), 7, 9, start);
    let mut due = Vec::new();
    job.tick_at(start + 3, 0, &mut due);
    assert_eq!(due, vec![7, 7, 7]);
    assert_eq!(job.last_run(), start + 3);
    job.tick_at(start + 3, 0, &mut due);
    assert_eq!(due.len(), 3);
    job.tick_at(start + 2, 0, &mut due);
    assert_eq!(due.len(), 3);
    assert_eq!(job.last_run(), start + 3);
}

#[test]
fn tick_fires_only_on_the_schedule() {
    let every_ten = "0/10 * * * * *".to_string();
    let start = 1_700_000_000;
    let mut job = ScheduledJob::with(every_ten, 3, 4, start);
    let mut due = Vec::new();
    job.tick_at(start + 35, 0, &mut due);
    assert_eq!(due, vec![3, 3, 3]);
    assert_eq!(job.last_run(), start + 30);
}

#[test]
fn tick_does_not_look_before_the_epoch() {
    let mut job = ScheduledJob::with(every_second(), 7, 9, -5);
    let mut due = Vec::new();
    job.tick_at(10, 0, &mut due);
    assert!(due.is_empty());
    assert_eq!(job.last_run(), -5);
}

#[test]
fn scheduler_adds_in_order_and_removes_by_identifier() {
    let mut sched = CronScheduler::new();
    assert_eq!(sched.job_count(), 0);
    sched.add(ScheduledJob::with(every_second(), 1, 11, 0));
    sched.add(ScheduledJob::with(every_second(), 2, 22, 0));
    sched.add(ScheduledJob::with(every_second(), 3, 33, 0));
    assert_eq!(sched.job_count(), 3);
    sched.remove(22);
    let ids: Vec<u128> = sched.jobs.iter().map(|j| j.id()).collect();
    assert_eq!(ids, vec![11, 33]);
    sched.remove(99);
    assert_eq!(sched.job_count(), 2);
    sched.remove(11);
    sched.remove(33);
    assert_eq!(sched.job_count(), 0);
}

#[test]
fn scheduler_removes_every_job_of_an_identifier() {
    let mut sched = CronScheduler::new();
    sched.add(ScheduledJob::with(every_second(), 1, 5, 0));
    sched.add(ScheduledJob::with(every_second(), 2, 6, 0));
    sched.add(ScheduledJob::with(every_second(), 3, 5, 0));
    sched.remove(5);
    let ids: Vec<u128> = sched.jobs.iter().map(|j| j.id()).collect();
    assert_eq!(ids, vec![6]);
}

#[test]
fn scheduler_ticks_every_job_in_order() {
    let start = 1_700_000_000;
    let mut sched = CronScheduler::new();
    sched.add(ScheduledJob::with(every_second(), 1, 11, start));
    sched.add(ScheduledJob::with(every_second(), 2, 22, start + 1));
    let mut due = Vec::new();
    sched.tick_at(start + 2, 0, &mut due);
    assert_eq!(due, vec![1, 1, 2]);
    assert_eq!(sched.jobs[0].last_run(), start + 2);
    assert_eq!(sched.jobs[1].last_run(), start + 2);
}

#[test]
fn scheduler_ticks_by_the_clock() {
    let mut sched = CronScheduler::new();
    sched.add(ScheduledJob::from(every_second(), 1));
    let before = sched.jobs[0].last_run();
    let mut due = Vec::new();
    sched.tick(&mut due);
    let after = sched.jobs[0].last_run();
    assert!(after >= before);
    assert_eq!(due.len() as i64, after - before);
    let mut job = ScheduledJob::from(every_second(), 2);
    job.tick(&mut due);
    assert!(job.last_run() >= before);
}

#[test]
fn the_hour_is_read_on_the_offset_clock() {
    let at_three = "0 0 3 * * *".to_string();
    // 2023-11-14 22:13:20 UTC
    let start = 1_700_000_000;
    let midnight = 1_700_006_400;
    let mut utc = ScheduledJob::with(at_three.clone(), 1, 1, start);
    let mut due = Vec::new();
    utc.tick_at(start + 86_400, 0, &mut due);
    assert_eq!(utc.last_run(), midnight + 3 * 3600);
    let mut east = ScheduledJob::with(at_three.clone(), 1, 1, start);
    east.tick_at(start + 86_400, 2 * 3600, &mut due);
    assert_eq!(east.last_run(), midnight + 3600);
    assert_eq!(due, vec![1, 1]);
    let mut nowhere = ScheduledJob::with(at_three, 1, 1, start);
    nowhere.tick_at(start + 86_400, 86_400, &mut due);
    assert_eq!(nowhere.last_run(), start);
    assert_eq!(due.len(), 2);
}

#[test]
fn a_job_without_a_schedule_never_fires() {
    let mut job = ScheduledJob::with("not a cron".to_string(), 1, 1, 1_700_000_000);
    let mut due = Vec::new();
    job.tick_at(1_700_000_100, 0, &mut due);
    assert!(due.is_empty());
    assert_eq!(job.last_run(), 1_700_000_000);
}

#[test]
fn a_tick_before_the_last_firing_changes_nothing() {
    let mut sched = CronScheduler::new();
    sched.add(ScheduledJob::with(every_second(), 1, 11, 1_700_000_000));
    let mut due = vec![9u128];
    sched.tick_at(1_699_999_999, 0, &mut due);
    sched.tick_at(1_700_000_000, 0, &mut due);
    assert_eq!(due, vec![9]);
    assert_eq!(sched.jobs[0].last_run(), 1_700_000_000);
}
