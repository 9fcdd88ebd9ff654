use std::collections::HashMap;
use taskfleet::manager::TaskManager;
use taskfleet::message::{
    Action, CommandSpec, Event, EventType, FileSpec, TaskError, TaskResult, TaskSpec,
    TaskSpecError, TaskType, Timestamp, TriggerSpec,
};
use taskfleet::scheduler::CronScheduler;
use taskfleet::task::{Task, TaskExecContext, TaskState};
use taskfleet::trigger::{CronTrigger, ImmediateTrigger, StartupTrigger, Trigger, TriggerTrait};
use taskfleet::job::AsyncTask;

fn echo(triggers: Vec<TriggerSpec>) -> TaskSpec {
    TaskSpec {
        name: "echo".to_string(),
        task: TaskType::Command(CommandSpec {
            cmd: "echo".to_string(),
            args: vec!["hi".to_string()],
            cwd: ".".to_string(),
            shell: false,
        }),
        on_error: Action::Ignore,
        triggers,
    }
}

fn cron(expr: &str) -> TriggerSpec {
    TriggerSpec::Cron(expr.to_string())
}

fn ok_result() -> Result<TaskResult, TaskError> {
    Ok(TaskResult { status: Some(0), message: String::new() })
}

fn bad_cron() -> Result<TaskResult, TaskError> {
    Err(TaskError::TaskSpecError(TaskSpecError::InvalidCronExpresion))
}

fn kinds(events: &[Event]) -> Vec<EventType> {
    events.iter().map(|e| e.type_).collect()
}

#[test]
fn cron_trigger_registers_one_job() {
    let mut sched = CronScheduler::new();
    let mut due = Vec::new();
    let mut t = CronTrigger::new("0/1 * * * * *".to_string());
    assert_eq!(t.job_id(), None);
    assert_eq!(t.install(5, &mut sched, &mut due), Ok(()));
    assert_eq!(sched.job_count(), 1);
    assert_eq!(sched.jobs[0].task(), 5);
    assert_eq!(t.job_id(), Some(sched.jobs[0].id()));
    assert!(due.is_empty());
    t.uninstall(&mut sched);
    assert_eq!(sched.job_count(), 0);
    assert_eq!(t.job_id(), None);
    t.uninstall(&mut sched);
    assert_eq!(sched.job_count(), 0);
}

#[test]
fn cron_trigger_refuses_a_bad_expression() {
    let mut sched = CronScheduler::new();
    let mut due = Vec::new();
    let mut t = CronTrigger::new("not a cron".to_string());
    assert_eq!(
        t.install(5, &mut sched, &mut due),
        Err(TaskError::TaskSpecError(TaskSpecError::InvalidCronExpresion))
    );
    assert_eq!(sched.job_count(), 0);
    assert_eq!(t.job_id(), None);
    assert!(due.is_empty());
}

#[test]
fn immediate_and_startup_triggers_owe_one_run() {
    let mut sched = CronScheduler::new();
    let mut due = Vec::new();
    let mut a = ImmediateTrigger::new();
    let mut b = StartupTrigger::new();
    assert_eq!(a.install(1, &mut sched, &mut due), Ok(()));
    assert_eq!(b.install(2, &mut sched, &mut due), Ok(()));
    assert_eq!(due, vec![1, 2]);
    assert_eq!(sched.job_count(), 0);
    a.uninstall(&mut sched);
    b.uninstall(&mut sched);
    assert_eq!(due, vec![1, 2]);
    let mut c = Trigger::make(&TriggerSpec::Immediate);
    assert_eq!(c.install(3, &mut sched, &mut due), Ok(()));
    assert_eq!(due, vec![1, 2, 3]);
}

#[test]
fn a_new_task_is_deactivated_and_silent() {
    let mut task = Task::new(42, echo(vec![TriggerSpec::Immediate]));
    assert_eq!(task.id(), 42);
    assert!(!task.is_activated());
    assert_eq!(task.spec(), &echo(vec![TriggerSpec::Immediate]));
    assert!(matches!(task.body(), AsyncTask::Command(_)));
    assert!(task.export_log().is_empty());
}

#[test]
fn activate_installs_in_order_and_records_each() {
    let mut sched = CronScheduler::new();
    let mut due = Vec::new();
    let mut task = Task::new(
        1,
        echo(vec![cron("0/1 * * * * *"), TriggerSpec::Immediate, cron("0 0 * * * *")]),
    );
    assert_eq!(task.activate(&mut sched, &mut due), Ok(()));
    assert!(task.is_activated());
    assert_eq!(sched.job_count(), 2);
    assert_eq!(due, vec![1]);
    let log = task.export_log();
    assert_eq!(kinds(&log), vec![EventType::TriggerInstall; 3]);
    assert!(log.iter().all(|e| e.result == ok_result()));
    assert!(log.iter().all(|e| e.start.secs <= e.end.secs && e.start.secs > 1_600_000_000));
}

#[test]
fn a_second_activate_is_a_no_op() {
    let mut sched = CronScheduler::new();
    let mut due = Vec::new();
    let mut task = Task::new(1, echo(vec![TriggerSpec::Immediate]));
    assert_eq!(task.activate(&mut sched, &mut due), Ok(()));
    assert!(task.begin_run().is_some());
    assert!(task.finish_run(ok_result()).is_none());
    assert_eq!(task.activate(&mut sched, &mut due), Ok(()));
    assert_eq!(due, vec![1]);
    let log = task.export_log();
    assert_eq!(kinds(&log), vec![EventType::TriggerInstall, EventType::Run]);
    assert!(log[1].start.secs > 1_600_000_000);
    assert_ne!(log[0].id, log[1].id);
}

#[test]
fn activate_stops_at_the_first_bad_trigger() {
    let mut sched = CronScheduler::new();
    let mut due = Vec::new();
    let mut task = Task::new(
        1,
        echo(vec![cron("0/1 * * * * *"), cron("not a cron"), TriggerSpec::Immediate]),
    );
    assert_eq!(
        task.activate(&mut sched, &mut due),
        Err(TaskError::TaskSpecError(TaskSpecError::InvalidCronExpresion))
    );
    assert!(!task.is_activated());
    assert_eq!(sched.job_count(), 1);
    assert!(due.is_empty());
    let log = task.export_log();
    assert_eq!(log.len(), 2);
    assert_eq!(log[0].result, ok_result());
    assert_eq!(log[1].result, bad_cron());
    // a retry installs the first trigger once more
    task.try_activate(&mut sched, &mut due);
    assert!(!task.is_activated());
    assert_eq!(sched.job_count(), 2);
    assert_eq!(task.export_log().len(), 2);
}

#[test]
fn deactivate_uninstalls_and_records_install_events() {
    let mut sched = CronScheduler::new();
    let mut due = Vec::new();
    let mut task = Task::new(1, echo(vec![cron("0/1 * * * * *"), TriggerSpec::Startup]));
    task.try_activate(&mut sched, &mut due);
    assert_eq!(sched.job_count(), 1);
    assert_eq!(task.export_log().len(), 2);
    task.deactivate(&mut sched);
    assert!(!task.is_activated());
    assert_eq!(sched.job_count(), 0);
    let log = task.export_log();
    assert_eq!(kinds(&log), vec![EventType::TriggerInstall; 2]);
    assert!(log.iter().all(|e| e.result == ok_result()));
    task.deactivate(&mut sched);
    assert!(task.export_log().is_empty());
}

#[test]
fn update_with_the_same_body_and_triggers_keeps_the_task() {
    let mut sched = CronScheduler::new();
    let mut due = Vec::new();
    let mut task = Task::new(1, echo(vec![cron("0/1 * * * * *"), TriggerSpec::Immediate]));
    task.try_activate(&mut sched, &mut due);
    let job = sched.jobs[0].id();
    let mut renamed = echo(vec![cron("0/1 * * * * *"), TriggerSpec::Immediate]);
    renamed.name = "renamed".to_string();
    renamed.on_error = Action::Retry { times: 3, interval: 10 };
    task.update(renamed.clone(), &mut sched, &mut due);
    assert!(task.is_activated());
    assert_eq!(task.spec(), &renamed);
    assert_eq!(sched.job_count(), 1);
    assert_eq!(sched.jobs[0].id(), job);
    assert_eq!(due, vec![1]);
    assert_eq!(task.export_log().len(), 2);
}

#[test]
fn update_with_new_triggers_rebuilds_them() {
    let mut sched = CronScheduler::new();
    let mut due = Vec::new();
    let mut task = Task::new(1, echo(vec![cron("0/1 * * * * *")]));
    task.try_activate(&mut sched, &mut due);
    let job = sched.jobs[0].id();
    task.update(echo(vec![cron("0/5 * * * * *"), TriggerSpec::Immediate]), &mut sched, &mut due);
    assert!(task.is_activated());
    assert_eq!(sched.job_count(), 1);
    assert_ne!(sched.jobs[0].id(), job);
    assert_eq!(due, vec![1]);
    // one install, one uninstall, two installs
    assert_eq!(task.export_log().len(), 4);
}

#[test]
fn update_with_a_new_body_rebuilds_it() {
    let mut sched = CronScheduler::new();
    let mut due = Vec::new();
    let mut task = Task::new(1, echo(vec![TriggerSpec::Immediate]));
    task.try_activate(&mut sched, &mut due);
    let mut spec = echo(vec![TriggerSpec::Immediate]);
    spec.task = TaskType::FileUpdate(FileSpec {
        path: "~/motd".to_string(),
        url: "http://example.org/motd".to_string(),
    });
    task.update(spec, &mut sched, &mut due);
    assert!(task.is_activated());
    assert!(matches!(task.body(), AsyncTask::FileUpdate(_)));
    assert_eq!(due, vec![1, 1]);
    assert_eq!(task.export_log().len(), 3);
}

#[test]
fn update_to_a_bad_expression_leaves_the_task_deactivated() {
    let mut sched = CronScheduler::new();
    let mut due = Vec::new();
    let mut task = Task::new(1, echo(vec![cron("0/1 * * * * *")]));
    task.try_activate(&mut sched, &mut due);
    task.update(echo(vec![cron("nonsense")]), &mut sched, &mut due);
    assert!(!task.is_activated());
    assert_eq!(sched.job_count(), 0);
    let log = task.export_log();
    assert_eq!(log.len(), 3);
    assert_eq!(log[2].result, bad_cron());
}

#[test]
fn context_log_is_a_queue_that_export_drains() {
    let mut ctx = TaskExecContext::new(AsyncTask::make(&echo(vec![]).task));
    for i in 0..5 {
        assert!(ctx.begin().is_some());
        assert!(ctx.run(Ok(TaskResult { status: Some(i), message: String::new() })).is_none());
    }
    ctx.record(EventType::Deactivate, Timestamp { secs: 9, nanos: 0 }, ok_result());
    let log = ctx.export_log();
    assert_eq!(log.len(), 6);
    for i in 0..5usize {
        assert_eq!(log[i].type_, EventType::Run);
        assert_eq!(log[i].result.as_ref().unwrap().status, Some(i as i32));
    }
    assert_eq!(log[5].type_, EventType::Deactivate);
    assert_eq!(log[5].start, Timestamp { secs: 9, nanos: 0 });
    assert!(ctx.export_log().is_empty());
    assert_eq!(ctx.run_history.len(), 0);
}

#[test]
fn task_state_has_two_values() {
    assert_ne!(TaskState::Activated, TaskState::Deactivated);
}

#[test]
fn reload_twice_changes_nothing() {
    let mut specs = HashMap::new();
    specs.insert(1u128, echo(vec![cron("0/1 * * * * *"), TriggerSpec::Immediate]));
    specs.insert(2u128, echo(vec![TriggerSpec::Startup]));
    let mut tm = TaskManager::new();
    assert_eq!(tm.reload(specs.clone()), Ok(()));
    assert_eq!(tm.task_count(), 2);
    assert_eq!(tm.job_count(), 1);
    assert!(tm.is_activated(1) && tm.is_activated(2));
    let mut due = tm.take_due();
    due.sort();
    assert_eq!(due, vec![1, 2]);
    assert_eq!(tm.reload(specs), Ok(()));
    assert_eq!(tm.task_count(), 2);
    assert_eq!(tm.job_count(), 1);
    assert!(tm.take_due().is_empty());
    let log = tm.export_log();
    assert_eq!(log[&1].len(), 2);
    assert_eq!(log[&2].len(), 1);
}

#[test]
fn reload_converges_to_the_new_set() {
    let mut first = HashMap::new();
    first.insert(1u128, echo(vec![cron("0/1 * * * * *")]));
    first.insert(2u128, echo(vec![cron("0/2 * * * * *")]));
    let mut second = HashMap::new();
    second.insert(1u128, echo(vec![cron("0/1 * * * * *")]));
    second.insert(3u128, echo(vec![TriggerSpec::Immediate]));
    let mut tm = TaskManager::new();
    assert_eq!(tm.reload(first), Ok(()));
    assert_eq!(tm.job_count(), 2);
    let before = tm.export_log();
    assert_eq!(before[&1].len(), 1);
    assert!(tm.begin_run(1).is_some());
    assert!(tm.finish_run(1, ok_result()).is_none());
    assert_eq!(tm.reload(second), Ok(()));
    assert!(tm.contains(1) && !tm.contains(2) && tm.contains(3));
    assert_eq!(tm.task_count(), 2);
    assert_eq!(tm.job_count(), 1);
    assert_eq!(tm.take_due(), vec![3]);
    let log = tm.export_log();
    // the task that stayed kept its run and got no new install
    assert_eq!(kinds(&log[&1]), vec![EventType::Run]);
    assert_eq!(kinds(&log[&3]), vec![EventType::TriggerInstall]);
}

#[test]
fn reload_removes_a_task_and_its_jobs() {
    let mut both = HashMap::new();
    both.insert(10u128, echo(vec![cron("0/1 * * * * *")]));
    both.insert(20u128, echo(vec![cron("0/1 * * * * *"), cron("0/3 * * * * *")]));
    let mut only_a = HashMap::new();
    only_a.insert(10u128, echo(vec![cron("0/1 * * * * *")]));
    let mut tm = TaskManager::new();
    assert_eq!(tm.reload(both), Ok(()));
    assert_eq!(tm.job_count(), 3);
    assert_eq!(tm.reload(only_a), Ok(()));
    assert!(!tm.contains(20));
    assert!(!tm.is_activated(20));
    assert_eq!(tm.job_count(), 1);
    assert_eq!(tm.reload(HashMap::new()), Ok(()));
    assert_eq!(tm.task_count(), 0);
    assert_eq!(tm.job_count(), 0);
}

#[test]
fn reload_keeps_a_task_with_a_bad_expression_deactivated() {
    let mut specs = HashMap::new();
    specs.insert(1u128, echo(vec![cron("not a cron")]));
    specs.insert(2u128, echo(vec![cron("0/1 * * * * *")]));
    let mut tm = TaskManager::new();
    assert_eq!(tm.reload(specs), Ok(()));
    assert!(tm.contains(1));
    assert!(!tm.is_activated(1));
    assert!(tm.is_activated(2));
    assert_eq!(tm.job_count(), 1);
    let log = tm.export_log();
    assert_eq!(log[&1].len(), 1);
    assert_eq!(log[&1][0].type_, EventType::TriggerInstall);
    assert_eq!(log[&1][0].result, bad_cron());
    assert_eq!(log[&2].len(), 1);
    assert_eq!(log[&2][0].result, ok_result());
}

#[test]
fn export_log_drains_every_task() {
    let mut specs = HashMap::new();
    specs.insert(1u128, echo(vec![TriggerSpec::Immediate]));
    specs.insert(2u128, echo(vec![]));
    let mut tm = TaskManager::new();
    assert_eq!(tm.reload(specs), Ok(()));
    assert!(tm.begin_run(1).is_some());
    assert!(tm.finish_run(1, ok_result()).is_none());
    assert!(tm.begin_run(1).is_some());
    assert!(tm.finish_run(1, Err(TaskError::IoError("disk".to_string()))).is_none());
    assert!(tm.begin_run(9).is_none());
    assert!(tm.finish_run(9, ok_result()).is_none());
    let log = tm.export_log();
    assert_eq!(log.len(), 2);
    assert_eq!(
        kinds(&log[&1]),
        vec![EventType::TriggerInstall, EventType::Run, EventType::Run]
    );
    assert_eq!(log[&1][1].result, ok_result());
    assert_eq!(log[&1][2].result, Err(TaskError::IoError("disk".to_string())));
    assert!(log[&2].is_empty());
    let again = tm.export_log();
    assert_eq!(again.len(), 2);
    assert!(again[&1].is_empty() && again[&2].is_empty());
}

#[test]
fn ticking_owes_runs_to_cron_tasks() {
    let mut specs = HashMap::new();
    specs.insert(7u128, echo(vec![cron("* * * * * *")]));
    let mut tm = TaskManager::new();
    assert_eq!(tm.reload(specs), Ok(()));
    assert!(tm.take_due().is_empty());
    tm.tick();
    let now = std::time::SystemTime::now()
        .duration_since(std::time::UNIX_EPOCH)
        .unwrap()
        .as_secs() as i64;
    tm.take_due();
    tm.tick_at(now + 3, 0);
    let due = tm.take_due();
    assert!(due.len() >= 2 && due.len() <= 4);
    assert!(due.iter().all(|id| *id == 7));
    assert!(tm.take_due().is_empty());
    assert!(matches!(tm.begin_run(7), Some(AsyncTask::Command(_))));
    assert!(tm.begin_run(8).is_none());
}

#[test]
fn add_task_activates_and_stores() {
    let mut tm = TaskManager::new();
    tm.add_task(4, echo(vec![TriggerSpec::Immediate, cron("0 0 0 * * *")]));
    assert!(tm.contains(4));
    assert!(tm.is_activated(4));
    assert_eq!(tm.job_count(), 1);
    assert_eq!(tm.take_due(), vec![4]);
}

#[test]
fn tick_driver_handle_is_kept_and_handed_out() {
    let rt = tokio::runtime::Builder::new_current_thread().build().unwrap();
    let mut tm = TaskManager::new();
    assert!(tm.stop_tick().is_none());
    assert!(tm.start_tick(rt.spawn(async {})).is_none());
    assert!(tm.start_tick(rt.spawn(async {})).is_some());
    let handle = tm.stop_tick().unwrap();
    handle.abort();
    assert!(tm.stop_tick().is_none());
    assert_eq!(tm.task_count(), 0);
}

#[test]
fn overlapping_firings_run_one_after_the_other() {
    let mut specs = HashMap::new();
    specs.insert(1u128, echo(vec![]));
    let mut tm = TaskManager::new();
    assert_eq!(tm.reload(specs), Ok(()));
    // two firings arrive before the first run has ended
    assert!(tm.begin_run(1).is_some());
    assert!(tm.begin_run(1).is_none());
    assert!(tm.export_log()[&1].is_empty());
    // the second run begins when the first has ended
    assert!(tm.finish_run(1, Ok(TaskResult { status: Some(1), message: String::new() })).is_some());
    assert!(tm.finish_run(1, Ok(TaskResult { status: Some(2), message: String::new() })).is_none());
    let log = tm.export_log();
    let runs = &log[&1];
    assert_eq!(kinds(runs), vec![EventType::Run, EventType::Run]);
    assert_eq!(runs[0].result.as_ref().unwrap().status, Some(1));
    assert_eq!(runs[1].result.as_ref().unwrap().status, Some(2));
    let at = |t: Timestamp| (t.secs, t.nanos);
    assert!(at(runs[0].start) <= at(runs[0].end));
    assert!(at(runs[0].end) <= at(runs[1].start));
    assert!(at(runs[1].start) <= at(runs[1].end));
    // and a third firing finds no run under way
    assert!(tm.begin_run(1).is_some());
}

#[test]
fn waiting_firings_are_run_once_each() {
    let mut task = Task::new(3, echo(vec![]));
    assert!(task.begin_run().is_some());
    assert!(task.begin_run().is_none());
    assert!(task.begin_run().is_none());
    assert!(task.finish_run(ok_result()).is_some());
    assert!(task.finish_run(ok_result()).is_some());
    assert!(task.finish_run(ok_result()).is_none());
    assert_eq!(task.export_log().len(), 3);
    // a run that never began is recorded all the same
    assert!(task.finish_run(ok_result()).is_none());
    assert_eq!(kinds(&task.export_log()), vec![EventType::Run]);
}
