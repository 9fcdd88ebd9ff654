use std::collections::HashMap;
use taskfleet::agentdb::{handle_request, Agent, AgentDb, Handling};
use taskfleet::message::{
    Action, Event, EventType, HostSpec, SyncConfig, TaskError, TaskResult, TaskSpec,
    TaskSpecError, TaskType, Timestamp, TriggerSpec,
};
use taskfleet::object::{Request, Response};

fn agent(name: &str) -> Agent {
    Agent {
        name: name.to_string(),
        server: "127.0.0.1:4000".to_string(),
        key: "secret".to_string(),
        pull: true,
        pull_interval: 30,
        report: true,
        report_interval: 60,
    }
}

fn hosts_task(ip: &str) -> TaskSpec {
    TaskSpec {
        name: "hosts".to_string(),
        task: TaskType::Hosts(HostSpec { ip: ip.to_string(), hosts: vec!["db".to_string()] }),
        on_error: Action::Retry { times: 2, interval: 5 },
        triggers: vec![TriggerSpec::Startup, TriggerSpec::Cron("0 0 * * * *".to_string())],
    }
}

#[test]
fn a_new_store_is_empty() {
    let db = AgentDb::new();
    assert!(db.list_agents().is_empty());
    assert!(db.get_agent(&1).is_none());
    assert!(db.agents().is_empty());
}

#[test]
fn agents_are_inserted_updated_and_removed() {
    let mut db = AgentDb::new();
    let a = db.insert_config(agent("a"));
    let b = db.insert_config(agent("b"));
    assert_ne!(a, b);
    let mut ids = db.list_agents();
    ids.sort();
    let mut expected = vec![a, b];
    expected.sort();
    assert_eq!(ids, expected);
    assert_eq!(db.get_agent(&a).unwrap().config.name, "a");
    assert!(db.get_agent(&a).unwrap().tasks.is_empty());
    assert_eq!(db.update_config(&a, agent("a2")), Some(()));
    assert_eq!(db.get_agent(&a).unwrap().config.name, "a2");
    assert_eq!(db.update_config(&12345, agent("x")), None);
    assert_eq!(db.list_agents().len(), 2);
    assert_eq!(db.remove(&a).unwrap().config.name, "a2");
    assert!(db.remove(&a).is_none());
    assert_eq!(db.list_agents(), vec![b]);
}

#[test]
fn tasks_are_inserted_updated_and_removed() {
    let mut db = AgentDb::new();
    db.insert_config_as(1, agent("a"));
    assert_eq!(db.insert_agent_task(&2, hosts_task("10.0.0.1")), None);
    let t = db.insert_agent_task(&1, hosts_task("10.0.0.1")).unwrap();
    assert_eq!(db.insert_agent_task_as(&1, 77, hosts_task("10.0.0.2")), Some(77));
    assert_eq!(db.get_agent(&1).unwrap().tasks.len(), 2);
    assert_eq!(db.get_agent(&1).unwrap().tasks[&t], hosts_task("10.0.0.1"));
    assert_eq!(db.update_agent_task(&1, &77, hosts_task("10.0.0.3")), Some(()));
    assert_eq!(db.get_agent(&1).unwrap().tasks[&77], hosts_task("10.0.0.3"));
    assert_eq!(db.update_agent_task(&1, &78, hosts_task("10.0.0.4")), None);
    assert_eq!(db.update_agent_task(&2, &77, hosts_task("10.0.0.4")), None);
    assert_eq!(db.get_agent(&1).unwrap().tasks.len(), 2);
    assert_eq!(db.remove_agent_task(&1, &77), Some(hosts_task("10.0.0.3")));
    assert_eq!(db.remove_agent_task(&1, &77), None);
    assert_eq!(db.remove_agent_task(&2, &t), None);
    assert_eq!(db.get_agent(&1).unwrap().tasks.len(), 1);
    assert_eq!(db.get_agent(&1).unwrap().config.name, "a");
}

#[test]
fn a_store_is_made_from_what_was_saved() {
    let mut first = AgentDb::new();
    first.insert_config_as(5, agent("five"));
    first.insert_agent_task_as(&5, 6, hosts_task("10.0.0.6"));
    let mut saved = HashMap::new();
    for (id, data) in first.agents() {
        let mut tasks = HashMap::new();
        for (tid, spec) in &data.tasks {
            tasks.insert(*tid, spec.dup());
        }
        saved.insert(*id, taskfleet::agentdb::AgentData { config: data.config.clone(), tasks });
    }
    let db = AgentDb::from_agents(saved);
    assert_eq!(db.list_agents(), vec![5]);
    assert_eq!(db.get_agent(&5).unwrap().tasks[&6], hosts_task("10.0.0.6"));
}

#[test]
fn a_pull_is_answered_with_the_agents_tasks() {
    let mut db = AgentDb::new();
    db.insert_config_as(1, agent("a"));
    db.insert_agent_task_as(&1, 10, hosts_task("10.0.0.1"));
    match handle_request(&db, Request::PullTask { id: 1 }) {
        Handling::SendTasks(tasks) => {
            assert_eq!(tasks.len(), 1);
            assert_eq!(tasks[&10], hosts_task("10.0.0.1"));
        }
        _ => panic!("the tasks were asked for"),
    }
    match handle_request(&db, Request::PullTask { id: 2 }) {
        Handling::Reply(resp) => assert_eq!(resp, Response::Error("Agent not found".to_string())),
        _ => panic!("an unknown agent gets an error"),
    }
}

#[test]
fn a_report_is_persisted() {
    let db = AgentDb::new();
    let event = Event {
        id: 3,
        type_: EventType::Run,
        start: Timestamp { secs: 1, nanos: 0 },
        end: Timestamp { secs: 2, nanos: 500 },
        result: Ok(TaskResult { status: None, message: "killed".to_string() }),
    };
    let mut log = HashMap::new();
    log.insert(8u128, vec![event.clone()]);
    match handle_request(&db, Request::ReportStatus { id: 1, log }) {
        Handling::Persist { id, log } => {
            assert_eq!(id, 1);
            assert_eq!(log[&8], vec![event.clone()]);
            assert_eq!(log[&8][0].dup(), event);
        }
        _ => panic!("a report is persisted"),
    }
}

#[test]
fn other_requests_are_refused() {
    let db = AgentDb::new();
    let requests = vec![
        Request::AddTask { id: 1, spec: hosts_task("10.0.0.1") },
        Request::RemoveTask { id: 1 },
        Request::ListTask,
        Request::Reload,
    ];
    for req in requests {
        match handle_request(&db, req) {
            Handling::Reply(resp) => {
                assert_eq!(resp, Response::Error("Unhandled request".to_string()))
            }
            _ => panic!("a reserved request is refused"),
        }
    }
}

#[test]
fn errors_have_their_messages() {
    assert_eq!(TaskSpecError::InvalidCronExpresion.message(), "invalid cron expression");
    assert_eq!(TaskError::TaskNotFound.message(), "task not found");
    assert_eq!(
        TaskError::TaskSpecError(TaskSpecError::InvalidCronExpresion).message(),
        "task spec error: invalid cron expression"
    );
    assert_eq!(
        TaskError::UnsupportedPlatform("macos".to_string()).message(),
        "unsupported platform: macos"
    );
    assert_eq!(TaskError::IoError("denied".to_string()).message(), "io error: denied");
    assert_eq!(TaskError::NetError("reset".to_string()).message(), "net error: reset");
    assert_eq!(TaskError::RuntimeError("boom".to_string()).message(), "runtime error: boom");
    assert_eq!(
        TaskError::from_spec_error(TaskSpecError::InvalidCronExpresion),
        TaskError::TaskSpecError(TaskSpecError::InvalidCronExpresion)
    );
}

#[test]
fn descriptions_compare_by_every_field() {
    let a = hosts_task("10.0.0.1");
    assert!(a.same_as(&a.dup()));
    assert_eq!(a.dup(), a);
    let mut b = a.dup();
    b.name = "other".to_string();
    assert!(!a.same_as(&b));
    let mut c = a.dup();
    c.on_error = Action::Ignore;
    assert!(!a.same_as(&c));
    let mut d = a.dup();
    d.triggers.reverse();
    assert!(!a.same_as(&d));
    assert!(a.task.same_as(&d.task));
    let mut e = a.dup();
    e.triggers.pop();
    assert!(!a.same_as(&e));
    assert!(!a.same_as(&hosts_task("10.0.0.2")));
    assert!(TriggerSpec::Immediate.same_as(&TriggerSpec::Immediate));
    assert!(!TriggerSpec::Immediate.same_as(&TriggerSpec::Startup));
    assert!(!TriggerSpec::Cron("a".to_string()).same_as(&TriggerSpec::Cron("b".to_string())));
    assert_eq!(TaskResult::success(), TaskResult { status: Some(0), message: String::new() });
}

#[test]
fn sync_config_holds_its_fields() {
    let c = SyncConfig {
        pull: true,
        server: "host:1".to_string(),
        pull_interval: 9,
        aes_key: "k".to_string(),
    };
    let d = c.clone();
    assert!(d.pull);
    assert_eq!(d.server, "host:1");
    assert_eq!(d.pull_interval, 9);
    assert_eq!(d.aes_key, "k");
}
