//! The controller's store: for each agent its configuration and the tasks
//! assigned to it, and what the controller does with a request.
//!
//! The store lives in memory. The host writes it out after every change and
//! reads it back at start.

use crate::clock::fresh_id;
use crate::manager::{keys_of, spec_views};
use crate::message::{TaskSpec, TaskSpecView};
use crate::object::{AgentEventLog, Request, Response, ResponseView};
use std::collections::HashMap;
use vstd::prelude::*;

verus! {

broadcast use vstd::std_specs::hash::group_hash_axioms;

/// An agent's configuration, as the controller keeps it.
#[derive(Debug, Clone)]
pub struct Agent {
    pub name: String,
    pub server: String,
    pub key: String,
    pub pull: bool,
    pub pull_interval: u64,
    pub report: bool,
    pub report_interval: u64,
}

pub struct AgentView {
    pub name: Seq<char>,
    pub server: Seq<char>,
    pub key: Seq<char>,
    pub pull: bool,
    pub pull_interval: u64,
    pub report: bool,
    pub report_interval: u64,
}

impl View for Agent {
    type V = AgentView;

    open spec fn view(&self) -> AgentView {
        AgentView {
            name: self.name@,
            server: self.server@,
            key: self.key@,
            pull: self.pull,
            pull_interval: self.pull_interval,
            report: self.report,
            report_interval: self.report_interval,
        }
    }
}

/// An agent's configuration and its tasks.
#[derive(Debug)]
pub struct AgentData {
    pub config: Agent,
    pub tasks: HashMap<u128, TaskSpec>,
}

pub struct AgentDataView {
    pub config: AgentView,
    pub tasks: Map<u128, TaskSpecView>,
}

impl View for AgentData {
    type V = AgentDataView;

    open spec fn view(&self) -> AgentDataView {
        AgentDataView { config: self.config@, tasks: spec_views(self.tasks@) }
    }
}

/// The view of each agent of `m`.
pub open spec fn agent_views(m: Map<u128, AgentData>) -> Map<u128, AgentDataView> {
    Map::new(|id: u128| m.contains_key(id), |id: u128| m[id]@)
}

/// A copy of a set of task descriptions.
pub fn dup_specs(m: &HashMap<u128, TaskSpec>) -> (r: HashMap<u128, TaskSpec>)
    ensures
        spec_views(r@) == spec_views(m@),
{
    let mut r: HashMap<u128, TaskSpec> = HashMap::new();
    let ids = keys_of(m);
    let mut i: usize = 0;
    while i < ids.len()
        invariant
            i <= ids.len(),
            ids@.to_set() == m@.dom(),
            forall|k: u128| #[trigger] r@.contains_key(k) ==> m@.contains_key(k) && r@[k]@ == m@[k]@,
            forall|j: int| 0 <= j < i ==> r@.contains_key(#[trigger] ids@[j]),
        decreases ids.len() - i,
    {
        let id = ids[i];
        let ghost before = r@;
        assert(ids@.to_set().contains(id));
        match m.get(&id) {
            Some(spec) => {
                r.insert(id, spec.dup());
            },
            None => {
                assert(false);
            },
        }
        assert forall|j: int| 0 <= j < i implies r@.contains_key(#[trigger] ids@[j]) by {
            assert(before.contains_key(ids@[j]));
        }
        i = i + 1;
    }
    proof {
        assert forall|k: u128| m@.contains_key(k) implies r@.contains_key(k) by {
            assert(ids@.to_set().contains(k));
            let j = choose|j: int| 0 <= j < ids@.len() && ids@[j] == k;
            assert(r@.contains_key(ids@[j]));
        }
        assert(spec_views(r@) =~= spec_views(m@));
    }
    r
}

/// The store of agents.
pub struct AgentDb {
    agent: HashMap<u128, AgentData>,
}

impl View for AgentDb {
    type V = Map<u128, AgentDataView>;

    closed spec fn view(&self) -> Map<u128, AgentDataView> {
        agent_views(self.agent@)
    }
}

impl AgentDb {
    /// A store without agents.
    pub fn new() -> (r: AgentDb)
        ensures
            r@ == Map::<u128, AgentDataView>::empty(),
    {
        let r = AgentDb { agent: HashMap::new() };
        assert(r@ =~= Map::<u128, AgentDataView>::empty());
        r
    }

    /// A store that holds `agent`.
    pub fn from_agents(agent: HashMap<u128, AgentData>) -> (r: AgentDb)
        ensures
            r@ == agent_views(agent@),
    {
        AgentDb { agent }
    }

    /// The agents, for the host to write out.
    pub fn agents(&self) -> (r: &HashMap<u128, AgentData>)
        ensures
            agent_views(r@) == self@,
    {
        &self.agent
    }

    /// The identifier of each agent, once, in no particular order.
    pub fn list_agents(&self) -> (r: Vec<u128>)
        ensures
            r@.no_duplicates(),
            r@.to_set() == self@.dom(),
    {
        assert(self@.dom() =~= self.agent@.dom());
        keys_of(&self.agent)
    }

    /// Stores `v` as a new agent without tasks, inserted under `uuid`.
    pub fn insert_config_as(&mut self, uuid: u128, v: Agent)
        ensures
            final(self)@ == old(self)@.insert(
                uuid,
                AgentDataView { config: v@, tasks: Map::empty() },
            ),
    {
        let data = AgentData { config: v, tasks: HashMap::new() };
        assert(data@.tasks =~= Map::<u128, TaskSpecView>::empty());
        self.agent.insert(uuid, data);
        assert(self@ =~= old(self)@.insert(
            uuid,
            AgentDataView { config: v@, tasks: Map::empty() },
        ));
    }

    /// Stores `v` as a new agent without tasks, under a fresh identifier,
    /// and returns the identifier.
    pub fn insert_config(&mut self, v: Agent) -> (uuid: u128)
        ensures
            final(self)@ == old(self)@.insert(
                uuid,
                AgentDataView { config: v@, tasks: Map::empty() },
            ),
    {
        let uuid = fresh_id();
        self.insert_config_as(uuid, v);
        uuid
    }

    /// Replaces the configuration of the agent `k`; `None` where there is
    /// no such agent.
    pub fn update_config(&mut self, k: &u128, v: Agent) -> (r: Option<()>)
        ensures
            r is Some == old(self)@.contains_key(*k),
            r is Some ==> final(self)@ == old(self)@.insert(
                *k,
                AgentDataView { config: v@, ..old(self)@[*k] },
            ),
            r is None ==> final(self)@ == old(self)@,
    {
        match self.agent.remove(k) {
            Some(mut data) => {
                data.config = v;
                self.agent.insert(*k, data);
                assert(self@ =~= old(self)@.insert(
                    *k,
                    AgentDataView { config: v@, ..old(self)@[*k] },
                ));
                Some(())
            },
            None => {
                assert(self@ =~= old(self)@);
                None
            },
        }
    }

    /// Takes the agent `k` out of the store; `None` where there is no such
    /// agent.
    pub fn remove(&mut self, k: &u128) -> (r: Option<AgentData>)
        ensures
            r is Some == old(self)@.contains_key(*k),
            r is Some ==> r.unwrap()@ == old(self)@[*k],
            final(self)@ == old(self)@.remove(*k),
    {
        let r = self.agent.remove(k);
        assert(self@ =~= old(self)@.remove(*k));
        r
    }

    /// The agent `k`; `None` where there is no such agent.
    pub fn get_agent(&self, k: &u128) -> (r: Option<&AgentData>)
        ensures
            r is Some == self@.contains_key(*k),
            r is Some ==> r.unwrap()@ == self@[*k],
    {
        self.agent.get(k)
    }

    /// Gives the agent `k` the task `v` under the identifier `id`.
    pub fn insert_agent_task_as(&mut self, k: &u128, id: u128, v: TaskSpec) -> (r: Option<u128>)
        ensures
            r is Some == old(self)@.contains_key(*k),
            r is Some ==> r == Some(id) && final(self)@ == old(self)@.insert(
                *k,
                AgentDataView { tasks: old(self)@[*k].tasks.insert(id, v@), ..old(self)@[*k] },
            ),
            r is None ==> final(self)@ == old(self)@,
    {
        match self.agent.remove(k) {
            Some(mut data) => {
                let ghost before = data@;
                data.tasks.insert(id, v);
                assert(data@.tasks =~= before.tasks.insert(id, v@));
                let ghost after = data@;
                self.agent.insert(*k, data);
                assert(self@ =~= old(self)@.insert(*k, after));
                Some(id)
            },
            None => {
                assert(self@ =~= old(self)@);
                None
            },
        }
    }

    /// Gives the agent `k` the task `v` under a fresh identifier and
    /// returns the identifier; `None` where there is no such agent.
    pub fn insert_agent_task(&mut self, k: &u128, v: TaskSpec) -> (r: Option<u128>)
        ensures
            r is Some == old(self)@.contains_key(*k),
            r is Some ==> final(self)@ == old(self)@.insert(
                *k,
                AgentDataView {
                    tasks: old(self)@[*k].tasks.insert(r.unwrap(), v@),
                    ..old(self)@[*k]
                },
            ),
            r is None ==> final(self)@ == old(self)@,
    {
        self.insert_agent_task_as(k, fresh_id(), v)
    }

    /// Replaces the task `tk` of the agent `ak`; `None` where there is no
    /// such agent or no such task.
    pub fn update_agent_task(&mut self, ak: &u128, tk: &u128, v: TaskSpec) -> (r: Option<()>)
        ensures
            r is Some == (old(self)@.contains_key(*ak) && old(self)@[*ak].tasks.contains_key(*tk)),
            r is Some ==> final(self)@ == old(self)@.insert(
                *ak,
                AgentDataView { tasks: old(self)@[*ak].tasks.insert(*tk, v@), ..old(self)@[*ak] },
            ),
            r is None ==> final(self)@ == old(self)@,
    {
        match self.agent.remove(ak) {
            Some(mut data) => {
                let ghost before = data@;
                let found = data.tasks.contains_key(tk);
                if found {
                    data.tasks.insert(*tk, v);
                    assert(data@.tasks =~= before.tasks.insert(*tk, v@));
                }
                let ghost after = data@;
                self.agent.insert(*ak, data);
                if found {
                    assert(self@ =~= old(self)@.insert(*ak, after));
                    Some(())
                } else {
                    assert(after.tasks =~= before.tasks);
                    assert(self@ =~= old(self)@);
                    None
                }
            },
            None => {
                assert(self@ =~= old(self)@);
                None
            },
        }
    }

    /// Takes the task `tk` from the agent `ak`; `None` where there is no
    /// such agent or no such task.
    pub fn remove_agent_task(&mut self, ak: &u128, tk: &u128) -> (r: Option<TaskSpec>)
        ensures
            r is Some == (old(self)@.contains_key(*ak) && old(self)@[*ak].tasks.contains_key(*tk)),
            r is Some ==> r.unwrap()@ == old(self)@[*ak].tasks[*tk] && final(self)@ == old(
                self,
            )@.insert(
                *ak,
                AgentDataView { tasks: old(self)@[*ak].tasks.remove(*tk), ..old(self)@[*ak] },
            ),
            r is None ==> final(self)@ == old(self)@,
    {
        match self.agent.remove(ak) {
            Some(mut data) => {
                let ghost before = data@;
                let task = data.tasks.remove(tk);
                assert(data@.tasks =~= before.tasks.remove(*tk));
                let ghost after = data@;
                self.agent.insert(*ak, data);
                assert(self@ =~= old(self)@.insert(*ak, after));
                if task.is_none() {
                    assert(after.tasks =~= before.tasks);
                    assert(self@ =~= old(self)@);
                }
                task
            },
            None => {
                assert(self@ =~= old(self)@);
                None
            },
        }
    }
}

/// What the controller does with a request.
#[derive(Debug)]
pub enum Handling {
    /// Answer with these tasks, serialised as an object.
    SendTasks(HashMap<u128, TaskSpec>),
    /// Append the events to the agent's log files, then answer `Okay`.
    Persist { id: u128, log: AgentEventLog },
    /// Answer with this response.
    Reply(Response),
}

/// Decides what to do with `req`. A pull is answered with the agent's tasks
/// where the agent is known and with an error where it is not. A report is
/// persisted. Every other request is refused.
pub fn handle_request(agents: &AgentDb, req: Request) -> (r: Handling)
    ensures
        match req {
            Request::PullTask { id } => if agents@.contains_key(id) {
                r matches Handling::SendTasks(tasks) && spec_views(tasks@) == agents@[id].tasks
            } else {
                r matches Handling::Reply(resp) && resp@ == ResponseView::Error(
                    "Agent not found"@,
                )
            },
            Request::ReportStatus { id, log } => r matches Handling::Persist { id: i, log: l }
                && i == id && l == log,
            _ => r matches Handling::Reply(resp) && resp@ == ResponseView::Error(
                "Unhandled request"@,
            ),
        },
{
    match req {
        Request::PullTask { id } => match agents.get_agent(&id) {
            Some(data) => Handling::SendTasks(dup_specs(&data.tasks)),
            None => Handling::Reply(Response::err(String::from_str("Agent not found"))),
        },
        Request::ReportStatus { id, log } => Handling::Persist { id, log },
        _ => Handling::Reply(Response::err(String::from_str("Unhandled request"))),
    }
}

} // verus!
