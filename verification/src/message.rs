//! The task data model: what a task is, when it fires, and what is recorded
//! about each run.

use vstd::prelude::*;

verus! {

/// The text of each string of `v`, in order.
pub open spec fn texts(v: Seq<String>) -> Seq<Seq<char>> {
    Seq::new(v.len(), |i: int| v[i]@)
}

/// Copies a list of strings.
pub fn dup_strings(v: &Vec<String>) -> (r: Vec<String>)
    ensures
        texts(r@) == texts(v@),
{
    let mut r: Vec<String> = Vec::new();
    let mut i: usize = 0;
    while i < v.len()
        invariant
            i <= v.len(),
            r@.len() == i,
            forall|j: int| 0 <= j < i ==> r@[j]@ == v@[j]@,
        decreases v.len() - i,
    {
        r.push(v[i].clone());
        i = i + 1;
    }
    assert(texts(r@) =~= texts(v@));
    r
}

/// Whether two lists of strings hold the same texts in the same order.
pub fn same_strings(a: &Vec<String>, b: &Vec<String>) -> (r: bool)
    ensures
        r == (texts(a@) == texts(b@)),
{
    if a.len() != b.len() {
        assert(texts(a@).len() != texts(b@).len());
        return false;
    }
    let mut i: usize = 0;
    while i < a.len()
        invariant
            i <= a.len(),
            a.len() == b.len(),
            forall|j: int| 0 <= j < i ==> a@[j]@ == b@[j]@,
        decreases a.len() - i,
    {
        if a[i] != b[i] {
            assert(texts(a@)[i as int] != texts(b@)[i as int]);
            return false;
        }
        i = i + 1;
    }
    assert(texts(a@) =~= texts(b@));
    true
}

/// What to do when a run fails. Stored with the task; nothing in this crate
/// acts on it.
#[derive(Debug, Clone, Copy, PartialEq, Eq, Structural)]
pub enum Action {
    Retry { times: u8, interval: u64 },
    Ignore,
}

/// When a task fires.
#[derive(Debug, Clone, PartialEq, Eq, Hash)]
pub enum TriggerSpec {
    Cron(String),
    Immediate,
    Startup,
}

pub enum TriggerSpecView {
    Cron(Seq<char>),
    Immediate,
    Startup,
}

impl View for TriggerSpec {
    type V = TriggerSpecView;

    open spec fn view(&self) -> TriggerSpecView {
        match self {
            TriggerSpec::Cron(e) => TriggerSpecView::Cron(e@),
            TriggerSpec::Immediate => TriggerSpecView::Immediate,
            TriggerSpec::Startup => TriggerSpecView::Startup,
        }
    }
}

impl TriggerSpec {
    pub fn dup(&self) -> (r: TriggerSpec)
        ensures
            r@ == self@,
    {
        match self {
            TriggerSpec::Cron(e) => TriggerSpec::Cron(e.clone()),
            TriggerSpec::Immediate => TriggerSpec::Immediate,
            TriggerSpec::Startup => TriggerSpec::Startup,
        }
    }

    /// Same tag and same payload.
    pub fn same_as(&self, other: &TriggerSpec) -> (r: bool)
        ensures
            r == (self@ == other@),
    {
        match (self, other) {
            (TriggerSpec::Cron(a), TriggerSpec::Cron(b)) => *a == *b,
            (TriggerSpec::Immediate, TriggerSpec::Immediate) => true,
            (TriggerSpec::Startup, TriggerSpec::Startup) => true,
            _ => false,
        }
    }
}

/// The view of each trigger of `v`, in order.
pub open spec fn trigger_views(v: Seq<TriggerSpec>) -> Seq<TriggerSpecView> {
    Seq::new(v.len(), |i: int| v[i]@)
}

pub fn dup_triggers(v: &Vec<TriggerSpec>) -> (r: Vec<TriggerSpec>)
    ensures
        trigger_views(r@) == trigger_views(v@),
{
    let mut r: Vec<TriggerSpec> = Vec::new();
    let mut i: usize = 0;
    while i < v.len()
        invariant
            i <= v.len(),
            r@.len() == i,
            forall|j: int| 0 <= j < i ==> r@[j]@ == v@[j]@,
        decreases v.len() - i,
    {
        r.push(v[i].dup());
        i = i + 1;
    }
    assert(trigger_views(r@) =~= trigger_views(v@));
    r
}

/// Element-wise equality over the ordered sequence.
pub fn same_triggers(a: &Vec<TriggerSpec>, b: &Vec<TriggerSpec>) -> (r: bool)
    ensures
        r == (trigger_views(a@) == trigger_views(b@)),
{
    if a.len() != b.len() {
        assert(trigger_views(a@).len() != trigger_views(b@).len());
        return false;
    }
    let mut i: usize = 0;
    while i < a.len()
        invariant
            i <= a.len(),
            a.len() == b.len(),
            forall|j: int| 0 <= j < i ==> a@[j]@ == b@[j]@,
        decreases a.len() - i,
    {
        if !a[i].same_as(&b[i]) {
            assert(trigger_views(a@)[i as int] != trigger_views(b@)[i as int]);
            return false;
        }
        i = i + 1;
    }
    assert(trigger_views(a@) =~= trigger_views(b@));
    true
}

/// Download `url` to `path`; a leading `~` in `path` is the home directory.
#[derive(Debug, Clone, PartialEq, Eq)]
pub struct FileSpec {
    pub path: String,
    pub url: String,
}

pub struct FileSpecView {
    pub path: Seq<char>,
    pub url: Seq<char>,
}

impl View for FileSpec {
    type V = FileSpecView;

    open spec fn view(&self) -> FileSpecView {
        FileSpecView { path: self.path@, url: self.url@ }
    }
}

impl FileSpec {
    pub fn dup(&self) -> (r: FileSpec)
        ensures
            r@ == self@,
    {
        FileSpec { path: self.path.clone(), url: self.url.clone() }
    }

    pub fn same_as(&self, other: &FileSpec) -> (r: bool)
        ensures
            r == (self@ == other@),
    {
        self.path == other.path && self.url == other.url
    }
}

/// Run `cmd` with `args` in directory `cwd`, through the platform shell when
/// `shell` is set.
#[derive(Debug, Clone, PartialEq, Eq)]
pub struct CommandSpec {
    pub cmd: String,
    pub args: Vec<String>,
    pub cwd: String,
    pub shell: bool,
}

pub struct CommandSpecView {
    pub cmd: Seq<char>,
    pub args: Seq<Seq<char>>,
    pub cwd: Seq<char>,
    pub shell: bool,
}

impl View for CommandSpec {
    type V = CommandSpecView;

    open spec fn view(&self) -> CommandSpecView {
        CommandSpecView {
            cmd: self.cmd@,
            args: texts(self.args@),
            cwd: self.cwd@,
            shell: self.shell,
        }
    }
}

impl CommandSpec {
    pub fn dup(&self) -> (r: CommandSpec)
        ensures
            r@ == self@,
    {
        CommandSpec {
            cmd: self.cmd.clone(),
            args: dup_strings(&self.args),
            cwd: self.cwd.clone(),
            shell: self.shell,
        }
    }

    pub fn same_as(&self, other: &CommandSpec) -> (r: bool)
        ensures
            r == (self@ == other@),
    {
        self.cmd == other.cmd && same_strings(&self.args, &other.args) && self.cwd == other.cwd
            && self.shell == other.shell
    }
}

/// Make sure the hosts file maps `ip` to each name of `hosts`.
#[derive(Debug, Clone, PartialEq, Eq)]
pub struct HostSpec {
    pub ip: String,
    pub hosts: Vec<String>,
}

pub struct HostSpecView {
    pub ip: Seq<char>,
    pub hosts: Seq<Seq<char>>,
}

impl View for HostSpec {
    type V = HostSpecView;

    open spec fn view(&self) -> HostSpecView {
        HostSpecView { ip: self.ip@, hosts: texts(self.hosts@) }
    }
}

impl HostSpec {
    pub fn dup(&self) -> (r: HostSpec)
        ensures
            r@ == self@,
    {
        HostSpec { ip: self.ip.clone(), hosts: dup_strings(&self.hosts) }
    }

    pub fn same_as(&self, other: &HostSpec) -> (r: bool)
        ensures
            r == (self@ == other@),
    {
        self.ip == other.ip && same_strings(&self.hosts, &other.hosts)
    }
}

/// What a task does when it runs.
#[derive(Debug, Clone, PartialEq, Eq)]
pub enum TaskType {
    FileUpdate(FileSpec),
    Command(CommandSpec),
    Hosts(HostSpec),
}

pub enum TaskTypeView {
    FileUpdate(FileSpecView),
    Command(CommandSpecView),
    Hosts(HostSpecView),
}

impl View for TaskType {
    type V = TaskTypeView;

    open spec fn view(&self) -> TaskTypeView {
        match self {
            TaskType::FileUpdate(s) => TaskTypeView::FileUpdate(s@),
            TaskType::Command(s) => TaskTypeView::Command(s@),
            TaskType::Hosts(s) => TaskTypeView::Hosts(s@),
        }
    }
}

impl TaskType {
    pub fn dup(&self) -> (r: TaskType)
        ensures
            r@ == self@,
    {
        match self {
            TaskType::FileUpdate(s) => TaskType::FileUpdate(s.dup()),
            TaskType::Command(s) => TaskType::Command(s.dup()),
            TaskType::Hosts(s) => TaskType::Hosts(s.dup()),
        }
    }

    pub fn same_as(&self, other: &TaskType) -> (r: bool)
        ensures
            r == (self@ == other@),
    {
        match (self, other) {
            (TaskType::FileUpdate(a), TaskType::FileUpdate(b)) => a.same_as(b),
            (TaskType::Command(a), TaskType::Command(b)) => a.same_as(b),
            (TaskType::Hosts(a), TaskType::Hosts(b)) => a.same_as(b),
            _ => false,
        }
    }
}

/// The declarative description of a task.
#[derive(Debug, Clone, PartialEq, Eq)]
pub struct TaskSpec {
    pub name: String,
    pub task: TaskType,
    pub on_error: Action,
    pub triggers: Vec<TriggerSpec>,
}

pub struct TaskSpecView {
    pub name: Seq<char>,
    pub task: TaskTypeView,
    pub on_error: Action,
    pub triggers: Seq<TriggerSpecView>,
}

impl View for TaskSpec {
    type V = TaskSpecView;

    open spec fn view(&self) -> TaskSpecView {
        TaskSpecView {
            name: self.name@,
            task: self.task@,
            on_error: self.on_error,
            triggers: trigger_views(self.triggers@),
        }
    }
}

impl TaskSpec {
    pub fn dup(&self) -> (r: TaskSpec)
        ensures
            r@ == self@,
    {
        TaskSpec {
            name: self.name.clone(),
            task: self.task.dup(),
            on_error: self.on_error,
            triggers: dup_triggers(&self.triggers),
        }
    }

    /// All four fields compare equal.
    pub fn same_as(&self, other: &TaskSpec) -> (r: bool)
        ensures
            r == (self@ == other@),
    {
        self.name == other.name && self.task.same_as(&other.task) && self.on_error
            == other.on_error && same_triggers(&self.triggers, &other.triggers)
    }
}

/// How an agent reaches its controller.
#[derive(Debug, Clone)]
pub struct SyncConfig {
    pub pull: bool,
    pub server: String,
    pub pull_interval: u64,
    pub aes_key: String,
}

/// What is wrong with a task's description.
#[derive(Debug, Clone, Copy, PartialEq, Eq, Structural)]
pub enum TaskSpecError {
    InvalidCronExpresion,
}

impl TaskSpecError {
    /// The message shown for this error.
    pub fn message(&self) -> (r: String)
        ensures
            r@ == "invalid cron expression"@,
    {
        String::from_str("invalid cron expression")
    }
}

/// How a run ended: the exit code where there is one, 0 for success without
/// a code.
#[derive(Debug, Clone, PartialEq, Eq)]
pub struct TaskResult {
    pub status: Option<i32>,
    pub message: String,
}

pub struct TaskResultView {
    pub status: Option<i32>,
    pub message: Seq<char>,
}

impl View for TaskResult {
    type V = TaskResultView;

    open spec fn view(&self) -> TaskResultView {
        TaskResultView { status: self.status, message: self.message@ }
    }
}

impl TaskResult {
    /// Status 0 and an empty message.
    pub fn success() -> (r: TaskResult)
        ensures
            r@ == TaskResultView::success(),
    {
        TaskResult { status: Some(0), message: String::new() }
    }

    pub fn dup(&self) -> (r: TaskResult)
        ensures
            r@ == self@,
    {
        TaskResult { status: self.status, message: self.message.clone() }
    }
}

impl TaskResultView {
    pub open spec fn success() -> TaskResultView {
        TaskResultView { status: Some(0i32), message: Seq::empty() }
    }
}

/// Why a task or one of its runs failed.
#[derive(Debug, Clone, PartialEq, Eq)]
pub enum TaskError {
    TaskNotFound,
    TaskSpecError(TaskSpecError),
    UnsupportedPlatform(String),
    IoError(String),
    NetError(String),
    RuntimeError(String),
}

pub enum TaskErrorView {
    TaskNotFound,
    TaskSpecError(TaskSpecError),
    UnsupportedPlatform(Seq<char>),
    IoError(Seq<char>),
    NetError(Seq<char>),
    RuntimeError(Seq<char>),
}

impl View for TaskError {
    type V = TaskErrorView;

    open spec fn view(&self) -> TaskErrorView {
        match self {
            TaskError::TaskNotFound => TaskErrorView::TaskNotFound,
            TaskError::TaskSpecError(e) => TaskErrorView::TaskSpecError(*e),
            TaskError::UnsupportedPlatform(s) => TaskErrorView::UnsupportedPlatform(s@),
            TaskError::IoError(s) => TaskErrorView::IoError(s@),
            TaskError::NetError(s) => TaskErrorView::NetError(s@),
            TaskError::RuntimeError(s) => TaskErrorView::RuntimeError(s@),
        }
    }
}

impl TaskErrorView {
    /// The message shown for this error.
    pub open spec fn message(self) -> Seq<char> {
        match self {
            TaskErrorView::TaskNotFound => "task not found"@,
            TaskErrorView::TaskSpecError(e) => "task spec error: "@ + "invalid cron expression"@,
            TaskErrorView::UnsupportedPlatform(s) => "unsupported platform: "@ + s,
            TaskErrorView::IoError(s) => "io error: "@ + s,
            TaskErrorView::NetError(s) => "net error: "@ + s,
            TaskErrorView::RuntimeError(s) => "runtime error: "@ + s,
        }
    }
}

impl TaskError {
    pub fn dup(&self) -> (r: TaskError)
        ensures
            r@ == self@,
    {
        match self {
            TaskError::TaskNotFound => TaskError::TaskNotFound,
            TaskError::TaskSpecError(e) => TaskError::TaskSpecError(*e),
            TaskError::UnsupportedPlatform(s) => TaskError::UnsupportedPlatform(s.clone()),
            TaskError::IoError(s) => TaskError::IoError(s.clone()),
            TaskError::NetError(s) => TaskError::NetError(s.clone()),
            TaskError::RuntimeError(s) => TaskError::RuntimeError(s.clone()),
        }
    }

    /// The message shown for this error: a fixed prefix for the kind, then
    /// the detail it carries.
    pub fn message(&self) -> (r: String)
        ensures
            r@ == self@.message(),
    {
        match self {
            TaskError::TaskNotFound => String::from_str("task not found"),
            TaskError::TaskSpecError(e) => {
                let m = e.message();
                String::from_str("task spec error: ").concat(m.as_str())
            },
            TaskError::UnsupportedPlatform(s) => String::from_str("unsupported platform: ").concat(
                s.as_str(),
            ),
            TaskError::IoError(s) => String::from_str("io error: ").concat(s.as_str()),
            TaskError::NetError(s) => String::from_str("net error: ").concat(s.as_str()),
            TaskError::RuntimeError(s) => String::from_str("runtime error: ").concat(s.as_str()),
        }
    }

    /// A bad task description, as a task error.
    pub fn from_spec_error(e: TaskSpecError) -> (r: TaskError)
        ensures
            r@ == TaskErrorView::TaskSpecError(e),
    {
        TaskError::TaskSpecError(e)
    }
}

/// What an event records.
#[derive(Debug, Clone, Copy, PartialEq, Eq, Structural)]
pub enum EventType {
    TriggerInstall,
    Deactivate,
    Run,
}

/// A wall-clock instant: whole seconds since the Unix epoch and the
/// nanoseconds past them.
#[derive(Debug, Clone, Copy, PartialEq, Eq, Structural)]
pub struct Timestamp {
    pub secs: u64,
    pub nanos: u32,
}

/// How a body or an install ended.
pub type Outcome = Result<TaskResult, TaskError>;

pub open spec fn outcome_view(o: Outcome) -> Result<TaskResultView, TaskErrorView> {
    match o {
        Ok(r) => Ok(r@),
        Err(e) => Err(e@),
    }
}

pub fn dup_outcome(o: &Outcome) -> (r: Outcome)
    ensures
        outcome_view(r) == outcome_view(*o),
{
    match o {
        Ok(x) => Ok(x.dup()),
        Err(e) => Err(e.dup()),
    }
}

/// An immutable record of a trigger install, a deactivation or a run.
#[derive(Debug, PartialEq, Eq)]
pub struct Event {
    pub id: u128,
    pub type_: EventType,
    pub start: Timestamp,
    pub end: Timestamp,
    pub result: Outcome,
}

pub struct EventView {
    pub id: u128,
    pub type_: EventType,
    pub start: Timestamp,
    pub end: Timestamp,
    pub result: Result<TaskResultView, TaskErrorView>,
}

impl View for Event {
    type V = EventView;

    open spec fn view(&self) -> EventView {
        EventView {
            id: self.id,
            type_: self.type_,
            start: self.start,
            end: self.end,
            result: outcome_view(self.result),
        }
    }
}

impl Event {
    pub fn dup(&self) -> (r: Event)
        ensures
            r@ == self@,
    {
        Event {
            id: self.id,
            type_: self.type_,
            start: self.start,
            end: self.end,
            result: dup_outcome(&self.result),
        }
    }
}

impl Clone for Event {
    fn clone(&self) -> (r: Event)
        ensures
            r@ == self@,
    {
        self.dup()
    }
}

/// The view of each event of `v`, in order.
pub open spec fn event_views(v: Seq<Event>) -> Seq<EventView> {
    Seq::new(v.len(), |i: int| v[i]@)
}

} // verus!
