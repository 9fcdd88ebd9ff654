//! A fleet task manager's engine: the task and trigger data model, the
//! framed and encrypted control-channel codec, the cron scheduler, the task
//! state machine and the manager that reconciles a live task set against a
//! desired one.
//!
//! Every function here is sequential and free of I/O. A host program supplies
//! sockets, files, timers and task bodies, and drives these state machines.

pub mod agentdb;
pub mod buffer;
pub mod channel;
pub mod clock;
pub mod codec;
pub mod hosts;
pub mod job;
pub mod manager;
pub mod message;
pub mod object;
pub mod schedule;
pub mod scheduler;
pub mod sealing;
pub mod task;
pub mod text;
pub mod trigger;
