//! A task tracker whose tasks live as checkbox lines of a plain-text
//! document.
//!
//! - [`text`]: white space, trimming, lines, and the few string operations
//!   the rest is built on.
//! - [`checkbox`]: how one line is read as a task and written from one.
//! - [`hash_map_task`]: a task, with what it said when it was loaded.
//! - [`store`]: the mathematical model of a store and of its operations.
//! - [`document`]: what a store makes of a document when it is written
//!   back.
//! - [`tasklist`]: the store itself.
//! - [`markdown`]: the document in memory.
//! - [`controller`]: the commands, with their confirmations.
//! - [`interact`]: the interactive session as a state machine.

pub mod checkbox;
pub mod controller;
pub mod document;
pub mod hash_map_task;
pub mod interact;
pub mod markdown;
pub mod store;
pub mod tasklist;
pub mod text;
