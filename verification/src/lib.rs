//! A verified task tracker core: an in-memory task collection with
//! add / complete / remove operations, a JSON codec for its backing file,
//! and command-line dispatch rules, all specified and proved.

use vstd::prelude::*;

pub mod strutil;
pub mod store;
pub mod command;
pub mod ser;
pub mod parse;
pub mod roundtrip;

verus! {

/// A single to-do entry: identifier, text, and completion flag.
#[derive(Clone, Debug)]
pub struct Task {
    pub id: u32,
    pub description: String,
    pub completed: bool,
}

/// The mathematical model of a task: the id, the description's characters,
/// and the completion flag.
pub struct TaskView {
    pub id: u32,
    pub description: Seq<char>,
    pub completed: bool,
}

impl View for Task {
    type V = TaskView;

    open spec fn view(&self) -> TaskView {
        TaskView { id: self.id, description: self.description@, completed: self.completed }
    }
}

/// The model of a whole collection: each task replaced by its view.
pub open spec fn views(ts: Seq<Task>) -> Seq<TaskView> {
    ts.map_values(|t: Task| t@)
}

} // verus!
