//! What an update leads to: the work that a component hands back, and what
//! becomes of it when the component runs as an application of its own.
use vstd::prelude::*;

verus! {

/// What an update of a component leads to: work that ends in messages of
/// the component's own, and work that ends in messages for whoever embeds
/// it. Both are kept in the order in which they were handed back.
pub struct Effects<TASK, XTASK> {
    pub local: Vec<TASK>,
    pub external: Vec<XTASK>,
}

/// What an update of an application leads to: work that ends in messages
/// of its own.
pub struct Cmd<TASK> {
    pub tasks: Vec<TASK>,
}

impl<TASK> Cmd<TASK> {
    /// No work.
    pub fn none() -> (out: Self)
        ensures
            out.tasks@.len() == 0,
    {
        Cmd { tasks: Vec::new() }
    }

    /// One piece of work.
    pub fn single(task: TASK) -> (out: Self)
        ensures
            out.tasks@ == seq![task],
    {
        let mut tasks: Vec<TASK> = Vec::new();
        tasks.push(task);
        Cmd { tasks }
    }
}

impl<TASK, XTASK> Effects<TASK, XTASK> {
    /// No work of either kind.
    pub fn none() -> (out: Self)
        ensures
            out.local@.len() == 0,
            out.external@.len() == 0,
    {
        Effects { local: Vec::new(), external: Vec::new() }
    }

    /// The effects of a component that nobody embeds, as those of an
    /// application: its own work stays as it is, and the work for others,
    /// which has nowhere to go, is dropped.
    pub fn into_cmd(self) -> (out: Cmd<TASK>)
        ensures
            out.tasks@ == self.local@,
    {
        Cmd { tasks: self.local }
    }
}

/// The first work of a component as that of an application: one command
/// for each task, in order.
pub fn commands_of<TASK>(tasks: Vec<TASK>) -> (out: Vec<Cmd<TASK>>)
    ensures
        out@.len() == tasks@.len(),
        forall|i: int| 0 <= i < tasks@.len() ==> (#[trigger] out@[i]).tasks@ == seq![tasks@[i]],
{
    let mut out: Vec<Cmd<TASK>> = Vec::new();
    for task in it: tasks
        invariant
            it.seq() == tasks@,
            out@.len() == it.index(),
            forall|i: int| 0 <= i < it.index() ==> (#[trigger] out@[i]).tasks@ == seq![tasks@[i]],
    {
        out.push(Cmd::single(task));
    }
    out
}

} // verus!
