//! Performance-pad presets: the actions a pad row can be bound to, and a
//! named bundle of them.

use vstd::prelude::*;

verus! {

/// One action a performance pad can trigger.
#[derive(Clone, Copy, PartialEq, Eq, Structural, Debug)]
pub enum PadAction {
    Play,
    Cue,
    Sync,
    Loop,
}

/// A named, ordered assignment of actions to pads.
pub struct PadPreset {
    pub name: String,
    pub actions: Vec<PadAction>,
}

impl PadPreset {
    /// An empty preset under `name`.
    pub fn new(name: &str) -> (p: PadPreset)
        ensures
            p.name@ == name@,
            p.actions@.len() == 0,
    {
        PadPreset { name: name.to_owned(), actions: Vec::new() }
    }

    /// Bind the next pad to `action`.
    pub fn push_action(&mut self, action: PadAction)
        ensures
            final(self).name == old(self).name,
            final(self).actions@ == old(self).actions@.push(action),
    {
        self.actions.push(action);
    }
}

} // verus!
