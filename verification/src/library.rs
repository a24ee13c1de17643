//! The track library the interface lists: an ordered collection of track
//! paths.

use vstd::prelude::*;

verus! {

/// The tracks known to the browser, in insertion order.
pub struct Library {
    pub tracks: Vec<String>,
}

impl Library {
    /// An empty library.
    pub fn new() -> (l: Library)
        ensures
            l.tracks@.len() == 0,
    {
        Library { tracks: Vec::new() }
    }

    /// Add one track path at the end.
    pub fn add_track(&mut self, path: String)
        ensures
            final(self).tracks@ == old(self).tracks@.push(path),
    {
        self.tracks.push(path);
    }

    /// How many tracks are listed.
    pub fn len(&self) -> (n: usize)
        ensures
            n == self.tracks@.len(),
    {
        self.tracks.len()
    }
}

impl Default for Library {
    fn default() -> (l: Library)
        ensures
            l.tracks@.len() == 0,
    {
        Library::new()
    }
}

} // verus!
