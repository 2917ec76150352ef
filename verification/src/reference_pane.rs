//! One pane of the reference board as the layout logic sees it: its
//! identity and whether it is pinned against closing.

use vstd::prelude::*;

verus! {

/// A board pane: identified by a running number, closable unless pinned.
#[derive(Clone, Copy)]
pub struct Pane {
    pub id: usize,
    pub is_pinned: bool,
}

impl Pane {
    /// A fresh pane starts unpinned.
    pub fn new(id: usize) -> (r: Self)
        ensures
            r.id == id,
            r.is_pinned == false,
    {
        Pane { id, is_pinned: false }
    }
}

} // verus!
