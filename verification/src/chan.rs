//! A channel of the tree: identity, parentage, temporariness, membership and
//! listener subscriptions.

use vstd::prelude::*;

verus! {

/// A named group of sessions; id 0 is the pre-created Root.
#[derive(Clone, Debug)]
pub struct Channel {
    pub id: u32,
    /// `None` only for Root; every other channel's parent is in the tree.
    pub parent_id: Option<u32>,
    pub name: String,
    pub description: String,
    /// Temporary channels are garbage-collected once their membership
    /// empties.
    pub temporary: bool,
    /// Sessions currently in the channel; duplicate-free.
    pub members: Vec<u32>,
    /// Sessions subscribed to listen without being members; duplicate-free.
    pub listeners: Vec<u32>,
}

/// A well-formed channel: both id vectors are duplicate-free.
pub open spec fn channel_wf(c: Channel) -> bool {
    c.members@.no_duplicates() && c.listeners@.no_duplicates()
}

impl Channel {
    /// A fresh channel with no members and no listeners.
    pub fn new(
        id: u32,
        parent_id: Option<u32>,
        name: String,
        description: String,
        temporary: bool,
    ) -> (r: Channel)
        ensures
            channel_wf(r),
            r.id == id,
            r.parent_id == parent_id,
            r.name == name,
            r.description == description,
            r.temporary == temporary,
            r.members@.len() == 0,
            r.listeners@.len() == 0,
    {
        Channel { id, parent_id, name, description, temporary, members: Vec::new(),
            listeners: Vec::new() }
    }
}

} // verus!
