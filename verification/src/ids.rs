//! Generators of identifiers.

use vstd::prelude::*;

verus! {

/// Generator of unique ids. It hands out 1, 2, 3 and so on: 0 is never handed out.
#[derive(Debug, PartialEq, Eq)]
pub struct Id {
    state: u32,
}

impl Id {
    /// The id handed out last, or 0 if there was none.
    pub closed spec fn last(self) -> u32 {
        self.state
    }

    pub fn new() -> (r: Self)
        ensures
            r.last() == 0,
    {
        Self { state: 0 }
    }

    /// The id handed out last, or 0 if there was none.
    pub fn current(&self) -> (r: u32)
        ensures
            r == self.last(),
    {
        self.state
    }

    /// Hands out the next id.
    #[allow(clippy::should_implement_trait)]
    pub fn next(&mut self) -> (r: u32)
        requires
            old(self).last() < u32::MAX,
        ensures
            r == old(self).last() + 1,
            final(self).last() == r,
    {
        self.state += 1;
        self.state
    }
}

impl Clone for Id {
    fn clone(&self) -> (r: Self)
        ensures
            r == *self,
    {
        Id { state: self.state }
    }
}

impl Default for Id {
    fn default() -> (r: Self)
        ensures
            r.last() == 0,
    {
        Self::new()
    }
}

/// Used to package multiple channels into a single group.
#[derive(Debug)]
pub struct GroupId {
    group_ids: Id,
    channel_ids: Id,
}

/// The complete id of a channel of a group: the group in the upper half, the channel in the lower.
pub open spec fn complete_id(group_id: u32, channel_id: u32) -> nat {
    group_id as nat * 0x1_0000_0000 + channel_id as nat
}

impl GroupId {
    /// The group id handed out last, or 0 if there was none.
    pub closed spec fn last_group(self) -> u32 {
        self.group_ids.last()
    }

    /// The channel id handed out last, or 0 if there was none.
    pub closed spec fn last_channel(self) -> u32 {
        self.channel_ids.last()
    }

    /// Groups are handed out from 1 on, since 0 is reserved for downstreams without a group.
    pub fn new() -> (r: Self)
        ensures
            r.last_group() == 0,
            r.last_channel() == 0,
    {
        Self { group_ids: Id::new(), channel_ids: Id::new() }
    }

    /// Creates a group and returns its id.
    pub fn new_group_id(&mut self) -> (r: u32)
        requires
            old(self).last_group() < u32::MAX,
        ensures
            r == old(self).last_group() + 1,
            final(self).last_group() == r,
            final(self).last_channel() == old(self).last_channel(),
    {
        self.group_ids.next()
    }

    /// Creates a channel and returns its id. Channels are numbered across all groups: the group
    /// has no influence on the id.
    pub fn new_channel_id(&mut self, _group_id: u32) -> (r: u32)
        requires
            old(self).last_channel() < u32::MAX,
        ensures
            r == old(self).last_channel() + 1,
            final(self).last_channel() == r,
            final(self).last_group() == old(self).last_group(),
    {
        self.channel_ids.next()
    }

    /// Concatenates a group and a channel id into a complete id.
    pub fn into_complete_id(group_id: u32, channel_id: u32) -> (r: u64)
        ensures
            r == complete_id(group_id, channel_id),
    {
        group_id as u64 * 0x1_0000_0000 + channel_id as u64
    }

    /// Gets the group part from a complete id.
    pub fn into_group_id(complete_id: u64) -> (r: u32)
        ensures
            r == complete_id / 0x1_0000_0000,
    {
        (complete_id / 0x1_0000_0000) as u32
    }

    /// Gets the channel part from a complete id.
    pub fn into_channel_id(complete_id: u64) -> (r: u32)
        ensures
            r == complete_id % 0x1_0000_0000,
    {
        (complete_id % 0x1_0000_0000) as u32
    }
}

impl Default for GroupId {
    fn default() -> (r: Self)
        ensures
            r.last_group() == 0,
            r.last_channel() == 0,
    {
        Self::new()
    }
}

/// A complete id gives back the group and the channel that it was made of.
pub proof fn complete_id_parts(group_id: u32, channel_id: u32)
    ensures
        complete_id(group_id, channel_id) <= u64::MAX,
        complete_id(group_id, channel_id) / 0x1_0000_0000 == group_id,
        complete_id(group_id, channel_id) % 0x1_0000_0000 == channel_id,
{
}

/// The parts of a complete id, put together again, give that id: no two pairs share one.
pub proof fn complete_id_of_parts(id: u64)
    ensures
        complete_id((id / 0x1_0000_0000) as u32, (id % 0x1_0000_0000) as u32) == id,
{
}

} // verus!
