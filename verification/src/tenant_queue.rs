//! The waitlist of each guild: first come, first served, while it is open.

use vstd::prelude::*;

pub use crate::domain::queue::Enrollment;
use crate::domain::queue::{
    entry_views, is_position_of, QueueEntry, QueueRepository, StorageError, TenantQueueState,
};
use crate::queue_laws::{
    law_enrolling_keeps_well_formed, law_opening_and_closing_keep_well_formed,
    law_serving_keeps_well_formed,
};

verus! {

/// The waitlists of all guilds, kept in a store that this value alone writes to.
///
/// Whatever changes a queue takes the waitlists by `&mut`. Callers who share
/// them keep them behind a lock, and every operation is then one step for all
/// of them: of two who ask at once one is served first, and the other sees what
/// the first has left.
pub struct TenantQueue<R: QueueRepository> {
    store: R,
}

impl<R: QueueRepository> TenantQueue<R> {
    /// The queue of `guild_id`.
    pub closed spec fn tenant(&self, guild_id: Seq<char>) -> TenantQueueState {
        self.store.tenant(guild_id)
    }

    /// Whether every operation succeeds, which is so when the store never
    /// fails.
    pub closed spec fn dependable(&self) -> bool {
        self.store.dependable()
    }

    /// In no queue does a user wait twice, and in no closed queue does anybody
    /// wait. The operations below keep it so.
    pub open spec fn well_formed(&self) -> bool {
        forall|g: Seq<char>| #[trigger] self.tenant(g).well_formed()
    }

    /// The waitlists that `store` holds.
    pub fn new(store: R) -> (queue: Self)
        ensures
            forall|g: Seq<char>| queue.tenant(g) == store.tenant(g),
            queue.dependable() == store.dependable(),
    {
        TenantQueue { store }
    }

    /// Where one queue has changed from one well-formed state to another, or
    /// not at all, the waitlists are well formed as before.
    proof fn lemma_one_queue_changed(before: &Self, after: &Self, guild_id: Seq<char>)
        requires
            forall|g: Seq<char>| g != guild_id ==> after.tenant(g) == before.tenant(g),
            before.tenant(guild_id).well_formed() ==> after.tenant(guild_id).well_formed(),
        ensures
            before.well_formed() ==> after.well_formed(),
    {
        if before.well_formed() {
            assert forall|g: Seq<char>| #[trigger] after.tenant(g).well_formed() by {
                assert(before.tenant(g).well_formed());
            }
        }
    }

    /// Opens the queue of `guild_id` for new entries. Those waiting stay.
    pub fn open(&mut self, guild_id: &str)
        ensures
            final(self).tenant(guild_id@) == old(self).tenant(guild_id@).opened(),
            forall|g: Seq<char>| g != guild_id@ ==> final(self).tenant(g) == old(self).tenant(g),
            final(self).dependable() == old(self).dependable(),
            old(self).well_formed() ==> final(self).well_formed(),
    {
        self.store.open(guild_id);
        proof {
            if old(self).tenant(guild_id@).well_formed() {
                law_opening_and_closing_keep_well_formed(old(self).tenant(guild_id@));
            }
            Self::lemma_one_queue_changed(old(self), self, guild_id@);
        }
    }

    /// Closes the queue of `guild_id` and drains it, in one step.
    pub fn close(&mut self, guild_id: &str) -> (done: Result<(), StorageError>)
        ensures
            done is Ok ==> final(self).tenant(guild_id@) == old(self).tenant(guild_id@).closed(),
            done is Err ==> final(self).tenant(guild_id@) == old(self).tenant(guild_id@),
            forall|g: Seq<char>| g != guild_id@ ==> final(self).tenant(g) == old(self).tenant(g),
            final(self).dependable() == old(self).dependable(),
            old(self).well_formed() ==> final(self).well_formed(),
            old(self).dependable() ==> done is Ok,
    {
        let done = self.store.close(guild_id);
        proof {
            if old(self).tenant(guild_id@).well_formed() {
                law_opening_and_closing_keep_well_formed(old(self).tenant(guild_id@));
            }
            Self::lemma_one_queue_changed(old(self), self, guild_id@);
        }
        done
    }

    /// Whether the queue of `guild_id` is open. A guild that was never opened
    /// is closed.
    pub fn is_open(&self, guild_id: &str) -> (open: bool)
        ensures
            open == self.tenant(guild_id@).is_open,
    {
        self.store.is_open(guild_id)
    }

    /// Adds `entry` at the tail of the queue of `guild_id`, unless the queue is
    /// closed or the user already waits there. The check and the append are one
    /// step of the store: nothing can come between them.
    pub fn enroll(&mut self, guild_id: &str, entry: QueueEntry) -> (outcome: Result<
        Enrollment,
        StorageError,
    >)
        ensures
            match outcome {
                Ok(Enrollment::Enrolled(size)) => {
                    &&& old(self).tenant(guild_id@).is_open
                    &&& !old(self).tenant(guild_id@).has_user(entry.user_id@)
                    &&& size == old(self).tenant(guild_id@).entries.len() + 1
                },
                Ok(Enrollment::AlreadyPresent(position)) => {
                    &&& old(self).tenant(guild_id@).is_open
                    &&& is_position_of(
                        old(self).tenant(guild_id@).entries,
                        entry.user_id@,
                        Some(position as int),
                    )
                },
                Ok(Enrollment::Closed) => !old(self).tenant(guild_id@).is_open,
                Err(_) => old(self).tenant(guild_id@).is_open,
            },
            outcome is Ok ==> final(self).tenant(guild_id@) == old(self).tenant(guild_id@).enrolled(
                entry@,
            ),
            outcome is Err ==> final(self).tenant(guild_id@) == old(self).tenant(guild_id@),
            forall|g: Seq<char>| g != guild_id@ ==> final(self).tenant(g) == old(self).tenant(g),
            final(self).dependable() == old(self).dependable(),
            old(self).well_formed() ==> final(self).well_formed(),
            old(self).dependable() ==> outcome is Ok,
    {
        let outcome = self.store.push(guild_id, entry);
        proof {
            if old(self).tenant(guild_id@).well_formed() {
                law_enrolling_keeps_well_formed(old(self).tenant(guild_id@), entry@);
            }
            Self::lemma_one_queue_changed(old(self), self, guild_id@);
        }
        outcome
    }

    /// Where `user_id` stands in the queue of `guild_id`, counted from 0 at the
    /// front; `None` when the user does not wait there.
    pub fn index_of(&self, guild_id: &str, user_id: &str) -> (found: Result<
        Option<usize>,
        StorageError,
    >)
        ensures
            found matches Ok(Some(i)) ==> is_position_of(
                self.tenant(guild_id@).entries,
                user_id@,
                Some(i as int),
            ),
            found matches Ok(None) ==> is_position_of(self.tenant(guild_id@).entries, user_id@, None),
            self.dependable() ==> found is Ok,
    {
        self.store.index_of(guild_id, user_id)
    }

    /// How many entries wait in the queue of `guild_id`.
    pub fn size(&self, guild_id: &str) -> (count: Result<usize, StorageError>)
        ensures
            count matches Ok(n) ==> n == self.tenant(guild_id@).entries.len(),
            self.dependable() ==> count is Ok,
    {
        self.store.size(guild_id)
    }

    /// Removes the entry that has waited longest in the queue of `guild_id` and
    /// returns it; `None` when nobody waits.
    pub fn dequeue_one(&mut self, guild_id: &str) -> (front: Result<Option<QueueEntry>, StorageError>)
        ensures
            front matches Ok(Some(e)) ==> {
                &&& old(self).tenant(guild_id@).entries.len() > 0
                &&& e@ == old(self).tenant(guild_id@).entries[0]
            },
            front matches Ok(None) ==> old(self).tenant(guild_id@).entries.len() == 0,
            front is Ok ==> final(self).tenant(guild_id@) == old(self).tenant(guild_id@).without_front(1),
            front is Err ==> final(self).tenant(guild_id@) == old(self).tenant(guild_id@),
            forall|g: Seq<char>| g != guild_id@ ==> final(self).tenant(g) == old(self).tenant(g),
            final(self).dependable() == old(self).dependable(),
            old(self).well_formed() ==> final(self).well_formed(),
            old(self).dependable() ==> front is Ok,
    {
        let front = self.store.pop(guild_id);
        proof {
            let before = old(self).tenant(guild_id@);
            if before.entries.len() == 0 {
                assert(before.without_front(1).entries =~= before.entries);
            }
            if before.well_formed() {
                law_serving_keeps_well_formed(before, 1);
            }
            Self::lemma_one_queue_changed(old(self), self, guild_id@);
        }
        front
    }

    /// Removes up to `n` entries from the front of the queue of `guild_id` and
    /// returns them, earliest first. When fewer than `n` wait, all of them are
    /// returned; that is no error. With `n` 0 the store is not asked.
    pub fn dequeue_n(&mut self, guild_id: &str, n: usize) -> (taken: Result<
        Vec<QueueEntry>,
        StorageError,
    >)
        ensures
            taken matches Ok(entries) ==> {
                &&& entry_views(entries@) == old(self).tenant(guild_id@).front(n as nat)
                &&& final(self).tenant(guild_id@) == old(self).tenant(guild_id@).without_front(n as nat)
            },
            taken is Err ==> final(self).tenant(guild_id@) == old(self).tenant(guild_id@),
            forall|g: Seq<char>| g != guild_id@ ==> final(self).tenant(g) == old(self).tenant(g),
            final(self).dependable() == old(self).dependable(),
            old(self).well_formed() ==> final(self).well_formed(),
            old(self).dependable() || n == 0 ==> taken is Ok,
    {
        if n == 0 {
            let nobody: Vec<QueueEntry> = Vec::new();
            proof {
                let before = self.tenant(guild_id@);
                assert(entry_views(nobody@) =~= before.front(0));
                assert(before.without_front(0).entries =~= before.entries);
            }
            return Ok(nobody);
        }
        let taken = self.store.pop_n(guild_id, n);
        proof {
            if old(self).tenant(guild_id@).well_formed() {
                law_serving_keeps_well_formed(old(self).tenant(guild_id@), n as nat);
            }
            Self::lemma_one_queue_changed(old(self), self, guild_id@);
        }
        taken
    }

    /// The entries of the queue of `guild_id`, earliest first. The queue stays
    /// as it is.
    pub fn list(&self, guild_id: &str) -> (all: Result<Vec<QueueEntry>, StorageError>)
        ensures
            all matches Ok(entries) ==> entry_views(entries@) == self.tenant(guild_id@).entries,
            self.dependable() ==> all is Ok,
    {
        self.store.list(guild_id)
    }

    /// Drains the queue of `guild_id`; open or closed, it stays as it was.
    pub fn clear(&mut self, guild_id: &str) -> (done: Result<(), StorageError>)
        ensures
            done is Ok ==> final(self).tenant(guild_id@) == old(self).tenant(guild_id@).cleared(),
            done is Err ==> final(self).tenant(guild_id@) == old(self).tenant(guild_id@),
            forall|g: Seq<char>| g != guild_id@ ==> final(self).tenant(g) == old(self).tenant(g),
            final(self).dependable() == old(self).dependable(),
            old(self).well_formed() ==> final(self).well_formed(),
            old(self).dependable() ==> done is Ok,
    {
        let done = self.store.clear(guild_id);
        proof {
            if old(self).tenant(guild_id@).well_formed() {
                law_opening_and_closing_keep_well_formed(old(self).tenant(guild_id@));
            }
            Self::lemma_one_queue_changed(old(self), self, guild_id@);
        }
        done
    }
}

} // verus!
