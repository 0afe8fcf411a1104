//! Queue entries, the state of one guild's queue, and the store that keeps it.

use vstd::prelude::*;

verus! {

/// One person waiting for a waffle.
#[derive(Debug, PartialEq, Eq)]
pub struct QueueEntry {
    pub user_id: String,
    pub display_name: String,
}

/// What a [`QueueEntry`] holds, as plain text.
pub struct EntryView {
    pub user_id: Seq<char>,
    pub display_name: Seq<char>,
}

impl View for QueueEntry {
    type V = EntryView;

    open spec fn view(&self) -> EntryView {
        EntryView { user_id: self.user_id@, display_name: self.display_name@ }
    }
}

impl Clone for QueueEntry {
    fn clone(&self) -> (copy: Self)
        ensures
            copy == *self,
    {
        QueueEntry { user_id: self.user_id.clone(), display_name: self.display_name.clone() }
    }
}

impl QueueEntry {
    /// The entry of the user `user_id`, shown as `display_name`.
    pub fn new(user_id: String, display_name: String) -> (entry: Self)
        ensures
            entry.user_id == user_id,
            entry.display_name == display_name,
    {
        Self { user_id, display_name }
    }
}

/// The views of a run of entries, in the same order.
pub open spec fn entry_views(entries: Seq<QueueEntry>) -> Seq<EntryView> {
    entries.map_values(|e: QueueEntry| e@)
}

/// The user ids of a run of entries, in the same order.
pub open spec fn user_ids(entries: Seq<EntryView>) -> Seq<Seq<char>> {
    entries.map_values(|e: EntryView| e.user_id)
}

/// `at` is where `user_id` stands in `entries`: the index of the first entry
/// with that user id, or `None` when no entry has it.
pub open spec fn is_position_of(entries: Seq<EntryView>, user_id: Seq<char>, at: Option<int>) -> bool {
    match at {
        Some(i) => {
            &&& 0 <= i < entries.len()
            &&& entries[i].user_id == user_id
            &&& forall|j: int| 0 <= j < i ==> entries[j].user_id != user_id
        },
        None => forall|j: int| 0 <= j < entries.len() ==> entries[j].user_id != user_id,
    }
}

/// The queue of one guild: whether it takes new entries, and the entries
/// waiting, earliest first.
pub struct TenantQueueState {
    pub is_open: bool,
    pub entries: Seq<EntryView>,
}

impl TenantQueueState {
    /// The state of a guild that nothing has touched yet: closed and empty.
    pub open spec fn initial() -> Self {
        TenantQueueState { is_open: false, entries: Seq::empty() }
    }

    /// Whether an entry with this user id is waiting.
    pub open spec fn has_user(self, user_id: Seq<char>) -> bool {
        exists|i: int| 0 <= i < self.entries.len() && self.entries[i].user_id == user_id
    }

    /// No user waits twice, and nobody waits while the queue is closed.
    pub open spec fn well_formed(self) -> bool {
        &&& forall|i: int, j: int|
            0 <= i < j < self.entries.len() ==> self.entries[i].user_id != self.entries[j].user_id
        &&& (!self.is_open ==> self.entries.len() == 0)
    }

    /// The queue opened for new entries; those waiting stay.
    pub open spec fn opened(self) -> Self {
        TenantQueueState { is_open: true, entries: self.entries }
    }

    /// The queue closed and drained.
    pub open spec fn closed(self) -> Self {
        TenantQueueState { is_open: false, entries: Seq::empty() }
    }

    /// The queue drained; open or closed, it stays as it was.
    pub open spec fn cleared(self) -> Self {
        TenantQueueState { is_open: self.is_open, entries: Seq::empty() }
    }

    /// `entry` added at the tail.
    pub open spec fn appended(self, entry: EntryView) -> Self {
        TenantQueueState { is_open: self.is_open, entries: self.entries.push(entry) }
    }

    /// The queue after `entry` asked to join: added at the tail when the queue
    /// is open and the user does not wait yet, unchanged otherwise.
    pub open spec fn enrolled(self, entry: EntryView) -> Self {
        if self.is_open && !self.has_user(entry.user_id) {
            self.appended(entry)
        } else {
            self
        }
    }

    /// How many entries a request for `n` takes from the front.
    pub open spec fn served(self, n: nat) -> nat {
        if n <= self.entries.len() {
            n
        } else {
            self.entries.len()
        }
    }

    /// The entries that a request for `n` takes from the front, earliest first.
    pub open spec fn front(self, n: nat) -> Seq<EntryView> {
        self.entries.take(self.served(n) as int)
    }

    /// What is left once a request for `n` has been served.
    pub open spec fn without_front(self, n: nat) -> Self {
        TenantQueueState { is_open: self.is_open, entries: self.entries.skip(self.served(n) as int) }
    }
}

/// How an attempt to join a queue ended.
#[derive(Debug, Clone, Copy, PartialEq, Eq, Structural)]
pub enum Enrollment {
    /// The entry was added at the tail; the queue now has this many entries.
    Enrolled(usize),
    /// The user already waits, at this position counted from 0; nothing changed.
    AlreadyPresent(usize),
    /// The queue is closed; nothing changed.
    Closed,
}

/// Why a store could not answer.
#[derive(Debug, Clone, Copy, PartialEq, Eq, Structural)]
pub enum StorageError {
    /// The storage behind the store could not be reached.
    Unavailable,
}

/// A store of guild queues: for each guild an open flag and an ordered list
/// of entries.
///
/// An operation that fails leaves every queue as it was.
///
/// The contracts below are what [`crate::tenant_queue::TenantQueue`] and the
/// commands rely on. For a store of this library they are proved. A store
/// written elsewhere is taken at its word.
pub trait QueueRepository {
    /// The queue that the store holds for `guild_id`.
    ///
    /// A store of this library says what that is. For any other store it is
    /// some function of the store's value of which nothing is known but what
    /// the contracts of the methods say.
    open spec fn tenant(&self, guild_id: Seq<char>) -> TenantQueueState {
        arbitrary::<spec_fn(&Self, Seq<char>) -> TenantQueueState>()(self, guild_id)
    }

    /// Whether every operation on this store succeeds. Unless a store says so,
    /// it may fail.
    open spec fn dependable(&self) -> bool {
        false
    }

    /// Opens the queue of `guild_id` for new entries.
    fn open(&mut self, guild_id: &str)
        ensures
            final(self).tenant(guild_id@) == old(self).tenant(guild_id@).opened(),
            forall|g: Seq<char>| g != guild_id@ ==> final(self).tenant(g) == old(self).tenant(g),
            final(self).dependable() == old(self).dependable(),
    ;

    /// Closes the queue of `guild_id` and drains it.
    fn close(&mut self, guild_id: &str) -> (done: Result<(), StorageError>)
        ensures
            done is Ok ==> final(self).tenant(guild_id@) == old(self).tenant(guild_id@).closed(),
            done is Err ==> final(self).tenant(guild_id@) == old(self).tenant(guild_id@),
            forall|g: Seq<char>| g != guild_id@ ==> final(self).tenant(g) == old(self).tenant(g),
            final(self).dependable() == old(self).dependable(),
            old(self).dependable() ==> done is Ok,
    ;

    /// Whether the queue of `guild_id` is open.
    fn is_open(&self, guild_id: &str) -> (open: bool)
        ensures
            open == self.tenant(guild_id@).is_open,
    ;

    /// Where `user_id` stands in the queue of `guild_id`, counted from 0 at the
    /// front.
    fn index_of(&self, guild_id: &str, user_id: &str) -> (found: Result<Option<usize>, StorageError>)
        ensures
            found matches Ok(Some(i)) ==> is_position_of(
                self.tenant(guild_id@).entries,
                user_id@,
                Some(i as int),
            ),
            found matches Ok(None) ==> is_position_of(self.tenant(guild_id@).entries, user_id@, None),
            self.dependable() ==> found is Ok,
    ;

    /// How many entries wait in the queue of `guild_id`.
    fn size(&self, guild_id: &str) -> (count: Result<usize, StorageError>)
        ensures
            count matches Ok(n) ==> n == self.tenant(guild_id@).entries.len(),
            self.dependable() ==> count is Ok,
    ;

    /// Adds `entry` at the tail of the queue of `guild_id`, unless the queue is
    /// closed or the user already waits there, and tells which of the three it
    /// was. Looking and adding are one step of the store. A closed queue is
    /// told without fail.
    fn push(&mut self, guild_id: &str, entry: QueueEntry) -> (outcome: Result<
        Enrollment,
        StorageError,
    >)
        ensures
            match outcome {
                Ok(Enrollment::Enrolled(size)) => {
                    &&& old(self).tenant(guild_id@).is_open
                    &&& !old(self).tenant(guild_id@).has_user(entry.user_id@)
                    &&& size == old(self).tenant(guild_id@).entries.len() + 1
                },
                Ok(Enrollment::AlreadyPresent(position)) => {
                    &&& old(self).tenant(guild_id@).is_open
                    &&& is_position_of(
                        old(self).tenant(guild_id@).entries,
                        entry.user_id@,
                        Some(position as int),
                    )
                },
                Ok(Enrollment::Closed) => !old(self).tenant(guild_id@).is_open,
                Err(_) => old(self).tenant(guild_id@).is_open,
            },
            outcome is Ok ==> final(self).tenant(guild_id@) == old(self).tenant(guild_id@).enrolled(
                entry@,
            ),
            outcome is Err ==> final(self).tenant(guild_id@) == old(self).tenant(guild_id@),
            forall|g: Seq<char>| g != guild_id@ ==> final(self).tenant(g) == old(self).tenant(g),
            final(self).dependable() == old(self).dependable(),
            old(self).dependable() ==> outcome is Ok,
    ;

    /// Removes the entry at the front of the queue of `guild_id` and returns it;
    /// `None` when the queue is empty.
    fn pop(&mut self, guild_id: &str) -> (front: Result<Option<QueueEntry>, StorageError>)
        ensures
            front matches Ok(Some(e)) ==> {
                &&& old(self).tenant(guild_id@).entries.len() > 0
                &&& e@ == old(self).tenant(guild_id@).entries[0]
                &&& final(self).tenant(guild_id@) == old(self).tenant(guild_id@).without_front(1)
            },
            front matches Ok(None) ==> {
                &&& old(self).tenant(guild_id@).entries.len() == 0
                &&& final(self).tenant(guild_id@) == old(self).tenant(guild_id@)
            },
            front is Err ==> final(self).tenant(guild_id@) == old(self).tenant(guild_id@),
            forall|g: Seq<char>| g != guild_id@ ==> final(self).tenant(g) == old(self).tenant(g),
            final(self).dependable() == old(self).dependable(),
            old(self).dependable() ==> front is Ok,
    ;

    /// Removes up to `n` entries from the front of the queue of `guild_id` and
    /// returns them, earliest first: all of them when fewer than `n` wait.
    fn pop_n(&mut self, guild_id: &str, n: usize) -> (taken: Result<Vec<QueueEntry>, StorageError>)
        ensures
            taken matches Ok(entries) ==> {
                &&& entry_views(entries@) == old(self).tenant(guild_id@).front(n as nat)
                &&& final(self).tenant(guild_id@) == old(self).tenant(guild_id@).without_front(n as nat)
            },
            taken is Err ==> final(self).tenant(guild_id@) == old(self).tenant(guild_id@),
            forall|g: Seq<char>| g != guild_id@ ==> final(self).tenant(g) == old(self).tenant(g),
            final(self).dependable() == old(self).dependable(),
            old(self).dependable() ==> taken is Ok,
    ;

    /// The entries of the queue of `guild_id`, earliest first. The queue stays
    /// as it is.
    fn list(&self, guild_id: &str) -> (all: Result<Vec<QueueEntry>, StorageError>)
        ensures
            all matches Ok(entries) ==> entry_views(entries@) == self.tenant(guild_id@).entries,
            self.dependable() ==> all is Ok,
    ;

    /// Drains the queue of `guild_id`; open or closed, it stays as it was.
    fn clear(&mut self, guild_id: &str) -> (done: Result<(), StorageError>)
        ensures
            done is Ok ==> final(self).tenant(guild_id@) == old(self).tenant(guild_id@).cleared(),
            done is Err ==> final(self).tenant(guild_id@) == old(self).tenant(guild_id@),
            forall|g: Seq<char>| g != guild_id@ ==> final(self).tenant(g) == old(self).tenant(g),
            final(self).dependable() == old(self).dependable(),
            old(self).dependable() ==> done is Ok,
    ;
}

} // verus!
