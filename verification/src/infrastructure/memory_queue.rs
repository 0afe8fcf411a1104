//! A queue store that keeps every guild's queue in memory.

use vstd::prelude::*;

use crate::domain::queue::{
    entry_views, Enrollment, EntryView, QueueEntry, QueueRepository, StorageError,
    TenantQueueState,
};

verus! {

/// The queue of one guild, as the store keeps it.
struct Tenant {
    guild_id: String,
    is_open: bool,
    entries: Vec<QueueEntry>,
}

impl Tenant {
    spec fn state(self) -> TenantQueueState {
        TenantQueueState { is_open: self.is_open, entries: entry_views(self.entries@) }
    }
}

/// The index of the last tenant of `tenants` that belongs to `guild_id`, or -1
/// when none does.
spec fn last_slot(tenants: Seq<Tenant>, guild_id: Seq<char>) -> int
    decreases tenants.len(),
{
    if tenants.len() == 0 {
        -1
    } else if tenants.last().guild_id@ == guild_id {
        tenants.len() - 1
    } else {
        last_slot(tenants.drop_last(), guild_id)
    }
}

/// The state that `tenants` holds for `guild_id`.
spec fn lookup(tenants: Seq<Tenant>, guild_id: Seq<char>) -> TenantQueueState {
    let at = last_slot(tenants, guild_id);
    if at >= 0 {
        tenants[at].state()
    } else {
        TenantQueueState::initial()
    }
}

proof fn lemma_last_slot(tenants: Seq<Tenant>, guild_id: Seq<char>)
    ensures
        -1 <= last_slot(tenants, guild_id) < tenants.len(),
        last_slot(tenants, guild_id) >= 0 ==> tenants[last_slot(tenants, guild_id)].guild_id@
            == guild_id,
        forall|j: int|
            last_slot(tenants, guild_id) < j < tenants.len() ==> tenants[j].guild_id@ != guild_id,
    decreases tenants.len(),
{
    if tenants.len() > 0 && tenants.last().guild_id@ != guild_id {
        let rest = tenants.drop_last();
        lemma_last_slot(rest, guild_id);
        assert forall|j: int| last_slot(tenants, guild_id) < j < tenants.len() implies tenants[j].guild_id@
            != guild_id by {
            if j < rest.len() {
                assert(rest[j] == tenants[j]);
            }
        }
    }
}

/// The slot of a guild depends on the guild ids alone.
proof fn lemma_last_slot_same_ids(before: Seq<Tenant>, after: Seq<Tenant>, guild_id: Seq<char>)
    requires
        before.len() == after.len(),
        forall|j: int| 0 <= j < before.len() ==> before[j].guild_id@ == after[j].guild_id@,
    ensures
        last_slot(before, guild_id) == last_slot(after, guild_id),
    decreases before.len(),
{
    if before.len() > 0 && before.last().guild_id@ != guild_id {
        lemma_last_slot_same_ids(before.drop_last(), after.drop_last(), guild_id);
    }
}

/// A queue store in memory. It never fails.
///
/// What a guild has is kept in one record, its open flag beside its entries,
/// so that the two change together.
pub struct MemoryQueueRepository {
    tenants: Vec<Tenant>,
}

impl MemoryQueueRepository {
    /// A store in which every guild is closed and has nobody waiting.
    pub fn new() -> (store: Self)
        ensures
            forall|g: Seq<char>| store.tenant(g) == TenantQueueState::initial(),
    {
        MemoryQueueRepository { tenants: Vec::new() }
    }

    /// The slot that holds `guild_id`, if the store has met the guild.
    fn slot(&self, guild_id: &str) -> (found: Option<usize>)
        ensures
            match found {
                Some(i) => i < self.tenants@.len() && i as int == last_slot(
                    self.tenants@,
                    guild_id@,
                ),
                None => last_slot(self.tenants@, guild_id@) == -1,
            },
    {
        let wanted: String = guild_id.to_owned();
        let mut i: usize = self.tenants.len();
        assert(self.tenants@.take(i as int) == self.tenants@);
        while i > 0
            invariant
                i <= self.tenants.len(),
                wanted@ == guild_id@,
                last_slot(self.tenants@, guild_id@) == last_slot(
                    self.tenants@.take(i as int),
                    guild_id@,
                ),
            decreases i,
        {
            i = i - 1;
            if self.tenants[i].guild_id == wanted {
                return Some(i);
            }
            assert(self.tenants@.take(i + 1).drop_last() == self.tenants@.take(i as int));
        }
        None
    }
}

/// A change of the tenant in slot `at`, which belongs to `guild_id`, shows in
/// the state of that guild and of no other.
proof fn lemma_update_slot(before: Seq<Tenant>, after: Seq<Tenant>, at: int, guild_id: Seq<char>)
    requires
        0 <= at < before.len(),
        at == last_slot(before, guild_id),
        after.len() == before.len(),
        forall|j: int| 0 <= j < before.len() ==> after[j].guild_id@ == before[j].guild_id@,
        forall|j: int| 0 <= j < before.len() && j != at ==> after[j].state() == before[j].state(),
    ensures
        lookup(after, guild_id) == after[at].state(),
        forall|g: Seq<char>| g != guild_id ==> lookup(after, g) == lookup(before, g),
{
    lemma_last_slot_same_ids(before, after, guild_id);
    assert forall|g: Seq<char>| g != guild_id implies lookup(after, g) == lookup(before, g) by {
        lemma_last_slot_same_ids(before, after, g);
        lemma_last_slot(before, g);
        lemma_last_slot(before, guild_id);
    }
}

impl MemoryQueueRepository {
    /// The slot that holds `guild_id`; a closed and empty one is added when the
    /// store has not met the guild yet.
    fn slot_or_new(&mut self, guild_id: &str) -> (at: usize)
        ensures
            at < final(self).tenants@.len(),
            at as int == last_slot(final(self).tenants@, guild_id@),
            forall|g: Seq<char>|
                lookup(final(self).tenants@, g) == lookup(old(self).tenants@, g),
    {
        match self.slot(guild_id) {
            Some(at) => {
                proof {
                    lemma_last_slot(self.tenants@, guild_id@);
                }
                at
            },
            None => {
                let fresh = Tenant {
                    guild_id: guild_id.to_owned(),
                    is_open: false,
                    entries: Vec::new(),
                };
                assert(entry_views(fresh.entries@) =~= Seq::empty());
                self.tenants.push(fresh);
                proof {
                    let before = old(self).tenants@;
                    let after = self.tenants@;
                    assert(after.drop_last() == before);
                    assert forall|g: Seq<char>| lookup(after, g) == lookup(before, g) by {
                        lemma_last_slot(before, g);
                    }
                }
                self.tenants.len() - 1
            },
        }
    }
}

impl QueueRepository for MemoryQueueRepository {
    closed spec fn tenant(&self, guild_id: Seq<char>) -> TenantQueueState {
        lookup(self.tenants@, guild_id)
    }

    open spec fn dependable(&self) -> bool {
        true
    }

    fn open(&mut self, guild_id: &str) {
        let at = self.slot_or_new(guild_id);
        let ghost before = self.tenants@;
        self.tenants[at].is_open = true;
        proof {
            lemma_update_slot(before, self.tenants@, at as int, guild_id@);
        }
    }

    fn close(&mut self, guild_id: &str) -> (done: Result<(), StorageError>) {
        if let Some(at) = self.slot(guild_id) {
            let ghost before = self.tenants@;
            self.tenants[at].is_open = false;
            self.tenants[at].entries.clear();
            proof {
                lemma_update_slot(before, self.tenants@, at as int, guild_id@);
                assert(entry_views(self.tenants@[at as int].entries@) =~= Seq::empty());
            }
        }
        Ok(())
    }

    fn is_open(&self, guild_id: &str) -> (open: bool) {
        match self.slot(guild_id) {
            Some(at) => {
                proof {
                    lemma_last_slot(self.tenants@, guild_id@);
                }
                self.tenants[at].is_open
            },
            None => false,
        }
    }

    fn index_of(&self, guild_id: &str, user_id: &str) -> (found: Result<Option<usize>, StorageError>) {
        match self.slot(guild_id) {
            Some(at) => {
                proof {
                    lemma_last_slot(self.tenants@, guild_id@);
                }
                let entries = &self.tenants[at].entries;
                let ghost waiting = entry_views(entries@);
                assert(self.tenant(guild_id@).entries == waiting);
                let wanted: String = user_id.to_owned();
                let mut i: usize = 0;
                while i < entries.len()
                    invariant
                        i <= entries.len(),
                        wanted@ == user_id@,
                        waiting == entry_views(entries@),
                        waiting == self.tenant(guild_id@).entries,
                        forall|j: int| 0 <= j < i ==> waiting[j].user_id != user_id@,
                    decreases entries.len() - i,
                {
                    if entries[i].user_id == wanted {
                        assert(waiting[i as int].user_id == user_id@);
                        return Ok(Some(i));
                    }
                    i = i + 1;
                }
                Ok(None)
            },
            None => Ok(None),
        }
    }

    fn size(&self, guild_id: &str) -> (count: Result<usize, StorageError>) {
        match self.slot(guild_id) {
            Some(at) => {
                proof {
                    lemma_last_slot(self.tenants@, guild_id@);
                }
                Ok(self.tenants[at].entries.len())
            },
            None => Ok(0),
        }
    }

    fn push(&mut self, guild_id: &str, entry: QueueEntry) -> (outcome: Result<
        Enrollment,
        StorageError,
    >) {
        if !self.is_open(guild_id) {
            return Ok(Enrollment::Closed);
        }
        let ghost waiting = self.tenant(guild_id@);
        match self.index_of(guild_id, entry.user_id.as_str()) {
            Err(e) => Err(e),
            Ok(Some(position)) => {
                assert(waiting.has_user(entry.user_id@)) by {
                    assert(waiting.entries[position as int].user_id == entry.user_id@);
                }
                Ok(Enrollment::AlreadyPresent(position))
            },
            Ok(None) => {
                let at = self.slot_or_new(guild_id);
                let ghost before = self.tenants@;
                self.tenants[at].entries.push(entry);
                proof {
                    lemma_update_slot(before, self.tenants@, at as int, guild_id@);
                    assert(entry_views(self.tenants@[at as int].entries@) == entry_views(
                        before[at as int].entries@,
                    ).push(entry@));
                }
                Ok(Enrollment::Enrolled(self.tenants[at].entries.len()))
            },
        }
    }

    fn pop(&mut self, guild_id: &str) -> (front: Result<Option<QueueEntry>, StorageError>) {
        let at = match self.slot(guild_id) {
            Some(at) => at,
            None => {
                return Ok(None);
            },
        };
        if self.tenants[at].entries.len() == 0 {
            return Ok(None);
        }
        let ghost before = self.tenants@;
        let entry = self.tenants[at].entries.remove(0);
        proof {
            lemma_update_slot(before, self.tenants@, at as int, guild_id@);
            assert(entry_views(self.tenants@[at as int].entries@) == entry_views(
                before[at as int].entries@,
            ).skip(1));
        }
        Ok(Some(entry))
    }

    fn pop_n(&mut self, guild_id: &str, n: usize) -> (taken: Result<Vec<QueueEntry>, StorageError>) {
        let at = match self.slot(guild_id) {
            Some(at) => at,
            None => {
                let nobody: Vec<QueueEntry> = Vec::new();
                assert(entry_views(nobody@) =~= self.tenant(guild_id@).front(n as nat));
                assert(self.tenant(guild_id@).without_front(n as nat).entries =~= Seq::empty());
                return Ok(nobody);
            },
        };
        let ghost before = self.tenants@;
        let waiting = self.tenants[at].entries.len();
        let served = if n <= waiting {
            n
        } else {
            waiting
        };
        let mut entries = self.tenants[at].entries.split_off(served);
        std::mem::swap(&mut self.tenants[at].entries, &mut entries);
        proof {
            lemma_update_slot(before, self.tenants@, at as int, guild_id@);
            assert(entry_views(self.tenants@[at as int].entries@) == entry_views(
                before[at as int].entries@,
            ).skip(served as int));
            assert(entry_views(entries@) == entry_views(before[at as int].entries@).take(
                served as int,
            ));
        }
        Ok(entries)
    }

    fn list(&self, guild_id: &str) -> (all: Result<Vec<QueueEntry>, StorageError>) {
        match self.slot(guild_id) {
            Some(at) => {
                proof {
                    lemma_last_slot(self.tenants@, guild_id@);
                }
                let entries = self.tenants[at].entries.clone();
                assert(entry_views(entries@) == entry_views(self.tenants@[at as int].entries@));
                Ok(entries)
            },
            None => {
                let entries: Vec<QueueEntry> = Vec::new();
                assert(entry_views(entries@) == Seq::<EntryView>::empty());
                Ok(entries)
            },
        }
    }

    fn clear(&mut self, guild_id: &str) -> (done: Result<(), StorageError>) {
        if let Some(at) = self.slot(guild_id) {
            let ghost before = self.tenants@;
            self.tenants[at].entries.clear();
            proof {
                lemma_update_slot(before, self.tenants@, at as int, guild_id@);
                assert(entry_views(self.tenants@[at as int].entries@) =~= Seq::empty());
            }
        }
        Ok(())
    }
}

} // verus!
