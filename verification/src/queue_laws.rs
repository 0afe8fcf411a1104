//! What holds of every guild queue, whatever it has been through.

use vstd::prelude::*;

use crate::domain::queue::{is_position_of, EntryView, TenantQueueState};

verus! {

/// No two of `entries` have the same user id.
pub open spec fn distinct_users(entries: Seq<EntryView>) -> bool {
    forall|i: int, j: int| 0 <= i < j < entries.len() ==> entries[i].user_id != entries[j].user_id
}

impl TenantQueueState {
    /// The queue after each of `newcomers` asked to join, in that order.
    pub open spec fn enrolled_all(self, newcomers: Seq<EntryView>) -> Self
        decreases newcomers.len(),
    {
        if newcomers.len() == 0 {
            self
        } else {
            self.enrolled_all(newcomers.drop_last()).enrolled(newcomers.last())
        }
    }
}

/// A guild that nothing has touched is closed, has nobody waiting, and is well
/// formed.
pub proof fn law_initial_state()
    ensures
        !TenantQueueState::initial().is_open,
        TenantQueueState::initial().entries.len() == 0,
        TenantQueueState::initial().well_formed(),
{
}

/// Users with distinct ids who join an open queue in which none of them waits
/// are added behind those already waiting, in the order in which they joined,
/// and each stands at the place that this order gives: the `k`-th of them, counted
/// from 0, just behind the earlier ones.
pub proof fn law_enrollment_order(queue: TenantQueueState, newcomers: Seq<EntryView>)
    requires
        queue.is_open,
        distinct_users(newcomers),
        forall|k: int| 0 <= k < newcomers.len() ==> !queue.has_user(newcomers[k].user_id),
    ensures
        queue.enrolled_all(newcomers).is_open,
        queue.enrolled_all(newcomers).entries == queue.entries + newcomers,
        forall|k: int|
            0 <= k < newcomers.len() ==> is_position_of(
                queue.enrolled_all(newcomers).entries,
                #[trigger] newcomers[k].user_id,
                Some(queue.entries.len() + k),
            ),
    decreases newcomers.len(),
{
    if newcomers.len() == 0 {
        assert(queue.entries + newcomers =~= queue.entries);
    } else {
        let earlier = newcomers.drop_last();
        let last = newcomers.last();
        law_enrollment_order(queue, earlier);
        let so_far = queue.enrolled_all(earlier);
        assert(!so_far.has_user(last.user_id)) by {
            if so_far.has_user(last.user_id) {
                let i = choose|i: int|
                    0 <= i < so_far.entries.len() && so_far.entries[i].user_id == last.user_id;
                if i < queue.entries.len() {
                    assert(queue.entries[i].user_id == last.user_id);
                    assert(queue.has_user(newcomers[newcomers.len() - 1].user_id));
                } else {
                    assert(earlier[i - queue.entries.len()] == newcomers[i - queue.entries.len()]);
                }
            }
        }
        assert(so_far.entries.push(last) =~= queue.entries + newcomers);
    }
    let all = queue.enrolled_all(newcomers).entries;
    assert forall|k: int| 0 <= k < newcomers.len() implies is_position_of(
        all,
        #[trigger] newcomers[k].user_id,
        Some(queue.entries.len() + k),
    ) by {
        let at = queue.entries.len() + k;
        assert(all[at] == newcomers[k]);
        assert forall|j: int| 0 <= j < at implies all[j].user_id != newcomers[k].user_id by {
            if j < queue.entries.len() {
                if queue.entries[j].user_id == newcomers[k].user_id {
                    assert(queue.has_user(newcomers[k].user_id));
                }
            } else {
                assert(all[j] == newcomers[j - queue.entries.len()]);
            }
        }
    }
}

/// A user who already waits and asks to join again changes nothing: the queue
/// keeps its size, and everyone keeps their place.
pub proof fn law_second_enrollment_changes_nothing(queue: TenantQueueState, entry: EntryView)
    requires
        queue.has_user(entry.user_id),
    ensures
        queue.enrolled(entry) == queue,
        queue.enrolled(entry).entries.len() == queue.entries.len(),
        forall|user_id: Seq<char>, at: Option<int>|
            is_position_of(queue.entries, user_id, at) ==> is_position_of(
                queue.enrolled(entry).entries,
                user_id,
                at,
            ),
{
}

/// Of two requests to join an open queue for the same user, one after the
/// other, only the first adds an entry.
pub proof fn law_one_entry_per_user(queue: TenantQueueState, first: EntryView, second: EntryView)
    requires
        queue.is_open,
        !queue.has_user(first.user_id),
        first.user_id == second.user_id,
    ensures
        queue.enrolled(first).enrolled(second) == queue.enrolled(first),
        queue.enrolled(first).enrolled(second).entries.len() == queue.entries.len() + 1,
{
    let once = queue.enrolled(first);
    assert(once.entries[queue.entries.len() as int].user_id == second.user_id);
}

/// Once a queue is closed nobody waits in it and it is not open, whatever it
/// held before.
pub proof fn law_close_drains(queue: TenantQueueState)
    ensures
        queue.closed().entries == Seq::<EntryView>::empty(),
        !queue.closed().is_open,
{
}

/// Serving `n` splits the queue in two: what is served is its first `min(n,
/// size)` entries in their order, and what is left are the others in theirs.
pub proof fn law_dequeue_takes_a_prefix(queue: TenantQueueState, n: nat)
    ensures
        queue.served(n) == if n <= queue.entries.len() {
            n
        } else {
            queue.entries.len()
        },
        queue.front(n).len() == queue.served(n),
        queue.without_front(n).entries.len() == queue.entries.len() - queue.served(n),
        queue.front(n) + queue.without_front(n).entries == queue.entries,
        forall|i: int| 0 <= i < queue.served(n) ==> queue.front(n)[i] == queue.entries[i],
        forall|i: int|
            0 <= i < queue.entries.len() - queue.served(n) ==> queue.without_front(n).entries[i]
                == queue.entries[queue.served(n) + i],
        queue.without_front(n).is_open == queue.is_open,
{
    assert(queue.front(n) + queue.without_front(n).entries =~= queue.entries);
}

/// Serving moves everyone who stays forward by the number served: who stood at
/// place `at` behind those served stands at `at - min(n, size)` afterwards. In a
/// well-formed queue, who was served waits no longer.
pub proof fn law_serving_moves_the_rest_forward(
    queue: TenantQueueState,
    n: nat,
    user_id: Seq<char>,
    at: int,
)
    requires
        is_position_of(queue.entries, user_id, Some(at)),
    ensures
        at >= queue.served(n) ==> is_position_of(
            queue.without_front(n).entries,
            user_id,
            Some(at - queue.served(n)),
        ),
        at < queue.served(n) && queue.well_formed() ==> is_position_of(
            queue.without_front(n).entries,
            user_id,
            None,
        ),
{
    let served = queue.served(n) as int;
    let rest = queue.without_front(n).entries;
    if at >= served {
        assert(rest[at - served] == queue.entries[at]);
        assert forall|j: int| 0 <= j < at - served implies rest[j].user_id != user_id by {
            assert(rest[j] == queue.entries[j + served]);
        }
    } else if queue.well_formed() {
        assert forall|j: int| 0 <= j < rest.len() implies rest[j].user_id != user_id by {
            assert(rest[j] == queue.entries[j + served]);
        }
    }
}

/// Serving one at a time, `n` times, serves the same entries in the same order
/// as serving `n` at once, and leaves the same queue.
pub proof fn law_dequeue_one_by_one(queue: TenantQueueState, n: nat)
    ensures
        queue.without_front(n + 1) == queue.without_front(n).without_front(1),
        queue.front(n + 1) == queue.front(n) + queue.without_front(n).front(1),
{
    assert(queue.without_front(n + 1).entries =~= queue.without_front(n).without_front(1).entries);
    assert(queue.front(n + 1) =~= queue.front(n) + queue.without_front(n).front(1));
}

/// Opening an open queue, or closing a closed one, changes nothing.
pub proof fn law_open_and_close_are_idempotent(queue: TenantQueueState)
    ensures
        queue.opened().opened() == queue.opened(),
        queue.closed().closed() == queue.closed(),
{
}

/// A well-formed queue stays well formed when it is opened, closed or drained.
pub proof fn law_opening_and_closing_keep_well_formed(queue: TenantQueueState)
    requires
        queue.well_formed(),
    ensures
        queue.opened().well_formed(),
        queue.closed().well_formed(),
        queue.cleared().well_formed(),
{
}

/// A well-formed queue stays well formed when someone asks to join: no user
/// comes to wait twice, and a closed queue takes nobody.
pub proof fn law_enrolling_keeps_well_formed(queue: TenantQueueState, entry: EntryView)
    requires
        queue.well_formed(),
    ensures
        queue.enrolled(entry).well_formed(),
{
    if queue.is_open && !queue.has_user(entry.user_id) {
        let after = queue.enrolled(entry).entries;
        assert forall|i: int, j: int| 0 <= i < j < after.len() implies after[i].user_id
            != after[j].user_id by {
            if j == queue.entries.len() {
                if after[i].user_id == after[j].user_id {
                    assert(queue.entries[i].user_id == entry.user_id);
                }
            }
        }
    }
}

/// A well-formed queue stays well formed when entries are served.
pub proof fn law_serving_keeps_well_formed(queue: TenantQueueState, n: nat)
    requires
        queue.well_formed(),
    ensures
        queue.without_front(n).well_formed(),
{
}

} // verus!
