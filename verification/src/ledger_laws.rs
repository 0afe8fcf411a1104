//! What holds of every ledger and of the statistics drawn from it.

use vstd::multiset::Multiset;
use vstd::prelude::*;

use crate::domain::order::{
    batch, clamped, daily_stats_on, first_appearances, leader, occurrences, ranked, served_on,
    tally, OrderView, TOP_USERS,
};

verus! {

/// How often a user occurs among `users` is how often the bag of those users
/// holds them: the order of the users does not matter to it.
pub proof fn law_occurrences_count(users: Seq<Seq<char>>, user: Seq<char>)
    ensures
        occurrences(users, user) == users.to_multiset().count(user),
    decreases users.len(),
{
    if users.len() == 0 {
        users.to_multiset_ensures();
        assert(!users.contains(user));
    } else {
        let before = users.drop_last();
        law_occurrences_count(before, user);
        vstd::seq_lib::to_multiset_build(before, users.last());
        assert(before.push(users.last()) == users);
    }
}

/// No user occurs more often than there are orders.
pub proof fn lemma_occurrences_bounded(users: Seq<Seq<char>>, user: Seq<char>)
    ensures
        occurrences(users, user) <= users.len(),
    decreases users.len(),
{
    if users.len() > 0 {
        lemma_occurrences_bounded(users.drop_last(), user);
    }
}

/// The users named by `first_appearances` are those who occur, each once.
pub proof fn lemma_first_appearances(users: Seq<Seq<char>>)
    ensures
        forall|user: Seq<char>| first_appearances(users).contains(user) <==> users.contains(user),
        forall|i: int, j: int|
            0 <= i < j < first_appearances(users).len() ==> first_appearances(users)[i]
                != first_appearances(users)[j],
        forall|user: Seq<char>| !users.contains(user) ==> occurrences(users, user) == 0,
    decreases users.len(),
{
    if users.len() > 0 {
        let before = users.drop_last();
        let last = users.last();
        lemma_first_appearances(before);
        let names = first_appearances(users);
        let earlier = first_appearances(before);
        assert forall|user: Seq<char>| names.contains(user) <==> users.contains(user) by {
            if users.contains(user) {
                let i = choose|i: int| 0 <= i < users.len() && users[i] == user;
                if i < before.len() {
                    assert(before[i] == user);
                    assert(before.contains(user));
                    assert(earlier.contains(user));
                    let k = choose|k: int| 0 <= k < earlier.len() && earlier[k] == user;
                    assert(names[k] == user);
                } else {
                    if earlier.contains(last) {
                    } else {
                        assert(names[names.len() - 1] == user);
                    }
                }
            }
            if names.contains(user) {
                let k = choose|k: int| 0 <= k < names.len() && names[k] == user;
                if k < earlier.len() {
                    assert(earlier[k] == user);
                    assert(before.contains(user));
                    let i = choose|i: int| 0 <= i < before.len() && before[i] == user;
                    assert(users[i] == user);
                } else {
                    assert(users[users.len() - 1] == user);
                }
            }
        }
        assert forall|user: Seq<char>| !users.contains(user) implies occurrences(users, user)
            == 0 by {
            if before.contains(user) {
                let i = choose|i: int| 0 <= i < before.len() && before[i] == user;
                assert(users[i] == user);
            }
            if last == user {
                assert(users[users.len() - 1] == user);
            }
        }
    }
}

/// What one more order does to a tally: the count of its user goes up by one,
/// or the user is added at the end with a count of one.
pub proof fn lemma_tally_push(users: Seq<Seq<char>>, user: Seq<char>)
    ensures
        users.contains(user) ==> {
            &&& tally(users.push(user)).len() == tally(users).len()
            &&& forall|k: int|
                0 <= k < tally(users).len() ==> #[trigger] tally(users.push(user))[k] == (
                    tally(users)[k].0,
                    if tally(users)[k].0 == user {
                        tally(users)[k].1 + 1
                    } else {
                        tally(users)[k].1
                    },
                )
        },
        !users.contains(user) ==> tally(users.push(user)) == tally(users).push((user, 1nat)),
{
    let more = users.push(user);
    assert(more.drop_last() == users);
    lemma_first_appearances(users);
    if users.contains(user) {
        assert(first_appearances(more) == first_appearances(users));
    } else {
        assert(first_appearances(more) == first_appearances(users).push(user));
        assert forall|k: int| 0 <= k < tally(users).len() implies tally(more)[k] == tally(
            users,
        )[k] by {
            let name = first_appearances(users)[k];
            assert(first_appearances(users).contains(name));
            assert(name != user);
        }
        assert(tally(more) =~= tally(users).push((user, 1nat)));
    }
}

/// What a guild was served on a day, once `added` has been recorded behind
/// `orders`: what it was served before, and then the orders of `added` that are
/// its own and fall on that day.
pub proof fn law_served_on_appends(
    orders: Seq<OrderView>,
    added: Seq<OrderView>,
    guild_id: Seq<char>,
    day: int,
)
    ensures
        served_on(orders + added, guild_id, day) == served_on(orders, guild_id, day) + served_on(
            added,
            guild_id,
            day,
        ),
    decreases added.len(),
{
    if added.len() == 0 {
        assert(orders + added =~= orders);
        assert(served_on(orders, guild_id, day) + served_on(added, guild_id, day) =~= served_on(
            orders,
            guild_id,
            day,
        ));
    } else {
        law_served_on_appends(orders, added.drop_last(), guild_id, day);
        assert((orders + added).drop_last() =~= orders + added.drop_last());
        assert((orders + added).last() == added.last());
        assert(served_on(orders + added, guild_id, day) =~= served_on(orders, guild_id, day)
            + served_on(added, guild_id, day));
    }
}

/// Recording adds orders behind those the ledger holds and changes none of
/// them.
pub proof fn law_orders_are_only_added(
    orders: Seq<OrderView>,
    user_ids: Seq<Seq<char>>,
    guild_id: Seq<char>,
    fulfilled_at: u64,
    day: int,
)
    ensures
        (orders + batch(user_ids, guild_id, fulfilled_at, day)).len() == orders.len()
            + user_ids.len(),
        (orders + batch(user_ids, guild_id, fulfilled_at, day)).take(orders.len() as int)
            == orders,
        forall|i: int|
            0 <= i < user_ids.len() ==> (#[trigger] (orders + batch(
                user_ids,
                guild_id,
                fulfilled_at,
                day,
            ))[orders.len() + i]) == (OrderView {
                discord_user_id: user_ids[i],
                guild_id,
                fulfilled_at,
                day,
            }),
{
    let after = orders + batch(user_ids, guild_id, fulfilled_at, day);
    assert(after.take(orders.len() as int) =~= orders);
}

/// The orders of one call count for the guild and the day they were recorded
/// for, once for each user id and in their order, and for no other guild or
/// day.
pub proof fn law_batch_counts_once(
    user_ids: Seq<Seq<char>>,
    guild_id: Seq<char>,
    fulfilled_at: u64,
    day: int,
    other_guild: Seq<char>,
    other_day: int,
)
    ensures
        served_on(batch(user_ids, guild_id, fulfilled_at, day), guild_id, day) == user_ids,
        other_guild != guild_id || other_day != day ==> served_on(
            batch(user_ids, guild_id, fulfilled_at, day),
            other_guild,
            other_day,
        ) == Seq::<Seq<char>>::empty(),
    decreases user_ids.len(),
{
    let added = batch(user_ids, guild_id, fulfilled_at, day);
    if user_ids.len() == 0 {
        assert(served_on(added, guild_id, day) =~= user_ids);
    } else {
        law_batch_counts_once(
            user_ids.drop_last(),
            guild_id,
            fulfilled_at,
            day,
            other_guild,
            other_day,
        );
        assert(added.drop_last() =~= batch(user_ids.drop_last(), guild_id, fulfilled_at, day));
        assert(served_on(added, guild_id, day) =~= user_ids);
    }
}

/// Recording orders for one guild on one day raises the number of orders that
/// the guild was served that day by the number of user ids given, and leaves
/// the statistics of every other guild and of every other day as they were.
/// With no user ids, all statistics stay as they were.
pub proof fn law_recording_and_statistics(
    orders: Seq<OrderView>,
    user_ids: Seq<Seq<char>>,
    guild_id: Seq<char>,
    fulfilled_at: u64,
    day: int,
    other_guild: Seq<char>,
    other_day: int,
)
    ensures
        served_on(orders + batch(user_ids, guild_id, fulfilled_at, day), guild_id, day).len()
            == served_on(orders, guild_id, day).len() + user_ids.len(),
        other_guild != guild_id || other_day != day || user_ids.len() == 0 ==> daily_stats_on(
            orders + batch(user_ids, guild_id, fulfilled_at, day),
            other_guild,
            other_day,
        ) == daily_stats_on(orders, other_guild, other_day),
{
    let added = batch(user_ids, guild_id, fulfilled_at, day);
    law_served_on_appends(orders, added, guild_id, day);
    law_served_on_appends(orders, added, other_guild, other_day);
    law_batch_counts_once(user_ids, guild_id, fulfilled_at, day, other_guild, other_day);
    if other_guild != guild_id || other_day != day || user_ids.len() == 0 {
        assert(served_on(orders + added, other_guild, other_day) =~= served_on(
            orders,
            other_guild,
            other_day,
        ));
    }
}

/// The total of a day is the number of orders that the guild was served that
/// day, as far as the statistic can hold it.
pub proof fn law_total_counts_the_orders(orders: Seq<OrderView>, guild_id: Seq<char>, day: int)
    ensures
        daily_stats_on(orders, guild_id, day).total_orders == clamped(
            served_on(orders, guild_id, day).len(),
        ),
        0 <= daily_stats_on(orders, guild_id, day).total_orders <= served_on(
            orders,
            guild_id,
            day,
        ).len(),
        served_on(orders, guild_id, day).len() <= orders.len(),
    decreases orders.len(),
{
    if orders.len() > 0 {
        law_total_counts_the_orders(orders.drop_last(), guild_id, day);
    }
}

/// A tally names each user who was served once, with the number of their
/// orders, and names nobody else.
pub proof fn law_tally_counts_each_user(users: Seq<Seq<char>>)
    ensures
        tally(users).len() <= users.len(),
        forall|k: int|
            0 <= k < tally(users).len() ==> {
                &&& users.contains(#[trigger] tally(users)[k].0)
                &&& tally(users)[k].1 == occurrences(users, tally(users)[k].0)
                &&& tally(users)[k].1 > 0
            },
        forall|i: int, j: int|
            0 <= i < j < tally(users).len() ==> tally(users)[i].0 != tally(users)[j].0,
        forall|user: Seq<char>|
            users.contains(user) ==> exists|k: int|
                0 <= k < tally(users).len() && #[trigger] tally(users)[k].0 == user,
{
    lemma_first_appearances(users);
    lemma_first_appearances_short(users);
    let names = first_appearances(users);
    assert forall|k: int| 0 <= k < tally(users).len() implies {
        &&& users.contains(#[trigger] tally(users)[k].0)
        &&& tally(users)[k].1 == occurrences(users, tally(users)[k].0)
        &&& tally(users)[k].1 > 0
    } by {
        assert(names.contains(names[k]));
        lemma_occurrences_positive(users, names[k]);
    }
    assert forall|user: Seq<char>| users.contains(user) implies exists|k: int|
        0 <= k < tally(users).len() && #[trigger] tally(users)[k].0 == user by {
        assert(names.contains(user));
        let k = choose|k: int| 0 <= k < names.len() && names[k] == user;
        assert(tally(users)[k].0 == user);
    }
}

proof fn lemma_first_appearances_short(users: Seq<Seq<char>>)
    ensures
        first_appearances(users).len() <= users.len(),
    decreases users.len(),
{
    if users.len() > 0 {
        lemma_first_appearances_short(users.drop_last());
    }
}

proof fn lemma_occurrences_positive(users: Seq<Seq<char>>, user: Seq<char>)
    requires
        users.contains(user),
    ensures
        occurrences(users, user) > 0,
    decreases users.len(),
{
    if users.last() != user {
        let i = choose|i: int| 0 <= i < users.len() && users[i] == user;
        assert(users.drop_last()[i] == user);
        lemma_occurrences_positive(users.drop_last(), user);
    }
}

/// The leader of a tally has the largest count, and stands before every other
/// pair with that count.
pub proof fn law_leader_is_first_of_the_largest(counts: Seq<(Seq<char>, nat)>)
    requires
        counts.len() > 0,
    ensures
        0 <= leader(counts) < counts.len(),
        forall|k: int|
            0 <= k < counts.len() ==> (#[trigger] counts[k]).1 <= counts[leader(counts)].1,
        forall|k: int|
            0 <= k < leader(counts) ==> (#[trigger] counts[k]).1 < counts[leader(counts)].1,
    decreases counts.len(),
{
    if counts.len() > 1 {
        law_leader_is_first_of_the_largest(counts.drop_last());
        let before = leader(counts.drop_last());
        assert(counts.drop_last()[before] == counts[before]);
        assert forall|k: int| 0 <= k < counts.len() implies (#[trigger] counts[k]).1 <= counts[leader(
            counts,
        )].1 by {
            if k < counts.len() - 1 {
                assert(counts.drop_last()[k] == counts[k]);
            }
        }
        assert forall|k: int| 0 <= k < leader(counts) implies (#[trigger] counts[k]).1 < counts[leader(
            counts,
        )].1 by {
            if k < counts.len() - 1 {
                assert(counts.drop_last()[k] == counts[k]);
            }
        }
    }
}

/// A ranking holds `limit` pairs of the tally, or all of them when the tally
/// has fewer. Its counts never rise from one place to the next. Whoever it
/// leaves out has no larger count than anyone it names.
pub proof fn law_ranking(counts: Seq<(Seq<char>, nat)>, limit: nat)
    ensures
        ranked(counts, limit).len() == if limit <= counts.len() {
            limit
        } else {
            counts.len()
        },
        forall|i: int| 0 <= i < ranked(counts, limit).len() ==> counts.contains(
            #[trigger] ranked(counts, limit)[i],
        ),
        forall|i: int, j: int|
            0 <= i < j < ranked(counts, limit).len() ==> ranked(counts, limit)[i].1 >= ranked(
                counts,
                limit,
            )[j].1,
        forall|k: int, i: int|
            0 <= k < counts.len() && 0 <= i < ranked(counts, limit).len() ==> ranked(
                counts,
                limit,
            ).contains(#[trigger] counts[k]) || #[trigger] ranked(counts, limit)[i].1
                >= counts[k].1,
    decreases limit,
{
    let top = ranked(counts, limit);
    if limit > 0 && counts.len() > 0 {
        let at = leader(counts);
        law_leader_is_first_of_the_largest(counts);
        let rest = counts.remove(at);
        let lower = ranked(rest, (limit - 1) as nat);
        law_ranking(rest, (limit - 1) as nat);
        assert(top[0] == counts[at]);
        assert forall|i: int| 0 <= i < top.len() implies counts.contains(#[trigger] top[i]) by {
            if i > 0 {
                assert(top[i] == lower[i - 1]);
                assert(rest.contains(lower[i - 1]));
                let k = choose|k: int| 0 <= k < rest.len() && rest[k] == lower[i - 1];
                if k < at {
                    assert(counts[k] == rest[k]);
                } else {
                    assert(counts[k + 1] == rest[k]);
                }
            }
        }
        assert forall|i: int, j: int| 0 <= i < j < top.len() implies top[i].1 >= top[j].1 by {
            assert(top[j] == lower[j - 1]);
            if i > 0 {
                assert(top[i] == lower[i - 1]);
            } else {
                assert(counts.contains(top[j]));
            }
        }
        assert forall|k: int, i: int| 0 <= k < counts.len() && 0 <= i < top.len() implies top.contains(
            #[trigger] counts[k],
        ) || #[trigger] top[i].1 >= counts[k].1 by {
            if k == at {
                assert(top.contains(counts[k]));
            } else {
                let moved = if k < at {
                    k
                } else {
                    k - 1
                };
                assert(rest[moved] == counts[k]);
                if i > 0 {
                    assert(top[i] == lower[i - 1]);
                    if lower.contains(rest[moved]) {
                        let p = choose|p: int| 0 <= p < lower.len() && lower[p] == rest[moved];
                        assert(top[p + 1] == counts[k]);
                    }
                }
            }
        }
    }
}

/// A ranking holds pairs of the tally, each as often as the tally does at most,
/// and a ranking without a limit holds them all: it is the tally in another
/// order.
pub proof fn law_ranking_reorders(counts: Seq<(Seq<char>, nat)>, limit: nat)
    ensures
        ranked(counts, limit).to_multiset().subset_of(counts.to_multiset()),
        limit >= counts.len() ==> ranked(counts, limit).to_multiset() == counts.to_multiset(),
    decreases limit,
{
    let top = ranked(counts, limit);
    top.to_multiset_ensures();
    counts.to_multiset_ensures();
    if limit == 0 || counts.len() == 0 {
        assert(top.to_multiset().len() == 0);
        assert(top.to_multiset() =~= Multiset::empty());
        if counts.len() == 0 {
            assert(counts.to_multiset().len() == 0);
            assert(counts.to_multiset() =~= Multiset::empty());
        }
    } else {
        let at = leader(counts);
        law_leader_is_first_of_the_largest(counts);
        let rest = counts.remove(at);
        let lower = ranked(rest, (limit - 1) as nat);
        law_ranking_reorders(rest, (limit - 1) as nat);
        assert(counts.contains(counts[at]));
        assert(top =~= lower.insert(0, counts[at]));
        vstd::seq_lib::to_multiset_insert(lower, 0, counts[at]);
        assert(counts.to_multiset() =~= rest.to_multiset().insert(counts[at]));
    }
}

/// The counts of `counts`, added up.
pub open spec fn total_of(counts: Seq<(Seq<char>, nat)>) -> nat
    decreases counts.len(),
{
    if counts.len() == 0 {
        0
    } else {
        total_of(counts.drop_last()) + counts.last().1
    }
}

/// The counts of a ranking as a statistic holds it, added up.
pub open spec fn sum_of(top_users: Seq<(Seq<char>, int)>) -> int
    decreases top_users.len(),
{
    if top_users.len() == 0 {
        0
    } else {
        sum_of(top_users.drop_last()) + top_users.last().1
    }
}

/// No two pairs of `counts` name the same user.
pub open spec fn names_each_once(counts: Seq<(Seq<char>, nat)>) -> bool {
    forall|i: int, j: int| 0 <= i < j < counts.len() ==> counts[i].0 != counts[j].0
}

/// Whether a pair of `counts` names `user`.
pub open spec fn names(counts: Seq<(Seq<char>, nat)>, user: Seq<char>) -> bool {
    exists|k: int| 0 <= k < counts.len() && counts[k].0 == user
}

proof fn lemma_total_of_two(left: Seq<(Seq<char>, nat)>, right: Seq<(Seq<char>, nat)>)
    ensures
        total_of(left + right) == total_of(left) + total_of(right),
    decreases right.len(),
{
    if right.len() == 0 {
        assert(left + right =~= left);
    } else {
        lemma_total_of_two(left, right.drop_last());
        assert((left + right).drop_last() =~= left + right.drop_last());
    }
}

proof fn lemma_total_without_one(counts: Seq<(Seq<char>, nat)>, at: int)
    requires
        0 <= at < counts.len(),
    ensures
        total_of(counts) == counts[at].1 + total_of(counts.remove(at)),
{
    let before = counts.take(at);
    let one = seq![counts[at]];
    let behind = counts.skip(at + 1);
    assert(counts =~= before + one + behind);
    assert(counts.remove(at) =~= before + behind);
    lemma_total_of_two(before + one, behind);
    lemma_total_of_two(before, one);
    lemma_total_of_two(before, behind);
    assert(one.drop_last() =~= Seq::empty());
    assert(total_of(one) == counts[at].1) by {
        assert(total_of(one.drop_last()) == 0);
    }
}

/// One more order of `user` raises the sum of a tally by one, where the tally
/// names the user.
proof fn lemma_total_raised(
    before: Seq<(Seq<char>, nat)>,
    after: Seq<(Seq<char>, nat)>,
    user: Seq<char>,
)
    requires
        names_each_once(before),
        after.len() == before.len(),
        forall|k: int|
            0 <= k < before.len() ==> #[trigger] after[k] == (
                before[k].0,
                if before[k].0 == user {
                    before[k].1 + 1
                } else {
                    before[k].1
                },
            ),
    ensures
        total_of(after) == total_of(before) + if names(before, user) {
            1nat
        } else {
            0nat
        },
    decreases before.len(),
{
    if before.len() > 0 {
        let earlier = before.drop_last();
        let last = before.len() - 1;
        assert forall|k: int| 0 <= k < earlier.len() implies #[trigger] after.drop_last()[k] == (
            earlier[k].0,
            if earlier[k].0 == user {
                earlier[k].1 + 1
            } else {
                earlier[k].1
            },
        ) by {
            assert(after.drop_last()[k] == after[k]);
        }
        lemma_total_raised(earlier, after.drop_last(), user);
        assert(after[last] == (before[last].0, if before[last].0 == user {
            before[last].1 + 1
        } else {
            before[last].1
        }));
        if before[last].0 == user {
            assert(names(before, user));
            if names(earlier, user) {
                let k = choose|k: int| 0 <= k < earlier.len() && earlier[k].0 == user;
                assert(before[k].0 == before[last].0);
            }
        } else {
            if names(before, user) {
                let k = choose|k: int| 0 <= k < before.len() && before[k].0 == user;
                assert(earlier[k].0 == user);
            }
            if names(earlier, user) {
                let k = choose|k: int| 0 <= k < earlier.len() && earlier[k].0 == user;
                assert(before[k].0 == user);
            }
        }
    }
}

/// The counts of a tally add up to the number of orders.
pub proof fn law_tally_adds_up(users: Seq<Seq<char>>)
    ensures
        total_of(tally(users)) == users.len(),
        names_each_once(tally(users)),
    decreases users.len(),
{
    law_tally_counts_each_user(users);
    if users.len() > 0 {
        let before = users.drop_last();
        let user = users.last();
        assert(before.push(user) == users);
        law_tally_adds_up(before);
        law_tally_counts_each_user(before);
        lemma_tally_push(before, user);
        if before.contains(user) {
            lemma_total_raised(tally(before), tally(users), user);
            let k = choose|k: int| 0 <= k < tally(before).len() && tally(before)[k].0 == user;
            assert(names(tally(before), user));
        } else {
            assert(tally(users).drop_last() == tally(before));
        }
    }
}

/// A ranking of pairs that name each user once names each user once, and its
/// counts add up to no more than those of all the pairs.
pub proof fn law_ranking_is_part(counts: Seq<(Seq<char>, nat)>, limit: nat)
    requires
        names_each_once(counts),
    ensures
        names_each_once(ranked(counts, limit)),
        total_of(ranked(counts, limit)) <= total_of(counts),
    decreases limit,
{
    let top = ranked(counts, limit);
    if limit > 0 && counts.len() > 0 {
        let at = leader(counts);
        law_leader_is_first_of_the_largest(counts);
        let rest = counts.remove(at);
        let lower = ranked(rest, (limit - 1) as nat);
        assert(names_each_once(rest)) by {
            assert forall|i: int, j: int| 0 <= i < j < rest.len() implies rest[i].0
                != rest[j].0 by {
                let from = if i < at {
                    i
                } else {
                    i + 1
                };
                let to = if j < at {
                    j
                } else {
                    j + 1
                };
                assert(rest[i] == counts[from] && rest[j] == counts[to]);
            }
        }
        law_ranking_is_part(rest, (limit - 1) as nat);
        law_ranking(rest, (limit - 1) as nat);
        assert forall|i: int, j: int| 0 <= i < j < top.len() implies top[i].0 != top[j].0 by {
            assert(top[j] == lower[j - 1]);
            if i > 0 {
                assert(top[i] == lower[i - 1]);
            } else {
                assert(rest.contains(lower[j - 1]));
                let k = choose|k: int| 0 <= k < rest.len() && rest[k] == lower[j - 1];
                let from = if k < at {
                    k
                } else {
                    k + 1
                };
                assert(rest[k] == counts[from]);
            }
        }
        lemma_total_without_one(counts, at);
        lemma_total_of_two(seq![counts[at]], lower);
        assert(seq![counts[at]].drop_last() =~= Seq::empty());
        assert(total_of(seq![counts[at]]) == counts[at].1) by {
            assert(total_of(seq![counts[at]].drop_last()) == 0);
        }
    }
}

proof fn lemma_sum_unclamped(top: Seq<(Seq<char>, nat)>)
    requires
        forall|i: int| 0 <= i < top.len() ==> (#[trigger] top[i]).1 <= i64::MAX,
    ensures
        sum_of(top.map_values(|p: (Seq<char>, nat)| (p.0, clamped(p.1)))) == total_of(top),
    decreases top.len(),
{
    let shown = top.map_values(|p: (Seq<char>, nat)| (p.0, clamped(p.1)));
    if top.len() > 0 {
        assert forall|i: int| 0 <= i < top.drop_last().len() implies (#[trigger] top.drop_last()[i]).1
            <= i64::MAX by {
            assert(top.drop_last()[i] == top[i]);
        }
        lemma_sum_unclamped(top.drop_last());
        assert(shown.drop_last() =~= top.drop_last().map_values(
            |p: (Seq<char>, nat)| (p.0, clamped(p.1)),
        ));
        assert(shown.last().1 == top.last().1);
    }
}

/// The daily ranking names no user twice, and the orders it counts are no more
/// than the orders of the day: so the counts it shows add up to no more than
/// the total it shows, as long as the total is a number that the statistic can
/// hold.
pub proof fn law_top_users_are_part_of_the_total(
    orders: Seq<OrderView>,
    guild_id: Seq<char>,
    day: int,
)
    ensures
        forall|i: int, j: int|
            0 <= i < j < daily_stats_on(orders, guild_id, day).top_users.len() ==> daily_stats_on(
                orders,
                guild_id,
                day,
            ).top_users[i].0 != daily_stats_on(orders, guild_id, day).top_users[j].0,
        total_of(ranked(tally(served_on(orders, guild_id, day)), TOP_USERS as nat)) <= served_on(
            orders,
            guild_id,
            day,
        ).len(),
        served_on(orders, guild_id, day).len() <= i64::MAX ==> sum_of(
            daily_stats_on(orders, guild_id, day).top_users,
        ) <= daily_stats_on(orders, guild_id, day).total_orders,
{
    let users = served_on(orders, guild_id, day);
    let counts = tally(users);
    let top = ranked(counts, TOP_USERS as nat);
    let shown = daily_stats_on(orders, guild_id, day).top_users;
    law_tally_adds_up(users);
    law_ranking_is_part(counts, TOP_USERS as nat);
    law_ranking(counts, TOP_USERS as nat);
    law_tally_counts_each_user(users);
    assert forall|i: int, j: int| 0 <= i < j < shown.len() implies shown[i].0 != shown[j].0 by {
        assert(top[i].0 != top[j].0);
    }
    if users.len() <= i64::MAX {
        assert forall|i: int| 0 <= i < top.len() implies (#[trigger] top[i]).1 <= i64::MAX by {
            assert(counts.contains(top[i]));
            let k = choose|k: int| 0 <= k < counts.len() && counts[k] == top[i];
            lemma_occurrences_bounded(users, counts[k].0);
        }
        lemma_sum_unclamped(top);
    }
}

/// The daily ranking names at most three users, each with the number of their
/// orders of that day, the most served first.
pub proof fn law_top_users(orders: Seq<OrderView>, guild_id: Seq<char>, day: int)
    ensures
        daily_stats_on(orders, guild_id, day).top_users.len() <= TOP_USERS,
        forall|i: int|
            0 <= i < daily_stats_on(orders, guild_id, day).top_users.len() ==> {
                let pair = #[trigger] daily_stats_on(orders, guild_id, day).top_users[i];
                &&& served_on(orders, guild_id, day).contains(pair.0)
                &&& pair.1 == clamped(occurrences(served_on(orders, guild_id, day), pair.0))
            },
        forall|i: int, j: int|
            0 <= i < j < daily_stats_on(orders, guild_id, day).top_users.len() ==> daily_stats_on(
                orders,
                guild_id,
                day,
            ).top_users[i].1 >= daily_stats_on(orders, guild_id, day).top_users[j].1,
{
    let users = served_on(orders, guild_id, day);
    let counts = tally(users);
    let top = ranked(counts, TOP_USERS as nat);
    law_ranking(counts, TOP_USERS as nat);
    law_tally_counts_each_user(users);
    let shown = daily_stats_on(orders, guild_id, day).top_users;
    assert forall|i: int| 0 <= i < shown.len() implies {
        let pair = #[trigger] shown[i];
        &&& users.contains(pair.0)
        &&& pair.1 == clamped(occurrences(users, pair.0))
    } by {
        assert(counts.contains(top[i]));
        let k = choose|k: int| 0 <= k < counts.len() && counts[k] == top[i];
        assert(users.contains(tally(users)[k].0));
    }
    assert forall|i: int, j: int| 0 <= i < j < shown.len() implies shown[i].1 >= shown[j].1 by {
        assert(top[i].1 >= top[j].1);
    }
}

} // verus!
