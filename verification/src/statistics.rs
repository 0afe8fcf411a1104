//! The statistics of a day, drawn from the users served that day.

use vstd::prelude::*;

use crate::domain::order::{
    clamped, first_appearances, leader, occurrences, ranked, stats_of, tally, DailyStats,
    TOP_USERS,
};
use crate::ledger_laws::{lemma_first_appearances, lemma_occurrences_bounded, lemma_tally_push};

verus! {

/// The texts of a run of user ids, in the same order.
pub open spec fn user_texts(users: Seq<String>) -> Seq<Seq<char>> {
    users.map_values(|u: String| u@)
}

/// Users and their counts, as plain values.
pub open spec fn count_views(counts: Seq<(String, usize)>) -> Seq<(Seq<char>, nat)> {
    counts.map_values(|p: (String, usize)| (p.0@, p.1 as nat))
}

/// A pair of a ranking as a statistic holds it.
pub open spec fn clamped_pair(pair: (Seq<char>, nat)) -> (Seq<char>, int) {
    (pair.0, clamped(pair.1))
}

/// A count as a statistic holds it.
fn clamp(count: usize) -> (held: i64)
    ensures
        held == clamped(count as nat),
{
    let wide: u64 = count as u64;
    if wide > 9_223_372_036_854_775_807u64 {
        i64::MAX
    } else {
        wide as i64
    }
}

/// Each user of `users` with the number of times they occur, in the order in
/// which the users first occur.
fn tally_of(users: &Vec<String>) -> (counts: Vec<(String, usize)>)
    ensures
        count_views(counts@) == tally(user_texts(users@)),
{
    let mut counts: Vec<(String, usize)> = Vec::new();
    let ghost all = user_texts(users@);
    assert(all.take(0) =~= Seq::empty());
    assert(count_views(counts@) =~= tally(all.take(0)));
    let mut i: usize = 0;
    while i < users.len()
        invariant
            i <= users.len(),
            all == user_texts(users@),
            count_views(counts@) == tally(all.take(i as int)),
        decreases users.len() - i,
    {
        let ghost seen = all.take(i as int);
        let ghost user = users@[i as int]@;
        proof {
            assert(all.take(i + 1) =~= seen.push(user));
            lemma_tally_push(seen, user);
            lemma_first_appearances(seen);
        }
        let mut at: usize = 0;
        while at < counts.len() && !(counts[at].0 == users[i])
            invariant
                at <= counts.len(),
                i < users.len(),
                user == users@[i as int]@,
                forall|k: int| 0 <= k < at ==> count_views(counts@)[k].0 != user,
            decreases counts.len() - at,
        {
            at = at + 1;
        }
        if at < counts.len() {
            proof {
                let names = first_appearances(seen);
                assert(count_views(counts@)[at as int].0 == user);
                assert(names[at as int] == user);
                assert(names.contains(user));
                lemma_occurrences_bounded(seen, user);
                assert(count_views(counts@)[at as int].1 == occurrences(seen, user));
            }
            let ghost before = counts@;
            counts[at].1 = counts[at].1 + 1;
            proof {
                let after = count_views(counts@);
                let expected = tally(seen.push(user));
                assert forall|k: int| 0 <= k < after.len() implies after[k] == expected[k] by {
                    assert(count_views(before)[k] == tally(seen)[k]);
                    if k != at {
                        assert(counts@[k] == before[k]);
                        assert(first_appearances(seen)[k] != first_appearances(seen)[at as int]);
                    }
                }
                assert(after =~= expected);
            }
        } else {
            proof {
                if seen.contains(user) {
                    let names = first_appearances(seen);
                    assert(names.contains(user));
                    let k = choose|k: int| 0 <= k < names.len() && names[k] == user;
                    assert(count_views(counts@)[k].0 == user);
                }
            }
            let ghost before = counts@;
            counts.push((users[i].clone(), 1));
            assert(count_views(counts@) =~= count_views(before).push((user, 1nat)));
        }
        i = i + 1;
    }
    assert(all.take(i as int) == all);
    counts
}

/// The index of the first pair of `counts` whose count no other pair exceeds.
fn leader_of(counts: &Vec<(String, usize)>) -> (at: usize)
    requires
        counts@.len() > 0,
    ensures
        at < counts@.len(),
        at == leader(count_views(counts@)),
{
    let ghost all = count_views(counts@);
    let mut at: usize = 0;
    let mut i: usize = 1;
    assert(all.take(1).len() == 1);
    while i < counts.len()
        invariant
            1 <= i <= counts.len(),
            at < i,
            all == count_views(counts@),
            at == leader(all.take(i as int)),
        decreases counts.len() - i,
    {
        proof {
            assert(all.take(i + 1).drop_last() == all.take(i as int));
            assert(all.take(i as int)[at as int] == all[at as int]);
        }
        if counts[i].1 > counts[at].1 {
            at = i;
        }
        i = i + 1;
    }
    assert(all.take(i as int) == all);
    at
}

/// The `limit` pairs of `counts` with the largest counts, largest first and
/// the earlier first among equals, each count as a statistic holds it.
fn ranked_of(counts: Vec<(String, usize)>, limit: usize) -> (top: Vec<(String, i64)>)
    ensures
        top@.map_values(|p: (String, i64)| (p.0@, p.1 as int)) == ranked(
            count_views(counts@),
            limit as nat,
        ).map_values(|p: (Seq<char>, nat)| clamped_pair(p)),
{
    let ghost goal = ranked(count_views(counts@), limit as nat).map_values(
        |p: (Seq<char>, nat)| clamped_pair(p),
    );
    let mut rest = counts;
    let mut top: Vec<(String, i64)> = Vec::new();
    let mut left: usize = limit;
    assert(top@.map_values(|p: (String, i64)| (p.0@, p.1 as int)) + ranked(
        count_views(rest@),
        left as nat,
    ).map_values(|p: (Seq<char>, nat)| clamped_pair(p)) =~= goal);
    while left > 0 && rest.len() > 0
        invariant
            top@.map_values(|p: (String, i64)| (p.0@, p.1 as int)) + ranked(
                count_views(rest@),
                left as nat,
            ).map_values(|p: (Seq<char>, nat)| clamped_pair(p)) == goal,
        decreases left,
    {
        let at = leader_of(&rest);
        let ghost before = rest@;
        let ghost top_before = top@;
        let pair = rest.remove(at);
        let held = clamp(pair.1);
        top.push((pair.0, held));
        left = left - 1;
        proof {
            assert(count_views(rest@) =~= count_views(before).remove(at as int));
            let f = |p: (Seq<char>, nat)| clamped_pair(p);
            let g = |p: (String, i64)| (p.0@, p.1 as int);
            let tail = ranked(count_views(rest@), left as nat);
            assert(ranked(count_views(before), (left + 1) as nat) =~= seq![
                count_views(before)[at as int],
            ] + tail);
            assert(top@.map_values(g) + tail.map_values(f) =~= top_before.map_values(g) + ranked(
                count_views(before),
                (left + 1) as nat,
            ).map_values(f));
        }
    }
    assert(ranked(count_views(rest@), left as nat) =~= Seq::empty());
    assert(top@.map_values(|p: (String, i64)| (p.0@, p.1 as int)) =~= goal);
    top
}

/// The statistics of a day on which `users` were served, one for each order
/// and in the order in which the orders were recorded: how many orders they
/// are, and the three users served most often with their counts, most served
/// first.
pub fn stats_of_served(users: &Vec<String>) -> (stats: DailyStats)
    ensures
        stats@ == stats_of(user_texts(users@)),
{
    let counts = tally_of(users);
    let top_users = ranked_of(counts, TOP_USERS);
    let stats = DailyStats { total_orders: clamp(users.len()), top_users };
    proof {
        let served = user_texts(users@);
        assert(ranked(tally(served), TOP_USERS as nat).map_values(
            |p: (Seq<char>, nat)| clamped_pair(p),
        ) =~= ranked(tally(served), TOP_USERS as nat).map_values(
            |p: (Seq<char>, nat)| (p.0, clamped(p.1)),
        ));
    }
    stats
}

} // verus!
