//! Orders served, the daily statistics drawn from them, and the store that
//! keeps them.

use vstd::prelude::*;

use crate::domain::queue::StorageError;

verus! {

/// One waffle served, as the ledger keeps it.
pub struct OrderView {
    pub discord_user_id: Seq<char>,
    pub guild_id: Seq<char>,
    /// When the order was recorded, in seconds since the Unix epoch.
    pub fulfilled_at: u64,
    /// The calendar day on which that moment falls where the ledger lives,
    /// counted from the day of the epoch.
    pub day: int,
}

/// One waffle served.
#[derive(Debug, PartialEq, Eq)]
pub struct OrderRecord {
    pub discord_user_id: String,
    pub guild_id: String,
    /// When the order was recorded, in seconds since the Unix epoch.
    pub fulfilled_at: u64,
}

/// How long a calendar day is.
pub const SECONDS_PER_DAY: u64 = 86_400;

/// The calendar day on which the moment `at` falls in a place whose clocks
/// are `utc_offset_seconds` ahead of UTC, counted from the day of the epoch.
pub open spec fn day_of(at: u64, utc_offset_seconds: i32) -> int {
    (at + utc_offset_seconds) / (SECONDS_PER_DAY as int)
}

impl OrderRecord {
    /// This order, with the day on which it falls in a place whose clocks are
    /// `utc_offset_seconds` ahead of UTC.
    pub open spec fn view_in(self, utc_offset_seconds: i32) -> OrderView {
        OrderView {
            discord_user_id: self.discord_user_id@,
            guild_id: self.guild_id@,
            fulfilled_at: self.fulfilled_at,
            day: day_of(self.fulfilled_at, utc_offset_seconds),
        }
    }
}

/// The views of a run of orders, in the same order.
pub open spec fn order_views(orders: Seq<OrderRecord>, utc_offset_seconds: i32) -> Seq<OrderView> {
    orders.map_values(|o: OrderRecord| o.view_in(utc_offset_seconds))
}

/// The calendar day on which the moment `at` falls in a place whose clocks
/// are `utc_offset_seconds` ahead of UTC.
pub fn calendar_day(at: u64, utc_offset_seconds: i32) -> (day: i64)
    ensures
        day == day_of(at, utc_offset_seconds),
{
    let day_length: i128 = SECONDS_PER_DAY as i128;
    let local: i128 = at as i128 + utc_offset_seconds as i128;
    if local >= 0 {
        (local / day_length) as i64
    } else {
        let behind: i128 = -local;
        let days: i128 = (behind + (day_length - 1)) / day_length;
        (-days) as i64
    }
}

/// What one guild was served on one day.
#[derive(Debug, PartialEq, Eq)]
pub struct DailyStats {
    pub total_orders: i64,
    /// (discord_user_id, count)
    pub top_users: Vec<(String, i64)>,
}

/// What a [`DailyStats`] holds, as plain values.
pub struct DailyStatsView {
    pub total_orders: int,
    pub top_users: Seq<(Seq<char>, int)>,
}

impl View for DailyStats {
    type V = DailyStatsView;

    open spec fn view(&self) -> DailyStatsView {
        DailyStatsView {
            total_orders: self.total_orders as int,
            top_users: self.top_users@.map_values(|p: (String, i64)| (p.0@, p.1 as int)),
        }
    }
}

/// How many users a daily ranking names at most.
pub const TOP_USERS: usize = 3;

/// The orders that one call records: one for each of `user_ids`, in their
/// order, all for `guild_id` and all stamped with the same moment and day.
pub open spec fn batch(
    user_ids: Seq<Seq<char>>,
    guild_id: Seq<char>,
    fulfilled_at: u64,
    day: int,
) -> Seq<OrderView> {
    Seq::new(
        user_ids.len(),
        |i: int|
            OrderView { discord_user_id: user_ids[i], guild_id, fulfilled_at, day },
    )
}

/// The user of `order`, if the order is one of `guild_id` and of `day`.
pub open spec fn served_by(order: OrderView, guild_id: Seq<char>, day: int) -> Option<Seq<char>> {
    if order.guild_id == guild_id && order.day == day {
        Some(order.discord_user_id)
    } else {
        None
    }
}

/// The users whom `guild_id` served on `day`, one for each order, in the order
/// in which the orders were recorded.
pub open spec fn served_on(orders: Seq<OrderView>, guild_id: Seq<char>, day: int) -> Seq<Seq<char>> {
    orders.filter_map(|order: OrderView| served_by(order, guild_id, day))
}

/// How often `user` occurs in `users`.
pub open spec fn occurrences(users: Seq<Seq<char>>, user: Seq<char>) -> nat
    decreases users.len(),
{
    if users.len() == 0 {
        0
    } else if users.last() == user {
        occurrences(users.drop_last(), user) + 1
    } else {
        occurrences(users.drop_last(), user)
    }
}

/// Each user of `users` once, in the order in which they first occur.
pub open spec fn first_appearances(users: Seq<Seq<char>>) -> Seq<Seq<char>>
    decreases users.len(),
{
    if users.len() == 0 {
        Seq::empty()
    } else {
        let earlier = first_appearances(users.drop_last());
        if earlier.contains(users.last()) {
            earlier
        } else {
            earlier.push(users.last())
        }
    }
}

/// Each user of `users` with the number of times they occur, in the order in
/// which the users first occur.
pub open spec fn tally(users: Seq<Seq<char>>) -> Seq<(Seq<char>, nat)> {
    first_appearances(users).map_values(|user: Seq<char>| (user, occurrences(users, user)))
}

/// The index of the first pair of `counts` whose count no other pair exceeds;
/// 0 when `counts` is empty.
pub open spec fn leader(counts: Seq<(Seq<char>, nat)>) -> int
    decreases counts.len(),
{
    if counts.len() <= 1 {
        0
    } else {
        let before = leader(counts.drop_last());
        if counts.last().1 > counts[before].1 {
            counts.len() - 1
        } else {
            before
        }
    }
}

/// The `limit` pairs of `counts` with the largest counts, largest first; of
/// pairs with equal counts the one that stands earlier in `counts` comes first.
/// All of `counts`, so ordered, when it has fewer than `limit` pairs.
pub open spec fn ranked(counts: Seq<(Seq<char>, nat)>, limit: nat) -> Seq<(Seq<char>, nat)>
    decreases limit,
{
    if limit == 0 || counts.len() == 0 {
        Seq::empty()
    } else {
        seq![counts[leader(counts)]] + ranked(counts.remove(leader(counts)), (limit - 1) as nat)
    }
}

/// A count as a statistic holds it: itself, or the largest value that fits
/// when it is larger than that.
pub open spec fn clamped(count: nat) -> int {
    if count <= i64::MAX {
        count as int
    } else {
        i64::MAX as int
    }
}

/// The statistics of a day on which `users` were served, one for each order
/// and in the order in which the orders were recorded: how many orders they
/// are, and the three users served most often with their counts, most served
/// first.
pub open spec fn stats_of(users: Seq<Seq<char>>) -> DailyStatsView {
    DailyStatsView {
        total_orders: clamped(users.len()),
        top_users: ranked(tally(users), TOP_USERS as nat).map_values(
            |p: (Seq<char>, nat)| (p.0, clamped(p.1)),
        ),
    }
}

/// The statistics of `guild_id` for `day`: how many of `orders` it served on
/// that day, and the three users it served most often that day with their
/// counts, most served first.
pub open spec fn daily_stats_on(orders: Seq<OrderView>, guild_id: Seq<char>, day: int) -> DailyStatsView {
    stats_of(served_on(orders, guild_id, day))
}

/// The texts of `ids`, in the same order.
pub open spec fn texts(ids: Seq<&str>) -> Seq<Seq<char>> {
    ids.map_values(|id: &str| id@)
}

/// A ledger of orders served. Orders are only ever added at its end.
///
/// An operation that fails leaves the ledger as it was.
///
/// The contracts below are what [`crate::order_ledger::OrderLedger`] and the
/// commands rely on. For a ledger of this library they are proved. A ledger
/// written elsewhere is taken at its word.
pub trait OrderRepository {
    /// Every order recorded so far, earliest first.
    ///
    /// A ledger of this library says what they are. For any other ledger they
    /// are some function of the ledger's value of which nothing is known but
    /// what the contracts of the methods say.
    open spec fn orders(&self) -> Seq<OrderView> {
        arbitrary::<spec_fn(&Self) -> Seq<OrderView>>()(self)
    }

    /// Whether every operation on this ledger succeeds. Unless a ledger says
    /// so, it may fail.
    open spec fn dependable(&self) -> bool {
        false
    }

    /// Records one order for each of `discord_user_ids`, all for `guild_id` and
    /// all stamped with the moment of the call: all of them or none.
    fn record_orders(&mut self, discord_user_ids: &[&str], guild_id: &str) -> (done: Result<
        (),
        StorageError,
    >)
        ensures
            done is Ok ==> exists|fulfilled_at: u64, day: int|
                final(self).orders() == old(self).orders() + #[trigger] batch(
                    texts(discord_user_ids@),
                    guild_id@,
                    fulfilled_at,
                    day,
                ),
            done is Err ==> final(self).orders() == old(self).orders(),
            final(self).dependable() == old(self).dependable(),
            old(self).dependable() ==> done is Ok,
    ;

    /// The statistics of `guild_id` for the day of the call.
    fn daily_stats(&self, guild_id: &str) -> (stats: Result<DailyStats, StorageError>)
        ensures
            stats matches Ok(s) ==> exists|day: int|
                s@ == #[trigger] daily_stats_on(self.orders(), guild_id@, day),
            self.dependable() ==> stats is Ok,
    ;
}

} // verus!
