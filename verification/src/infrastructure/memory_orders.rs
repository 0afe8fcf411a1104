//! A ledger that keeps its orders in memory.

use vstd::prelude::*;

use crate::domain::order::{
    batch, calendar_day, daily_stats_on, day_of, order_views, served_on, texts, DailyStats,
    OrderRecord, OrderRepository, OrderView,
};
use crate::domain::queue::StorageError;
use crate::statistics::{stats_of_served, user_texts};

verus! {

/// The users whom `guild_id` served on `day`, one for each of its orders of
/// that day among `orders`, in the order in which the orders were recorded.
pub fn served_users(orders: &Vec<OrderRecord>, guild_id: &str, day: i64, utc_offset_seconds: i32) -> (users:
    Vec<String>)
    ensures
        user_texts(users@) == served_on(
            order_views(orders@, utc_offset_seconds),
            guild_id@,
            day as int,
        ),
{
    let wanted: String = guild_id.to_owned();
    let mut users: Vec<String> = Vec::new();
    let ghost all = order_views(orders@, utc_offset_seconds);
    assert(all.take(0) =~= Seq::empty());
    assert(user_texts(users@) =~= served_on(all.take(0), guild_id@, day as int));
    let mut i: usize = 0;
    while i < orders.len()
        invariant
            i <= orders.len(),
            wanted@ == guild_id@,
            all == order_views(orders@, utc_offset_seconds),
            user_texts(users@) == served_on(all.take(i as int), guild_id@, day as int),
        decreases orders.len() - i,
    {
        let order = &orders[i];
        proof {
            assert(all.take(i + 1).drop_last() == all.take(i as int));
            assert(all.take(i + 1).last() == order.view_in(utc_offset_seconds));
        }
        if order.guild_id == wanted && calendar_day(order.fulfilled_at, utc_offset_seconds) == day {
            let ghost before = users@;
            users.push(order.discord_user_id.clone());
            assert(user_texts(users@) =~= user_texts(before).push(order.discord_user_id@));
        }
        i = i + 1;
    }
    assert(all.take(i as int) == all);
    users
}

/// The statistics of `guild_id` for `day`, drawn from `orders`, whose days are
/// read in a place whose clocks are `utc_offset_seconds` ahead of UTC.
pub fn daily_stats_of(
    orders: &Vec<OrderRecord>,
    guild_id: &str,
    day: i64,
    utc_offset_seconds: i32,
) -> (stats: DailyStats)
    ensures
        stats@ == daily_stats_on(order_views(orders@, utc_offset_seconds), guild_id@, day as int),
{
    let users = served_users(orders, guild_id, day, utc_offset_seconds);
    stats_of_served(&users)
}

/// A ledger in memory. It never fails.
///
/// It stamps orders with the time of its own clock, which stands where its
/// owner last set it, and reads the day in a place whose clocks are a fixed
/// number of seconds ahead of UTC.
pub struct MemoryOrderRepository {
    orders: Vec<OrderRecord>,
    utc_offset_seconds: i32,
    now: u64,
}

impl MemoryOrderRepository {
    /// How far the clocks of the ledger's place are ahead of UTC, in seconds.
    pub closed spec fn utc_offset(&self) -> i32 {
        self.utc_offset_seconds
    }

    /// What the ledger's clock shows, in seconds since the Unix epoch.
    pub closed spec fn clock(&self) -> u64 {
        self.now
    }

    /// The calendar day that the ledger's clock shows.
    pub open spec fn today(&self) -> int {
        day_of(self.clock(), self.utc_offset())
    }

    /// An empty ledger in a place whose clocks are `utc_offset_seconds` ahead
    /// of UTC. Its clock shows `now`.
    pub fn new(utc_offset_seconds: i32, now: u64) -> (ledger: Self)
        ensures
            ledger.orders() == Seq::<OrderView>::empty(),
            ledger.utc_offset() == utc_offset_seconds,
            ledger.clock() == now,
    {
        let ledger = MemoryOrderRepository { orders: Vec::new(), utc_offset_seconds, now };
        assert(ledger.orders() =~= Seq::<OrderView>::empty());
        ledger
    }

    /// Sets the ledger's clock to `now`.
    pub fn set_clock(&mut self, now: u64)
        ensures
            final(self).clock() == now,
            final(self).orders() == old(self).orders(),
            final(self).utc_offset() == old(self).utc_offset(),
    {
        self.now = now;
    }

    /// The calendar day on which the moment `at` falls in the ledger's place.
    pub fn day_at(&self, at: u64) -> (day: i64)
        ensures
            day == day_of(at, self.utc_offset()),
    {
        calendar_day(at, self.utc_offset_seconds)
    }

    /// Records one order for each of `discord_user_ids`, in their order, all
    /// for `guild_id` and all stamped with `fulfilled_at`.
    pub fn record_orders_at(&mut self, discord_user_ids: &[&str], guild_id: &str, fulfilled_at: u64)
        ensures
            final(self).orders() == old(self).orders() + batch(
                texts(discord_user_ids@),
                guild_id@,
                fulfilled_at,
                day_of(fulfilled_at, old(self).utc_offset()),
            ),
            final(self).utc_offset() == old(self).utc_offset(),
            final(self).clock() == old(self).clock(),
    {
        let ghost added = batch(
            texts(discord_user_ids@),
            guild_id@,
            fulfilled_at,
            day_of(fulfilled_at, self.utc_offset_seconds),
        );
        let mut i: usize = 0;
        assert(self.orders() =~= old(self).orders() + added.take(0));
        while i < discord_user_ids.len()
            invariant
                i <= discord_user_ids@.len(),
                self.utc_offset_seconds == old(self).utc_offset_seconds,
                self.now == old(self).now,
                added == batch(
                    texts(discord_user_ids@),
                    guild_id@,
                    fulfilled_at,
                    day_of(fulfilled_at, self.utc_offset_seconds),
                ),
                self.orders() == old(self).orders() + added.take(i as int),
            decreases discord_user_ids@.len() - i,
        {
            let ghost before = self.orders();
            let order = OrderRecord {
                discord_user_id: discord_user_ids[i].to_owned(),
                guild_id: guild_id.to_owned(),
                fulfilled_at,
            };
            self.orders.push(order);
            proof {
                assert(order.view_in(self.utc_offset_seconds) == added[i as int]);
                assert(self.orders() =~= before.push(added[i as int]));
                assert(before.push(added[i as int]) =~= old(self).orders() + added.take(i + 1));
            }
            i = i + 1;
        }
        assert(added.take(i as int) == added);
    }

    /// The statistics of `guild_id` for `day`.
    pub fn daily_stats_on(&self, guild_id: &str, day: i64) -> (stats: DailyStats)
        ensures
            stats@ == daily_stats_on(self.orders(), guild_id@, day as int),
    {
        daily_stats_of(&self.orders, guild_id, day, self.utc_offset_seconds)
    }
}

impl OrderRepository for MemoryOrderRepository {
    closed spec fn orders(&self) -> Seq<OrderView> {
        order_views(self.orders@, self.utc_offset_seconds)
    }

    open spec fn dependable(&self) -> bool {
        true
    }

    fn record_orders(&mut self, discord_user_ids: &[&str], guild_id: &str) -> (done: Result<
        (),
        StorageError,
    >)
        ensures
            final(self).orders() == old(self).orders() + batch(
                texts(discord_user_ids@),
                guild_id@,
                old(self).clock(),
                old(self).today(),
            ),
            final(self).utc_offset() == old(self).utc_offset(),
            final(self).clock() == old(self).clock(),
    {
        let now = self.now;
        self.record_orders_at(discord_user_ids, guild_id, now);
        Ok(())
    }

    fn daily_stats(&self, guild_id: &str) -> (stats: Result<DailyStats, StorageError>)
        ensures
            stats matches Ok(s) && s@ == daily_stats_on(self.orders(), guild_id@, self.today()),
    {
        let today = self.day_at(self.now);
        Ok(self.daily_stats_on(guild_id, today))
    }
}

} // verus!
