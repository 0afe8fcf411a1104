//! The ledger of waffles served, and what each guild was served today.

use vstd::prelude::*;

use crate::domain::order::{batch, daily_stats_on, texts, DailyStats, OrderRepository, OrderView};
use crate::domain::queue::StorageError;

verus! {

/// The record of every order served, kept in a store that this value alone
/// writes to. Orders are added and never changed or removed.
pub struct OrderLedger<R: OrderRepository> {
    store: R,
}

impl<R: OrderRepository> OrderLedger<R> {
    /// Every order recorded so far, earliest first.
    pub closed spec fn orders(&self) -> Seq<OrderView> {
        self.store.orders()
    }

    /// Whether every operation succeeds, which is so when the store never
    /// fails.
    pub closed spec fn dependable(&self) -> bool {
        self.store.dependable()
    }

    /// The ledger that `store` holds.
    pub fn new(store: R) -> (ledger: Self)
        ensures
            ledger.orders() == store.orders(),
            ledger.dependable() == store.dependable(),
    {
        OrderLedger { store }
    }

    /// Records one order for each of `discord_user_ids`, all for `guild_id` and
    /// all stamped with the moment of the call: all of them or none. With no
    /// user ids there is nothing to record: the call succeeds and the store is
    /// not asked.
    pub fn record_orders(&mut self, discord_user_ids: &[&str], guild_id: &str) -> (done: Result<
        (),
        StorageError,
    >)
        ensures
            discord_user_ids@.len() == 0 ==> done is Ok && *final(self) == *old(self),
            done is Ok ==> exists|fulfilled_at: u64, day: int|
                final(self).orders() == old(self).orders() + #[trigger] batch(
                    texts(discord_user_ids@),
                    guild_id@,
                    fulfilled_at,
                    day,
                ),
            done is Err ==> final(self).orders() == old(self).orders(),
            final(self).dependable() == old(self).dependable(),
            old(self).dependable() ==> done is Ok,
    {
        if discord_user_ids.len() == 0 {
            proof {
                let nothing = batch(texts(discord_user_ids@), guild_id@, 0, 0);
                assert(self.orders() =~= self.orders() + nothing);
            }
            return Ok(());
        }
        self.store.record_orders(discord_user_ids, guild_id)
    }

    /// The statistics of `guild_id` for the day of the call: how many orders
    /// it was served that day, and the three users served most often that day.
    pub fn daily_stats(&self, guild_id: &str) -> (stats: Result<DailyStats, StorageError>)
        ensures
            stats matches Ok(s) ==> exists|day: int|
                s@ == #[trigger] daily_stats_on(self.orders(), guild_id@, day),
            self.dependable() ==> stats is Ok,
    {
        let stats = self.store.daily_stats(guild_id);
        proof {
            if let Ok(s) = &stats {
                let day = choose|day: int|
                    s@ == #[trigger] daily_stats_on(self.store.orders(), guild_id@, day);
                assert(s@ == daily_stats_on(self.orders(), guild_id@, day));
            }
        }
        stats
    }
}

} // verus!
