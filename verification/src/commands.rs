//! What each command decides: what it does to the queue and the ledger, and
//! what it has to tell. How the reply reads is a matter of [`crate::wording`].

use vstd::prelude::*;

use crate::domain::order::{
    batch, daily_stats_on, texts, DailyStats, OrderRepository, OrderView,
};
use crate::domain::queue::{
    entry_views, is_position_of, user_ids, EntryView, QueueEntry, QueueRepository, StorageError,
    TenantQueueState,
};
use crate::order_ledger::OrderLedger;
use crate::tenant_queue::{Enrollment, TenantQueue};

verus! {

/// The queues of all guilds but `guild_id` are in `after` what they were in
/// `before`, and the waitlists are well formed if they were.
pub open spec fn others_untouched<R: QueueRepository>(
    before: &TenantQueue<R>,
    after: &TenantQueue<R>,
    guild_id: Seq<char>,
) -> bool {
    &&& forall|g: Seq<char>| g != guild_id ==> after.tenant(g) == before.tenant(g)
    &&& after.dependable() == before.dependable()
    &&& before.well_formed() ==> after.well_formed()
}

/// `served` are those whom a request for `amount` takes from the front of
/// `queue`, earliest first, and `left_over` is the number of waffles that found
/// nobody waiting.
pub open spec fn serves(
    queue: TenantQueueState,
    amount: usize,
    served: Seq<QueueEntry>,
    left_over: usize,
) -> bool {
    &&& entry_views(served) == queue.front(amount as nat)
    &&& left_over == amount - served.len()
}

/// The ledger that held `before` has taken one order for each of `served`, in
/// their order, for `guild_id`, all stamped with one moment and day, and now
/// holds `after`.
pub open spec fn entered(
    before: Seq<OrderView>,
    after: Seq<OrderView>,
    served: Seq<QueueEntry>,
    guild_id: Seq<char>,
) -> bool {
    exists|fulfilled_at: u64, day: int|
        after == before + #[trigger] batch(
            user_ids(entry_views(served)),
            guild_id,
            fulfilled_at,
            day,
        )
}

/// The answer to a ping.
#[derive(Debug, Clone, Copy, PartialEq, Eq, Structural)]
pub enum PingReply {
    Pong,
}

/// What a user learns who asks where they stand.
#[derive(Debug, Clone, Copy, PartialEq, Eq, Structural)]
pub enum QueueSizeReply {
    /// Ordering is closed.
    Closed,
    /// The user waits, with this many ahead of them.
    Waiting(usize),
    /// The user does not wait.
    NotWaiting,
}

/// What a user learns who asks for a waffle.
#[derive(Debug, Clone, Copy, PartialEq, Eq, Structural)]
pub enum WaffleReply {
    /// Ordering is closed.
    Closed,
    /// The user waited already, with this many ahead of them.
    AlreadyWaiting(usize),
    /// The user has joined the queue, with this many ahead of them.
    Joined(usize),
}

/// What comes of an attempt to serve waffles.
#[derive(Debug, PartialEq, Eq)]
pub enum BakeReply {
    /// Ordering is closed.
    Closed,
    /// Only an oracle may serve.
    NotOracle,
    /// The number of waffles was not given.
    AmountMissing,
    /// Nobody waited. The number tells how many waffles are left over.
    NobodyWaiting(usize),
    /// Those served, earliest first; how many waffles are left over; and
    /// whether the ledger took the orders.
    Baked(Vec<QueueEntry>, usize, bool),
}

/// What comes of an attempt to open ordering.
#[derive(Debug, Clone, Copy, PartialEq, Eq, Structural)]
pub enum OpenReply {
    /// Only an oracle may open.
    NotOracle,
    /// Ordering was open already.
    AlreadyOpen,
    /// Ordering is open now.
    Opened,
}

/// What comes of an attempt to close ordering.
#[derive(Debug, PartialEq, Eq)]
pub enum CloseReply {
    /// Only an oracle may close.
    NotOracle,
    /// Ordering was closed already.
    AlreadyClosed,
    /// Ordering is closed now. With it come the statistics of the day, unless
    /// the ledger could not give them.
    Closed(Option<DailyStats>),
}

/// What comes of an attempt to empty the queue.
#[derive(Debug, PartialEq, Eq)]
pub enum EmptyReply {
    /// Only an oracle may empty the queue.
    NotOracle,
    /// Nobody waited. Ordering is closed now.
    AlreadyEmpty,
    /// Those who were removed, earliest first. Ordering is closed now.
    Emptied(Vec<QueueEntry>),
}

/// Asks whether the bot is there.
pub struct PingCommand;

/// Asks where the caller stands in the queue.
pub struct QueueSizeCommand;

/// Orders a waffle for the caller.
pub struct WaffleCommand;

/// Serves those who have waited longest.
pub struct BakeCommand;

/// Opens ordering.
pub struct OpenCommand;

/// Closes ordering.
pub struct CloseCommand;

/// Sends everyone home and closes ordering.
pub struct EmptyCommand;

impl PingCommand {
    /// Answers.
    pub fn run() -> (reply: PingReply)
        ensures
            reply == PingReply::Pong,
    {
        PingReply::Pong
    }
}

impl QueueSizeCommand {
    /// Tells `user_id` where they stand in the queue of `guild_id`.
    pub fn run<R: QueueRepository>(queue: &TenantQueue<R>, guild_id: &str, user_id: String) -> (reply:
        Result<QueueSizeReply, StorageError>)
        ensures
            match reply {
                Ok(QueueSizeReply::Closed) => !queue.tenant(guild_id@).is_open,
                Ok(QueueSizeReply::Waiting(ahead)) => {
                    &&& queue.tenant(guild_id@).is_open
                    &&& is_position_of(queue.tenant(guild_id@).entries, user_id@, Some(ahead as int))
                },
                Ok(QueueSizeReply::NotWaiting) => {
                    &&& queue.tenant(guild_id@).is_open
                    &&& is_position_of(queue.tenant(guild_id@).entries, user_id@, None)
                },
                Err(_) => queue.tenant(guild_id@).is_open,
            },
            queue.dependable() ==> reply is Ok,
    {
        if !queue.is_open(guild_id) {
            return Ok(QueueSizeReply::Closed);
        }
        match queue.index_of(guild_id, user_id.as_str()) {
            Err(e) => Err(e),
            Ok(Some(ahead)) => Ok(QueueSizeReply::Waiting(ahead)),
            Ok(None) => Ok(QueueSizeReply::NotWaiting),
        }
    }
}

impl WaffleCommand {
    /// Puts `user_id` at the tail of the queue of `guild_id`, unless ordering is
    /// closed or the user waits already.
    pub fn run<R: QueueRepository>(
        queue: &mut TenantQueue<R>,
        guild_id: &str,
        user_id: String,
        display_name: String,
    ) -> (reply: Result<WaffleReply, StorageError>)
        ensures
            match reply {
                Ok(WaffleReply::Closed) => !old(queue).tenant(guild_id@).is_open,
                Ok(WaffleReply::AlreadyWaiting(ahead)) => {
                    &&& old(queue).tenant(guild_id@).is_open
                    &&& is_position_of(
                        old(queue).tenant(guild_id@).entries,
                        user_id@,
                        Some(ahead as int),
                    )
                },
                Ok(WaffleReply::Joined(ahead)) => {
                    &&& old(queue).tenant(guild_id@).is_open
                    &&& !old(queue).tenant(guild_id@).has_user(user_id@)
                    &&& ahead == old(queue).tenant(guild_id@).entries.len()
                },
                Err(_) => old(queue).tenant(guild_id@).is_open,
            },
            reply is Ok ==> final(queue).tenant(guild_id@) == old(queue).tenant(guild_id@).enrolled(
                (EntryView { user_id: user_id@, display_name: display_name@ }),
            ),
            reply is Err ==> final(queue).tenant(guild_id@) == old(queue).tenant(guild_id@),
            others_untouched(old(queue), final(queue), guild_id@),
            old(queue).dependable() ==> reply is Ok,
    {
        match queue.enroll(guild_id, QueueEntry::new(user_id, display_name)) {
            Err(e) => Err(e),
            Ok(Enrollment::Closed) => Ok(WaffleReply::Closed),
            Ok(Enrollment::AlreadyPresent(ahead)) => Ok(WaffleReply::AlreadyWaiting(ahead)),
            Ok(Enrollment::Enrolled(size)) => Ok(WaffleReply::Joined(size - 1)),
        }
    }
}

impl BakeCommand {
    /// Serves up to `amount` of those who wait in the queue of `guild_id`,
    /// earliest first, and enters what was served in the ledger.
    pub fn run<R: QueueRepository, L: OrderRepository>(
        queue: &mut TenantQueue<R>,
        ledger: &mut OrderLedger<L>,
        guild_id: &str,
        amount: Option<usize>,
        is_oracle: bool,
    ) -> (reply: Result<BakeReply, StorageError>)
        ensures
            match reply {
                Ok(BakeReply::Closed) => !old(queue).tenant(guild_id@).is_open,
                Ok(BakeReply::NotOracle) => old(queue).tenant(guild_id@).is_open && !is_oracle,
                Ok(BakeReply::AmountMissing) => {
                    &&& old(queue).tenant(guild_id@).is_open
                    &&& is_oracle
                    &&& amount is None
                },
                Ok(BakeReply::NobodyWaiting(left_over)) => {
                    &&& old(queue).tenant(guild_id@).is_open
                    &&& is_oracle
                    &&& amount == Some(left_over)
                    &&& old(queue).tenant(guild_id@).entries.len() == 0 || left_over == 0
                },
                Ok(BakeReply::Baked(served, left_over, recorded)) => {
                    &&& old(queue).tenant(guild_id@).is_open
                    &&& is_oracle
                    &&& served@.len() > 0
                    &&& amount matches Some(n) && serves(
                        old(queue).tenant(guild_id@),
                        n,
                        served@,
                        left_over,
                    )
                    &&& recorded ==> entered(
                        old(ledger).orders(),
                        final(ledger).orders(),
                        served@,
                        guild_id@,
                    )
                },
                Err(_) => old(queue).tenant(guild_id@).is_open && is_oracle && amount is Some,
            },
            match reply {
                Ok(BakeReply::Baked(_, _, _)) | Ok(BakeReply::NobodyWaiting(_)) => {
                    final(queue).tenant(guild_id@) == old(queue).tenant(guild_id@).without_front(
                        amount.unwrap() as nat,
                    )
                },
                _ => final(queue).tenant(guild_id@) == old(queue).tenant(guild_id@),
            },
            match reply {
                Ok(BakeReply::Baked(_, _, recorded)) => {
                    !recorded ==> final(ledger).orders() == old(ledger).orders()
                },
                _ => final(ledger).orders() == old(ledger).orders(),
            },
            others_untouched(old(queue), final(queue), guild_id@),
            final(ledger).dependable() == old(ledger).dependable(),
            old(queue).dependable() ==> reply is Ok,
            old(ledger).dependable() ==> (reply matches Ok(BakeReply::Baked(_, _, recorded))
                ==> recorded),
    {
        if !queue.is_open(guild_id) {
            return Ok(BakeReply::Closed);
        }
        if !is_oracle {
            return Ok(BakeReply::NotOracle);
        }
        let amount = match amount {
            Some(n) => n,
            None => {
                return Ok(BakeReply::AmountMissing);
            },
        };
        let served = match queue.dequeue_n(guild_id, amount) {
            Ok(entries) => entries,
            Err(e) => {
                return Err(e);
            },
        };
        assert(served@.len() == entry_views(served@).len());
        let left_over = amount - served.len();
        if served.len() == 0 {
            return Ok(BakeReply::NobodyWaiting(left_over));
        }
        let mut ids: Vec<&str> = Vec::new();
        let mut i: usize = 0;
        while i < served.len()
            invariant
                i <= served.len(),
                ids@.len() == i,
                forall|k: int| 0 <= k < i ==> ids@[k]@ == served@[k].user_id@,
            decreases served.len() - i,
        {
            ids.push(served[i].user_id.as_str());
            i = i + 1;
        }
        let recorded = ledger.record_orders(ids.as_slice(), guild_id).is_ok();
        proof {
            let names = user_ids(entry_views(served@));
            assert(texts(ids@) =~= names);
            if recorded {
                let (fulfilled_at, day) = choose|fulfilled_at: u64, day: int|
                    ledger.orders() == old(ledger).orders() + #[trigger] batch(
                        texts(ids@),
                        guild_id@,
                        fulfilled_at,
                        day,
                    );
                assert(ledger.orders() == old(ledger).orders() + batch(
                    names,
                    guild_id@,
                    fulfilled_at,
                    day,
                ));
            }
            assert(serves(old(queue).tenant(guild_id@), amount, served@, left_over));
            assert(recorded ==> entered(old(ledger).orders(), ledger.orders(), served@, guild_id@));
        }
        Ok(BakeReply::Baked(served, left_over, recorded))
    }
}

impl OpenCommand {
    /// Opens ordering for `guild_id`.
    pub fn run<R: QueueRepository>(queue: &mut TenantQueue<R>, guild_id: &str, is_oracle: bool) -> (reply:
        OpenReply)
        ensures
            match reply {
                OpenReply::NotOracle => !is_oracle,
                OpenReply::AlreadyOpen => is_oracle && old(queue).tenant(guild_id@).is_open,
                OpenReply::Opened => is_oracle && !old(queue).tenant(guild_id@).is_open,
            },
            reply == OpenReply::Opened ==> {
                final(queue).tenant(guild_id@) == old(queue).tenant(guild_id@).opened()
            },
            reply != OpenReply::Opened ==> {
                final(queue).tenant(guild_id@) == old(queue).tenant(guild_id@)
            },
            others_untouched(old(queue), final(queue), guild_id@),
    {
        if !is_oracle {
            return OpenReply::NotOracle;
        }
        if queue.is_open(guild_id) {
            return OpenReply::AlreadyOpen;
        }
        queue.open(guild_id);
        OpenReply::Opened
    }
}

impl CloseCommand {
    /// Closes ordering for `guild_id`, which drains its queue, and fetches the
    /// statistics of the day.
    pub fn run<R: QueueRepository, L: OrderRepository>(
        queue: &mut TenantQueue<R>,
        ledger: &OrderLedger<L>,
        guild_id: &str,
        is_oracle: bool,
    ) -> (reply: Result<CloseReply, StorageError>)
        ensures
            match reply {
                Ok(CloseReply::NotOracle) => !is_oracle,
                Ok(CloseReply::AlreadyClosed) => is_oracle && !old(queue).tenant(guild_id@).is_open,
                Ok(CloseReply::Closed(stats)) => {
                    &&& is_oracle
                    &&& old(queue).tenant(guild_id@).is_open
                    &&& stats matches Some(s) ==> exists|day: int|
                        s@ == #[trigger] daily_stats_on(ledger.orders(), guild_id@, day)
                    &&& ledger.dependable() ==> stats is Some
                },
                Err(_) => is_oracle && old(queue).tenant(guild_id@).is_open,
            },
            reply matches Ok(CloseReply::Closed(_)) ==> {
                final(queue).tenant(guild_id@) == old(queue).tenant(guild_id@).closed()
            },
            !(reply matches Ok(CloseReply::Closed(_))) ==> {
                final(queue).tenant(guild_id@) == old(queue).tenant(guild_id@)
            },
            others_untouched(old(queue), final(queue), guild_id@),
            old(queue).dependable() ==> reply is Ok,
    {
        if !is_oracle {
            return Ok(CloseReply::NotOracle);
        }
        if !queue.is_open(guild_id) {
            return Ok(CloseReply::AlreadyClosed);
        }
        match queue.close(guild_id) {
            Ok(()) => {},
            Err(e) => {
                return Err(e);
            },
        }
        let stats = match ledger.daily_stats(guild_id) {
            Ok(stats) => Some(stats),
            Err(_) => None,
        };
        Ok(CloseReply::Closed(stats))
    }
}

impl EmptyCommand {
    /// The command.
    pub fn new() -> (command: Self) {
        EmptyCommand
    }

    /// Removes everyone from the queue of `guild_id` and closes ordering.
    pub fn run<R: QueueRepository>(queue: &mut TenantQueue<R>, guild_id: &str, is_oracle: bool) -> (reply:
        Result<EmptyReply, StorageError>)
        ensures
            match reply {
                Ok(EmptyReply::NotOracle) => !is_oracle,
                Ok(EmptyReply::AlreadyEmpty) => {
                    &&& is_oracle
                    &&& old(queue).tenant(guild_id@).entries.len() == 0
                },
                Ok(EmptyReply::Emptied(removed)) => {
                    &&& is_oracle
                    &&& removed@.len() > 0
                    &&& entry_views(removed@) == old(queue).tenant(guild_id@).entries
                },
                Err(_) => is_oracle,
            },
            reply is Ok && is_oracle ==> {
                final(queue).tenant(guild_id@) == old(queue).tenant(guild_id@).closed()
            },
            reply is Err || !is_oracle ==> {
                final(queue).tenant(guild_id@) == old(queue).tenant(guild_id@)
            },
            others_untouched(old(queue), final(queue), guild_id@),
            old(queue).dependable() ==> reply is Ok,
    {
        if !is_oracle {
            return Ok(EmptyReply::NotOracle);
        }
        let removed = match queue.list(guild_id) {
            Ok(entries) => entries,
            Err(e) => {
                return Err(e);
            },
        };
        match queue.close(guild_id) {
            Ok(()) => {},
            Err(e) => {
                return Err(e);
            },
        }
        assert(removed@.len() == entry_views(removed@).len());
        if removed.len() == 0 {
            Ok(EmptyReply::AlreadyEmpty)
        } else {
            Ok(EmptyReply::Emptied(removed))
        }
    }
}

} // verus!
