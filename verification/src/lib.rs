//! A per-guild waffle waitlist and the ledger of waffles served.
//!
//! [`tenant_queue::TenantQueue`] is the first-come-first-served waitlist of each
//! guild, which takes new entries only while it is open. It runs on any store
//! that implements [`domain::QueueRepository`]. [`order_ledger::OrderLedger`]
//! records what was served and gives each guild's statistics of the day; it
//! runs on any store that implements [`domain::OrderRepository`].
//!
//! [`infrastructure`] holds a store of each kind that lives in memory, and what
//! a store on a keyed list needs to write and read its records.
//! [`statistics`] draws the statistics of a day from the users served.
//! [`commands`] holds what each chat command decides, [`wording`] how its
//! reply reads, and [`oracle`] who may give the commands that serve.
//! [`queue_laws`] and [`ledger_laws`] state what holds of every queue and every
//! ledger.

use vstd::prelude::*;

pub mod commands;
pub mod config;
pub mod domain;
pub mod infrastructure;
pub mod ledger_laws;
pub mod oracle;
pub mod order_ledger;
pub mod queue_laws;
pub mod statistics;
pub mod text;
pub mod wording;
pub mod tenant_queue;

use config::Config;

verus! {

/// The bot, before it is started.
pub struct VaffelBot {
    config: Config,
}

impl VaffelBot {
    /// What the bot was configured with.
    pub closed spec fn configured(&self) -> Config {
        self.config
    }

    /// A bot that will start with `config`.
    pub fn new(config: Config) -> (bot: Self)
        ensures
            bot.configured() == config,
    {
        Self { config }
    }

    /// What the bot was configured with.
    pub fn config(&self) -> (config: &Config)
        ensures
            *config == self.configured(),
    {
        &self.config
    }
}

} // verus!
