//! Where the bot finds the services it talks to.

use vstd::prelude::*;

verus! {

/// The addresses and the token that the bot starts with.
pub struct Config {
    pub redis_url: String,
    pub discord_token: String,
    pub database_url: String,
}

} // verus!
