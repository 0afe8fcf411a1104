//! How the replies of the commands are worded.

use vstd::prelude::*;

use crate::commands::{
    BakeReply, CloseReply, EmptyReply, OpenReply, PingReply, QueueSizeReply, WaffleReply,
};
use crate::domain::order::{DailyStats, DailyStatsView};
use crate::domain::queue::{entry_views, user_ids, QueueEntry};
use crate::text::{decimal, decimal_text, parse_unsigned, signed_decimal, signed_decimal_text, unsigned};

verus! {

/// The number of the Discord user that `user_id` names: a `u64` other than 0,
/// written in decimal. `None` when `user_id` names no Discord user.
pub open spec fn discord_id(user_id: Seq<char>) -> Option<u64> {
    match unsigned(user_id) {
        Some(id) => if id != 0 {
            Some(id)
        } else {
            None
        },
        None => None,
    }
}

/// The number of `user_id`, or `user_id` as it is when it names no Discord
/// user.
pub open spec fn plain(user_id: Seq<char>) -> Seq<char> {
    match discord_id(user_id) {
        Some(id) => decimal(id as nat),
        None => user_id,
    }
}

/// What makes Discord show a user by name and notify them, or `user_id` as it
/// is when it names no Discord user.
pub open spec fn mention(user_id: Seq<char>) -> Seq<char> {
    match discord_id(user_id) {
        Some(id) => "<@"@ + decimal(id as nat) + ">"@,
        None => user_id,
    }
}

/// Each of `users` mentioned, with a comma and a space behind each.
pub open spec fn enumerated(users: Seq<Seq<char>>) -> Seq<char>
    decreases users.len(),
{
    if users.len() == 0 {
        Seq::empty()
    } else {
        enumerated(users.drop_last()) + mention(users.last()) + ", "@
    }
}

/// `users` mentioned in a row: one alone; of several the last behind " og " and
/// each of the others with a comma and a space behind it.
pub open spec fn listed(users: Seq<Seq<char>>) -> Seq<char> {
    if users.len() == 0 {
        Seq::empty()
    } else if users.len() == 1 {
        mention(users[0])
    } else {
        enumerated(users.drop_last()) + " og "@ + mention(users.last())
    }
}

/// "vaffel" for one, "vafler" for any other number.
pub open spec fn waffles(count: int) -> Seq<char> {
    if count == 1 {
        "vaffel"@
    } else {
        "vafler"@
    }
}

/// What is said of waffles left over: nothing when there are none.
pub open spec fn left_over(count: nat) -> Seq<char> {
    if count > 0 {
        " ("@ + decimal(count) + " vafler til overs)"@
    } else {
        Seq::empty()
    }
}

/// The medal of a place in the ranking, counted from 0.
pub open spec fn medal(place: int) -> Seq<char> {
    if place == 0 {
        "🥇"@
    } else if place == 1 {
        "🥈"@
    } else if place == 2 {
        "🥉"@
    } else {
        "🏅"@
    }
}

/// The line of the ranking for the user at `place`. A user id that names no
/// Discord user gets no line.
pub open spec fn ranking_line(place: int, pair: (Seq<char>, int)) -> Seq<char> {
    match discord_id(pair.0) {
        Some(_) => medal(place) + " "@ + mention(pair.0) + " - "@ + signed_decimal(pair.1) + " "@
            + waffles(pair.1) + "\n"@,
        None => Seq::empty(),
    }
}

/// The lines of the ranking for its first `places` users.
pub open spec fn ranking_lines(top_users: Seq<(Seq<char>, int)>, places: nat) -> Seq<char>
    decreases places,
{
    if places == 0 || places > top_users.len() {
        Seq::empty()
    } else {
        ranking_lines(top_users, (places - 1) as nat) + ranking_line(
            places - 1,
            top_users[places - 1],
        )
    }
}

/// What is told of the day: nothing when nothing was served.
pub open spec fn statistics(stats: DailyStatsView) -> Seq<char> {
    if stats.total_orders > 0 {
        "\n\n📊 **Dagens statistikk**\nTotalt stekt: "@ + signed_decimal(stats.total_orders) + " "@
            + waffles(stats.total_orders) + "\n"@ + if stats.top_users.len() > 0 {
            "\n🏆 **Topp bestillere:**\n"@ + ranking_lines(stats.top_users, stats.top_users.len())
        } else {
            Seq::empty()
        }
    } else {
        Seq::empty()
    }
}

/// How the answer to a ping reads.
pub open spec fn ping_reply(reply: PingReply) -> Seq<char> {
    "🏓 Pong!"@
}

/// How a user reads where they stand. Places are told counted from 1.
pub open spec fn queue_size_reply(reply: QueueSizeReply) -> Seq<char> {
    match reply {
        QueueSizeReply::Closed => "🚨 Bestilling er stengt"@,
        QueueSizeReply::Waiting(ahead) => "😎 Du er "@ + decimal((ahead + 1) as nat) + " i køen"@,
        QueueSizeReply::NotWaiting => "🚨 Du er ikke i køen."@,
    }
}

/// How a user reads what came of their order. Places are told counted from 1.
pub open spec fn waffle_reply(reply: WaffleReply) -> Seq<char> {
    match reply {
        WaffleReply::Closed => "🏮 Bestilling er stengt"@,
        WaffleReply::AlreadyWaiting(ahead) => "⏲️ Du er **allerede** i køen. Du er nummer **"@
            + decimal((ahead + 1) as nat) + "** i køen."@,
        WaffleReply::Joined(ahead) => "⏲️ Du er nå i køen. Du er nummer **"@ + decimal(
            (ahead + 1) as nat,
        ) + "** i køen."@,
    }
}

/// How the answer to opening reads.
pub open spec fn open_reply(reply: OpenReply) -> Seq<char> {
    match reply {
        OpenReply::NotOracle => "Kun orakler kan åpne for bestilling"@,
        OpenReply::AlreadyOpen => "🔓️ Bestilling er allerede åpnet"@,
        OpenReply::Opened => "🔓️ Bestilling er nå åpnet"@,
    }
}

/// How the answer to serving reads: how many were served, who they are, and
/// how many waffles are left over.
pub open spec fn bake_reply(reply: BakeReply) -> Seq<char> {
    match reply {
        BakeReply::Closed => "🔒️ Bestilling er stengt"@,
        BakeReply::NotOracle => "Kun orakler kan steke vafler"@,
        BakeReply::AmountMissing => "Du må spesifisere hvor mange vafler du vil steke"@,
        BakeReply::NobodyWaiting(over) => "😟 Ingen å steke vafler til."@ + left_over(over as nat),
        BakeReply::Baked(served, over, _) => "🧇 Stekte "@ + decimal(served@.len()) + if served@.len()
            == 1 {
            " en vaffel til: "@
        } else {
            " vafler til: "@
        } + listed(user_ids(entry_views(served@))) + left_over(over as nat),
    }
}

/// How the answer to closing reads, with the statistics of the day where they
/// came.
pub open spec fn close_reply(reply: CloseReply) -> Seq<char> {
    match reply {
        CloseReply::NotOracle => "Kun orakler kan stenge for bestilling"@,
        CloseReply::AlreadyClosed => "🔒️ Bestilling er allerede stengt"@,
        CloseReply::Closed(stats) => "🔒️ Bestilling er nå stengt"@ + match stats {
            Some(s) => statistics(s@),
            None => Seq::empty(),
        },
    }
}

/// How the answer to emptying the queue reads.
pub open spec fn empty_reply(reply: EmptyReply) -> Seq<char> {
    match reply {
        EmptyReply::NotOracle => "Kun orakler kan tømme køen"@,
        EmptyReply::AlreadyEmpty => "Køen er allerede tom"@,
        EmptyReply::Emptied(removed) => if removed@.len() == 1 {
            "Tømte køen. "@ + plain(removed@[0].user_id@) + " ble fjernet"@
        } else {
            "Tømte køen. Fjernet: "@ + listed(user_ids(entry_views(removed@))) + " fra køen"@
        },
    }
}

/// The number of the Discord user that `user_id` names.
pub fn parse_discord_id(user_id: &str) -> (id: Option<u64>)
    ensures
        id == discord_id(user_id@),
{
    match parse_unsigned(user_id) {
        Some(id) => if id != 0 {
            Some(id)
        } else {
            None
        },
        None => None,
    }
}

/// What makes Discord show the user `user_id` by name and notify them.
pub fn mention_text(user_id: &str) -> (text: String)
    ensures
        text@ == mention(user_id@),
{
    match parse_discord_id(user_id) {
        Some(id) => {
            let mut text = String::from_str("<@");
            text.append(decimal_text(id as u128).as_str());
            text.append(">");
            text
        },
        None => String::from_str(user_id),
    }
}

/// Adds the users of `entries`, mentioned in a row, to `text`.
fn append_listed(text: &mut String, entries: &Vec<QueueEntry>)
    ensures
        final(text)@ == old(text)@ + listed(user_ids(entry_views(entries@))),
{
    let ghost users = user_ids(entry_views(entries@));
    let ghost start = text@;
    if entries.len() == 0 {
        assert(text@ =~= start + listed(users));
        return ;
    }
    let last = entries.len() - 1;
    if last == 0 {
        text.append(mention_text(entries[0].user_id.as_str()).as_str());
        assert(users[0] == entries@[0].user_id@);
        return ;
    }
    let ghost others = users.drop_last();
    let mut i: usize = 0;
    assert(others.take(0) =~= Seq::empty());
    assert(text@ =~= start + enumerated(others.take(0)));
    while i < last
        invariant
            i <= last,
            last == entries.len() - 1,
            users == user_ids(entry_views(entries@)),
            others == users.drop_last(),
            text@ == start + enumerated(others.take(i as int)),
        decreases last - i,
    {
        proof {
            assert(others.take(i + 1).drop_last() == others.take(i as int));
            assert(others.take(i + 1).last() == entries@[i as int].user_id@);
        }
        text.append(mention_text(entries[i].user_id.as_str()).as_str());
        text.append(", ");
        assert(text@ =~= start + enumerated(others.take(i + 1)));
        i = i + 1;
    }
    assert(others.take(i as int) == others);
    text.append(" og ");
    text.append(mention_text(entries[last].user_id.as_str()).as_str());
    assert(users.last() == entries@[last as int].user_id@);
    assert(text@ =~= start + listed(users));
}

/// Adds what is said of `count` waffles left over to `text`.
fn append_left_over(text: &mut String, count: usize)
    ensures
        final(text)@ == old(text)@ + left_over(count as nat),
{
    let ghost start = text@;
    if count > 0 {
        text.append(" (");
        text.append(decimal_text(count as u128).as_str());
        text.append(" vafler til overs)");
    }
    assert(text@ =~= start + left_over(count as nat));
}

/// "vaffel" for one, "vafler" for any other number.
fn waffles_text(count: i64) -> (text: &'static str)
    ensures
        text@ == waffles(count as int),
{
    if count == 1 {
        "vaffel"
    } else {
        "vafler"
    }
}

/// The medal of a place in the ranking, counted from 0.
fn medal_text(place: usize) -> (text: &'static str)
    ensures
        text@ == medal(place as int),
{
    if place == 0 {
        "🥇"
    } else if place == 1 {
        "🥈"
    } else if place == 2 {
        "🥉"
    } else {
        "🏅"
    }
}

/// Adds what is told of the day to `text`.
fn append_statistics(text: &mut String, stats: &DailyStats)
    ensures
        final(text)@ == old(text)@ + statistics(stats@),
{
    let ghost start = text@;
    if stats.total_orders <= 0 {
        assert(text@ =~= start + statistics(stats@));
        return ;
    }
    text.append("\n\n📊 **Dagens statistikk**\nTotalt stekt: ");
    text.append(signed_decimal_text(stats.total_orders).as_str());
    text.append(" ");
    text.append(waffles_text(stats.total_orders));
    text.append("\n");
    let ghost head = text@;
    let ghost top = stats@.top_users;
    if stats.top_users.len() == 0 {
        assert(text@ =~= start + statistics(stats@));
        return ;
    }
    text.append("\n🏆 **Topp bestillere:**\n");
    let ghost lead = text@;
    let mut i: usize = 0;
    assert(text@ =~= lead + ranking_lines(top, 0));
    while i < stats.top_users.len()
        invariant
            i <= stats.top_users.len(),
            top == stats@.top_users,
            top.len() == stats.top_users@.len(),
            text@ == lead + ranking_lines(top, i as nat),
        decreases stats.top_users.len() - i,
    {
        let user = &stats.top_users[i].0;
        let count = stats.top_users[i].1;
        assert(top[i as int] == (user@, count as int));
        let ghost before = text@;
        if parse_discord_id(user.as_str()).is_some() {
            text.append(medal_text(i));
            text.append(" ");
            text.append(mention_text(user.as_str()).as_str());
            text.append(" - ");
            text.append(signed_decimal_text(count).as_str());
            text.append(" ");
            text.append(waffles_text(count));
            text.append("\n");
        }
        assert(text@ =~= before + ranking_line(i as int, top[i as int]));
        assert(text@ =~= lead + ranking_lines(top, (i + 1) as nat));
        i = i + 1;
    }
    assert(text@ =~= start + statistics(stats@));
}

/// The answer to a ping.
pub fn ping_text(reply: PingReply) -> (text: String)
    ensures
        text@ == ping_reply(reply),
{
    String::from_str("🏓 Pong!")
}

/// Tells a user where they stand.
pub fn queue_size_text(reply: QueueSizeReply) -> (text: String)
    ensures
        text@ == queue_size_reply(reply),
{
    match reply {
        QueueSizeReply::Closed => String::from_str("🚨 Bestilling er stengt"),
        QueueSizeReply::Waiting(ahead) => {
            let mut text = String::from_str("😎 Du er ");
            text.append(decimal_text(ahead as u128 + 1).as_str());
            text.append(" i køen");
            text
        },
        QueueSizeReply::NotWaiting => String::from_str("🚨 Du er ikke i køen."),
    }
}

/// Tells a user what came of their order.
pub fn waffle_text(reply: WaffleReply) -> (text: String)
    ensures
        text@ == waffle_reply(reply),
{
    match reply {
        WaffleReply::Closed => String::from_str("🏮 Bestilling er stengt"),
        WaffleReply::AlreadyWaiting(ahead) => {
            let mut text = String::from_str("⏲️ Du er **allerede** i køen. Du er nummer **");
            text.append(decimal_text(ahead as u128 + 1).as_str());
            text.append("** i køen.");
            text
        },
        WaffleReply::Joined(ahead) => {
            let mut text = String::from_str("⏲️ Du er nå i køen. Du er nummer **");
            text.append(decimal_text(ahead as u128 + 1).as_str());
            text.append("** i køen.");
            text
        },
    }
}

/// The answer to opening.
pub fn open_text(reply: OpenReply) -> (text: String)
    ensures
        text@ == open_reply(reply),
{
    match reply {
        OpenReply::NotOracle => String::from_str("Kun orakler kan åpne for bestilling"),
        OpenReply::AlreadyOpen => String::from_str("🔓️ Bestilling er allerede åpnet"),
        OpenReply::Opened => String::from_str("🔓️ Bestilling er nå åpnet"),
    }
}

/// The answer to serving.
pub fn bake_text(reply: &BakeReply) -> (text: String)
    ensures
        text@ == bake_reply(*reply),
{
    match reply {
        BakeReply::Closed => String::from_str("🔒️ Bestilling er stengt"),
        BakeReply::NotOracle => String::from_str("Kun orakler kan steke vafler"),
        BakeReply::AmountMissing => String::from_str(
            "Du må spesifisere hvor mange vafler du vil steke",
        ),
        BakeReply::NobodyWaiting(over) => {
            let mut text = String::from_str("😟 Ingen å steke vafler til.");
            append_left_over(&mut text, *over);
            text
        },
        BakeReply::Baked(served, over, _) => {
            let mut text = String::from_str("🧇 Stekte ");
            text.append(decimal_text(served.len() as u128).as_str());
            if served.len() == 1 {
                text.append(" en vaffel til: ");
            } else {
                text.append(" vafler til: ");
            }
            append_listed(&mut text, served);
            append_left_over(&mut text, *over);
            assert(text@ =~= bake_reply(*reply));
            text
        },
    }
}

/// The answer to closing.
pub fn close_text(reply: &CloseReply) -> (text: String)
    ensures
        text@ == close_reply(*reply),
{
    match reply {
        CloseReply::NotOracle => String::from_str("Kun orakler kan stenge for bestilling"),
        CloseReply::AlreadyClosed => String::from_str("🔒️ Bestilling er allerede stengt"),
        CloseReply::Closed(stats) => {
            let mut text = String::from_str("🔒️ Bestilling er nå stengt");
            match stats {
                Some(stats) => {
                    append_statistics(&mut text, stats);
                },
                None => {
                    assert(text@ =~= close_reply(*reply));
                },
            }
            text
        },
    }
}

/// The answer to emptying the queue.
pub fn empty_text(reply: &EmptyReply) -> (text: String)
    ensures
        text@ == empty_reply(*reply),
{
    match reply {
        EmptyReply::NotOracle => String::from_str("Kun orakler kan tømme køen"),
        EmptyReply::AlreadyEmpty => String::from_str("Køen er allerede tom"),
        EmptyReply::Emptied(removed) => {
            if removed.len() == 1 {
                let mut text = String::from_str("Tømte køen. ");
                let user_id = removed[0].user_id.as_str();
                match parse_discord_id(user_id) {
                    Some(id) => {
                        text.append(decimal_text(id as u128).as_str());
                    },
                    None => {
                        text.append(user_id);
                    },
                }
                text.append(" ble fjernet");
                text
            } else {
                let mut text = String::from_str("Tømte køen. Fjernet: ");
                append_listed(&mut text, removed);
                text.append(" fra køen");
                text
            }
        },
    }
}

} // verus!
