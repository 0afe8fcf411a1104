use vaffelbot::commands::{
    BakeReply, CloseReply, EmptyReply, OpenReply, PingReply, QueueSizeReply, WaffleReply,
};
use vaffelbot::domain::{DailyStats, QueueEntry};
use vaffelbot::text::{decimal_text, parse_unsigned, signed_decimal_text};
use vaffelbot::wording::{
    bake_text, close_text, empty_text, mention_text, open_text, parse_discord_id, ping_text,
    queue_size_text, waffle_text,
};

fn entry(user_id: &str) -> QueueEntry {
    QueueEntry::new(user_id.to_string(), format!("name of {user_id}"))
}

#[test]
fn numbers_are_written_in_decimal() {
    assert_eq!(decimal_text(0), "0");
    assert_eq!(decimal_text(7), "7");
    assert_eq!(decimal_text(10), "10");
    assert_eq!(decimal_text(1_234_567_890), "1234567890");
    assert_eq!(decimal_text(u64::MAX as u128), "18446744073709551615");
    assert_eq!(decimal_text(u128::MAX), u128::MAX.to_string());
    assert_eq!(signed_decimal_text(0), "0");
    assert_eq!(signed_decimal_text(42), "42");
    assert_eq!(signed_decimal_text(-42), "-42");
    assert_eq!(signed_decimal_text(i64::MAX), "9223372036854775807");
    assert_eq!(signed_decimal_text(i64::MIN), "-9223372036854775808");
}

#[test]
fn numbers_are_read_as_the_standard_library_reads_them() {
    for text in [
        "0", "7", "007", "+5", "+", "", "-1", "12a", "a12", " 12", "12 ", "1_000", "٣",
        "18446744073709551615", "18446744073709551616", "99999999999999999999999", "++1", "1+",
        "000000000000000000000000018446744073709551615", "+0", "1e3", "½",
    ] {
        assert_eq!(parse_unsigned(text), text.parse::<u64>().ok(), "{text:?}");
    }
}

#[test]
fn a_discord_id_is_a_number_other_than_zero() {
    assert_eq!(parse_discord_id("123456789012345678"), Some(123_456_789_012_345_678));
    assert_eq!(parse_discord_id("0"), None);
    assert_eq!(parse_discord_id("u1"), None);
    assert_eq!(parse_discord_id(""), None);
}

#[test]
fn a_user_is_mentioned_by_number() {
    assert_eq!(mention_text("123"), "<@123>");
    assert_eq!(mention_text("0042"), "<@42>");
    assert_eq!(mention_text("somebody"), "somebody");
    assert_eq!(mention_text("0"), "0");
}

#[test]
fn ping_is_worded() {
    assert_eq!(ping_text(PingReply::Pong), "🏓 Pong!");
}

#[test]
fn places_are_told_counted_from_one() {
    assert_eq!(queue_size_text(QueueSizeReply::Closed), "🚨 Bestilling er stengt");
    assert_eq!(queue_size_text(QueueSizeReply::Waiting(0)), "😎 Du er 1 i køen");
    assert_eq!(queue_size_text(QueueSizeReply::Waiting(11)), "😎 Du er 12 i køen");
    assert_eq!(
        queue_size_text(QueueSizeReply::Waiting(usize::MAX)),
        format!("😎 Du er {} i køen", usize::MAX as u128 + 1)
    );
    assert_eq!(queue_size_text(QueueSizeReply::NotWaiting), "🚨 Du er ikke i køen.");
}

#[test]
fn an_order_is_answered() {
    assert_eq!(waffle_text(WaffleReply::Closed), "🏮 Bestilling er stengt");
    assert_eq!(
        waffle_text(WaffleReply::AlreadyWaiting(2)),
        "⏲️ Du er **allerede** i køen. Du er nummer **3** i køen."
    );
    assert_eq!(
        waffle_text(WaffleReply::Joined(0)),
        "⏲️ Du er nå i køen. Du er nummer **1** i køen."
    );
}

#[test]
fn opening_is_answered() {
    assert_eq!(open_text(OpenReply::NotOracle), "Kun orakler kan åpne for bestilling");
    assert_eq!(open_text(OpenReply::AlreadyOpen), "🔓️ Bestilling er allerede åpnet");
    assert_eq!(open_text(OpenReply::Opened), "🔓️ Bestilling er nå åpnet");
}

#[test]
fn baking_is_answered() {
    assert_eq!(bake_text(&BakeReply::Closed), "🔒️ Bestilling er stengt");
    assert_eq!(bake_text(&BakeReply::NotOracle), "Kun orakler kan steke vafler");
    assert_eq!(
        bake_text(&BakeReply::AmountMissing),
        "Du må spesifisere hvor mange vafler du vil steke"
    );
    assert_eq!(bake_text(&BakeReply::NobodyWaiting(0)), "😟 Ingen å steke vafler til.");
    assert_eq!(
        bake_text(&BakeReply::NobodyWaiting(3)),
        "😟 Ingen å steke vafler til. (3 vafler til overs)"
    );
    assert_eq!(
        bake_text(&BakeReply::Baked(vec![entry("11")], 0, true)),
        "🧇 Stekte 1 en vaffel til: <@11>"
    );
    assert_eq!(
        bake_text(&BakeReply::Baked(vec![entry("11"), entry("22")], 0, true)),
        "🧇 Stekte 2 vafler til: <@11>,  og <@22>"
    );
    assert_eq!(
        bake_text(&BakeReply::Baked(vec![entry("11"), entry("22"), entry("33")], 2, false)),
        "🧇 Stekte 3 vafler til: <@11>, <@22>,  og <@33> (2 vafler til overs)"
    );
}

#[test]
fn closing_is_answered_with_the_statistics_of_the_day() {
    assert_eq!(
        close_text(&CloseReply::NotOracle),
        "Kun orakler kan stenge for bestilling"
    );
    assert_eq!(close_text(&CloseReply::AlreadyClosed), "🔒️ Bestilling er allerede stengt");
    assert_eq!(close_text(&CloseReply::Closed(None)), "🔒️ Bestilling er nå stengt");
    assert_eq!(
        close_text(&CloseReply::Closed(Some(DailyStats { total_orders: 0, top_users: vec![] }))),
        "🔒️ Bestilling er nå stengt"
    );
    assert_eq!(
        close_text(&CloseReply::Closed(Some(DailyStats {
            total_orders: 1,
            top_users: vec![("11".to_string(), 1)],
        }))),
        "🔒️ Bestilling er nå stengt\n\n📊 **Dagens statistikk**\nTotalt stekt: 1 vaffel\n\
         \n🏆 **Topp bestillere:**\n🥇 <@11> - 1 vaffel\n"
    );
    assert_eq!(
        close_text(&CloseReply::Closed(Some(DailyStats {
            total_orders: 9,
            top_users: vec![
                ("11".to_string(), 4),
                ("nobody".to_string(), 3),
                ("33".to_string(), 1),
                ("44".to_string(), 1),
            ],
        }))),
        "🔒️ Bestilling er nå stengt\n\n📊 **Dagens statistikk**\nTotalt stekt: 9 vafler\n\
         \n🏆 **Topp bestillere:**\n🥇 <@11> - 4 vafler\n🥉 <@33> - 1 vaffel\n🏅 <@44> - 1 vaffel\n"
    );
    assert_eq!(
        close_text(&CloseReply::Closed(Some(DailyStats { total_orders: 2, top_users: vec![] }))),
        "🔒️ Bestilling er nå stengt\n\n📊 **Dagens statistikk**\nTotalt stekt: 2 vafler\n"
    );
}

#[test]
fn emptying_is_answered() {
    assert_eq!(empty_text(&EmptyReply::NotOracle), "Kun orakler kan tømme køen");
    assert_eq!(empty_text(&EmptyReply::AlreadyEmpty), "Køen er allerede tom");
    assert_eq!(
        empty_text(&EmptyReply::Emptied(vec![entry("11")])),
        "Tømte køen. 11 ble fjernet"
    );
    assert_eq!(
        empty_text(&EmptyReply::Emptied(vec![entry("11"), entry("22"), entry("x")])),
        "Tømte køen. Fjernet: <@11>, <@22>,  og x fra køen"
    );
}
