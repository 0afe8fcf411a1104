use vaffelbot::config::Config;
use vaffelbot::VaffelBot;

#[test]
fn the_bot_keeps_its_configuration() {
    let bot = VaffelBot::new(Config {
        redis_url: "redis://localhost".to_string(),
        discord_token: "token".to_string(),
        database_url: "postgres://localhost/waffles".to_string(),
    });
    assert_eq!(bot.config().redis_url, "redis://localhost");
    assert_eq!(bot.config().discord_token, "token");
    assert_eq!(bot.config().database_url, "postgres://localhost/waffles");
}
