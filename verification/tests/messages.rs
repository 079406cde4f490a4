//! What the bot does about messages and reactions.

use discord_repost::discord_handler::{
    AdminAction, ChatMessage, GuildStanding, Handler, Request, Route, Session, NOT_ADMIN,
    UNKNOWN_COMMAND, USAGE,
};
use discord_repost::moment::Moment;
use discord_repost::posts::Repost;
use discord_repost::repost_checker::RepostChecker;

const BOT: u64 = 99;

fn handler() -> Handler {
    Handler { repost_checker: RepostChecker::new_with_url("sqlite::memory:") }
}

fn at(second: u32) -> Moment {
    Moment::new(2024, 2, 29, 7, 5, second, 0).unwrap()
}

fn says(author_id: u64, content: &str) -> ChatMessage {
    ChatMessage {
        author_id,
        bot_id: BOT,
        in_guild: true,
        channel_id: 1,
        mentions: vec![],
        content: content.to_string(),
    }
}

fn asks(content: &str) -> ChatMessage {
    let mut m = says(5, content);
    m.mentions = vec![7, BOT];
    m
}

#[test]
fn routes() {
    let h = handler();
    assert!(matches!(h.message(&says(BOT, "x")), Route::Skip));
    assert!(matches!(h.message(&says(5, "x")), Route::Channel));
    let mut direct = says(5, "x");
    direct.in_guild = false;
    assert!(matches!(h.message(&direct), Route::Admin));
    direct.author_id = BOT;
    assert!(matches!(h.message(&direct), Route::Skip));
}

#[test]
fn requests() {
    let h = handler();
    assert!(matches!(h.request(&asks("<@99> stats")), Request::Stats));
    assert!(matches!(h.request(&asks("<@99> top domains")), Request::TopDomains));
    assert!(matches!(h.request(&asks("<@99> top users")), Request::TopUsers));
    assert!(matches!(h.request(&asks("<@99> today")), Request::Today));
    assert!(matches!(h.request(&asks("<@99> today!")), Request::Links));
    assert!(matches!(h.request(&asks("")), Request::Links));
    assert!(matches!(h.request(&says(5, "stats")), Request::Links));
}

#[test]
fn answers_leave_the_store_alone() {
    let mut h = handler();
    h.get_messages_to_send(&says(5, "https://svt.se/a"), &at(0));
    let stats = "Totalt har det postats 1 unika länkar\n- <@5>: 1 (0 reposts, 0%)\n".to_string();
    assert_eq!(h.get_messages_to_send(&asks("https://svt.se/a stats"), &at(1)), vec![stats.clone()]);
    assert_eq!(
        h.get_messages_to_send(&asks("top domains"), &at(1)),
        vec!["Top 5 domäner:\n1. svt.se (1 länkar)\n".to_string()]
    );
    assert_eq!(
        h.get_messages_to_send(&asks("top users"), &at(1)),
        vec!["Top 5 användare:\n1. <@5> (1 länkar)\n".to_string()]
    );
    assert_eq!(
        h.get_messages_to_send(&asks("today"), &at(1)),
        vec!["Idag har det postats 1 länkar".to_string()]
    );
    assert_eq!(h.get_messages_to_send(&asks("stats"), &at(1)), vec![stats]);
}

#[test]
fn reposts_are_reported_with_credit() {
    let mut h = handler();
    assert!(h.get_messages_to_send(&says(5, "look: https://svt.se/a"), &at(0)).is_empty());
    assert_eq!(
        h.get_messages_to_send(&says(6, "https://svt.se/a and https://svt.se/b"), &at(1)),
        vec!["https://svt.se/a har postats 1 gång!\n- <@5> - 2024-02-29 07:05:00".to_string()]
    );
    assert_eq!(
        h.get_messages_to_send(&says(7, "https://svt.se/b https://svt.se/a"), &at(2)),
        vec![
            "https://svt.se/b har postats 1 gång!\n- <@6> - 2024-02-29 07:05:01".to_string(),
            "https://svt.se/a har postats 2 gånger!\n- <@5> - 2024-02-29 07:05:00\n- <@6> - 2024-02-29 07:05:01"
                .to_string(),
        ]
    );
}

#[test]
fn a_link_twice_in_one_message_is_reported() {
    let mut h = handler();
    assert_eq!(
        h.get_messages_to_send(&says(5, "https://svt.se https://svt.se"), &at(0)),
        vec!["https://svt.se/ har postats 1 gång!\n- <@5> - 2024-02-29 07:05:00".to_string()]
    );
}

#[test]
fn messages_without_links() {
    let mut h = handler();
    assert!(h.get_messages_to_send(&says(5, "hej"), &at(0)).is_empty());
    assert_eq!(h.repost_checker.stats(), "Totalt har det postats 0 unika länkar\n");
}

#[test]
fn ignored_links_are_stored_all_the_same() {
    let mut h = handler();
    h.repost_checker.admin_add_ignore("svt.se");
    assert!(h
        .get_messages_to_send(&says(5, "https://svt.se https://svt.se"), &at(0))
        .is_empty());
    h.repost_checker.admin_remove_ignore("svt.se");
    assert_eq!(h.get_messages_to_send(&says(5, "https://svt.se"), &at(0)).len(), 1);
}

#[test]
fn unknown_users_stop_the_messages() {
    let mut h = handler();
    let row = Repost {
        url: "https://svt.se/".to_string(),
        user_id: "someone".to_string(),
        posted_at: "2024-02-29 07:05:00".to_string(),
        posted_on: Some("2024-02-29".to_string()),
    };
    h.repost_checker.load(Some(vec![row]), None, None);
    assert!(h.try_get_messages_to_send(&says(5, "https://svt.se"), &at(0)).is_none());
    assert!(h.try_get_messages_to_send(&asks("stats"), &at(0)).is_none());
    assert!(!h.can_answer(&Request::TopUsers));
    assert!(h.can_answer(&Request::TopDomains));
    assert_eq!(
        h.try_get_messages_to_send(&asks("today"), &at(0)),
        Some(vec!["Idag har det postats 1 länkar".to_string()])
    );
    assert_eq!(h.try_get_messages_to_send(&says(5, "https://dn.se"), &at(0)), Some(vec![]));
    assert_eq!(h.repost_checker.today_stats(&at(0)), "Idag har det postats 2 länkar");
}

#[test]
fn a_session_goes_link_by_link() {
    let mut store = RepostChecker::new_with_url("sqlite::memory:");
    let mut session = Session::begin(&says(5, "https://svt.se https://dn.se https://svt.se"));
    let mut stored = Vec::new();
    let mut second = 0;
    while let Some(u) = session.next_url() {
        assert!(store.can_report(u));
        stored.push(session.step(&mut store, &at(second)).posted_at);
        second += 1;
    }
    assert_eq!(
        stored,
        vec!["2024-02-29 07:05:00", "2024-02-29 07:05:01", "2024-02-29 07:05:02"]
    );
    assert_eq!(
        session.finish(),
        vec!["https://svt.se/ har postats 1 gång!\n- <@5> - 2024-02-29 07:05:00".to_string()]
    );
}

#[test]
fn reactions() {
    let h = handler();
    for emoji in ["👎", "👎🏻", "👎🏼", "👎🏽", "👎🏿"] {
        assert!(h.reaction_add(true, Some(emoji)));
        assert!(!h.reaction_add(false, Some(emoji)));
    }
    assert!(!h.reaction_add(true, Some("👎🏾")));
    assert!(!h.reaction_add(true, Some("👍")));
    assert!(!h.reaction_add(true, None));
}

#[test]
fn outsiders_are_turned_away() {
    let mut h = handler();
    let reply = h.handle_admin_command(false, "ignore-add svt.se").unwrap();
    assert_eq!(reply, "You need administrator permissions to use admin commands.");
    assert_eq!(reply, NOT_ADMIN);
    assert_eq!(h.handle_admin_command(false, "").unwrap(), NOT_ADMIN);
    assert_eq!(
        h.handle_admin_command(true, "list-urls").unwrap(),
        "**Always Enabled Hosts:**\n(none)\n\n**Ignored Hosts:**\n(none)\n"
    );
}

#[test]
fn administrators_rule_the_hosts() {
    let mut h = handler();
    assert_eq!(
        h.handle_admin_command(true, "  ignore-add   svt.se\n").unwrap(),
        "Added svt.se to ignored hosts"
    );
    assert_eq!(
        h.handle_admin_command(true, "always-enable-add dn.se").unwrap(),
        "Added dn.se to always enabled hosts"
    );
    assert_eq!(
        h.handle_admin_command(true, "list-urls and more").unwrap(),
        "**Always Enabled Hosts:**\n- dn.se\n\n**Ignored Hosts:**\n- svt.se\n"
    );
    assert_eq!(
        h.handle_admin_command(true, "ignore-remove svt.se").unwrap(),
        "Removed svt.se from ignored hosts"
    );
    assert_eq!(
        h.handle_admin_command(true, "always-disable-remove dn.se").unwrap(),
        "Removed dn.se from always enabled hosts"
    );
    assert_eq!(
        h.repost_checker.admin_list_urls(),
        "**Always Enabled Hosts:**\n(none)\n\n**Ignored Hosts:**\n(none)\n"
    );
}

#[test]
fn commands_that_are_not_understood() {
    let mut h = handler();
    assert_eq!(h.handle_admin_command(true, "ignore-add").unwrap(), USAGE);
    assert_eq!(h.handle_admin_command(true, "ignore-add a b").unwrap(), USAGE);
    assert!(USAGE.starts_with("\nAvailable commands:\n- `always-enable <host>`"));
    assert_eq!(h.handle_admin_command(true, "always svt.se").unwrap(), UNKNOWN_COMMAND);
    assert_eq!(
        h.handle_admin_command(true, "list-urls").unwrap(),
        "**Always Enabled Hosts:**\n(none)\n\n**Ignored Hosts:**\n(none)\n"
    );
    assert_eq!(
        UNKNOWN_COMMAND,
        "Unknown command. Available: always-enable-add, always-enable-remove, ignore-add, ignore-remove"
    );
    assert!(matches!(h.admin_action(true, "ignore-add a"), AdminAction::AddIgnore(a) if a == "a"));
}

#[test]
fn commands_that_the_texts_name_are_carried_out() {
    let empty = "**Always Enabled Hosts:**\n(none)\n\n**Ignored Hosts:**\n(none)\n";
    let enabled = "**Always Enabled Hosts:**\n- example.com\n\n**Ignored Hosts:**\n(none)\n";
    let ignored = "**Always Enabled Hosts:**\n(none)\n\n**Ignored Hosts:**\n- example.com\n";
    for (on, off, between) in [
        ("always-enable", "always-disable", enabled),
        ("always-enable-add", "always-enable-remove", enabled),
        ("always-enable", "always-disable-remove", enabled),
        ("ignore-add", "ignore-remove", ignored),
    ] {
        let mut h = handler();
        h.handle_admin_command(true, &format!("{on} example.com"));
        assert_eq!(h.handle_admin_command(true, "list-urls").unwrap(), between);
        h.handle_admin_command(true, &format!("{off} example.com"));
        assert_eq!(h.handle_admin_command(true, "list-urls").unwrap(), empty);
    }
    for named in ["always-enable <host>", "always-disable <host>", "ignore-add <host>"] {
        assert!(USAGE.contains(&format!("`{named}`")));
    }
    assert!(UNKNOWN_COMMAND.contains("always-enable-remove"));
}

#[test]
fn errors_are_told() {
    assert_eq!(Handler::admin_reply(Ok("fine".to_string())), "fine");
    assert_eq!(Handler::admin_reply(Err("disk full".to_string())), "Error: disk full");
}

#[test]
fn administrators_of_any_guild() {
    assert!(!Handler::is_user_admin(&vec![]));
    assert!(!Handler::is_user_admin(&vec![
        GuildStanding::NoMember,
        GuildStanding::NoGuild,
        GuildStanding::Permissions(0),
        GuildStanding::Permissions(!8),
    ]));
    assert!(Handler::is_user_admin(&vec![
        GuildStanding::NoMember,
        GuildStanding::Permissions(1),
        GuildStanding::Permissions(8 | 2),
    ]));
    assert!(Handler::is_user_admin(&vec![GuildStanding::Permissions(u64::MAX)]));
}
