//! The store of posts, as the bot uses it.

use chrono::{Datelike, Timelike};
use discord_repost::links::Url;
use discord_repost::moment::Moment;
use discord_repost::posts::Repost;
use discord_repost::repost_checker::{Location, RepostChecker};

fn store() -> RepostChecker {
    RepostChecker::new_with_url("sqlite::memory:")
}

fn url(text: &str) -> Url {
    Url::parse(text).unwrap()
}

fn at(second: u32) -> Moment {
    Moment::new(2024, 2, 29, 7, 5, second, 0).unwrap()
}

fn row(url: &str, user_id: &str, posted_at: &str) -> Repost {
    Repost {
        url: url.to_string(),
        user_id: user_id.to_string(),
        posted_at: posted_at.to_string(),
        posted_on: Some(posted_at[..10].to_string()),
    }
}

fn right_now() -> Moment {
    let now = chrono::Local::now();
    Moment::new(
        now.year(),
        now.month(),
        now.day(),
        now.hour(),
        now.minute(),
        now.second(),
        now.nanosecond(),
    )
    .unwrap()
}

const CONTENT: &str = r#"
            Hello,
            https://www.thegithubshop.com/1455317-00-miirr-vacuum-insulated-hatchback-bottle äkta utvecklare
            some more info
            https://www.thegithubshop.com/1543073-00-invertocat-stanley-tumbler
            some complex?
            Här har hon den på Tiny Desk! https://youtu.be/ANPbOxaRIO0?feature=shared
        "#;

#[test]
fn main_test_parse_url() {
    let rc = store();
    assert_eq!(3, rc.extract_urls(CONTENT).len());
}

#[test]
fn main_test_check_repost() {
    let mut rc = store();

    let u = url("https://svt.se");
    assert!(rc.can_report(&u));
    assert!(rc.check_repost(&u, 1u64).is_none());

    rc.add_url(&u, 123, 1u64, &at(0));
    assert!(rc.can_report(&u));
    assert!(rc.check_repost(&u, 1u64).is_some());
}

#[test]
fn main_test_stats() {
    let mut rc = store();

    let u = url("https://svt.se");
    rc.add_url(&u, 123, 1u64, &at(0));

    assert!(rc.knows_users());
    assert!(rc.stats().contains("Totalt har det postats 1 unik"));
}

fn lists_hosts() {
    let mut rc = store();

    // Test empty lists
    let result = rc.admin_list_urls();
    assert!(result.contains("**Always Enabled Hosts:**"));
    assert!(result.contains("**Ignored Hosts:**"));
    assert!(result.contains("(none)"));

    // Add some domains
    rc.admin_add_always_enabled("example.com");
    rc.admin_add_always_enabled("test.org");
    rc.admin_add_ignore("spam.net");

    let result = rc.admin_list_urls();

    // Check that domains are listed and sorted
    assert!(result.contains("- example.com"));
    assert!(result.contains("- test.org"));
    assert!(result.contains("- spam.net"));

    // Verify sorting (example.com should come before test.org)
    let example_pos = result.find("- example.com").unwrap();
    let test_pos = result.find("- test.org").unwrap();
    assert!(example_pos < test_pos);
}

#[test]
fn main_test_admin_list_urls() {
    lists_hosts();
}

#[test]
fn repost_checker_test_parse_url() {
    let rc = RepostChecker::new_with_url("sqlite::memory:");
    let urls = rc.extract_urls(CONTENT);
    assert_eq!(3, urls.len());
    assert_eq!(
        urls[0].as_str(),
        "https://www.thegithubshop.com/1455317-00-miirr-vacuum-insulated-hatchback-bottle"
    );
    assert_eq!(
        urls[1].as_str(),
        "https://www.thegithubshop.com/1543073-00-invertocat-stanley-tumbler"
    );
    assert_eq!(urls[2].as_str(), "https://youtu.be/ANPbOxaRIO0?feature=shared");
    assert_eq!(urls[2].host_str(), Some("youtu.be"));
}

#[test]
fn repost_checker_test_check_repost() {
    let mut rc = store();

    let u = url("https://svt.se");
    assert!(rc.check_repost(&u, 1u64).is_none());

    rc.add_url(&u, 123, 1u64, &at(0));
    assert!(rc.check_repost(&u, 1u64).is_some());
}

#[test]
fn repost_checker_test_stats() {
    let mut rc = store();

    let u1 = url("https://svt.se");
    let u2 = url("https://aftonbladet.se");

    rc.add_url(&u1, 123, 1u64, &at(0));
    rc.add_url(&u1, 456, 1u64, &at(0));
    rc.add_url(&u1, 789, 1u64, &at(0));

    rc.add_url(&u2, 456, 1u64, &at(0));

    let expected = r#"Totalt har det postats 2 unika länkar
- <@456>: 2 (1 reposts, 50%)
- <@123>: 1 (0 reposts, 0%)
- <@789>: 1 (1 reposts, 100%)
"#;

    assert!(rc.knows_users());
    assert_eq!(rc.stats(), expected);
}

#[test]
fn repost_checker_test_admin_list_urls() {
    lists_hosts();
}

#[test]
fn test_top_domains() {
    let mut rc = store();

    // Test empty database
    let result = rc.top_domains();
    assert!(result.contains("Top 5 domäner:"));
    assert!(result.contains("Inga domäner hittades"));

    // Add some URLs
    let u1 = url("https://github.com/test");
    let u2 = url("https://stackoverflow.com/questions/123");
    let u3 = url("https://github.com/another");

    rc.add_url(&u1, 123, 1u64, &at(0));
    rc.add_url(&u2, 456, 1u64, &at(1));
    rc.add_url(&u3, 789, 1u64, &at(2));

    let result = rc.top_domains();
    assert!(result.contains("1. github.com (2 länkar)"));
    assert!(result.contains("2. stackoverflow.com (1 länkar)"));
}

#[test]
fn test_top_users() {
    let mut rc = store();

    // Test empty database
    let result = rc.top_users();
    assert!(result.contains("Top 5 användare:"));
    assert!(result.contains("Inga användare hittades"));

    // Add some URLs
    let u1 = url("https://example.com/1");
    let u2 = url("https://example.com/2");
    let u3 = url("https://example.com/3");

    rc.add_url(&u1, 123, 1u64, &at(0));
    rc.add_url(&u2, 123, 1u64, &at(1));
    rc.add_url(&u3, 456, 1u64, &at(2));

    assert!(rc.knows_top_users());
    let result = rc.top_users();
    assert!(result.contains("1. <@123> (2 länkar)"));
    assert!(result.contains("2. <@456> (1 länkar)"));
}

#[test]
fn test_today_stats() {
    let mut rc = store();
    let now = right_now();

    let result = rc.today_stats(&now);
    assert!(result.contains("Idag har det postats 0 länkar"));

    // Add a URL for today
    let u1 = url("https://example.com");
    rc.add_url(&u1, 123, 1u64, &now);

    let result = rc.today_stats(&now);
    assert!(result.contains("Idag har det postats 1 länkar"));
}

#[test]
fn locations() {
    assert!(matches!(store().location(), Location::Memory));
    assert!(matches!(RepostChecker::new().location(), Location::File(p) if p == "reposts.db"));
    let plain = RepostChecker::new_with_url("other.db");
    assert!(matches!(plain.location(), Location::File(p) if p == "other.db"));
    let twice = RepostChecker::new_with_url("sqlite:sqlite:x");
    assert!(matches!(twice.location(), Location::File(p) if p == "sqlite:x"));
    let bare = RepostChecker::new_with_url("sqlite:");
    assert!(matches!(bare.location(), Location::File(p) if p.is_empty()));
}

#[test]
fn a_store_that_is_opened_again_is_the_same() {
    let rows = || vec![row("https://svt.se/a", "3", "2024-03-01 10:00:00")];
    let hosts = |h: &str| Some(vec![h.to_string()]);
    for name in ["sqlite:p.db", "p.db"] {
        let mut first = RepostChecker::new_with_url("sqlite:p.db");
        first.load(Some(rows()), hosts("a.se"), hosts("b.se"));
        let mut again = RepostChecker::new_with_url(name);
        assert_eq!(again.stats(), "Totalt har det postats 0 unika länkar\n");
        again.load(Some(rows()), hosts("a.se"), hosts("b.se"));
        assert_eq!(again.stats(), first.stats());
        assert_eq!(again.admin_list_urls(), first.admin_list_urls());
        assert!(matches!(again.location(), Location::File(p) if p == "p.db"));
    }
}

#[test]
fn report_lists_the_posts_in_order_of_time() {
    let mut rc = store();
    let u = url("https://svt.se/a");
    rc.load(
        Some(vec![
            row("https://svt.se/a", "3", "2024-03-01 10:00:00"),
            row("https://svt.se/b", "4", "2024-01-01 10:00:00"),
            row("https://svt.se/a", "2", "2024-02-01 10:00:00"),
            row("https://svt.se/a", "5", "2024-03-01 10:00:00"),
        ]),
        None,
        None,
    );
    assert_eq!(
        rc.check_repost(&u, 1).unwrap(),
        "https://svt.se/a har postats 3 gånger!\n- <@2> - 2024-02-01 10:00:00\n- <@3> - 2024-03-01 10:00:00\n- <@5> - 2024-03-01 10:00:00"
    );
}

#[test]
fn report_about_one_post() {
    let mut rc = store();
    let u = url("https://svt.se");
    let stored = rc.add_url(&u, 123, 1, &at(9));
    assert_eq!(stored.url, "https://svt.se/");
    assert_eq!(stored.user_id, "123");
    assert_eq!(stored.posted_at, "2024-02-29 07:05:09");
    assert_eq!(stored.posted_on, Some("2024-02-29".to_string()));
    assert_eq!(
        rc.check_repost(&u, 1).unwrap(),
        "https://svt.se/ har postats 1 gång!\n- <@123> - 2024-02-29 07:05:09"
    );
}

#[test]
fn posting_leaves_other_links_alone() {
    let mut rc = store();
    rc.add_url(&url("https://svt.se/a"), 1, 1, &at(0));
    let before = rc.check_repost(&url("https://svt.se/a"), 1);
    rc.add_url(&url("https://svt.se/b"), 2, 1, &at(1));
    assert_eq!(rc.check_repost(&url("https://svt.se/a"), 1), before);
    assert!(rc.check_repost(&url("https://svt.se/c"), 1).is_none());
}

#[test]
fn users_that_cannot_be_mentioned() {
    let mut rc = store();
    let u = url("https://svt.se/a");
    let rows = vec![
        row("https://svt.se/a", "nobody", "2024-03-01 10:00:00"),
        row("https://svt.se/b", "7", "2024-03-01 10:00:00"),
    ];
    rc.load(Some(rows), None, None);
    assert!(!rc.can_report(&u));
    assert!(rc.can_report(&url("https://svt.se/b")));
    assert!(!rc.knows_users());
    assert!(!rc.knows_top_users());
    // An ignored host is not reported, so nobody has to be mentioned.
    rc.admin_add_ignore("svt.se");
    assert!(rc.can_report(&u));
    assert!(rc.check_repost(&u, 1).is_none());
}

#[test]
fn failed_reads_count_as_empty() {
    let mut rc = store();
    rc.add_url(&url("https://svt.se"), 1, 1, &at(0));
    rc.admin_add_ignore("a.b");
    rc.admin_add_always_enabled("c.d");
    rc.load(None, None, None);
    assert!(rc.check_repost(&url("https://svt.se"), 1).is_none());
    assert_eq!(
        rc.admin_list_urls(),
        "**Always Enabled Hosts:**\n(none)\n\n**Ignored Hosts:**\n(none)\n"
    );
    assert_eq!(rc.stats(), "Totalt har det postats 0 unika länkar\n");
    assert!(matches!(rc.location(), Location::Memory));
}

#[test]
fn loaded_hosts_are_listed_once_and_in_order() {
    let mut rc = store();
    let ignored = vec!["b".to_string(), "å".to_string(), "a".to_string(), "b".to_string()];
    rc.load(Some(vec![]), Some(ignored), Some(vec!["Z".to_string(), "a".to_string()]));
    assert_eq!(
        rc.admin_list_urls(),
        "**Always Enabled Hosts:**\n- Z\n- a\n\n**Ignored Hosts:**\n- a\n- b\n- å\n"
    );
}

#[test]
fn statistics_add_up() {
    let mut rc = store();
    rc.load(
        Some(vec![
            row("https://a.se/1", "10", "2024-03-02 10:00:00"),
            row("https://a.se/1", "9", "2024-03-01 10:00:00"),
            row("https://a.se/1", "10", "2024-03-03 10:00:00"),
            row("https://a.se/2", "10", "2024-03-03 10:00:00"),
            row("https://a.se/2", "8", "2024-03-03 10:00:00"),
        ]),
        None,
        None,
    );
    // Five posts in all, of which two are the first of their links.
    assert_eq!(
        rc.stats(),
        "Totalt har det postats 2 unika länkar\n- <@10>: 3 (2 reposts, 67%)\n- <@8>: 1 (1 reposts, 100%)\n- <@9>: 1 (0 reposts, 0%)\n"
    );
}

#[test]
fn top_lists_hold_five() {
    let mut rc = store();
    let mut rows = Vec::new();
    for (user, posts) in [(1, 1), (2, 3), (3, 1), (4, 2), (5, 1), (6, 1), (7, 1)] {
        for n in 0..posts {
            rows.push(row(
                &format!("https://host{user}.se/{n}"),
                &user.to_string(),
                "2024-03-01 10:00:00",
            ));
        }
    }
    rc.load(Some(rows), None, None);
    assert_eq!(
        rc.top_domains(),
        "Top 5 domäner:\n1. host2.se (3 länkar)\n2. host4.se (2 länkar)\n3. host1.se (1 länkar)\n4. host3.se (1 länkar)\n5. host5.se (1 länkar)\n"
    );
    assert_eq!(
        rc.top_users(),
        "Top 5 användare:\n1. <@2> (3 länkar)\n2. <@4> (2 länkar)\n3. <@1> (1 länkar)\n4. <@3> (1 länkar)\n5. <@5> (1 länkar)\n"
    );
}

#[test]
fn only_shown_users_have_to_be_known() {
    let mut rc = store();
    let mut rows = Vec::new();
    for user in 1..6 {
        for n in 0..2 {
            rows.push(row(
                &format!("https://a.se/{user}/{n}"),
                &user.to_string(),
                "2024-03-01 10:00:00",
            ));
        }
    }
    rows.push(row("https://a.se/x", "0", "2024-03-01 10:00:00"));
    rc.load(Some(rows), None, None);
    assert!(rc.knows_top_users());
    assert!(!rc.knows_users());
}

#[test]
fn today_counts_the_days_that_the_store_reads() {
    let mut rc = store();
    let mut unread = row("https://a.se/1", "1", "2024-02-29 10:00:00");
    unread.posted_on = None;
    rc.load(
        Some(vec![
            row("https://a.se/1", "1", "2024-02-29 10:00:00"),
            row("https://a.se/2", "1", "2024-02-28 10:00:00"),
            unread,
        ]),
        None,
        None,
    );
    assert_eq!(rc.today_stats(&at(0)), "Idag har det postats 1 länkar");
    rc.add_url(&url("https://a.se/3"), 5, 1, &at(0));
    assert_eq!(rc.today_stats(&at(0)), "Idag har det postats 2 länkar");
}

#[test]
fn ignored_hosts_are_silent_until_they_are_removed() {
    let mut rc = store();
    let u = url("https://svt.se/a");
    let other = url("https://dn.se/a");
    rc.add_url(&u, 1, 1, &at(0));
    rc.add_url(&other, 1, 1, &at(0));
    let before = rc.check_repost(&u, 1);
    assert_eq!(rc.admin_add_ignore("svt.se"), "Added svt.se to ignored hosts");
    assert!(rc.check_repost(&u, 1).is_none());
    assert!(rc.check_repost(&other, 1).is_some());
    assert_eq!(rc.admin_remove_ignore("svt.se"), "Removed svt.se from ignored hosts");
    assert_eq!(rc.check_repost(&u, 1), before);
}

#[test]
fn thumbs_down_silences_the_host_of_the_report() {
    let mut rc = store();
    let u = url("https://svt.se/a");
    rc.add_url(&u, 1, 1, &at(0));
    let report = rc.check_repost(&u, 1).unwrap();
    assert_eq!(
        rc.add_site_to_ignore(&report).unwrap(),
        "Ok, ska sluta rapportera från svt.se"
    );
    assert!(rc.check_repost(&u, 1).is_none());
    assert!(rc.add_site_to_ignore(&report).is_none());
    assert_eq!(
        rc.admin_list_urls(),
        "**Always Enabled Hosts:**\n(none)\n\n**Ignored Hosts:**\n- svt.se\n"
    );
}

#[test]
fn always_enabled_hosts_are_not_silenced() {
    let mut rc = store();
    let u = url("https://svt.se/a");
    rc.add_url(&u, 1, 1, &at(0));
    assert_eq!(
        rc.admin_add_always_enabled("svt.se"),
        "Added svt.se to always enabled hosts"
    );
    let report = rc.check_repost(&u, 1).unwrap();
    assert_eq!(
        rc.add_site_to_ignore(&report).unwrap(),
        "Sorry, det går inte att stänga av svt.se"
    );
    assert!(rc.check_repost(&u, 1).is_some());
    assert_eq!(
        rc.admin_remove_always_enabled("svt.se"),
        "Removed svt.se from always enabled hosts"
    );
    assert_eq!(
        rc.add_site_to_ignore(&report).unwrap(),
        "Ok, ska sluta rapportera från svt.se"
    );
}

#[test]
fn a_wish_without_a_link_is_passed_over() {
    let mut rc = store();
    assert!(rc.add_site_to_ignore("nothing to see here").is_none());
    let decision = rc.decide_site(&rc.extract_urls("https://svt.se"));
    assert_eq!(decision.reply(false), None);
    assert_eq!(decision.reply(true).unwrap(), "Ok, ska sluta rapportera från svt.se");
}
