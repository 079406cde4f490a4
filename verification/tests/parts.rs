//! The parts that the bot is made of.

use discord_repost::domains::domain;
use discord_repost::links::{find_urls, keep_parsed, Url};
use discord_repost::migration::{
    migrated_rows, migration_step, number_rows, MigrationStep, SavedLink, SavedPost, SavedRow,
};
use discord_repost::moment::Moment;
use discord_repost::ranking::rank;
use discord_repost::reports::rounded_percent;
use discord_repost::sorted_texts::SortedTexts;
use discord_repost::text::{
    beginning_with, comes_before, ending_with, number_text, parse_number, same, split_words, white,
};
use discord_repost::users::{mention, mentionable, read_user};

fn texts(urls: &[Url]) -> Vec<String> {
    urls.iter().map(|u| u.as_str().to_string()).collect()
}

fn strings(items: &[&str]) -> Vec<String> {
    items.iter().map(|s| s.to_string()).collect()
}

#[test]
fn links_end_at_white_space() {
    assert_eq!(
        texts(&find_urls("(http://a.se/x) https://b.se\u{a0}http://c.se\u{2003}x")),
        strings(&["http://a.se/x)", "https://b.se/", "http://c.se/"])
    );
}

#[test]
fn links_begin_with_the_protocol() {
    assert_eq!(texts(&find_urls("xhttp://a.se")), strings(&["http://a.se/"]));
    assert_eq!(texts(&find_urls("HTTP://a.se ftp://b.se http:/c.se")), strings(&[]));
    assert_eq!(texts(&find_urls("http:// https:// http://")), strings(&[]));
    assert_eq!(texts(&find_urls("")), strings(&[]));
}

#[test]
fn a_link_inside_a_link_is_part_of_it() {
    assert_eq!(
        texts(&find_urls("http://a.se/http://b.se")),
        strings(&["http://a.se/http://b.se"])
    );
}

#[test]
fn links_that_are_no_urls_are_left_out() {
    assert_eq!(
        texts(&find_urls("https://a.se:99999 https://[ https://b.se/ok")),
        strings(&["https://b.se/ok"])
    );
    assert!(Url::parse("https://[").is_none());
    assert!(keep_parsed(vec![None, None]).is_empty());
    assert_eq!(
        texts(&keep_parsed(vec![None, Url::parse("http://a.se"), None])),
        strings(&["http://a.se/"])
    );
}

#[test]
fn urls_are_normalised() {
    let u = Url::parse("HTTPS://Example.COM:443/a/../b?q=å").unwrap();
    assert_eq!(u.as_str(), "https://example.com/b?q=%C3%A5");
    assert_eq!(u.host_str(), Some("example.com"));
    let again = Url::parse(u.as_str()).unwrap();
    assert_eq!(again.as_str(), u.as_str());
    assert_eq!(Url::parse("mailto:a@b.se").unwrap().host_str(), None);
}

#[test]
fn urls_mostly_stand_for_themselves() {
    assert!(Url::parse("HTTPS://Example.COM:443/a/../b").unwrap().stands_for_itself());
    assert!(Url::parse("http://räksmörgås.se").unwrap().stands_for_itself());
    assert!(Url::parse("mailto:a@b.se").unwrap().stands_for_itself());
    // What this host is written as is too long to be read again.
    let host: String = (0..1000).map(|i| char::from_u32(0x4e00 + 20 * i).unwrap()).collect();
    let long = Url::parse(&format!("http://{host}")).unwrap();
    assert!(!long.stands_for_itself());
    assert!(Url::parse(long.as_str()).is_none());
}

#[test]
fn moments_are_written() {
    let m = Moment::new(2024, 2, 29, 7, 5, 9, 999_999_999).unwrap();
    assert_eq!(m.timestamp(), "2024-02-29 07:05:09");
    assert_eq!(m.date(), "2024-02-29");
    assert_eq!(m.stored_day(), Some("2024-02-29".to_string()));
}

#[test]
fn moments_have_to_exist() {
    assert!(Moment::new(2023, 2, 29, 0, 0, 0, 0).is_none());
    assert!(Moment::new(1900, 2, 29, 0, 0, 0, 0).is_none());
    assert!(Moment::new(2000, 2, 29, 0, 0, 0, 0).is_some());
    assert!(Moment::new(2023, 4, 31, 0, 0, 0, 0).is_none());
    assert!(Moment::new(2023, 0, 1, 0, 0, 0, 0).is_none());
    assert!(Moment::new(2023, 13, 1, 0, 0, 0, 0).is_none());
    assert!(Moment::new(2023, 1, 1, 24, 0, 0, 0).is_none());
    assert!(Moment::new(2023, 1, 1, 0, 60, 0, 0).is_none());
    assert!(Moment::new(2023, 1, 1, 0, 0, 60, 0).is_none());
    assert!(Moment::new(2023, 1, 1, 0, 0, 58, 1_000_000_000).is_none());
    assert!(Moment::new(2023, 1, 1, 0, 0, 59, 2_000_000_000).is_none());
    assert!(Moment::new(262142, 12, 31, 0, 0, 0, 0).is_some());
    assert!(Moment::new(262143, 1, 1, 0, 0, 0, 0).is_none());
    assert!(Moment::new(-262143, 1, 1, 0, 0, 0, 0).is_some());
    assert!(Moment::new(-262144, 12, 31, 0, 0, 0, 0).is_none());
}

#[test]
fn leap_seconds_and_far_years() {
    let leap = Moment::new(2016, 12, 31, 23, 59, 59, 1_500_000_000).unwrap();
    assert_eq!(leap.timestamp(), "2016-12-31 23:59:60");
    assert_eq!(leap.stored_day(), None);
    let early = Moment::new(7, 1, 2, 3, 4, 5, 0).unwrap();
    assert_eq!(early.timestamp(), "0007-01-02 03:04:05");
    assert_eq!(early.stored_day(), Some("0007-01-02".to_string()));
    let late = Moment::new(12345, 1, 2, 3, 4, 5, 0).unwrap();
    assert_eq!(late.date(), "+12345-01-02");
    assert_eq!(late.stored_day(), None);
    assert_eq!(Moment::new(-1, 1, 2, 3, 4, 5, 0).unwrap().date(), "-0001-01-02");
    assert_eq!(Moment::new(-12345, 1, 2, 3, 4, 5, 0).unwrap().date(), "-12345-01-02");
}

#[test]
fn written_times_are_in_order() {
    let earlier = Moment::new(999, 12, 31, 23, 59, 59, 0).unwrap();
    let later = Moment::new(1000, 1, 1, 0, 0, 0, 0).unwrap();
    assert!(comes_before(earlier.timestamp(), later.timestamp()));
    assert!(!comes_before(later.timestamp(), earlier.timestamp()));
    let leap = Moment::new(2016, 12, 31, 23, 59, 59, 1_000_000_000).unwrap();
    let before = Moment::new(2016, 12, 31, 23, 59, 59, 0).unwrap();
    assert!(comes_before(before.timestamp(), leap.timestamp()));
}

#[test]
fn mentions() {
    assert_eq!(mention("123"), "<@123>");
    assert_eq!(mention("+0042"), "<@42>");
    assert_eq!(mention("18446744073709551615"), "<@18446744073709551615>");
    assert!(mentionable("1"));
    assert!(!mentionable("0"));
    assert!(!mentionable(""));
    assert!(!mentionable("18446744073709551616"));
    assert_eq!(read_user("nobody"), 0);
}

#[test]
fn numbers() {
    for n in [0, 9, 10, 123, u64::MAX] {
        assert_eq!(number_text(n), n.to_string());
        assert_eq!(parse_number(&number_text(n)), Some(n));
    }
    for text in ["", "+", "-1", "1 ", "٣", "++1", "99999999999999999999", "+7", "007"] {
        assert_eq!(parse_number(text), text.parse::<u64>().ok());
    }
}

#[test]
fn texts_compare_by_code_point() {
    assert!(comes_before("", "a"));
    assert!(comes_before("a", "ab"));
    assert!(comes_before("Z", "a"));
    assert!(comes_before("z", "å"));
    assert!(!comes_before("a", "a"));
    assert!(!comes_before("b", "ab"));
    assert!(same("gång", "gång"));
    assert!(!same("gång", "gånger"));
    assert!(beginning_with("sqlite:x", "sqlite:"));
    assert!(!beginning_with("sql", "sqlite:"));
    assert!(ending_with("top users", "users"));
    assert!(!ending_with("users", "top users"));
}

#[test]
fn words() {
    for text in ["", "  ", "a", " a  b\tc\u{2003}d\n", "a\u{200b}b \u{85}x"] {
        let wanted: Vec<String> = text.split_whitespace().map(|w| w.to_string()).collect();
        assert_eq!(split_words(text), wanted);
    }
    for c in '\u{0}'..='\u{3100}' {
        assert_eq!(white(c), c.is_whitespace());
    }
}

#[test]
fn domains() {
    assert_eq!(domain("https://svt.se/a/b"), "svt.se");
    assert_eq!(domain("http://svt.se:8080"), "svt.se:8080");
    assert_eq!(domain("HTTPS://Svt.se/"), "Svt.se");
    assert_eq!(domain("ftp://svt.se/a"), "ftp:");
    assert_eq!(domain("https:///a"), "");
    assert_eq!(domain("svt.se"), "svt.se");
    assert_eq!(domain(""), "");
}

#[test]
fn percentages_are_rounded_half_up() {
    assert_eq!(rounded_percent(0, 0), 0);
    assert_eq!(rounded_percent(0, 7), 0);
    assert_eq!(rounded_percent(1, 3), 33);
    assert_eq!(rounded_percent(2, 3), 67);
    assert_eq!(rounded_percent(1, 200), 1);
    assert_eq!(rounded_percent(1, 201), 0);
    assert_eq!(rounded_percent(5, 200), 3);
    assert_eq!(rounded_percent(7, 7), 100);
    assert_eq!(rounded_percent(u64::MAX, u64::MAX), 100);
}

#[test]
fn rankings() {
    let keys = strings(&["b", "a", "c", "b", "å", "c", "b"]);
    let wanted = vec![
        ("b".to_string(), 3),
        ("c".to_string(), 2),
        ("a".to_string(), 1),
        ("å".to_string(), 1),
    ];
    assert_eq!(rank(&keys), wanted);
    assert!(rank(&vec![]).is_empty());
}

#[test]
fn sorted_sets() {
    let mut set = SortedTexts::new();
    for text in ["b", "c", "a", "b"] {
        set.insert(text);
    }
    assert_eq!(set.list(), &strings(&["a", "b", "c"]));
    assert!(set.contains("b"));
    set.remove("b");
    set.remove("x");
    assert!(!set.contains("b"));
    assert_eq!(set.list(), &strings(&["a", "c"]));
}

fn post(user_id: &str, posted_at: &str) -> SavedPost {
    SavedPost { user_id: user_id.to_string(), posted_at: posted_at.to_string() }
}

fn saved(url: &str, user_id: &str) -> SavedRow {
    SavedRow { url: url.to_string(), user_id: user_id.to_string(), posted_at: "t".to_string() }
}

#[test]
fn every_saved_post_becomes_a_row() {
    let links = vec![
        SavedLink { url: "u1".to_string(), posts: vec![post("1", "t1"), post("2", "t2")] },
        SavedLink { url: "u2".to_string(), posts: vec![] },
        SavedLink { url: "u3".to_string(), posts: vec![post("3", "t3")] },
    ];
    let rows: Vec<(String, String, String)> = migrated_rows(&links)
        .into_iter()
        .map(|r| (r.url, r.user_id, r.posted_at))
        .collect();
    let wanted: Vec<(String, String, String)> = [("u1", "1", "t1"), ("u1", "2", "t2"), ("u3", "3", "t3")]
        .iter()
        .map(|r| (r.0.to_string(), r.1.to_string(), r.2.to_string()))
        .collect();
    assert_eq!(rows, wanted);
}

#[test]
fn numbered_rows_stop_at_the_first_bad_user() {
    let (rows, bad) = number_rows(&vec![saved("u1", "1"), saved("u2", "x"), saved("u3", "3")]);
    assert_eq!(rows.len(), 1);
    assert_eq!((rows[0].url.as_str(), rows[0].user_id, rows[0].posted_at.as_str()), ("u1", 1, "t"));
    assert_eq!(bad, Some("x".to_string()));
    let (rows, bad) = number_rows(&vec![saved("u1", "1"), saved("u3", "18446744073709551615")]);
    assert_eq!(rows.len(), 2);
    assert_eq!(rows[1].user_id, u64::MAX);
    assert_eq!(bad, None);
}

#[test]
fn migration_steps() {
    assert!(matches!(migration_step(false, false), MigrationStep::NoCheckpoint));
    assert!(matches!(migration_step(false, true), MigrationStep::NoCheckpoint));
    assert!(matches!(migration_step(true, true), MigrationStep::AlreadyDone));
    assert!(matches!(migration_step(true, false), MigrationStep::Migrate));
    assert_eq!(
        MigrationStep::NoCheckpoint.notice().unwrap(),
        "No checkpoint.json found, nothing to migrate"
    );
    assert_eq!(
        MigrationStep::AlreadyDone.notice().unwrap(),
        "Database already exists, migration already completed"
    );
    assert_eq!(MigrationStep::Migrate.notice(), None);
}
