use jotihunt::articles::{
    earlier, reset_page, short_time, status_label, timeline, update_page, Layout, Update,
};
use jotihunt::domain::{ArticleKey, SavedArticle, StatusKey};
use jotihunt::leak;

fn article(kind: &str) -> Update {
    Update::Article(SavedArticle {
        title: "t".to_string(),
        kind: kind.to_string(),
        content: "c".to_string(),
    })
}

#[test]
fn an_update_is_announced_by_its_kind() {
    let status = Update::Status { area: "Alpha".into(), status: "red".into(), until: None };
    assert_eq!(status.kind(), "nieuwe status");
    assert_eq!(article("hint").kind(), "nieuwe hint");
    assert_eq!(article("assignment").kind(), "nieuwe opdracht");
    assert_eq!(article("news").kind(), "nieuw bericht");
    assert_eq!(article("extra").kind(), "extra");
    assert_eq!(article("").kind(), "");
    assert_eq!(article("Hint").kind(), "Hint");
}

#[test]
fn resetting_the_page_shows_the_map() {
    assert_eq!(
        reset_page(),
        Layout { page_hidden: true, map_hidden: false, panel_column_hidden: false }
    );
}

#[test]
fn a_shared_handle_holds_the_value() {
    let handle = leak(vec![1, 2, 3]);
    let other = handle.clone();
    assert_eq!(*handle, vec![1, 2, 3]);
    assert_eq!(*other, vec![1, 2, 3]);
}

#[test]
fn showing_an_article_hides_the_map() {
    assert_eq!(
        update_page(),
        Layout { page_hidden: false, map_hidden: true, panel_column_hidden: true }
    );
}

#[test]
fn a_status_is_shown_in_dutch() {
    assert_eq!(status_label("green"), "groen");
    assert_eq!(status_label("orange"), "oranje");
    assert_eq!(status_label("red"), "rood");
    assert_eq!(status_label("purple"), "purple");
    assert_eq!(status_label("Red"), "Red");
    assert_eq!(status_label(""), "");
}

fn saved(title: &str, kind: &str) -> SavedArticle {
    SavedArticle { title: title.into(), kind: kind.into(), content: "".into() }
}

fn published(at: &str, id: usize, title: &str, kind: &str) -> (ArticleKey, SavedArticle) {
    (ArticleKey { publish_at: at.into(), id }, saved(title, kind))
}

fn report(at: &str, area: &str, status: &str) -> (StatusKey, String) {
    (StatusKey { date_time: at.into(), fox_name: area.into() }, status.to_string())
}

fn status(area: &str, status: &str, until: Option<&str>) -> Update {
    Update::Status { area: area.into(), status: status.into(), until: until.map(|u| u.to_string()) }
}

#[test]
fn entries_are_ordered_by_their_time() {
    let at = |time: &str| (time.to_string(), status("a", "red", None));
    assert!(earlier(&at("09:00"), &at("10:00")));
    assert!(!earlier(&at("10:00"), &at("09:00")));
    assert!(!earlier(&at("10:00"), &at("10:00")));
    assert!(earlier(&at("10:0"), &at("10:00")));
    assert!(earlier(&at(""), &at("0")));
    assert!(earlier(&at("z"), &at("é")));
}

#[test]
fn the_timeline_merges_articles_and_reports_latest_first() {
    let articles = vec![
        published("09:00", 1, "first hint", "hint"),
        published("10:30", 2, "news", "news"),
        published("12:00", 3, "second hint", "hint"),
    ];
    let reports = vec![
        report("08:00", "Alpha", "red"),
        report("09:00", "Bravo", "green"),
        report("10:00", "Alpha", "orange"),
        report("11:00", "Bravo", "red"),
        report("13:00", "Alpha", "green"),
    ];
    let all = timeline(&articles, &reports, true, true);
    assert_eq!(
        all,
        vec![
            ("12:00".to_string(), Update::Article(saved("second hint", "hint"))),
            ("11:00".to_string(), status("Bravo", "red", None)),
            ("10:30".to_string(), Update::Article(saved("news", "news"))),
            ("10:00".to_string(), status("Alpha", "orange", Some("13:00"))),
            ("09:00".to_string(), Update::Article(saved("first hint", "hint"))),
            ("08:00".to_string(), status("Alpha", "red", Some("10:00"))),
        ]
    );
}

#[test]
fn the_timeline_shows_only_what_is_asked_for() {
    let articles = vec![published("09:00", 1, "h", "hint"), published("10:30", 2, "n", "news")];
    let reports = vec![report("08:00", "Alpha", "red"), report("09:30", "Alpha", "green")];
    assert_eq!(
        timeline(&articles, &reports, false, false),
        vec![("09:00".to_string(), Update::Article(saved("h", "hint")))]
    );
    assert_eq!(
        timeline(&articles, &reports, false, true),
        vec![
            ("09:00".to_string(), Update::Article(saved("h", "hint"))),
            ("08:00".to_string(), status("Alpha", "red", Some("09:30"))),
        ]
    );
    assert_eq!(timeline(&vec![], &vec![], true, true), vec![]);
}

#[test]
fn of_two_entries_at_one_time_the_article_comes_first() {
    let articles = vec![published("09:00", 1, "h", "hint")];
    let reports = vec![report("09:00", "Alpha", "red")];
    assert_eq!(
        timeline(&articles, &reports, true, true),
        vec![
            ("09:00".to_string(), Update::Article(saved("h", "hint"))),
            ("09:00".to_string(), status("Alpha", "red", None)),
        ]
    );
}

#[test]
fn the_short_time_is_hours_and_minutes() {
    assert_eq!(short_time("2023-10-21T10:30:00.000000Z"), "10:30");
    assert_eq!(short_time("2023-10-21 09:05"), "09:05");
    assert_eq!(short_time("2023-10-21 09:0"), "");
    assert_eq!(short_time(""), "");
    assert_eq!(short_time("0123456789ab\u{e9}defgh"), "b\u{e9}de");
    assert_eq!(short_time("0123456789abcde\u{e9}gh"), "");
    assert_eq!(short_time("0123456789\u{e9}cdefgh"), "");
    assert_eq!(short_time("\u{e9}23456789ab\u{e9}efgh"), "b\u{e9}ef");
    for time in ["2023-10-21T10:30", "abc", "0123456789abcde\u{e9}", "\u{1f600}\u{1f600}\u{1f600}\u{1f600}"] {
        assert_eq!(short_time(time), time.get(11..16).unwrap_or(""), "{time}");
    }
}
