use calcard::{Entry, Parser};
use calendar::bangumi::{
    bangumi_collections_url, body_preview, event_description, BangumiCollectionItem,
    BangumiCollectionPage, BangumiSubject,
};
use calendar::domain::{CalendarDate, CalendarEvent};
use calendar::renderers::ics::{render_ics, IcsRenderer};
use calendar::text::{is_blank_str, parse_i64};
use calendar::wishlist::{sort_by_date_and_uid, text_less, WishlistLoader};
use calendar::{
    CalendarDataSource, CalendarDocument, CalendarKind, CalendarQuery, CalendarRequest, NameMode,
    OutputFormat,
};

fn subject(id: u64, name: &str, name_cn: &str, date: &str, platform: &str) -> BangumiSubject {
    BangumiSubject {
        id,
        name: name.to_owned(),
        name_cn: name_cn.to_owned(),
        summary: "line one\nline two".to_owned(),
        date: date.to_owned(),
        platform: platform.to_owned(),
        url: format!("https://bgm.tv/subject/{id}"),
    }
}

fn item(id: u64, name: &str, name_cn: &str, date: &str, platform: &str) -> BangumiCollectionItem {
    BangumiCollectionItem { subject: subject(id, name, name_cn, date, platform) }
}

fn request(owner: &str, name: NameMode, past_days: i64) -> CalendarRequest {
    CalendarRequest {
        kind: CalendarKind::GameRelease,
        source: CalendarDataSource::BangumiUserCollection,
        format: OutputFormat::Ics,
        owner: owner.to_owned(),
        query: CalendarQuery { name, past_days },
    }
}

fn date(year: i32, month: u32, day: u32) -> CalendarDate {
    CalendarDate { year, month, day }
}

fn loader(req: &CalendarRequest, today: CalendarDate) -> WishlistLoader {
    WishlistLoader::start(req, today).unwrap().unwrap()
}

#[test]
fn display_name_prefers_chinese_only_when_asked_and_present() {
    let s = subject(1, "Original", "中文", "2024-01-01", "PC");
    assert_eq!(s.display_name(&NameMode::Original), "Original");
    assert_eq!(s.display_name(&NameMode::Chinese), "中文");
    let blank = subject(1, "Original", " \u{3000}\t", "2024-01-01", "PC");
    assert_eq!(blank.display_name(&NameMode::Chinese), "Original");
}

#[test]
fn subject_url_falls_back_to_bgm_page() {
    let mut s = subject(42, "A", "", "", "");
    assert_eq!(s.subject_url(), "https://bgm.tv/subject/42");
    s.url = "  ".to_owned();
    assert_eq!(s.subject_url(), "https://bgm.tv/subject/42");
    s.url = String::new();
    s.id = 18446744073709551615;
    assert_eq!(s.subject_url(), "https://bgm.tv/subject/18446744073709551615");
    s.url = "https://example.org/x".to_owned();
    assert_eq!(s.subject_url(), "https://example.org/x");
}

#[test]
fn description_lists_url_platform_and_summary() {
    let s = subject(7, "A", "", "", "Switch");
    assert_eq!(
        event_description(&s),
        "https://bgm.tv/subject/7\nPlatform: Switch\nline one\nline two"
    );
    let mut bare = subject(7, "A", "", "", " ");
    bare.summary = "\n".to_owned();
    assert_eq!(event_description(&bare), "https://bgm.tv/subject/7");
}

#[test]
fn into_event_builds_uid_title_and_links() {
    let s = subject(3, "Orig", "中", "2024-02-03", "PC");
    let e = s.into_event(date(2024, 2, 3), &NameMode::Chinese);
    assert_eq!(e.uid, "bangumi-game-3@calendar.local");
    assert_eq!(e.title, "中");
    assert_eq!(e.date, date(2024, 2, 3));
    assert_eq!(e.url.as_deref(), Some("https://bgm.tv/subject/3"));
    assert_eq!(
        e.description.as_deref(),
        Some("https://bgm.tv/subject/3\nPlatform: PC\nline one\nline two")
    );
}

#[test]
fn release_date_reads_iso_dates() {
    assert_eq!(subject(1, "A", "", "2024-05-17", "").release_date(), Some(date(2024, 5, 17)));
    assert_eq!(subject(1, "A", "", "2024-5-7", "").release_date(), Some(date(2024, 5, 7)));
    assert_eq!(subject(1, "A", "", "", "").release_date(), None);
    assert_eq!(subject(1, "A", "", "2024-02-30", "").release_date(), None);
    assert_eq!(subject(1, "A", "", "2024", "").release_date(), None);
}

#[test]
fn collections_url_names_user_limit_and_offset() {
    assert_eq!(
        bangumi_collections_url("tom", 100, 200),
        "https://api.bgm.tv/v0/users/tom/collections?subject_type=4&type=1&limit=100&offset=200"
    );
    assert_eq!(
        bangumi_collections_url("a", 0, 0),
        "https://api.bgm.tv/v0/users/a/collections?subject_type=4&type=1&limit=0&offset=0"
    );
}

#[test]
fn body_preview_escapes_and_truncates() {
    assert_eq!(body_preview("a\nb\rc"), "a\\nb\\rc");
    assert_eq!(body_preview(""), "");
    let exact: String = "x".repeat(1200);
    assert_eq!(body_preview(&exact), exact);
    let long: String = "é".repeat(1201);
    let p = body_preview(&long);
    assert_eq!(p, format!("{}...", "é".repeat(1200)));
    let lines: String = "\n".repeat(1300);
    let p = body_preview(&lines);
    assert_eq!(p, format!("{}...", "\\n".repeat(1200)));
    assert!(!p.contains('\n'));
}

#[test]
fn loader_requests_pages_until_total() {
    let req = request("tom", NameMode::Original, 31);
    let mut l = loader(&req, date(2024, 6, 15));
    assert_eq!(l.next_page(), Some((100, 0)));
    l.accept_page(BangumiCollectionPage { total: 250, data: vec![] });
    assert_eq!(l.next_page(), Some((100, 100)));
    l.accept_page(BangumiCollectionPage { total: 250, data: vec![] });
    assert_eq!(l.next_page(), Some((100, 200)));
    l.accept_page(BangumiCollectionPage { total: 250, data: vec![] });
    assert_eq!(l.next_page(), None);
}

#[test]
fn loader_stops_after_fifty_pages() {
    let req = request("tom", NameMode::Original, 31);
    let mut l = loader(&req, date(2024, 6, 15));
    let mut pages = 0;
    while let Some((limit, offset)) = l.next_page() {
        assert_eq!(limit, 100);
        assert_eq!(offset, pages * 100);
        l.accept_page(BangumiCollectionPage { total: u32::MAX, data: vec![] });
        pages += 1;
    }
    assert_eq!(pages, 50);
}

#[test]
fn loader_keeps_releases_since_cutoff_sorted() {
    let req = request("tom", NameMode::Chinese, 31);
    let mut l = loader(&req, date(2024, 6, 15));
    l.accept_page(BangumiCollectionPage {
        total: 5,
        data: vec![
            item(2, "Later", "", "2024-06-25", "PC"),
            item(1, "Old", "旧", "2024-03-01", "Switch"),
            item(9, "Edge", "边", "2024-05-15", "PC"),
            item(4, "NoDate", "", "", "PC"),
            item(3, "Same day", "同日", "2024-06-25", "PC"),
        ],
    });
    assert_eq!(l.next_page(), None);
    let doc = l.finish();
    assert_eq!(doc.name, "Bangumi tom Game Releases");
    let uids: Vec<&str> = doc.events.iter().map(|e| e.uid.as_str()).collect();
    assert_eq!(
        uids,
        vec![
            "bangumi-game-9@calendar.local",
            "bangumi-game-2@calendar.local",
            "bangumi-game-3@calendar.local"
        ]
    );
    assert_eq!(doc.events[0].title, "边");
    assert_eq!(doc.events[1].title, "Later");
}

#[test]
fn loader_refuses_out_of_range_day_counts() {
    let req = request("tom", NameMode::Original, i64::MAX);
    assert!(WishlistLoader::start(&req, date(2024, 6, 15)).is_none());
    let req = request("tom", NameMode::Original, 200_000_000);
    assert!(WishlistLoader::start(&req, date(2024, 6, 15)).is_none());
    let req = request("tom", NameMode::Original, -10);
    let mut l = loader(&req, date(2024, 6, 15));
    l.accept_page(BangumiCollectionPage {
        total: 2,
        data: vec![item(1, "A", "", "2024-06-24", ""), item(2, "B", "", "2024-06-25", "")],
    });
    let doc = l.finish();
    assert_eq!(doc.events.len(), 1);
    assert_eq!(doc.events[0].date, date(2024, 6, 25));
}

#[test]
fn sorting_orders_by_date_then_uid() {
    let ev = |uid: &str, d: CalendarDate| CalendarEvent {
        uid: uid.to_owned(),
        title: uid.to_owned(),
        date: d,
        url: None,
        description: None,
    };
    let sorted = sort_by_date_and_uid(vec![
        ev("b", date(2024, 1, 2)),
        ev("a", date(2024, 1, 2)),
        ev("z", date(2023, 12, 31)),
        ev("a", date(2025, 1, 1)),
    ]);
    let keys: Vec<(String, CalendarDate)> = sorted.iter().map(|e| (e.uid.clone(), e.date)).collect();
    assert_eq!(
        keys,
        vec![
            ("z".to_owned(), date(2023, 12, 31)),
            ("a".to_owned(), date(2024, 1, 2)),
            ("b".to_owned(), date(2024, 1, 2)),
            ("a".to_owned(), date(2025, 1, 1)),
        ]
    );
    assert!(text_less("a", "b"));
    assert!(text_less("ab", "b"));
    assert!(text_less("", "a"));
    assert!(!text_less("b", "ab"));
    assert!(!text_less("a", "a"));
}

#[test]
fn next_day_rolls_over_months_and_years() {
    assert_eq!(date(2024, 2, 28).next_day(), date(2024, 2, 29));
    assert_eq!(date(2023, 2, 28).next_day(), date(2023, 3, 1));
    assert_eq!(date(1900, 2, 28).next_day(), date(1900, 3, 1));
    assert_eq!(date(2000, 2, 28).next_day(), date(2000, 2, 29));
    assert_eq!(date(2024, 12, 31).next_day(), date(2025, 1, 1));
    assert_eq!(date(2024, 4, 30).next_day(), date(2024, 5, 1));
}

fn document() -> CalendarDocument {
    let req = request("tom", NameMode::Chinese, 31);
    let mut l = loader(&req, date(2024, 6, 15));
    l.accept_page(BangumiCollectionPage {
        total: 2,
        data: vec![
            item(1, "Original Game", "中文游戏", "2024-06-25", "PC"),
            item(2, "Old Game", "旧游戏", "2024-03-01", "Switch"),
        ],
    });
    l.finish()
}

#[test]
fn renders_parseable_ics_with_filtered_games() {
    let doc = document();
    assert!(doc.is_renderable());
    let ics = render_ics(&doc);
    assert!(ics.contains("BEGIN:VCALENDAR"));
    assert!(ics.contains("BEGIN:VEVENT"));
    assert!(ics.contains("SUMMARY:中文游戏"));
    assert!(ics.contains("DTSTART;VALUE=DATE:20240625"));
    assert!(ics.contains("DTEND;VALUE=DATE:20240626"));
    assert!(ics.contains("UID:bangumi-game-1@calendar.local"));
    assert!(ics.contains("URL:https://bgm.tv/subject/1"));
    assert!(ics.contains("VERSION:2.0"));
    assert!(ics.contains("CALSCALE:GREGORIAN"));
    assert!(ics.contains("METHOD:PUBLISH"));
    assert!(!ics.contains("Old Game"));
    let mut parser = Parser::new(&ics);
    match parser.entry() {
        Entry::ICalendar(_) => {}
        other => panic!("expected iCalendar, got {other:?}"),
    }
}

#[test]
fn renderer_names_calendar_and_media_type() {
    let doc = document();
    let rendered = IcsRenderer.render(&doc).unwrap();
    assert_eq!(rendered.content_type, "text/calendar; charset=utf-8");
    assert!(rendered.body.contains("NAME:Bangumi tom Game Releases"));
    assert!(rendered.body.contains("X-WR-CALNAME:Bangumi tom Game Releases"));
}

#[test]
fn empty_calendar_renders_without_events() {
    let doc = CalendarDocument { name: "Empty".to_owned(), events: vec![] };
    let ics = render_ics(&doc);
    assert!(ics.contains("BEGIN:VCALENDAR"));
    assert!(!ics.contains("BEGIN:VEVENT"));
    assert!(ics.contains("END:VCALENDAR"));
}

#[test]
fn last_date_cannot_be_rendered() {
    let doc = CalendarDocument {
        name: "Far".to_owned(),
        events: vec![CalendarEvent {
            uid: "x".to_owned(),
            title: "x".to_owned(),
            date: date(262142, 12, 31),
            url: None,
            description: None,
        }],
    };
    assert!(!doc.is_renderable());
}

#[test]
fn parses_i64_like_std() {
    for s in ["0", "+7", "-7", "9223372036854775807", "-9223372036854775808", "9223372036854775808",
        "", "+", "-", " 1", "1 ", "1_0", "٣", "00012", "-0"] {
        assert_eq!(parse_i64(s), s.parse::<i64>().ok(), "{s:?}");
    }
}

#[test]
fn blank_text_matches_trim() {
    for c in (0u32..0x3100).filter_map(char::from_u32) {
        let s = c.to_string();
        assert_eq!(is_blank_str(&s), s.trim().is_empty(), "{c:?}");
    }
    assert!(is_blank_str(""));
    assert!(!is_blank_str(" a "));
}
