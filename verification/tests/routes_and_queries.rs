use calendar::error::AppError;
use calendar::query::{CalendarQuery, NameMode};
use calendar::route::parse_calendar_route;
use calendar::{CalendarDataSource, CalendarKind, OutputFormat};
use url::Url;

#[test]
fn parses_calendar_route() {
    let route = parse_calendar_route("/game/bangumi/user/tom/wish.ics").unwrap();
    assert_eq!(route.username, "tom");
    assert!(parse_calendar_route("/game/bangumi/user/tom").is_none());
}

#[test]
fn parses_query_defaults_and_overrides() {
    let url = Url::parse("https://example.com/game/bangumi/user/tom/wish.ics").unwrap();
    let query = CalendarQuery::from_url(&url).unwrap().unwrap();
    assert_eq!(query.name, NameMode::Original);
    assert_eq!(query.past_days, 31);

    let url = Url::parse("https://example.com/game/bangumi/user/tom/wish.ics?name=cn&past=2m")
        .unwrap();
    let query = CalendarQuery::from_url(&url).unwrap().unwrap();
    assert_eq!(query.name, NameMode::Chinese);
    assert_eq!(query.past_days, 62);
}

#[test]
fn route_ignores_surrounding_slashes() {
    let route = parse_calendar_route("///game/bangumi/user/alice/wish.ics//").unwrap();
    assert_eq!(route.username, "alice");
    let route = parse_calendar_route("game/bangumi/user/bob/wish.ics").unwrap();
    assert_eq!(route.username, "bob");
}

#[test]
fn route_rejects_other_paths() {
    assert!(parse_calendar_route("/game/bangumi/user//wish.ics").is_none());
    assert!(parse_calendar_route("/game/bangumi/user/a/b/wish.ics").is_none());
    assert!(parse_calendar_route("/game/bangumi/users/tom/wish.ics").is_none());
    assert!(parse_calendar_route("/game/bangumi/user/tom/wish.ical").is_none());
    assert!(parse_calendar_route("").is_none());
    assert!(parse_calendar_route("/").is_none());
}

#[test]
fn route_keeps_unicode_usernames() {
    let route = parse_calendar_route("/game/bangumi/user/用户/wish.ics").unwrap();
    assert_eq!(route.username, "用户");
}

#[test]
fn route_builds_game_release_request() {
    let route = parse_calendar_route("/game/bangumi/user/tom/wish.ics").unwrap();
    let request = route.into_request(CalendarQuery { name: NameMode::Chinese, past_days: 7 });
    assert_eq!(request.kind, CalendarKind::GameRelease);
    assert_eq!(request.source, CalendarDataSource::BangumiUserCollection);
    assert_eq!(request.format, OutputFormat::Ics);
    assert_eq!(request.owner, "tom");
    assert_eq!(request.query.past_days, 7);
    assert_eq!(request.query.name, NameMode::Chinese);
}

fn query_of(url: &str) -> Option<Result<CalendarQuery, AppError>> {
    CalendarQuery::from_url(&Url::parse(url).unwrap())
}

fn bad_request_message(r: Option<Result<CalendarQuery, AppError>>) -> String {
    match r {
        Some(Err(AppError::BadRequest(m))) => m,
        other => panic!("expected a bad request, got {other:?}"),
    }
}

#[test]
fn query_accepts_every_name_alias() {
    for v in ["original", "orig", "jp", "ja"] {
        let q = query_of(&format!("http://h/p?name={v}")).unwrap().unwrap();
        assert_eq!(q.name, NameMode::Original);
    }
    for v in ["cn", "zh", "chinese"] {
        let q = query_of(&format!("http://h/p?title={v}")).unwrap().unwrap();
        assert_eq!(q.name, NameMode::Chinese);
    }
}

#[test]
fn query_rejects_unknown_name_mode() {
    let m = bad_request_message(query_of("http://h/p?name=fr"));
    assert_eq!(m, "unsupported name mode: fr");
}

#[test]
fn query_reads_day_and_month_counts() {
    assert_eq!(query_of("http://h/p?past_days=5").unwrap().unwrap().past_days, 5);
    assert_eq!(query_of("http://h/p?past_months=3").unwrap().unwrap().past_days, 93);
    assert_eq!(query_of("http://h/p?past=10").unwrap().unwrap().past_days, 10);
    assert_eq!(query_of("http://h/p?past=10d").unwrap().unwrap().past_days, 10);
    assert_eq!(query_of("http://h/p?past=%2B4").unwrap().unwrap().past_days, 4);
    assert_eq!(query_of("http://h/p?past_days=0").unwrap().unwrap().past_days, 0);
}

#[test]
fn query_later_settings_win() {
    let q = query_of("http://h/p?past_days=5&past=1m&name=cn&name=ja&x=1").unwrap().unwrap();
    assert_eq!(q.past_days, 31);
    assert_eq!(q.name, NameMode::Original);
}

#[test]
fn query_rejects_bad_numbers() {
    assert_eq!(bad_request_message(query_of("http://h/p?past_days=abc")), "past_days must be an integer");
    assert_eq!(bad_request_message(query_of("http://h/p?past_days=-1")), "past_days must be non-negative");
    assert_eq!(bad_request_message(query_of("http://h/p?past_months=")), "past_months must be an integer");
    assert_eq!(bad_request_message(query_of("http://h/p?past=d")), "past must be an integer");
    assert_eq!(bad_request_message(query_of("http://h/p?past=-2m")), "past must be non-negative");
    assert_eq!(bad_request_message(query_of("http://h/p?past=9223372036854775808")), "past must be an integer");
}

#[test]
fn query_month_overflow_has_no_answer() {
    assert!(query_of("http://h/p?past_months=9223372036854775807").is_none());
    assert!(query_of("http://h/p?past=400000000000000000m").is_none());
    // An earlier error stops the reading before the overflow.
    assert!(matches!(query_of("http://h/p?name=x&past_months=9223372036854775807"), Some(Err(_))));
}

#[test]
fn status_codes_follow_error_kinds() {
    assert_eq!(AppError::BadRequest("x".to_owned()).status_code(), 400);
    assert_eq!(AppError::Upstream("x".to_owned()).status_code(), 502);
    assert_eq!(AppError::Calendar("x".to_owned()).status_code(), 500);
    assert_eq!(AppError::Upstream("boom".to_owned()).message(), "boom");
}

#[test]
fn route_refuses_wrong_case_and_trailing_segments() {
    assert!(parse_calendar_route("/Game/bangumi/user/tom/wish.ics").is_none());
    assert!(parse_calendar_route("/game/bangumi/user/tom/wish.ics/x").is_none());
    assert!(parse_calendar_route("/game/bangumi/user//wish.ics").is_none());
    let route = parse_calendar_route("////game/bangumi/user/tom/wish.ics///").unwrap();
    assert_eq!(route.username, "tom");
}

#[test]
fn query_last_day_setting_wins() {
    assert_eq!(query_of("http://h/p?past=2m&past_days=5").unwrap().unwrap().past_days, 5);
    assert_eq!(query_of("http://h/p?past_days=5&past=2m").unwrap().unwrap().past_days, 62);
    assert_eq!(query_of("http://h/p?Past_days=5").unwrap().unwrap().past_days, 31);
}

#[test]
fn query_from_text_reads_options() {
    let q = CalendarQuery::from_query(Some("title=chinese&past=3d")).unwrap().unwrap();
    assert_eq!(q.name, NameMode::Chinese);
    assert_eq!(q.past_days, 3);
    let q = CalendarQuery::from_query(None).unwrap().unwrap();
    assert_eq!(q.past_days, 31);
    assert_eq!(q.name, NameMode::Original);
    let q = CalendarQuery::from_query(Some("")).unwrap().unwrap();
    assert_eq!(q.past_days, 31);
}
