use calendar::bangumi::upstream_status_error;
use calendar::CalendarDate;
use chrono::{Datelike, NaiveDate};
use calendar::{
    AppError, BangumiGameWishlistSource, CalendarApp, CalendarQuery, CalendarRequest,
    CalendarService, IcsRenderer, NameMode, UrlRequest, WishlistLoader,
};
use calendar::{CalendarDataSource, CalendarKind, OutputFormat};
use url::Url;

fn request_of(url: &str) -> UrlRequest {
    let url = Url::parse(url).unwrap();
    CalendarApp::<()>::request_for_target(url.path(), url.query())
}

#[test]
fn url_without_calendar_path_is_not_found() {
    assert!(matches!(request_of("http://localhost/other"), UrlRequest::NotCalendar));
    assert!(matches!(request_of("http://localhost/game/bangumi/user/tom/wish.ics/x?name=bad"), UrlRequest::NotCalendar));
}

#[test]
fn url_with_bad_query_is_rejected() {
    match request_of("http://localhost/game/bangumi/user/tom/wish.ics?name=bad") {
        UrlRequest::Rejected(AppError::BadRequest(m)) => assert_eq!(m, "unsupported name mode: bad"),
        other => panic!("expected a rejection, got {other:?}"),
    }
    assert!(matches!(
        request_of("http://localhost/game/bangumi/user/tom/wish.ics?past_months=999999999999999999"),
        UrlRequest::Overflow
    ));
}

#[test]
fn url_with_calendar_path_gives_request() {
    match request_of("http://localhost/game/bangumi/user/tom/wish.ics?name=zh&past_days=3#frag") {
        UrlRequest::Calendar(req) => {
            assert_eq!(req.owner, "tom");
            assert_eq!(req.kind, CalendarKind::GameRelease);
            assert_eq!(req.source, CalendarDataSource::BangumiUserCollection);
            assert_eq!(req.format, OutputFormat::Ics);
            assert_eq!(req.query.name, NameMode::Chinese);
            assert_eq!(req.query.past_days, 3);
        }
        other => panic!("expected a calendar request, got {other:?}"),
    }
}

#[test]
fn constructors_keep_their_parts() {
    let app = CalendarApp::new(7u8);
    assert_eq!(*app.client(), 7);
    let source = BangumiGameWishlistSource::new("client");
    assert_eq!(*source.client(), "client");
    let service = CalendarService::new(source, IcsRenderer);
    assert_eq!(*service.source().client(), "client");
    let _renderer: &IcsRenderer = service.renderer();
    assert_eq!(CalendarQuery::default().past_days, 31);
    assert_eq!(CalendarQuery::default().name, NameMode::Original);
}

#[test]
fn loader_begins_on_today() {
    let req = CalendarRequest {
        kind: CalendarKind::GameRelease,
        source: CalendarDataSource::BangumiUserCollection,
        format: OutputFormat::Ics,
        owner: "tom".to_owned(),
        query: CalendarQuery::default(),
    };
    let loader = WishlistLoader::begin(&req).unwrap().unwrap();
    assert_eq!(loader.next_page(), Some((100, 0)));
    let doc = loader.finish();
    assert_eq!(doc.name, "Bangumi tom Game Releases");
    assert!(doc.events.is_empty());
}

#[test]
fn target_without_query_gives_default_options() {
    match CalendarApp::<()>::request_for_target("/game/bangumi/user/amy/wish.ics", None) {
        UrlRequest::Calendar(req) => {
            assert_eq!(req.owner, "amy");
            assert_eq!(req.query.past_days, 31);
            assert_eq!(req.query.name, NameMode::Original);
        }
        other => panic!("expected a calendar request, got {other:?}"),
    }
    assert!(matches!(
        CalendarApp::<()>::request_for_target("/", Some("name=cn")),
        UrlRequest::NotCalendar
    ));
}

#[test]
fn upstream_status_decides_errors() {
    assert!(upstream_status_error(200).is_none());
    assert!(upstream_status_error(299).is_none());
    match upstream_status_error(404) {
        Some(AppError::Upstream(m)) => assert_eq!(m, "Bangumi returned HTTP 404"),
        other => panic!("expected an upstream error, got {other:?}"),
    }
    match upstream_status_error(199) {
        Some(AppError::Upstream(m)) => assert_eq!(m, "Bangumi returned HTTP 199"),
        other => panic!("expected an upstream error, got {other:?}"),
    }
    assert!(upstream_status_error(300).is_some());
}

#[test]
fn look_back_succeeds_within_date_range() {
    let req = |past_days: i64| CalendarRequest {
        kind: CalendarKind::GameRelease,
        source: CalendarDataSource::BangumiUserCollection,
        format: OutputFormat::Ics,
        owner: "tom".to_owned(),
        query: CalendarQuery { name: NameMode::Original, past_days },
    };
    let today = CalendarDate { year: 2024, month: 6, day: 15 };
    assert!(matches!(WishlistLoader::start(&req(90_000_000), today), Some(Ok(_))));
    let span = NaiveDate::from_ymd_opt(2024, 6, 15).unwrap().num_days_from_ce()
        - NaiveDate::MIN.num_days_from_ce();
    assert!(matches!(WishlistLoader::start(&req(span as i64), today), Some(Ok(_))));
    assert!(WishlistLoader::start(&req(span as i64 + 1), today).is_none());
    let forward = NaiveDate::MAX.num_days_from_ce() - NaiveDate::from_ymd_opt(2024, 6, 15).unwrap().num_days_from_ce();
    assert!(matches!(WishlistLoader::start(&req(-(forward as i64)), today), Some(Ok(_))));
    assert!(WishlistLoader::start(&req(-(forward as i64) - 1), today).is_none());
}
