use vstd::prelude::*;
use crate::domain::{CalendarDataSource, CalendarKind, CalendarRequest, OutputFormat};
use crate::error::{AppError, is_bad_request};
use crate::query::{CalendarQuery, Outcome, form_urlencoded_pairs, query_from_pairs, query_text};
use crate::route::{parse_calendar_route, route_username};

verus! {

/// The calendar application: answers calendar URLs with the help of a
/// Bangumi client.
#[derive(Debug, Clone)]
pub struct CalendarApp<B> {
    bangumi_client: B,
}

/// What a URL asks of the application.
#[derive(Debug)]
pub enum UrlRequest {
    /// The path names no calendar: answered with "not found".
    NotCalendar,
    /// The query string is refused.
    Rejected(AppError),
    /// A month count in the query string overflows when turned into days:
    /// the URL cannot be answered.
    Overflow,
    /// The calendar to produce.
    Calendar(CalendarRequest),
}

/// What a request with the path `path` and the query text `query` asks: no
/// calendar unless the path routes to a user; otherwise what the query
/// string reads as, applied to that user's game-release calendar.
pub open spec fn url_request_outcome(path: Seq<char>, query: Seq<char>, r: UrlRequest) -> bool {
    match route_username(path) {
        None => r is NotCalendar,
        Some(user) => match query_from_pairs(form_urlencoded_pairs(query)) {
            Outcome::Value(q) => r matches UrlRequest::Calendar(req) && req.kind
                == CalendarKind::GameRelease && req.source
                == CalendarDataSource::BangumiUserCollection && req.format == OutputFormat::Ics
                && req.owner@ == user && req.query == q,
            Outcome::Rejected(m) => r matches UrlRequest::Rejected(e) && is_bad_request(e, m),
            Outcome::Overflow => r is Overflow,
        },
    }
}

impl<B> CalendarApp<B> {
    /// The client that the application reads Bangumi with.
    pub closed spec fn spec_client(&self) -> B {
        self.bangumi_client
    }

    /// The application that reads Bangumi through `bangumi_client`.
    pub fn new(bangumi_client: B) -> (a: Self)
        ensures
            a.spec_client() == bangumi_client,
    {
        CalendarApp { bangumi_client }
    }

    /// The client that the application reads Bangumi with.
    pub fn client(&self) -> (c: &B)
        ensures
            *c == self.spec_client(),
    {
        &self.bangumi_client
    }

    /// What a request for the target `path`, with the query string
    /// `query`, asks of the application: the route of the path first, then
    /// the options of the query string (see [`url_request_outcome`]).
    pub fn request_for_target(path: &str, query: Option<&str>) -> (r: UrlRequest)
        ensures
            url_request_outcome(path@, query_text(query), r),
    {
        let route = match parse_calendar_route(path) {
            None => return UrlRequest::NotCalendar,
            Some(route) => route,
        };
        match CalendarQuery::from_query(query) {
            None => UrlRequest::Overflow,
            Some(Err(e)) => UrlRequest::Rejected(e),
            Some(Ok(q)) => UrlRequest::Calendar(route.into_request(q)),
        }
    }
}

} // verus!
