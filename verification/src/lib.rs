pub mod app;
pub mod bangumi;
pub mod dates;
pub mod domain;
pub mod error;
pub mod query;
pub mod renderers;
pub mod route;
pub mod service;
pub mod text;
pub mod wishlist;

pub use app::{CalendarApp, UrlRequest};
pub use bangumi::{BangumiCollectionItem, BangumiCollectionPage, BangumiSubject};
pub use domain::{
    CalendarDataSource, CalendarDate, CalendarDocument, CalendarEvent, CalendarKind, CalendarRequest,
    OutputFormat, RenderedCalendar,
};
pub use error::{AppError, AppResult};
pub use query::{CalendarQuery, NameMode};
pub use renderers::ics::IcsRenderer;
pub use route::{parse_calendar_route, CalendarRoute};
pub use service::CalendarService;
pub use wishlist::{BangumiGameWishlistSource, WishlistLoader};
