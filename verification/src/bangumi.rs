use vstd::prelude::*;
use crate::dates::{parse_ymd, parsed_ymd_date};
use crate::domain::{CalendarDate, CalendarEvent, EventView};
use crate::error::AppError;
use crate::query::NameMode;
use crate::text::{decimal, is_blank, is_blank_str, push_char, push_decimal};

verus! {

/// The host of the Bangumi API.
pub const BANGUMI_API: &'static str = "https://api.bgm.tv";

/// Bangumi's subject type for games.
pub const GAME_SUBJECT_TYPE: u8 = 4;

/// Bangumi's collection type for wishes.
pub const WISH_COLLECTION_TYPE: u8 = 1;

/// How many collection entries one page request asks for.
pub const PAGE_LIMIT: u16 = 100;

/// At most this many pages are requested for one calendar.
pub const MAX_PAGES: u16 = 50;

/// One page of a user's collection, as the Bangumi API returns it.
#[derive(Debug, Clone)]
pub struct BangumiCollectionPage {
    /// How many entries the whole collection holds.
    pub total: u32,
    pub data: Vec<BangumiCollectionItem>,
}

/// One entry of a collection.
#[derive(Debug, Clone)]
pub struct BangumiCollectionItem {
    pub subject: BangumiSubject,
}

/// A Bangumi subject (here a game). Missing text fields are empty.
#[derive(Debug, Clone)]
pub struct BangumiSubject {
    pub id: u64,
    pub name: String,
    pub name_cn: String,
    pub summary: String,
    /// The release date, `YYYY-MM-DD` when known.
    pub date: String,
    pub platform: String,
    pub url: String,
}

/// The plain content of a [`BangumiSubject`].
pub struct SubjectView {
    pub id: u64,
    pub name: Seq<char>,
    pub name_cn: Seq<char>,
    pub summary: Seq<char>,
    pub date: Seq<char>,
    pub platform: Seq<char>,
    pub url: Seq<char>,
}

impl View for BangumiSubject {
    type V = SubjectView;

    open spec fn view(&self) -> SubjectView {
        SubjectView {
            id: self.id,
            name: self.name@,
            name_cn: self.name_cn@,
            summary: self.summary@,
            date: self.date@,
            platform: self.platform@,
            url: self.url@,
        }
    }
}

/// The subjects of a page's entries, in order.
pub open spec fn items_view(items: Seq<BangumiCollectionItem>) -> Seq<SubjectView> {
    items.map_values(|i: BangumiCollectionItem| i.subject@)
}

/// The name a calendar shows for a subject: the Chinese name is used only
/// when asked for and not blank.
pub open spec fn spec_display_name(s: SubjectView, mode: NameMode) -> Seq<char> {
    match mode {
        NameMode::Original => s.name,
        NameMode::Chinese => if !is_blank(s.name_cn) {
            s.name_cn
        } else {
            s.name
        },
    }
}

/// The page of a subject: its own URL, or its page on bgm.tv when that is
/// blank.
pub open spec fn spec_subject_url(s: SubjectView) -> Seq<char> {
    if is_blank(s.url) {
        "https://bgm.tv/subject/"@ + decimal(s.id as nat)
    } else {
        s.url
    }
}

/// The description of a subject's event: its page, then `Platform: <platform>`
/// and the summary, each on a line of its own where it is not blank.
pub open spec fn spec_description(s: SubjectView) -> Seq<char> {
    spec_subject_url(s) + (if !is_blank(s.platform) {
        "\n"@ + "Platform: "@ + s.platform
    } else {
        Seq::<char>::empty()
    }) + (if !is_blank(s.summary) {
        "\n"@ + s.summary
    } else {
        Seq::<char>::empty()
    })
}

/// The event id of a subject.
pub open spec fn spec_event_uid(id: u64) -> Seq<char> {
    "bangumi-game-"@ + decimal(id as nat) + "@calendar.local"@
}

/// The event that lists a subject's release on `date`.
pub open spec fn spec_event(s: SubjectView, date: CalendarDate, mode: NameMode) -> EventView {
    EventView {
        uid: spec_event_uid(s.id),
        title: spec_display_name(s, mode),
        date,
        url: Some(spec_subject_url(s)),
        description: Some(spec_description(s)),
    }
}

impl BangumiSubject {
    /// The release date, where `date` reads as `YYYY-MM-DD`.
    pub fn release_date(&self) -> (d: Option<CalendarDate>)
        ensures
            d == parsed_ymd_date(self.date@),
            d matches Some(day) ==> day.wf(),
    {
        parse_ymd(self.date.as_str())
    }

    /// The name shown for this subject under `mode`.
    pub fn display_name(&self, mode: &NameMode) -> (n: &str)
        ensures
            n@ == spec_display_name(self@, *mode),
    {
        match mode {
            NameMode::Original => self.name.as_str(),
            NameMode::Chinese => {
                if !is_blank_str(self.name_cn.as_str()) {
                    self.name_cn.as_str()
                } else {
                    self.name.as_str()
                }
            },
        }
    }

    /// This subject's page.
    pub fn subject_url(&self) -> (u: String)
        ensures
            u@ == spec_subject_url(self@),
    {
        if is_blank_str(self.url.as_str()) {
            let mut u = String::new();
            u.append("https://bgm.tv/subject/");
            push_decimal(&mut u, self.id);
            u
        } else {
            self.url.clone()
        }
    }

    /// The calendar event for this subject's release on `release_date`.
    pub fn into_event(self, release_date: CalendarDate, name_mode: &NameMode) -> (e: CalendarEvent)
        ensures
            e@ == spec_event(self@, release_date, *name_mode),
            *name_mode == NameMode::Original ==> e.title@ == self.name@,
            *name_mode == NameMode::Chinese ==> e.title@ == if is_blank(self.name_cn@) {
                self.name@
            } else {
                self.name_cn@
            },
            e.date == release_date,
            e.url matches Some(u) && u@ == spec_subject_url(self@),
            e.description matches Some(d) && d@.take(spec_subject_url(self@).len() as int)
                == spec_subject_url(self@),
    {
        proof {
            lemma_event_from_subject(self@, release_date, *name_mode);
        }
        let title = self.display_name(name_mode);
        let mut t = String::new();
        t.append(title);
        let url = self.subject_url();
        let mut uid = String::new();
        uid.append("bangumi-game-");
        push_decimal(&mut uid, self.id);
        uid.append("@calendar.local");
        let description = event_description(&self);
        CalendarEvent {
            uid,
            title: t,
            date: release_date,
            description: Some(description),
            url: Some(url),
        }
    }
}

/// The description of a subject's event (see [`spec_description`]).
pub fn event_description(subject: &BangumiSubject) -> (d: String)
    ensures
        d@ == spec_description(subject@),
{
    let mut d = subject.subject_url();
    if !is_blank_str(subject.platform.as_str()) {
        d.append("\n");
        d.append("Platform: ");
        d.append(subject.platform.as_str());
    }
    if !is_blank_str(subject.summary.as_str()) {
        d.append("\n");
        d.append(subject.summary.as_str());
    }
    d
}

/// The address of one page of a user's game wish list on the Bangumi API.
pub open spec fn spec_collections_url(username: Seq<char>, limit: u16, offset: u32) -> Seq<char> {
    "https://api.bgm.tv"@ + "/v0/users/"@ + username + "/collections?subject_type="@ + decimal(4)
        + "&type="@ + decimal(1) + "&limit="@ + decimal(limit as nat) + "&offset="@ + decimal(
        offset as nat,
    )
}

/// The address of one page of a user's game wish list on the Bangumi API.
pub fn bangumi_collections_url(username: &str, limit: u16, offset: u32) -> (u: String)
    ensures
        u@ == spec_collections_url(username@, limit, offset),
{
    let mut u = String::new();
    u.append(BANGUMI_API);
    u.append("/v0/users/");
    u.append(username);
    u.append("/collections?subject_type=");
    push_decimal(&mut u, GAME_SUBJECT_TYPE as u64);
    u.append("&type=");
    push_decimal(&mut u, WISH_COLLECTION_TYPE as u64);
    u.append("&limit=");
    push_decimal(&mut u, limit as u64);
    u.append("&offset=");
    push_decimal(&mut u, offset as u64);
    u
}

/// The error for a Bangumi answer with the HTTP status `status`: none for a
/// success (200 to 299), else `Upstream("Bangumi returned HTTP <status>")`.
pub fn upstream_status_error(status: u16) -> (e: Option<AppError>)
    ensures
        200 <= status < 300 ==> e is None,
        !(200 <= status < 300) ==> (e matches Some(AppError::Upstream(m)) && m@
            == "Bangumi returned HTTP "@ + decimal(status as nat)),
{
    if 200 <= status && status < 300 {
        None
    } else {
        let mut m = String::new();
        m.append("Bangumi returned HTTP ");
        push_decimal(&mut m, status as u64);
        Some(AppError::Upstream(m))
    }
}

/// How many characters of a response body a log line shows.
pub const MAX_PREVIEW_CHARS: usize = 1200;

/// `s` with each line feed written `\n` and each carriage return `\r`.
pub open spec fn escape_line_breaks(s: Seq<char>) -> Seq<char>
    decreases s.len(),
{
    if s.len() == 0 {
        Seq::<char>::empty()
    } else {
        let head = escape_line_breaks(s.drop_last());
        let c = s.last();
        if c == '\n' {
            head.push('\\').push('n')
        } else if c == '\r' {
            head.push('\\').push('r')
        } else {
            head.push(c)
        }
    }
}

/// The first 1200 characters of a body on one line, followed by `...` when
/// the body is longer.
pub open spec fn spec_body_preview(body: Seq<char>) -> Seq<char> {
    if body.len() > 1200 {
        escape_line_breaks(body.take(1200)) + "..."@
    } else {
        escape_line_breaks(body)
    }
}

/// A one-line preview of a response body, for logs.
pub fn body_preview(body: &str) -> (p: String)
    ensures
        p@ == spec_body_preview(body@),
{
    let mut p = String::new();
    let mut count: usize = 0;
    for c in it: body.chars()
        invariant
            it.seq() == body@,
            count == if it.index() <= 1201 { it.index() } else { 1201 },
            p@ == escape_line_breaks(body@.take(if count < MAX_PREVIEW_CHARS { count as int } else { 1200 })),
            MAX_PREVIEW_CHARS == 1200,
    {
        if count < MAX_PREVIEW_CHARS {
            assert(body@.take(count + 1).drop_last() =~= body@.take(count as int));
            if c == '\n' {
                push_char(&mut p, '\\');
                push_char(&mut p, 'n');
            } else if c == '\r' {
                push_char(&mut p, '\\');
                push_char(&mut p, 'r');
            } else {
                push_char(&mut p, c);
            }
        }
        if count <= MAX_PREVIEW_CHARS {
            count = count + 1;
        }
    }
    if count > MAX_PREVIEW_CHARS {
        p.append("...");
    } else {
        assert(body@.take(count as int) =~= body@);
    }
    p
}

proof fn lemma_escape_has_no_line_breaks(s: Seq<char>)
    ensures
        forall|i: int|
            0 <= i < escape_line_breaks(s).len() ==> #[trigger] escape_line_breaks(s)[i] != '\n'
                && escape_line_breaks(s)[i] != '\r',
    decreases s.len(),
{
    if s.len() > 0 {
        let head = escape_line_breaks(s.drop_last());
        lemma_escape_has_no_line_breaks(s.drop_last());
        let e = escape_line_breaks(s);
        assert forall|i: int| 0 <= i < e.len() implies #[trigger] e[i] != '\n' && e[i] != '\r' by {
            if i < head.len() {
                assert(e[i] == head[i]);
            }
        }
    }
}

/// A body preview is a single line: it holds no line feed and no carriage
/// return, whatever the body.
pub proof fn lemma_body_preview_is_one_line(body: Seq<char>)
    ensures
        forall|i: int|
            0 <= i < spec_body_preview(body).len() ==> #[trigger] spec_body_preview(body)[i] != '\n'
                && spec_body_preview(body)[i] != '\r',
{
    reveal_strlit("...");
    lemma_escape_has_no_line_breaks(body);
    lemma_escape_has_no_line_breaks(body.take(1200));
    if body.len() > 1200 {
        let e = escape_line_breaks(body.take(1200));
        assert forall|i: int| 0 <= i < spec_body_preview(body).len() implies #[trigger] spec_body_preview(body)[i] != '\n'
            && spec_body_preview(body)[i] != '\r' by {
            if i < e.len() {
                assert(spec_body_preview(body)[i] == e[i]);
            } else {
                assert(spec_body_preview(body)[i] == "..."@[i - e.len()]);
            }
        }
    }
}

/// Event ids tell subjects apart: subjects with different ids get events
/// with different ids.
pub proof fn lemma_event_uid_injective(a: u64, b: u64)
    ensures
        spec_event_uid(a) == spec_event_uid(b) ==> a == b,
{
    let head = "bangumi-game-"@;
    let tail = "@calendar.local"@;
    let ua = spec_event_uid(a);
    let ub = spec_event_uid(b);
    if ua == ub {
        let da = decimal(a as nat);
        let db = decimal(b as nat);
        assert(ua.len() == head.len() + da.len() + tail.len());
        assert(ub.len() == head.len() + db.len() + tail.len());
        assert(ua.subrange(head.len() as int, (head.len() + da.len()) as int) =~= da);
        assert(ub.subrange(head.len() as int, (head.len() + db.len()) as int) =~= db);
        crate::text::lemma_decimal_injective(a as nat, b as nat);
    }
}

/// The event of a subject shows the name that the name mode asks for: the
/// original name under `Original`; under `Chinese` the Chinese name unless it
/// is blank, then the original name. It is dated on the release date, links
/// to the subject's page, and its description starts with that page.
pub proof fn lemma_event_from_subject(s: SubjectView, date: CalendarDate, mode: NameMode)
    ensures
        mode == NameMode::Original ==> spec_event(s, date, mode).title == s.name,
        mode == NameMode::Chinese && !is_blank(s.name_cn) ==> spec_event(s, date, mode).title
            == s.name_cn,
        mode == NameMode::Chinese && is_blank(s.name_cn) ==> spec_event(s, date, mode).title
            == s.name,
        spec_event(s, date, mode).date == date,
        spec_event(s, date, mode).url == Some(spec_subject_url(s)),
        spec_event(s, date, mode).description matches Some(d) && d.take(
            spec_subject_url(s).len() as int,
        ) == spec_subject_url(s),
{
    let d = spec_description(s);
    assert(d.take(spec_subject_url(s).len() as int) =~= spec_subject_url(s));
}

} // verus!
