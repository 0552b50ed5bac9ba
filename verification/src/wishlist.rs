use vstd::prelude::*;
use crate::bangumi::{
    BangumiCollectionPage, SubjectView, MAX_PAGES, PAGE_LIMIT, items_view, spec_event,
};
use crate::dates::{days_before, look_back_in_range, parsed_ymd_date, today_utc};
use crate::domain::{
    CalendarDataSource, CalendarDate, CalendarDocument, CalendarEvent, CalendarKind,
    CalendarRequest, EventView, RequestView, date_lt, day_number, events_view,
};
use crate::error::{AppError, AppResult, is_bad_request};
use crate::query::NameMode;
use crate::text::chars_of;

verus! {

/// The calendar source that lists the games on a Bangumi user's wish list.
#[derive(Debug, Clone)]
pub struct BangumiGameWishlistSource<C> {
    client: C,
}

impl<C> BangumiGameWishlistSource<C> {
    /// The client that the source reads pages with.
    pub closed spec fn spec_client(&self) -> C {
        self.client
    }

    /// A source that reads the wish list through `client`.
    pub fn new(client: C) -> (s: Self)
        ensures
            s.spec_client() == client,
    {
        BangumiGameWishlistSource { client }
    }

    /// The client that the source reads pages with.
    pub fn client(&self) -> (c: &C)
        ensures
            *c == self.spec_client(),
    {
        &self.client
    }
}

/// `a` comes before `b` in code-point order (the order of `String::cmp`,
/// which on UTF-8 text is the order of code points).
pub open spec fn text_lt(a: Seq<char>, b: Seq<char>) -> bool
    decreases a.len(),
{
    if a.len() == 0 {
        b.len() > 0
    } else if b.len() == 0 {
        false
    } else if a[0] != b[0] {
        a[0] < b[0]
    } else {
        text_lt(a.drop_first(), b.drop_first())
    }
}

/// `a` is listed before `b`: by date, then by event id.
pub open spec fn event_before(a: EventView, b: EventView) -> bool {
    date_lt(a.date, b.date) || (a.date == b.date && text_lt(a.uid, b.uid))
}

/// `e` put into the ordered list `t` after every entry that is not listed
/// after it.
pub open spec fn insert_by_key(t: Seq<EventView>, e: EventView) -> Seq<EventView>
    decreases t.len(),
{
    if t.len() > 0 && event_before(e, t.last()) {
        insert_by_key(t.drop_last(), e).push(t.last())
    } else {
        t.push(e)
    }
}

/// The events ordered by date, then by id; events that compare equal keep
/// their order (a stable sort).
pub open spec fn sort_events(s: Seq<EventView>) -> Seq<EventView>
    decreases s.len(),
{
    if s.len() == 0 {
        s
    } else {
        insert_by_key(sort_events(s.drop_last()), s.last())
    }
}

/// The events that a page's subjects give: one for each subject whose date
/// reads as a date not before `since`, in page order.
pub open spec fn page_events(items: Seq<SubjectView>, since: CalendarDate, mode: NameMode) -> Seq<EventView>
    decreases items.len(),
{
    if items.len() == 0 {
        Seq::<EventView>::empty()
    } else {
        let head = page_events(items.drop_last(), since, mode);
        let s = items.last();
        match parsed_ymd_date(s.date) {
            Some(d) => if !date_lt(d, since) {
                head.push(spec_event(s, d, mode))
            } else {
                head
            },
            None => head,
        }
    }
}

/// The events that a run of pages gives: each page's events (see
/// [`page_events`]), page after page.
pub open spec fn loaded_events(pages: Seq<Seq<SubjectView>>, since: CalendarDate, mode: NameMode) -> Seq<EventView>
    decreases pages.len(),
{
    if pages.len() == 0 {
        Seq::<EventView>::empty()
    } else {
        loaded_events(pages.drop_last(), since, mode) + page_events(pages.last(), since, mode)
    }
}

/// The name of the calendar of `owner`'s game releases.
pub open spec fn calendar_name(owner: Seq<char>) -> Seq<char> {
    "Bangumi "@ + owner + " Game Releases"@
}

/// Whether `a` comes before `b` in code-point order.
pub fn text_less(a: &str, b: &str) -> (r: bool)
    ensures
        r == text_lt(a@, b@),
{
    let x = chars_of(a);
    let y = chars_of(b);
    let mut i: usize = 0;
    assert(x@.skip(0) =~= x@);
    assert(y@.skip(0) =~= y@);
    loop
        invariant
            x@ == a@,
            y@ == b@,
            i <= x.len(),
            i <= y.len(),
            text_lt(a@, b@) == text_lt(x@.skip(i as int), y@.skip(i as int)),
        decreases x.len() - i,
    {
        if i == x.len() {
            return i < y.len();
        }
        if i == y.len() {
            return false;
        }
        if x[i] != y[i] {
            return x[i] < y[i];
        }
        assert(x@.skip(i as int).drop_first() =~= x@.skip(i + 1));
        assert(y@.skip(i as int).drop_first() =~= y@.skip(i + 1));
        i = i + 1;
    }
}

/// Whether event `a` is listed before event `b`.
fn event_less(a: &CalendarEvent, b: &CalendarEvent) -> (r: bool)
    ensures
        r == event_before(a@, b@),
{
    if a.date.before(&b.date) {
        true
    } else if a.date == b.date {
        text_less(a.uid.as_str(), b.uid.as_str())
    } else {
        false
    }
}

proof fn lemma_insert_at(t: Seq<EventView>, e: EventView, p: int)
    requires
        0 <= p <= t.len(),
        forall|j: int| p <= j < t.len() ==> event_before(e, #[trigger] t[j]),
        p == 0 || !event_before(e, t[p - 1]),
    ensures
        insert_by_key(t, e) == t.take(p).push(e) + t.skip(p),
    decreases t.len(),
{
    if p == t.len() {
        assert(t.take(p) =~= t);
        assert(t.skip(p) =~= Seq::<EventView>::empty());
        assert(t.take(p).push(e) + t.skip(p) =~= t.push(e));
    } else {
        assert(event_before(e, t[t.len() - 1]));
        lemma_insert_at(t.drop_last(), e, p);
        assert(t.drop_last().take(p) =~= t.take(p));
        assert((t.drop_last().take(p).push(e) + t.drop_last().skip(p)).push(t.last()) =~= t.take(
            p,
        ).push(e) + t.skip(p));
    }
}

/// Puts `e` into the ordered list `sorted` (see [`insert_by_key`]).
fn insert_event(sorted: &mut Vec<CalendarEvent>, e: CalendarEvent)
    ensures
        events_view(final(sorted)@) == insert_by_key(events_view(old(sorted)@), e@),
{
    let ghost t = events_view(sorted@);
    let mut p = sorted.len();
    while p > 0 && event_less(&e, &sorted[p - 1])
        invariant
            p <= sorted.len(),
            t == events_view(sorted@),
            forall|j: int| p <= j < t.len() ==> event_before(e@, #[trigger] t[j]),
        decreases p,
    {
        p = p - 1;
    }
    proof {
        lemma_insert_at(t, e@, p as int);
    }
    sorted.insert(p, e);
    assert(events_view(sorted@) =~= t.take(p as int).push(e@) + t.skip(p as int));
}

/// The events ordered by date, then by id (a stable sort).
pub fn sort_by_date_and_uid(events: Vec<CalendarEvent>) -> (sorted: Vec<CalendarEvent>)
    ensures
        events_view(sorted@) == sort_events(events_view(events@)),
{
    let ghost all = events_view(events@);
    let mut sorted: Vec<CalendarEvent> = Vec::new();
    for e in it: events.into_iter()
        invariant
            it.seq() == events@,
            all == events_view(events@),
            events_view(sorted@) == sort_events(all.take(it.index())),
    {
        assert(all.take(it.index() + 1).drop_last() =~= all.take(it.index()));
        insert_event(&mut sorted, e);
    }
    assert(all.take(all.len() as int) =~= all);
    sorted
}

/// The events are in listing order: none comes after one that follows it.
pub open spec fn events_sorted(s: Seq<EventView>) -> bool {
    forall|i: int, j: int| 0 <= i < j < s.len() ==> !event_before(#[trigger] s[j], #[trigger] s[i])
}

proof fn lemma_text_lt_irreflexive(a: Seq<char>)
    ensures
        !text_lt(a, a),
    decreases a.len(),
{
    if a.len() > 0 {
        lemma_text_lt_irreflexive(a.drop_first());
    }
}

proof fn lemma_text_lt_asymmetric(a: Seq<char>, b: Seq<char>)
    ensures
        text_lt(a, b) ==> !text_lt(b, a),
    decreases a.len(),
{
    if a.len() > 0 && b.len() > 0 && a[0] == b[0] {
        lemma_text_lt_asymmetric(a.drop_first(), b.drop_first());
    }
}

proof fn lemma_text_lt_transitive(a: Seq<char>, b: Seq<char>, c: Seq<char>)
    ensures
        text_lt(a, b) && text_lt(b, c) ==> text_lt(a, c),
    decreases a.len(),
{
    if a.len() > 0 && b.len() > 0 && c.len() > 0 && a[0] == b[0] && b[0] == c[0] {
        lemma_text_lt_transitive(a.drop_first(), b.drop_first(), c.drop_first());
    }
}

proof fn lemma_text_lt_total(a: Seq<char>, b: Seq<char>)
    ensures
        a != b ==> text_lt(a, b) || text_lt(b, a),
    decreases a.len(),
{
    if a.len() > 0 && b.len() > 0 {
        if a[0] == b[0] {
            lemma_text_lt_total(a.drop_first(), b.drop_first());
            if a.drop_first() == b.drop_first() {
                assert(a =~= seq![a[0]] + a.drop_first());
                assert(b =~= seq![b[0]] + b.drop_first());
            }
        } else {
        }
    } else if a.len() == 0 && b.len() == 0 {
        assert(a =~= b);
    }
}

/// Not being listed before is transitive: listing by date and id is a total
/// order on those keys.
proof fn lemma_not_before_transitive(a: EventView, b: EventView, c: EventView)
    requires
        !event_before(a, b),
        !event_before(b, c),
    ensures
        !event_before(a, c),
{
    lemma_text_lt_total(a.uid, b.uid);
    lemma_text_lt_total(b.uid, c.uid);
    lemma_text_lt_transitive(c.uid, b.uid, a.uid);
    lemma_text_lt_transitive(a.uid, c.uid, b.uid);
    lemma_text_lt_transitive(b.uid, a.uid, c.uid);
    lemma_text_lt_asymmetric(a.uid, c.uid);
    lemma_text_lt_irreflexive(a.uid);
    lemma_text_lt_irreflexive(b.uid);
}

proof fn lemma_before_asymmetric(a: EventView, b: EventView)
    ensures
        event_before(a, b) ==> !event_before(b, a),
{
    lemma_text_lt_asymmetric(a.uid, b.uid);
}

/// Inserting keeps the events and adds `e`.
proof fn lemma_insert_by_key_multiset(t: Seq<EventView>, e: EventView)
    ensures
        insert_by_key(t, e).to_multiset() == t.to_multiset().insert(e),
    decreases t.len(),
{
    broadcast use vstd::seq_lib::group_to_multiset_ensures;

    if t.len() > 0 && event_before(e, t.last()) {
        lemma_insert_by_key_multiset(t.drop_last(), e);
        assert(t =~= t.drop_last().push(t.last()));
        assert(insert_by_key(t, e).to_multiset() =~= t.to_multiset().insert(e));
    }
}

/// Inserting into an ordered list gives an ordered list.
proof fn lemma_insert_by_key_sorted(t: Seq<EventView>, e: EventView)
    requires
        events_sorted(t),
    ensures
        events_sorted(insert_by_key(t, e)),
    decreases t.len(),
{
    broadcast use vstd::seq_lib::group_to_multiset_ensures;

    let r = insert_by_key(t, e);
    if t.len() > 0 && event_before(e, t.last()) {
        let inner = insert_by_key(t.drop_last(), e);
        lemma_insert_by_key_sorted(t.drop_last(), e);
        lemma_insert_by_key_multiset(t.drop_last(), e);
        assert forall|i: int, j: int| 0 <= i < j < r.len() implies !event_before(
            #[trigger] r[j],
            #[trigger] r[i],
        ) by {
            if j == r.len() - 1 {
                let x = inner[i];
                assert(inner.to_multiset().count(x) > 0);
                if x == e {
                    lemma_before_asymmetric(e, t.last());
                } else {
                    assert(t.drop_last().contains(x));
                    let k = choose|k: int| 0 <= k < t.drop_last().len() && t.drop_last()[k] == x;
                    assert(t[k] == x);
                }
            }
        }
    } else {
        assert forall|i: int, j: int| 0 <= i < j < r.len() implies !event_before(
            #[trigger] r[j],
            #[trigger] r[i],
        ) by {
            if j == r.len() - 1 {
                if i < t.len() - 1 {
                    assert(!event_before(t.last(), t[i]));
                    lemma_not_before_transitive(e, t.last(), t[i]);
                }
            }
        }
    }
}

/// The calendar's order holds: sorting gives the events in order of date,
/// then of id.
pub proof fn lemma_sort_events_sorted(s: Seq<EventView>)
    ensures
        events_sorted(sort_events(s)),
    decreases s.len(),
{
    if s.len() > 0 {
        lemma_sort_events_sorted(s.drop_last());
        lemma_insert_by_key_sorted(sort_events(s.drop_last()), s.last());
    }
}

/// Sorted events come in date order, and events of one date in id order:
/// no event is dated before one that precedes it, and of two events on the
/// same date the one with the smaller id comes first.
pub proof fn lemma_sorted_by_date_then_uid(s: Seq<EventView>)
    ensures
        forall|i: int, j: int|
            0 <= i < j < sort_events(s).len() ==> !date_lt(
                #[trigger] sort_events(s)[j].date,
                #[trigger] sort_events(s)[i].date,
            ) && (sort_events(s)[i].date == sort_events(s)[j].date ==> !text_lt(
                sort_events(s)[j].uid,
                sort_events(s)[i].uid,
            )),
{
    lemma_sort_events_sorted(s);
    let t = sort_events(s);
    assert forall|i: int, j: int| 0 <= i < j < t.len() implies !date_lt(
        #[trigger] t[j].date,
        #[trigger] t[i].date,
    ) && (t[i].date == t[j].date ==> !text_lt(t[j].uid, t[i].uid)) by {
        assert(!event_before(t[j], t[i]));
    }
}

/// Sorting loses no event and adds none: the sorted list holds the same
/// events, as many times each.
pub proof fn lemma_sort_events_permutes(s: Seq<EventView>)
    ensures
        sort_events(s).to_multiset() == s.to_multiset(),
    decreases s.len(),
{
    broadcast use vstd::seq_lib::group_to_multiset_ensures;

    if s.len() > 0 {
        lemma_sort_events_permutes(s.drop_last());
        lemma_insert_by_key_multiset(sort_events(s.drop_last()), s.last());
        assert(s =~= s.drop_last().push(s.last()));
    }
}

/// No event of a page is dated before `since`.
pub proof fn lemma_page_events_not_before(items: Seq<SubjectView>, since: CalendarDate, mode: NameMode)
    ensures
        forall|i: int|
            0 <= i < page_events(items, since, mode).len() ==> !date_lt(
                #[trigger] page_events(items, since, mode)[i].date,
                since,
            ),
    decreases items.len(),
{
    if items.len() > 0 {
        lemma_page_events_not_before(items.drop_last(), since, mode);
    }
}

/// The subject `s` is listed as the event `e`: its date reads, is not
/// before `since`, and `e` is its event on that date.
pub open spec fn lists(s: SubjectView, since: CalendarDate, mode: NameMode, e: EventView) -> bool {
    parsed_ymd_date(s.date) matches Some(d) && !date_lt(d, since) && e == spec_event(s, d, mode)
}

/// The events of `events` dated on or after `since`, in order.
pub open spec fn keep_from(events: Seq<EventView>, since: CalendarDate) -> Seq<EventView>
    decreases events.len(),
{
    if events.len() == 0 {
        Seq::<EventView>::empty()
    } else {
        let head = keep_from(events.drop_last(), since);
        if !date_lt(events.last().date, since) {
            head.push(events.last())
        } else {
            head
        }
    }
}

/// A page lists exactly the events of its subjects whose dates read and are
/// not before `since`.
pub proof fn lemma_page_events_members(items: Seq<SubjectView>, since: CalendarDate, mode: NameMode, e: EventView)
    ensures
        page_events(items, since, mode).contains(e) <==> exists|i: int|
            0 <= i < items.len() && lists(#[trigger] items[i], since, mode, e),
    decreases items.len(),
{
    if items.len() > 0 {
        let rest = items.drop_last();
        lemma_page_events_members(rest, since, mode, e);
        let head = page_events(rest, since, mode);
        if page_events(items, since, mode).contains(e) {
            let k = choose|k: int| 0 <= k < page_events(items, since, mode).len() && page_events(items, since, mode)[k] == e;
            if k < head.len() {
                assert(head[k] == e);
                let i = choose|i: int| 0 <= i < rest.len() && lists(#[trigger] rest[i], since, mode, e);
                assert(items[i] == rest[i]);
            } else {
                assert(lists(items[items.len() - 1], since, mode, e));
            }
        }
        if exists|i: int| 0 <= i < items.len() && lists(#[trigger] items[i], since, mode, e) {
            let i = choose|i: int| 0 <= i < items.len() && lists(#[trigger] items[i], since, mode, e);
            if i < items.len() - 1 {
                assert(rest[i] == items[i]);
                assert(head.contains(e));
                let k = choose|k: int| 0 <= k < head.len() && head[k] == e;
                assert(page_events(items, since, mode)[k] == e);
            } else {
                assert(page_events(items, since, mode) == head.push(e));
                assert(page_events(items, since, mode)[head.len() as int] == e);
            }
        }
    }
}

/// A run of pages lists exactly the events of their subjects whose dates
/// read and are not before `since`: what the whole load of a calendar keeps.
pub proof fn lemma_loaded_events_members(
    pages: Seq<Seq<SubjectView>>,
    since: CalendarDate,
    mode: NameMode,
    e: EventView,
)
    ensures
        loaded_events(pages, since, mode).contains(e) <==> exists|p: int, i: int|
            0 <= p < pages.len() && 0 <= i < pages[p].len() && lists(
                #[trigger] pages[p][i],
                since,
                mode,
                e,
            ),
    decreases pages.len(),
{
    if pages.len() > 0 {
        let rest = pages.drop_last();
        let a = loaded_events(rest, since, mode);
        let b = page_events(pages.last(), since, mode);
        lemma_loaded_events_members(rest, since, mode, e);
        lemma_page_events_members(pages.last(), since, mode, e);
        if (a + b).contains(e) {
            let k = choose|k: int| 0 <= k < (a + b).len() && (a + b)[k] == e;
            if k < a.len() {
                assert(a[k] == e);
                let (p, i) = choose|p: int, i: int|
                    0 <= p < rest.len() && 0 <= i < rest[p].len() && lists(#[trigger] rest[p][i], since, mode, e);
                assert(pages[p] == rest[p]);
            } else {
                assert(b[k - a.len()] == e);
                let i = choose|i: int| 0 <= i < pages.last().len() && lists(#[trigger] pages.last()[i], since, mode, e);
                assert(pages[pages.len() - 1][i] == pages.last()[i]);
            }
        }
        if exists|p: int, i: int|
            0 <= p < pages.len() && 0 <= i < pages[p].len() && lists(#[trigger] pages[p][i], since, mode, e) {
            let (p, i) = choose|p: int, i: int|
                0 <= p < pages.len() && 0 <= i < pages[p].len() && lists(#[trigger] pages[p][i], since, mode, e);
            if p < pages.len() - 1 {
                assert(rest[p] == pages[p]);
                assert(lists(rest[p][i], since, mode, e));
                assert(a.contains(e));
                let k = choose|k: int| 0 <= k < a.len() && a[k] == e;
                assert((a + b)[k] == e);
            } else {
                assert(lists(pages.last()[i], since, mode, e));
                assert(b.contains(e));
                let k = choose|k: int| 0 <= k < b.len() && b[k] == e;
                assert((a + b)[a.len() + k] == e);
            }
        }
    }
}

proof fn lemma_keep_from_append(a: Seq<EventView>, b: Seq<EventView>, since: CalendarDate)
    ensures
        keep_from(a + b, since) == keep_from(a, since) + keep_from(b, since),
    decreases b.len(),
{
    if b.len() == 0 {
        assert(a + b =~= a);
        assert(keep_from(a, since) + keep_from(b, since) =~= keep_from(a, since));
    } else {
        assert((a + b).drop_last() =~= a + b.drop_last());
        assert((a + b).last() == b.last());
        lemma_keep_from_append(a, b.drop_last(), since);
        assert(keep_from(a, since) + keep_from(b.drop_last(), since).push(b.last()) =~= (keep_from(
            a,
            since,
        ) + keep_from(b.drop_last(), since)).push(b.last()));
    }
}

proof fn lemma_page_events_narrow(items: Seq<SubjectView>, wide: CalendarDate, narrow: CalendarDate, mode: NameMode)
    requires
        !date_lt(narrow, wide),
    ensures
        keep_from(page_events(items, wide, mode), narrow) == page_events(items, narrow, mode),
    decreases items.len(),
{
    if items.len() > 0 {
        lemma_page_events_narrow(items.drop_last(), wide, narrow, mode);
        let head = page_events(items.drop_last(), wide, mode);
        match parsed_ymd_date(items.last().date) {
            Some(d) => {
                if !date_lt(d, wide) {
                    assert(page_events(items, wide, mode).drop_last() =~= head);
                }
            },
            None => {},
        }
    }
}

/// Keeping the events from a date on keeps some of them, each as often.
pub proof fn lemma_keep_from_sub_multiset(events: Seq<EventView>, since: CalendarDate)
    ensures
        keep_from(events, since).to_multiset().subset_of(events.to_multiset()),
        forall|i: int| 0 <= i < keep_from(events, since).len() ==> !date_lt(
            #[trigger] keep_from(events, since)[i].date,
            since,
        ),
    decreases events.len(),
{
    broadcast use vstd::seq_lib::group_to_multiset_ensures;

    if events.len() > 0 {
        lemma_keep_from_sub_multiset(events.drop_last(), since);
        assert(events =~= events.drop_last().push(events.last()));
        let head = keep_from(events.drop_last(), since);
        if !date_lt(events.last().date, since) {
            assert forall|i: int| 0 <= i < head.push(events.last()).len() implies !date_lt(
                #[trigger] head.push(events.last())[i].date,
                since,
            ) by {
                if i < head.len() {
                    assert(head.push(events.last())[i] == head[i]);
                }
            }
        }
    }
}

/// Looking further back keeps every event and adds only earlier ones: with
/// cutoffs `p1 <= p2` days before `today`, the events of the narrower window
/// are exactly those of the wider one dated on or after its cutoff, so the
/// sorted calendar of the narrower window is contained, event for event, in
/// that of the wider one.
pub proof fn lemma_wider_look_back_keeps_events(
    today: CalendarDate,
    p1: int,
    p2: int,
    since1: CalendarDate,
    since2: CalendarDate,
    pages: Seq<Seq<SubjectView>>,
    mode: NameMode,
)
    requires
        today.wf(),
        p1 <= p2,
        since1.wf(),
        since2.wf(),
        day_number(since1) == day_number(today) - p1,
        day_number(since2) == day_number(today) - p2,
    ensures
        keep_from(loaded_events(pages, since2, mode), since1) == loaded_events(pages, since1, mode),
        sort_events(loaded_events(pages, since1, mode)).to_multiset().subset_of(
            sort_events(loaded_events(pages, since2, mode)).to_multiset(),
        ),
{
    crate::domain::lemma_day_number_order(since1, since2);
    lemma_loaded_narrow(pages, since2, since1, mode);
    lemma_keep_from_sub_multiset(loaded_events(pages, since2, mode), since1);
    lemma_sort_events_permutes(loaded_events(pages, since1, mode));
    lemma_sort_events_permutes(loaded_events(pages, since2, mode));
}

proof fn lemma_loaded_narrow(pages: Seq<Seq<SubjectView>>, wide: CalendarDate, narrow: CalendarDate, mode: NameMode)
    requires
        !date_lt(narrow, wide),
    ensures
        keep_from(loaded_events(pages, wide, mode), narrow) == loaded_events(pages, narrow, mode),
    decreases pages.len(),
{
    if pages.len() > 0 {
        lemma_loaded_narrow(pages.drop_last(), wide, narrow, mode);
        lemma_page_events_narrow(pages.last(), wide, narrow, mode);
        lemma_keep_from_append(
            loaded_events(pages.drop_last(), wide, mode),
            page_events(pages.last(), wide, mode),
            narrow,
        );
    }
}

/// What [`WishlistLoader::start`] gives for `request` on the day `today`: a
/// `BadRequest` unless the request is for game releases from a Bangumi
/// collection; otherwise `None` where `today` minus the query's day count is
/// out of range, else a fresh loader for the request's owner and name mode
/// that keeps the releases from that day on (the real date whose day count
/// is `today`'s minus the day count).
pub open spec fn start_outcome(
    request: RequestView,
    today: CalendarDate,
    r: Option<AppResult<WishlistLoader>>,
) -> bool {
    if request.kind != CalendarKind::GameRelease || request.source
        != CalendarDataSource::BangumiUserCollection {
        r matches Some(Err(e)) && is_bad_request(e, "unsupported calendar source request"@)
    } else {
        if !look_back_in_range(today, request.query.past_days as int) {
            r is None
        } else {
            r matches Some(Ok(l)) && l.owner() == request.owner && l.since().wf()
                && day_number(l.since()) == day_number(today) - request.query.past_days
                && l.name_mode() == request.query.name && l.pages_read() == 0 && !l.is_finished()
                && l.collected().len() == 0 && l.pages_seen().len() == 0
        }
    }
}

/// Reads a user's wish list page after page and collects the game releases
/// from a given date on: the decisions of loading a calendar, with the page
/// requests left to the caller.
pub struct WishlistLoader {
    owner: String,
    since: CalendarDate,
    name_mode: NameMode,
    offset: u32,
    pages: u16,
    finished: bool,
    events: Vec<CalendarEvent>,
    seen: Ghost<Seq<Seq<SubjectView>>>,
}

impl WishlistLoader {
    #[verifier::type_invariant]
    spec fn counts_agree(&self) -> bool {
        &&& self.pages <= MAX_PAGES
        &&& self.offset == self.pages * PAGE_LIMIT
        &&& self.pages == MAX_PAGES ==> self.finished
        &&& self.seen@.len() == self.pages
        &&& events_view(self.events@) == loaded_events(self.seen@, self.since, self.name_mode)
    }

    /// The subjects of the pages read so far, page by page.
    pub closed spec fn pages_seen(&self) -> Seq<Seq<SubjectView>> {
        self.seen@
    }

    /// The user whose wish list is read.
    pub closed spec fn owner(&self) -> Seq<char> {
        self.owner@
    }

    /// Releases before this date are left out.
    pub closed spec fn since(&self) -> CalendarDate {
        self.since
    }

    /// Which names the events show.
    pub closed spec fn name_mode(&self) -> NameMode {
        self.name_mode
    }

    /// How many pages have been read.
    pub closed spec fn pages_read(&self) -> nat {
        self.pages as nat
    }

    /// No more pages are to be read.
    pub closed spec fn is_finished(&self) -> bool {
        self.finished
    }

    /// The events collected so far, in page order.
    pub closed spec fn collected(&self) -> Seq<EventView> {
        events_view(self.events@)
    }

    /// The loader for `request` on the day `today`: a `BadRequest` unless
    /// the request is for game releases from a Bangumi collection; `None`
    /// where `today` minus the query's day count is out of range (subtracting
    /// it panics). See [`start_outcome`].
    pub fn start(request: &CalendarRequest, today: CalendarDate) -> (r: Option<AppResult<WishlistLoader>>)
        requires
            today.wf(),
        ensures
            start_outcome(request@, today, r),
    {
        if request.kind != CalendarKind::GameRelease || request.source
            != CalendarDataSource::BangumiUserCollection {
            let mut m = String::new();
            m.append("unsupported calendar source request");
            return Some(Err(AppError::BadRequest(m)));
        }
        match days_before(today, request.query.past_days) {
            None => None,
            Some(since) => {
                let events: Vec<CalendarEvent> = Vec::new();
                assert(events_view(events@) =~= Seq::<EventView>::empty());
                Some(
                    Ok(
                        WishlistLoader {
                            owner: request.owner.clone(),
                            since,
                            name_mode: request.query.name,
                            offset: 0,
                            pages: 0,
                            finished: false,
                            events,
                            seen: Ghost(Seq::empty()),
                        },
                    ),
                )
            },
        }
    }

    /// [`WishlistLoader::start`] on today's date in UTC.
    pub fn begin(request: &CalendarRequest) -> (r: Option<AppResult<WishlistLoader>>)
        ensures
            exists|today: CalendarDate| today.wf() && #[trigger] start_outcome(request@, today, r),
    {
        let today = today_utc();
        Self::start(request, today)
    }

    /// The next page to request, as `(limit, offset)`: pages of 100 entries
    /// one after another; `None` once the loader is finished.
    pub fn next_page(&self) -> (r: Option<(u16, u32)>)
        ensures
            self.is_finished() ==> r is None,
            !self.is_finished() ==> r == Some((100u16, (100 * self.pages_read()) as u32)),
            !self.is_finished() ==> self.pages_read() < 50,
            self.pages_seen().len() == self.pages_read(),
            self.collected() == loaded_events(self.pages_seen(), self.since(), self.name_mode()),
    {
        proof {
            use_type_invariant(self);
        }
        if self.finished {
            None
        } else {
            Some((PAGE_LIMIT, self.offset))
        }
    }

    /// Takes in the page that [`WishlistLoader::next_page`] asked for: its
    /// subjects released on or after `since` become events, and the loader
    /// is finished once the pages read reach the collection's total or 50
    /// pages have been read.
    pub fn accept_page(&mut self, page: BangumiCollectionPage)
        requires
            !old(self).is_finished(),
        ensures
            final(self).owner() == old(self).owner(),
            final(self).since() == old(self).since(),
            final(self).name_mode() == old(self).name_mode(),
            final(self).pages_read() == old(self).pages_read() + 1,
            final(self).collected() == old(self).collected() + page_events(
                items_view(page.data@),
                old(self).since(),
                old(self).name_mode(),
            ),
            final(self).is_finished() == (100 * final(self).pages_read() >= page.total
                || final(self).pages_read() == 50),
            final(self).pages_seen() == old(self).pages_seen().push(items_view(page.data@)),
    {
        proof {
            use_type_invariant(&*self);
        }
        let no_events: Vec<CalendarEvent> = Vec::new();
        assert(events_view(no_events@) =~= Seq::<EventView>::empty());
        let mut current = WishlistLoader {
            owner: String::new(),
            since: self.since,
            name_mode: self.name_mode,
            offset: 0,
            pages: 0,
            finished: true,
            events: no_events,
            seen: Ghost(Seq::empty()),
        };
        std::mem::swap(&mut current, self);
        proof {
            use_type_invariant(&current);
        }
        let WishlistLoader { owner, since, name_mode, offset, pages, finished: _, mut events, seen } =
            current;
        let ghost before = events_view(events@);
        let ghost items = items_view(page.data@);
        let ghost start_len = events@.len();
        let mode = name_mode;
        for item in it: page.data.into_iter()
            invariant
                it.seq() == page.data@,
                items == items_view(page.data@),
                events_view(events@) == before + page_events(items.take(it.index()), since, mode),
        {
            let ghost taken = items.take(it.index() + 1);
            assert(taken.drop_last() =~= items.take(it.index()));
            assert(taken.last() == item.subject@);
            let ghost head = events_view(events@);
            match item.subject.release_date() {
                Some(d) => {
                    if !d.before(&since) {
                        let e = item.subject.into_event(d, &mode);
                        events.push(e);
                        assert(events_view(events@) =~= head.push(e@));
                    }
                },
                None => {},
            }
        }
        assert(items.take(items.len() as int) =~= items);
        let offset = offset + PAGE_LIMIT as u32;
        let pages = pages + 1;
        let finished = offset >= page.total || pages == MAX_PAGES;
        let ghost old_seen = seen@;
        let ghost seen = old_seen.push(items);
        assert(seen.drop_last() =~= old_seen);
        *self = WishlistLoader {
            owner,
            since,
            name_mode: mode,
            offset,
            pages,
            finished,
            events,
            seen: Ghost(seen),
        };
    }

    /// The calendar of the events collected, ordered by date and then by
    /// event id, named `Bangumi <owner> Game Releases`.
    pub fn finish(self) -> (doc: CalendarDocument)
        ensures
            doc.name@ == calendar_name(self.owner()),
            events_view(doc.events@) == sort_events(self.collected()),
            events_sorted(events_view(doc.events@)),
            forall|i: int, j: int|
                0 <= i < j < doc.events@.len() ==> !date_lt(
                    #[trigger] events_view(doc.events@)[j].date,
                    #[trigger] events_view(doc.events@)[i].date,
                ) && (events_view(doc.events@)[i].date == events_view(doc.events@)[j].date
                    ==> !text_lt(events_view(doc.events@)[j].uid, events_view(doc.events@)[i].uid)),
            events_view(doc.events@).to_multiset() == self.collected().to_multiset(),
            self.collected() == loaded_events(self.pages_seen(), self.since(), self.name_mode()),
    {
        proof {
            use_type_invariant(&self);
            lemma_sort_events_sorted(self.collected());
            lemma_sorted_by_date_then_uid(self.collected());
            lemma_sort_events_permutes(self.collected());
        }
        let mut name = String::new();
        name.append("Bangumi ");
        name.append(self.owner.as_str());
        name.append(" Game Releases");
        CalendarDocument { name, events: sort_by_date_and_uid(self.events) }
    }
}

} // verus!
