use vstd::prelude::*;
use calcard::common::{CalendarScale, PartialDateTime};
use calcard::icalendar::{
    ICalendar, ICalendarComponent, ICalendarComponentType, ICalendarMethod, ICalendarParameter,
    ICalendarParameterName, ICalendarProperty, ICalendarValueType, Uri,
};
use crate::domain::{CalendarDate, CalendarDocument, DocumentView, EventView, RenderedCalendar};
use crate::error::AppResult;

verus! {

#[verifier::external_type_specification]
#[verifier::external_body]
pub struct ExICalendarComponent(ICalendarComponent);

/// A property of the calendar, as the iCalendar file names it.
pub enum PropertyView {
    Version,
    Prodid,
    Calscale,
    Method,
    Name,
    /// A property outside the standard, by its name.
    Other(Seq<char>),
    Uid,
    Dtstamp,
    Dtstart,
    Dtend,
    Summary,
    Description,
    Url,
}

/// A parameter of a property.
#[derive(Debug, Clone, Copy, PartialEq, Eq, Structural)]
pub enum IcsParam {
    /// `VALUE=DATE`: the value is a whole day.
    ValueDate,
}

/// A moment as `calcard` writes it: each part may be missing.
#[derive(Debug, Clone, Copy, PartialEq, Eq, Structural)]
pub struct IcsStamp {
    pub year: Option<u16>,
    pub month: Option<u8>,
    pub day: Option<u8>,
    pub hour: Option<u8>,
    pub minute: Option<u8>,
    pub second: Option<u8>,
    pub tz_hour: Option<u8>,
    pub tz_minute: Option<u8>,
    pub tz_minus: bool,
}

/// The value of a property.
pub enum ValueView {
    Text(Seq<char>),
    /// A link.
    Uri(Seq<char>),
    /// A whole day: year, month, day.
    Date(u16, u8, u8),
    /// A moment.
    Stamp(IcsStamp),
    /// The Gregorian calendar scale.
    Gregorian,
    /// The `PUBLISH` method.
    Publish,
}

/// One property of a component, with its parameters and its value.
pub struct EntryView {
    pub name: PropertyView,
    pub params: Seq<IcsParam>,
    pub value: ValueView,
}

/// What a `calcard` component holds: the name of its type as the text
/// writes it (`VCALENDAR`, `VEVENT`, ...), its properties in order, and the
/// indices of its sub-components. `plain` says that every property of it is
/// one that [`EntryView`] describes; where it is false, `entries` leaves
/// some of them out.
pub struct ComponentView {
    pub component_type: Seq<char>,
    pub plain: bool,
    pub entries: Seq<EntryView>,
    pub children: Seq<u32>,
}

/// What a `calcard` component holds.
pub uninterp spec fn component_content(c: ICalendarComponent) -> ComponentView;

/// The text that `calcard` writes (`ICalendar::to_string`) for a calendar
/// whose components hold `components`, the first of them the root; it is
/// determined by these contents where every component is `plain`.
pub uninterp spec fn ics_text(components: Seq<ComponentView>) -> Seq<char>;

/// The kinds of component the calendar writes.
pub enum IcsComponentKind {
    Calendar,
    Event,
}

/// The properties with a text value.
pub enum IcsTextProperty {
    Version,
    Prodid,
    Name,
    Summary,
    Description,
    Other(String),
}

/// The properties with a whole day as value.
pub enum IcsDateProperty {
    Dtstart,
    Dtend,
}

/// The name of a text property.
pub open spec fn text_property_view(p: IcsTextProperty) -> PropertyView {
    match p {
        IcsTextProperty::Version => PropertyView::Version,
        IcsTextProperty::Prodid => PropertyView::Prodid,
        IcsTextProperty::Name => PropertyView::Name,
        IcsTextProperty::Summary => PropertyView::Summary,
        IcsTextProperty::Description => PropertyView::Description,
        IcsTextProperty::Other(n) => PropertyView::Other(n@),
    }
}

/// The name of a date property.
pub open spec fn date_property_view(p: IcsDateProperty) -> PropertyView {
    match p {
        IcsDateProperty::Dtstart => PropertyView::Dtstart,
        IcsDateProperty::Dtend => PropertyView::Dtend,
    }
}

/// A property with a plain value and no parameter.
pub open spec fn plain_entry(name: PropertyView, value: ValueView) -> EntryView {
    EntryView { name, params: Seq::<IcsParam>::empty(), value }
}

/// `c` with one more property.
pub open spec fn with_entry(c: ComponentView, e: EntryView) -> ComponentView {
    ComponentView { entries: c.entries.push(e), ..c }
}

/// `ICalendarComponent::new`: an empty `VCALENDAR` or `VEVENT` component.
#[verifier::external_body]
fn new_component(kind: IcsComponentKind) -> (c: ICalendarComponent)
    ensures
        component_content(c) == (ComponentView {
            component_type: if kind is Event {
                "VEVENT"@
            } else {
                "VCALENDAR"@
            },
            plain: true,
            entries: Seq::<EntryView>::empty(),
            children: Seq::<u32>::empty(),
        }),
{
    ICalendarComponent::new(
        match kind {
            IcsComponentKind::Calendar => ICalendarComponentType::VCalendar,
            IcsComponentKind::Event => ICalendarComponentType::VEvent,
        },
    )
}

/// `ICalendarComponent::add_property` with a text value: appends the
/// property `name` with the value `text` and no parameter.
#[verifier::external_body]
fn add_text_property(c: &mut ICalendarComponent, name: IcsTextProperty, text: &str)
    ensures
        component_content(*final(c)) == with_entry(
            component_content(*old(c)),
            plain_entry(text_property_view(name), ValueView::Text(text@)),
        ),
{
    let name = match name {
        IcsTextProperty::Version => ICalendarProperty::Version,
        IcsTextProperty::Prodid => ICalendarProperty::Prodid,
        IcsTextProperty::Name => ICalendarProperty::Name,
        IcsTextProperty::Summary => ICalendarProperty::Summary,
        IcsTextProperty::Description => ICalendarProperty::Description,
        IcsTextProperty::Other(n) => ICalendarProperty::Other(n),
    };
    c.add_property(name, text);
}

/// `ICalendarComponent::add_property` with a calendar scale: appends
/// `CALSCALE:GREGORIAN`.
#[verifier::external_body]
fn add_gregorian_scale(c: &mut ICalendarComponent)
    ensures
        component_content(*final(c)) == with_entry(
            component_content(*old(c)),
            plain_entry(PropertyView::Calscale, ValueView::Gregorian),
        ),
{
    c.add_property(ICalendarProperty::Calscale, CalendarScale::Gregorian);
}

/// `ICalendarComponent::add_property` with a method: appends
/// `METHOD:PUBLISH`.
#[verifier::external_body]
fn add_publish_method(c: &mut ICalendarComponent)
    ensures
        component_content(*final(c)) == with_entry(
            component_content(*old(c)),
            plain_entry(PropertyView::Method, ValueView::Publish),
        ),
{
    c.add_property(ICalendarProperty::Method, ICalendarMethod::Publish);
}

/// `ICalendarComponent::add_property` with a URI: appends the `URL`
/// property with `url` as its location.
#[verifier::external_body]
fn add_url(c: &mut ICalendarComponent, url: &str)
    ensures
        component_content(*final(c)) == with_entry(
            component_content(*old(c)),
            plain_entry(PropertyView::Url, ValueView::Uri(url@)),
        ),
{
    c.add_property(ICalendarProperty::Url, Uri::Location(url.to_owned()));
}

/// `ICalendarComponent::add_uid`: appends the `UID` property.
#[verifier::external_body]
fn add_uid(c: &mut ICalendarComponent, uid: &str)
    ensures
        component_content(*final(c)) == with_entry(
            component_content(*old(c)),
            plain_entry(PropertyView::Uid, ValueView::Text(uid@)),
        ),
{
    c.add_uid(uid);
}

/// `ICalendarComponent::add_dtstamp`: appends the `DTSTAMP` property with
/// the moment `s`.
#[verifier::external_body]
fn add_dtstamp(c: &mut ICalendarComponent, s: IcsStamp)
    ensures
        component_content(*final(c)) == with_entry(
            component_content(*old(c)),
            plain_entry(PropertyView::Dtstamp, ValueView::Stamp(s)),
        ),
{
    c.add_dtstamp(PartialDateTime {
        year: s.year,
        month: s.month,
        day: s.day,
        hour: s.hour,
        minute: s.minute,
        second: s.second,
        tz_hour: s.tz_hour,
        tz_minute: s.tz_minute,
        tz_minus: s.tz_minus,
    });
}

/// `ICalendarComponent::add_property_with_params`: appends the property
/// `name` with the parameter `VALUE=DATE` and the day `year-month-day`.
#[verifier::external_body]
fn add_date_property(c: &mut ICalendarComponent, name: IcsDateProperty, year: u16, month: u8, day: u8)
    ensures
        component_content(*final(c)) == with_entry(
            component_content(*old(c)),
            EntryView {
                name: date_property_view(name),
                params: seq![IcsParam::ValueDate],
                value: ValueView::Date(year, month, day),
            },
        ),
{
    let name = match name {
        IcsDateProperty::Dtstart => ICalendarProperty::Dtstart,
        IcsDateProperty::Dtend => ICalendarProperty::Dtend,
    };
    let param = ICalendarParameter::new(ICalendarParameterName::Value, ICalendarValueType::Date);
    let date = PartialDateTime { year: Some(year), month: Some(month), day: Some(day), ..Default::default() };
    c.add_property_with_params(name, [param], date);
}

/// Pushes `id` onto the component's `component_ids`: the component at that
/// index becomes a sub-component of `c`.
#[verifier::external_body]
fn add_child(c: &mut ICalendarComponent, id: u32)
    ensures
        component_content(*final(c)) == (ComponentView {
            children: component_content(*old(c)).children.push(id),
            ..component_content(*old(c))
        }),
{
    c.component_ids.push(id);
}

/// `ICalendar::to_string` of the calendar made of `components`, the first
/// of them the root. The writer looks every sub-component index up with
/// `unwrap` and follows them depth first, so the list must not be empty,
/// only the root may have sub-components, and their indices must name the
/// other components.
#[verifier::external_body]
fn write_calendar(components: Vec<ICalendarComponent>) -> (text: String)
    requires
        components@.len() > 0,
        forall|i: int| 0 <= i < components@.len() ==> (#[trigger] component_content(components@[i])).plain,
        forall|i: int|
            0 < i < components@.len() ==> (#[trigger] component_content(components@[i])).children.len() == 0,
        forall|j: int|
            0 <= j < component_content(components@[0]).children.len() ==> 0 < #[trigger] component_content(
                components@[0],
            ).children[j] < components@.len(),
    ensures
        text@ == ics_text(components@.map_values(|c: ICalendarComponent| component_content(c))),
{
    ICalendar { components }.to_string()
}

/// A moment in UTC to the second, as `PartialDateTime::from_utc_timestamp`
/// makes it: every part present, the zone offset zero.
pub open spec fn is_utc_stamp(s: IcsStamp) -> bool {
    &&& s.year is Some
    &&& s.month matches Some(m) && 1 <= m <= 12
    &&& s.day matches Some(d) && 1 <= d <= 31
    &&& s.hour matches Some(h) && h < 24
    &&& s.minute matches Some(m) && m < 60
    &&& s.second matches Some(x) && x < 60
    &&& s.tz_hour == Some(0u8)
    &&& s.tz_minute == Some(0u8)
    &&& !s.tz_minus
}

/// `PartialDateTime::now()`: the current moment in UTC, to the second, as
/// `calcard` stamps it. Which moment it is depends on the clock; claimed
/// only that it is a UTC moment with every part present.
#[verifier::external_body]
fn stamp_now() -> (s: IcsStamp)
    ensures
        is_utc_stamp(s),
{
    let p = PartialDateTime::now();
    IcsStamp {
        year: p.year,
        month: p.month,
        day: p.day,
        hour: p.hour,
        minute: p.minute,
        second: p.second,
        tz_hour: p.tz_hour,
        tz_minute: p.tz_minute,
        tz_minus: p.tz_minus,
    }
}

/// A whole day as `calcard` takes it: the year is cut to 16 bits.
pub open spec fn date_value(d: CalendarDate) -> ValueView {
    ValueView::Date(d.year as u16, d.month as u8, d.day as u8)
}

/// A property whose value is the whole day `d`.
pub open spec fn date_entry(name: PropertyView, d: CalendarDate) -> EntryView {
    EntryView { name, params: seq![IcsParam::ValueDate], value: date_value(d) }
}

/// The calendar's own properties: version 2.0, the product id, the
/// Gregorian scale, the `PUBLISH` method, and the calendar's name twice
/// (`NAME` and `X-WR-CALNAME`).
pub open spec fn spec_calendar_entries(name: Seq<char>) -> Seq<EntryView> {
    seq![
        plain_entry(PropertyView::Version, ValueView::Text("2.0"@)),
        plain_entry(PropertyView::Prodid, ValueView::Text("-//calendar//Bangumi Game Release Calendar//EN"@)),
        plain_entry(PropertyView::Calscale, ValueView::Gregorian),
        plain_entry(PropertyView::Method, ValueView::Publish),
        plain_entry(PropertyView::Name, ValueView::Text(name)),
        plain_entry(PropertyView::Other("X-WR-CALNAME"@), ValueView::Text(name)),
    ]
}

/// An event's properties: its id, the moment it was written, an all-day
/// span from its date to the next day, its title, then its description and
/// link where it has them.
pub open spec fn spec_event_entries(e: EventView, stamp: IcsStamp) -> Seq<EntryView> {
    seq![
        plain_entry(PropertyView::Uid, ValueView::Text(e.uid)),
        plain_entry(PropertyView::Dtstamp, ValueView::Stamp(stamp)),
        date_entry(PropertyView::Dtstart, e.date),
        date_entry(PropertyView::Dtend, e.date.spec_next_day()),
        plain_entry(PropertyView::Summary, ValueView::Text(e.title)),
    ] + match e.description {
        Some(d) => seq![plain_entry(PropertyView::Description, ValueView::Text(d))],
        None => Seq::<EntryView>::empty(),
    } + match e.url {
        Some(u) => seq![plain_entry(PropertyView::Url, ValueView::Uri(u))],
        None => Seq::<EntryView>::empty(),
    }
}

/// The components of a document's calendar, the `i`th event stamped
/// `stamps[i]`: the root `VCALENDAR`, whose sub-components are the events
/// at indices 1 to n, then one `VEVENT` per event, in order.
pub open spec fn spec_components(doc: DocumentView, stamps: Seq<IcsStamp>) -> Seq<ComponentView> {
    seq![
        ComponentView {
            component_type: "VCALENDAR"@,
            plain: true,
            entries: spec_calendar_entries(doc.name),
            children: Seq::new(doc.events.len(), |i: int| (i + 1) as u32),
        },
    ] + Seq::new(
        doc.events.len(),
        |i: int|
            ComponentView {
                component_type: "VEVENT"@,
                plain: true,
                entries: spec_event_entries(doc.events[i], stamps[i]),
                children: Seq::<u32>::empty(),
            },
    )
}

/// A real date before the last date that can be written.
pub open spec fn writable_date(d: CalendarDate) -> bool {
    d.wf() && !d.is_last()
}

/// Every event has a real date before the last date that can be written, so
/// that its next day can be written too.
pub open spec fn renderable(events: Seq<EventView>) -> bool {
    forall|i: int| 0 <= i < events.len() ==> writable_date(#[trigger] events[i].date)
}

impl CalendarDocument {
    /// Whether every event has a real date before the last date that can be
    /// written.
    pub fn is_renderable(&self) -> (b: bool)
        ensures
            b == renderable(self@.events),
            b == (forall|i: int|
                0 <= i < self@.events.len() ==> (#[trigger] self@.events[i]).date.wf()
                    && !self@.events[i].date.is_last()),
    {
        proof {
            lemma_renderable_dates(self@.events);
        }
        let mut i: usize = 0;
        while i < self.events.len()
            invariant
                i <= self.events.len(),
                forall|j: int| 0 <= j < i ==> writable_date(#[trigger] self@.events[j].date),
            decreases self.events.len() - i,
        {
            let d = self.events[i].date;
            assert(self@.events[i as int] == self.events@[i as int]@);
            assert(self@.events[i as int].date == d);
            if !d.is_valid() || d.is_last_date() {
                return false;
            }
            i = i + 1;
        }
        assert(self@.events.len() == self.events.len());
        true
    }
}

/// The iCalendar text of a document: a `VCALENDAR` named after the document
/// with one all-day `VEVENT` per event, each stamped with the moment it was
/// written.
pub fn render_ics(calendar: &CalendarDocument) -> (text: String)
    requires
        renderable(calendar@.events),
        calendar.events.len() < u32::MAX,
    ensures
        exists|stamps: Seq<IcsStamp>|
            stamps.len() == calendar.events.len() && (forall|i: int|
                0 <= i < stamps.len() ==> is_utc_stamp(#[trigger] stamps[i])) && text@ == ics_text(
                #[trigger] spec_components(calendar@, stamps),
            ),
{
    let n = calendar.events.len();
    let mut root = new_component(IcsComponentKind::Calendar);
    add_text_property(&mut root, IcsTextProperty::Version, "2.0");
    add_text_property(
        &mut root,
        IcsTextProperty::Prodid,
        "-//calendar//Bangumi Game Release Calendar//EN",
    );
    add_gregorian_scale(&mut root);
    add_publish_method(&mut root);
    add_text_property(&mut root, IcsTextProperty::Name, calendar.name.as_str());
    let mut other = String::new();
    other.append("X-WR-CALNAME");
    add_text_property(&mut root, IcsTextProperty::Other(other), calendar.name.as_str());
    let ghost mut stamps: Seq<IcsStamp> = Seq::empty();
    assert(component_content(root).entries =~= spec_calendar_entries(calendar@.name));
    assert(component_content(root).children =~= Seq::new(0, |k: int| (k + 1) as u32));
    let mut components: Vec<ICalendarComponent> = Vec::new();
    let mut i: usize = 0;
    while i < n
        invariant
            n == calendar.events.len() < u32::MAX,
            renderable(calendar@.events),
            i <= n,
            components@.len() == i,
            stamps.len() == i,
            forall|k: int| 0 <= k < i ==> is_utc_stamp(#[trigger] stamps[k]),
            component_content(root) == (ComponentView {
                component_type: "VCALENDAR"@,
                plain: true,
                entries: spec_calendar_entries(calendar@.name),
                children: Seq::new(i as nat, |k: int| (k + 1) as u32),
            }),
            forall|k: int|
                0 <= k < i ==> component_content(#[trigger] components@[k]) == (ComponentView {
                    component_type: "VEVENT"@,
                    plain: true,
                    entries: spec_event_entries(calendar@.events[k], stamps[k]),
                    children: Seq::<u32>::empty(),
                }),
        decreases n - i,
    {
        let event = &calendar.events[i];
        assert(calendar@.events[i as int] == event@);
        assert(calendar@.events[i as int].date.wf() && !calendar@.events[i as int].date.is_last());
        let next_day = event.date.next_day();
        let component_id = components.len() as u32 + 1;
        add_child(&mut root, component_id);
        assert(Seq::new(i as nat, |k: int| (k + 1) as u32).push(component_id) =~= Seq::new(
            (i + 1) as nat,
            |k: int| (k + 1) as u32,
        ));
        let mut c = new_component(IcsComponentKind::Event);
        add_uid(&mut c, event.uid.as_str());
        let stamp = stamp_now();
        add_dtstamp(&mut c, stamp);
        add_date_property(
            &mut c,
            IcsDateProperty::Dtstart,
            event.date.year as u16,
            event.date.month as u8,
            event.date.day as u8,
        );
        add_date_property(
            &mut c,
            IcsDateProperty::Dtend,
            next_day.year as u16,
            next_day.month as u8,
            next_day.day as u8,
        );
        add_text_property(&mut c, IcsTextProperty::Summary, event.title.as_str());
        match &event.description {
            Some(d) => add_text_property(&mut c, IcsTextProperty::Description, d.as_str()),
            None => {},
        }
        match &event.url {
            Some(u) => add_url(&mut c, u.as_str()),
            None => {},
        }
        proof {
            stamps = stamps.push(stamp);
        }
        assert(component_content(c).entries =~= spec_event_entries(event@, stamp));
        components.push(c);
        i = i + 1;
    }
    let ghost old_components = components@;
    components.insert(0, root);
    assert(component_content(components@[0]) == component_content(root));
    assert forall|k: int| 0 < k < components@.len() implies (#[trigger] component_content(components@[k])).children.len() == 0 by {
        assert(components@[k] == old_components[k - 1]);
    }
    assert forall|k: int| 0 <= k < components@.len() implies (#[trigger] component_content(components@[k])).plain by {
        if k > 0 {
            assert(components@[k] == old_components[k - 1]);
        }
    }
    let ghost contents = components@.map_values(|c: ICalendarComponent| component_content(c));
    assert(contents =~= spec_components(calendar@, stamps));
    write_calendar(components)
}

/// The renderer that writes calendars as iCalendar text.
#[derive(Debug, Clone, Copy, Default)]
pub struct IcsRenderer;

/// The media type of iCalendar text.
pub open spec fn ics_content_type() -> Seq<char> {
    "text/calendar; charset=utf-8"@
}

impl IcsRenderer {
    /// The calendar as iCalendar text (see [`render_ics`]), with its media
    /// type. Never fails.
    pub fn render(&self, calendar: &CalendarDocument) -> (r: AppResult<RenderedCalendar>)
        requires
            renderable(calendar@.events),
            calendar.events.len() < u32::MAX,
        ensures
            r matches Ok(rendered) && rendered.content_type@ == ics_content_type() && exists|
                stamps: Seq<IcsStamp>,
            |
                stamps.len() == calendar.events.len() && (forall|i: int|
                    0 <= i < stamps.len() ==> is_utc_stamp(#[trigger] stamps[i]))
                    && rendered.body@ == ics_text(#[trigger] spec_components(calendar@, stamps)),
    {
        let body = render_ics(calendar);
        Ok(RenderedCalendar { body, content_type: "text/calendar; charset=utf-8" })
    }
}

/// A document can be written exactly when every event is dated on a real
/// date other than the last one that can be written: every other real date,
/// the last day of a month or of a year too, has a next day to end on.
pub proof fn lemma_renderable_dates(events: Seq<EventView>)
    ensures
        renderable(events) <==> (forall|i: int|
            0 <= i < events.len() ==> (#[trigger] events[i]).date.wf() && !events[i].date.is_last()),
{
    if renderable(events) {
        assert forall|i: int| 0 <= i < events.len() implies (#[trigger] events[i]).date.wf()
            && !events[i].date.is_last() by {
            assert(writable_date(events[i].date));
        }
    }
    if forall|i: int|
        0 <= i < events.len() ==> (#[trigger] events[i]).date.wf() && !events[i].date.is_last() {
        assert forall|i: int| 0 <= i < events.len() implies writable_date(#[trigger] events[i].date) by {
            assert(events[i].date.wf() && !events[i].date.is_last());
        }
    }
}

/// Each event is written as a `VEVENT` holding every field of it: its id as
/// `UID`, its date as `DTSTART` and the day after as `DTEND` (whole days),
/// its title as `SUMMARY`, its description as `DESCRIPTION` and its link as
/// `URL` where it has them; the root is a `VCALENDAR` named after the
/// document, whose sub-components are the events.
pub proof fn lemma_components_hold_every_field(doc: DocumentView, stamps: Seq<IcsStamp>, i: int)
    requires
        0 <= i < doc.events.len(),
        stamps.len() == doc.events.len(),
    ensures
        spec_components(doc, stamps).len() == doc.events.len() + 1,
        spec_components(doc, stamps)[0].component_type == "VCALENDAR"@,
        spec_components(doc, stamps)[0].entries.contains(
            plain_entry(PropertyView::Name, ValueView::Text(doc.name)),
        ),
        spec_components(doc, stamps)[0].children.contains((i + 1) as u32),
        ({
            let c = spec_components(doc, stamps)[i + 1];
            let e = doc.events[i];
            let next = e.date.spec_next_day();
            &&& c.component_type == "VEVENT"@
            &&& c.entries.contains(plain_entry(PropertyView::Uid, ValueView::Text(e.uid)))
            &&& c.entries.contains(plain_entry(PropertyView::Summary, ValueView::Text(e.title)))
            &&& c.entries.contains(
                EntryView {
                    name: PropertyView::Dtstart,
                    params: seq![IcsParam::ValueDate],
                    value: ValueView::Date(e.date.year as u16, e.date.month as u8, e.date.day as u8),
                },
            )
            &&& c.entries.contains(
                EntryView {
                    name: PropertyView::Dtend,
                    params: seq![IcsParam::ValueDate],
                    value: ValueView::Date(next.year as u16, next.month as u8, next.day as u8),
                },
            )
            &&& (e.description matches Some(d) ==> c.entries.contains(
                plain_entry(PropertyView::Description, ValueView::Text(d)),
            ))
            &&& (e.url matches Some(u) ==> c.entries.contains(
                plain_entry(PropertyView::Url, ValueView::Uri(u)),
            ))
        }),
{
    let comps = spec_components(doc, stamps);
    let c = comps[i + 1];
    let e = doc.events[i];
    let es = spec_event_entries(e, stamps[i]);
    assert(c.entries == es);
    assert(es[0] == plain_entry(PropertyView::Uid, ValueView::Text(e.uid)));
    assert(es[2] == date_entry(PropertyView::Dtstart, e.date));
    assert(es[3] == date_entry(PropertyView::Dtend, e.date.spec_next_day()));
    assert(es[4] == plain_entry(PropertyView::Summary, ValueView::Text(e.title)));
    if let Some(d) = e.description {
        assert(es[5] == plain_entry(PropertyView::Description, ValueView::Text(d)));
    }
    if let Some(u) = e.url {
        let k = if e.description is Some { 6int } else { 5int };
        assert(es[k] == plain_entry(PropertyView::Url, ValueView::Uri(u)));
    }
    assert(comps[0].entries[4] == plain_entry(PropertyView::Name, ValueView::Text(doc.name)));
    assert(comps[0].children[i] == (i + 1) as u32);
}

} // verus!
