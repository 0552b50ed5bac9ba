use vstd::prelude::*;

verus! {

/// A calendar service: a source that loads calendars and a renderer that
/// writes them.
pub struct CalendarService<S, R> {
    source: S,
    renderer: R,
}

impl<S, R> CalendarService<S, R> {
    /// The source that loads the calendars.
    pub closed spec fn spec_source(&self) -> S {
        self.source
    }

    /// The renderer that writes the calendars.
    pub closed spec fn spec_renderer(&self) -> R {
        self.renderer
    }

    /// The service made of `source` and `renderer`.
    pub fn new(source: S, renderer: R) -> (s: Self)
        ensures
            s.spec_source() == source,
            s.spec_renderer() == renderer,
    {
        CalendarService { source, renderer }
    }

    /// The source that loads the calendars.
    pub fn source(&self) -> (s: &S)
        ensures
            *s == self.spec_source(),
    {
        &self.source
    }

    /// The renderer that writes the calendars.
    pub fn renderer(&self) -> (r: &R)
        ensures
            *r == self.spec_renderer(),
    {
        &self.renderer
    }
}

} // verus!
