use vstd::prelude::*;
use crate::domain::{CalendarDataSource, CalendarKind, CalendarRequest, OutputFormat};
use crate::query::CalendarQuery;
use crate::text::{chars_of, string_from_chars};

verus! {

/// The calendar a request path names: the wish list of one Bangumi user.
#[derive(Debug, Clone)]
pub struct CalendarRoute {
    pub username: String,
}

/// `s` without the `/` characters it starts with.
pub open spec fn trim_start_slashes(s: Seq<char>) -> Seq<char>
    decreases s.len(),
{
    if s.len() > 0 && s[0] == '/' {
        trim_start_slashes(s.drop_first())
    } else {
        s
    }
}

/// `s` without the `/` characters it ends with.
pub open spec fn trim_end_slashes(s: Seq<char>) -> Seq<char>
    decreases s.len(),
{
    if s.len() > 0 && s.last() == '/' {
        trim_end_slashes(s.drop_last())
    } else {
        s
    }
}

/// `s` without leading and trailing `/` characters.
pub open spec fn trim_slashes(s: Seq<char>) -> Seq<char> {
    trim_end_slashes(trim_start_slashes(s))
}

/// The user whose wish-list calendar `path` names: once trimmed of slashes,
/// the path reads `game/bangumi/user/<username>/wish.ics`, with a non-empty
/// username that holds no `/`.
pub open spec fn route_username(path: Seq<char>) -> Option<Seq<char>> {
    let t = trim_slashes(path);
    let head = "game/bangumi/user/"@;
    let tail = "/wish.ics"@;
    if t.len() > head.len() + tail.len() && t.take(head.len() as int) == head && t.skip(
        t.len() - tail.len(),
    ) == tail && !t.subrange(head.len() as int, t.len() - tail.len()).contains('/') {
        Some(t.subrange(head.len() as int, t.len() - tail.len()))
    } else {
        None
    }
}

/// Whether `cs[at..]` starts with the characters of `lit`.
fn has_at(cs: &Vec<char>, at: usize, lit: &Vec<char>) -> (b: bool)
    requires
        at + lit.len() <= cs.len(),
    ensures
        b == (cs@.subrange(at as int, at + lit.len()) == lit@),
{
    let mut i: usize = 0;
    while i < lit.len()
        invariant
            at + lit.len() <= cs.len(),
            i <= lit.len(),
            forall|j: int| 0 <= j < i ==> cs@[at + j] == lit@[j],
        decreases lit.len() - i,
    {
        if cs[at + i] != lit[i] {
            assert(cs@.subrange(at as int, at + lit.len())[i as int] != lit@[i as int]);
            return false;
        }
        i = i + 1;
    }
    assert(cs@.subrange(at as int, at + lit.len()) =~= lit@);
    true
}

/// Whether `cs[from..to]` holds a `/`.
fn has_slash(cs: &Vec<char>, from: usize, to: usize) -> (b: bool)
    requires
        from <= to <= cs.len(),
    ensures
        b == cs@.subrange(from as int, to as int).contains('/'),
{
    let mut i = from;
    while i < to
        invariant
            from <= i <= to <= cs.len(),
            forall|j: int| from <= j < i ==> cs@[j] != '/',
        decreases to - i,
    {
        if cs[i] == '/' {
            assert(cs@.subrange(from as int, to as int)[i - from] == '/');
            return true;
        }
        i = i + 1;
    }
    assert forall|k: int| 0 <= k < to - from implies cs@.subrange(from as int, to as int)[k] != '/' by {
        assert(cs@[from + k] != '/');
    }
    false
}

/// Where the path `cs` starts and ends once trimmed of slashes.
fn trimmed_bounds(cs: &Vec<char>) -> (r: (usize, usize))
    ensures
        r.0 <= r.1 <= cs.len(),
        cs@.subrange(r.0 as int, r.1 as int) == trim_slashes(cs@),
{
    let n = cs.len();
    let mut start: usize = 0;
    assert(cs@.skip(0) =~= cs@);
    while start < n && cs[start] == '/'
        invariant
            start <= n == cs.len(),
            trim_start_slashes(cs@) == trim_start_slashes(cs@.skip(start as int)),
        decreases n - start,
    {
        assert(cs@.skip(start as int).drop_first() =~= cs@.skip(start + 1));
        start = start + 1;
    }
    let ghost t0 = cs@.skip(start as int);
    assert(trim_start_slashes(cs@) == t0);
    let mut end = n;
    assert(t0.take(t0.len() as int) =~= t0);
    while end > start && cs[end - 1] == '/'
        invariant
            start <= end <= n == cs.len(),
            t0 == cs@.skip(start as int),
            trim_slashes(cs@) == trim_end_slashes(t0.take(end - start)),
        decreases end,
    {
        assert(t0.take(end - start).drop_last() =~= t0.take(end - 1 - start));
        end = end - 1;
    }
    assert(t0.take(end - start) =~= cs@.subrange(start as int, end as int));
    (start, end)
}

/// Reads a request path: `Some` route exactly where the path, trimmed of
/// slashes, is `game/bangumi/user/<username>/wish.ics` with a non-empty
/// username that holds no `/`.
pub fn parse_calendar_route(path: &str) -> (r: Option<CalendarRoute>)
    ensures
        match r {
            Some(route) => route_username(path@) == Some(route.username@),
            None => route_username(path@) is None,
        },
{
    let cs = chars_of(path);
    let (start, end) = trimmed_bounds(&cs);
    let head = chars_of("game/bangumi/user/");
    let tail = chars_of("/wish.ics");
    let ghost t = trim_slashes(path@);
    if end - start <= head.len() || end - start - head.len() <= tail.len() {
        return None;
    }
    assert(t =~= cs@.subrange(start as int, end as int));
    let user_from = start + head.len();
    let user_to = end - tail.len();
    assert(t.take(head.len() as int) =~= cs@.subrange(start as int, start + head.len()));
    assert(t.skip(t.len() - tail.len()) =~= cs@.subrange(user_to as int, end as int));
    assert(t.subrange(head.len() as int, t.len() - tail.len()) =~= cs@.subrange(user_from as int, user_to as int));
    if !has_at(&cs, start, &head) || !has_at(&cs, user_to, &tail) || has_slash(&cs, user_from, user_to) {
        return None;
    }
    Some(CalendarRoute { username: string_from_chars(&cs, user_from, user_to) })
}

impl CalendarRoute {
    /// The request for this route's calendar: the user's game-release
    /// calendar from their Bangumi collection, as iCalendar.
    pub fn into_request(self, query: CalendarQuery) -> (r: CalendarRequest)
        ensures
            r.kind == CalendarKind::GameRelease,
            r.source == CalendarDataSource::BangumiUserCollection,
            r.format == OutputFormat::Ics,
            r.owner@ == self.username@,
            r.query == query,
    {
        CalendarRequest {
            kind: CalendarKind::GameRelease,
            source: CalendarDataSource::BangumiUserCollection,
            format: OutputFormat::Ics,
            owner: self.username,
            query,
        }
    }
}

/// A run of `/` characters (possibly none).
pub open spec fn all_slashes(s: Seq<char>) -> bool {
    forall|i: int| 0 <= i < s.len() ==> #[trigger] s[i] == '/'
}

proof fn lemma_trim_start_skips_slashes(lead: Seq<char>, t: Seq<char>)
    requires
        all_slashes(lead),
        t.len() > 0,
        t[0] != '/',
    ensures
        trim_start_slashes(lead + t) == t,
    decreases lead.len(),
{
    if lead.len() == 0 {
        assert(lead + t =~= t);
    } else {
        assert((lead + t).drop_first() =~= lead.drop_first() + t);
        assert(lead[0] == '/');
        lemma_trim_start_skips_slashes(lead.drop_first(), t);
    }
}

proof fn lemma_trim_end_skips_slashes(t: Seq<char>, trail: Seq<char>)
    requires
        all_slashes(trail),
        t.len() > 0,
        t.last() != '/',
    ensures
        trim_end_slashes(t + trail) == t,
    decreases trail.len(),
{
    if trail.len() == 0 {
        assert(t + trail =~= t);
    } else {
        assert((t + trail).drop_last() =~= t + trail.drop_last());
        assert(trail[trail.len() - 1] == '/');
        lemma_trim_end_skips_slashes(t, trail.drop_last());
    }
}

/// The path of a user's wish-list calendar names that user: for every
/// non-empty username without `/`, `game/bangumi/user/<username>/wish.ics`
/// with any number of `/` before and after it is routed to that username.
pub proof fn lemma_route_of_wish_list_path(lead: Seq<char>, username: Seq<char>, trail: Seq<char>)
    requires
        all_slashes(lead),
        all_slashes(trail),
        username.len() > 0,
        !username.contains('/'),
    ensures
        route_username(lead + "game/bangumi/user/"@ + username + "/wish.ics"@ + trail) == Some(
            username,
        ),
{
    let head = "game/bangumi/user/"@;
    let tail = "/wish.ics"@;
    reveal_strlit("game/bangumi/user/");
    reveal_strlit("/wish.ics");
    let t = head + username + tail;
    let p = lead + head + username + tail + trail;
    assert(p =~= lead + (t + trail));
    assert((t + trail)[0] == 'g');
    lemma_trim_start_skips_slashes(lead, t + trail);
    assert(t.last() == 's');
    lemma_trim_end_skips_slashes(t, trail);
    assert(trim_slashes(p) == t);
    assert(t.take(head.len() as int) =~= head);
    assert(t.skip(t.len() - tail.len()) =~= tail);
    assert(t.subrange(head.len() as int, t.len() - tail.len()) =~= username);
}

/// A routed username is never empty and never holds a `/`.
pub proof fn lemma_routed_username_is_one_segment(path: Seq<char>)
    ensures
        route_username(path) matches Some(u) ==> u.len() > 0 && !u.contains('/'),
{
}

} // verus!
