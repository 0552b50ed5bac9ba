use vstd::prelude::*;
use url::Url;
use crate::domain::opt_view;
use crate::error::{AppError, AppResult, is_bad_request};
use crate::text::{chars_of, parse_i64, parse_i64_spec, str_eq};

verus! {

#[verifier::external_type_specification]
#[verifier::external_body]
pub struct ExUrl(Url);

/// Which of a subject's names a calendar shows.
#[derive(Debug, Clone, Copy, PartialEq, Eq, Structural)]
pub enum NameMode {
    /// The name in the original language.
    Original,
    /// The Chinese name, where the subject has one.
    Chinese,
}

/// The options that a calendar URL's query string sets.
#[derive(Debug, Clone, Copy, PartialEq, Eq, Structural)]
pub struct CalendarQuery {
    pub name: NameMode,
    /// How many days back from today releases are still listed.
    pub past_days: i64,
}

/// The query that an empty query string gives: original names, 31 days back.
pub open spec fn default_query() -> CalendarQuery {
    CalendarQuery { name: NameMode::Original, past_days: 31 }
}

impl Default for CalendarQuery {
    fn default() -> (q: Self)
        ensures
            q == default_query(),
    {
        CalendarQuery { name: NameMode::Original, past_days: 31 }
    }
}

/// What reading one number, or the whole query, comes to.
pub enum Outcome<T> {
    /// The value read.
    Value(T),
    /// A `BadRequest` with this message.
    Rejected(Seq<char>),
    /// An arithmetic overflow: the request cannot be answered.
    Overflow,
}

/// The number that `value` gives as a non-negative integer option called
/// `name`, or the message that rejects it.
pub open spec fn non_negative_spec(name: Seq<char>, value: Seq<char>) -> Result<i64, Seq<char>> {
    match parse_i64_spec(value) {
        None => Err(name + " must be an integer"@),
        Some(v) => if v < 0 {
            Err(name + " must be non-negative"@)
        } else {
            Ok(v)
        },
    }
}

/// A number of months, counted as 31 days each.
pub open spec fn months_to_days(r: Result<i64, Seq<char>>) -> Outcome<i64> {
    match r {
        Err(m) => Outcome::Rejected(m),
        Ok(v) => if v * 31 <= i64::MAX {
            Outcome::Value((v * 31) as i64)
        } else {
            Outcome::Overflow
        },
    }
}

/// A number of days as it is.
pub open spec fn days_as_is(r: Result<i64, Seq<char>>) -> Outcome<i64> {
    match r {
        Err(m) => Outcome::Rejected(m),
        Ok(v) => Outcome::Value(v),
    }
}

/// The value of the `past` option: days, or with a `d` suffix days, or with
/// an `m` suffix months.
pub open spec fn past_spec(value: Seq<char>) -> Outcome<i64> {
    if value.len() > 0 && value.last() == 'd' {
        days_as_is(non_negative_spec("past"@, value.drop_last()))
    } else if value.len() > 0 && value.last() == 'm' {
        months_to_days(non_negative_spec("past"@, value.drop_last()))
    } else {
        days_as_is(non_negative_spec("past"@, value))
    }
}

/// `q` with its day count set from the outcome `o`.
pub open spec fn with_days(q: CalendarQuery, o: Outcome<i64>) -> Outcome<CalendarQuery> {
    match o {
        Outcome::Value(v) => Outcome::Value(CalendarQuery { past_days: v, ..q }),
        Outcome::Rejected(m) => Outcome::Rejected(m),
        Outcome::Overflow => Outcome::Overflow,
    }
}

/// The name mode that a `name` or `title` value selects.
pub open spec fn name_mode_spec(value: Seq<char>) -> Option<NameMode> {
    if value == "original"@ || value == "orig"@ || value == "jp"@ || value == "ja"@ {
        Some(NameMode::Original)
    } else if value == "cn"@ || value == "zh"@ || value == "chinese"@ {
        Some(NameMode::Chinese)
    } else {
        None
    }
}

/// What one `key=value` pair of the query string does to `q`. Unknown keys
/// change nothing.
pub open spec fn step_query(q: CalendarQuery, key: Seq<char>, value: Seq<char>) -> Outcome<CalendarQuery> {
    if key == "name"@ || key == "title"@ {
        match name_mode_spec(value) {
            Some(mode) => Outcome::Value(CalendarQuery { name: mode, ..q }),
            None => Outcome::Rejected("unsupported name mode: "@ + value),
        }
    } else if key == "past_days"@ {
        with_days(q, days_as_is(non_negative_spec("past_days"@, value)))
    } else if key == "past_months"@ {
        with_days(q, months_to_days(non_negative_spec("past_months"@, value)))
    } else if key == "past"@ {
        with_days(q, past_spec(value))
    } else {
        Outcome::Value(q)
    }
}

/// The pairs applied one after another, from `q`; the first rejection or
/// overflow stops the reading.
pub open spec fn fold_query(q: CalendarQuery, pairs: Seq<(Seq<char>, Seq<char>)>) -> Outcome<CalendarQuery>
    decreases pairs.len(),
{
    if pairs.len() == 0 {
        Outcome::Value(q)
    } else {
        match step_query(q, pairs[0].0, pairs[0].1) {
            Outcome::Value(next) => fold_query(next, pairs.drop_first()),
            other => other,
        }
    }
}

/// The query that a list of decoded query-string pairs describes.
pub open spec fn query_from_pairs(pairs: Seq<(Seq<char>, Seq<char>)>) -> Outcome<CalendarQuery> {
    fold_query(default_query(), pairs)
}

/// The texts of a list of pairs of strings.
pub open spec fn pairs_view(pairs: Seq<(String, String)>) -> Seq<(Seq<char>, Seq<char>)> {
    pairs.map_values(|p: (String, String)| (p.0@, p.1@))
}

/// `r` is what the outcome `o` says: `None` for an overflow.
pub open spec fn result_matches<T>(r: Option<AppResult<T>>, o: Outcome<T>) -> bool {
    match o {
        Outcome::Value(v) => r == Some(Ok::<T, AppError>(v)),
        Outcome::Rejected(m) => r matches Some(Err(e)) && is_bad_request(e, m),
        Outcome::Overflow => r is None,
    }
}

/// `r` is what the result `o` says.
pub open spec fn number_matches(r: AppResult<i64>, o: Result<i64, Seq<char>>) -> bool {
    match o {
        Ok(v) => r == Ok::<i64, AppError>(v),
        Err(m) => r matches Err(e) && is_bad_request(e, m),
    }
}

/// A `BadRequest` whose message is `prefix` followed by `tail`.
fn bad_request(prefix: &str, tail: &str) -> (e: AppError)
    ensures
        is_bad_request(e, prefix@ + tail@),
{
    let mut m = String::new();
    m.append(prefix);
    m.append(tail);
    AppError::BadRequest(m)
}

/// Reads `value` as a non-negative integer for the option `name`.
pub fn parse_non_negative_i64(name: &str, value: &str) -> (r: AppResult<i64>)
    ensures
        number_matches(r, non_negative_spec(name@, value@)),
{
    match parse_i64(value) {
        None => Err(bad_request(name, " must be an integer")),
        Some(v) => {
            if v < 0 {
                Err(bad_request(name, " must be non-negative"))
            } else {
                Ok(v)
            }
        },
    }
}

/// Turns a count of months into days, 31 days a month.
fn months_in_days(r: AppResult<i64>) -> (out: Option<AppResult<i64>>)
    requires
        r matches Ok(v) ==> v >= 0,
    ensures
        forall|o: Result<i64, Seq<char>>| number_matches(r, o) ==> result_matches(out, months_to_days(o)),
{
    match r {
        Err(e) => Some(Err(e)),
        Ok(v) => {
            if v > i64::MAX / 31 {
                assert(v * 31 > i64::MAX) by (nonlinear_arith)
                    requires
                        v > i64::MAX / 31;
                None
            } else {
                Some(Ok(v * 31))
            }
        },
    }
}

/// Reads the `past` option: a number of days, with an optional `d` suffix,
/// or a number of months with an `m` suffix. `None` where multiplying the
/// months by 31 overflows.
pub fn parse_past(value: &str) -> (r: Option<AppResult<i64>>)
    ensures
        result_matches(r, past_spec(value@)),
{
    let cs = chars_of(value);
    let n = cs.len();
    if n > 0 && cs[n - 1] == 'd' {
        let days = value.substring_char(0, n - 1);
        assert(days@ == value@.drop_last());
        let r = parse_non_negative_i64("past", days);
        match r {
            Ok(v) => Some(Ok(v)),
            Err(e) => Some(Err(e)),
        }
    } else if n > 0 && cs[n - 1] == 'm' {
        let months = value.substring_char(0, n - 1);
        assert(months@ == value@.drop_last());
        months_in_days(parse_non_negative_i64("past", months))
    } else {
        let r = parse_non_negative_i64("past", value);
        match r {
            Ok(v) => Some(Ok(v)),
            Err(e) => Some(Err(e)),
        }
    }
}

/// The name mode that a `name` value selects.
fn parse_name_mode(value: &str) -> (m: Option<NameMode>)
    ensures
        m == name_mode_spec(value@),
{
    if str_eq(value, "original") || str_eq(value, "orig") || str_eq(value, "jp") || str_eq(value, "ja") {
        Some(NameMode::Original)
    } else if str_eq(value, "cn") || str_eq(value, "zh") || str_eq(value, "chinese") {
        Some(NameMode::Chinese)
    } else {
        None
    }
}

/// `q` with its day count set from `r`.
fn set_days(q: CalendarQuery, r: Option<AppResult<i64>>) -> (out: Option<AppResult<CalendarQuery>>)
    ensures
        forall|o: Outcome<i64>| result_matches(r, o) ==> result_matches(out, with_days(q, o)),
{
    match r {
        None => None,
        Some(Err(e)) => Some(Err(e)),
        Some(Ok(v)) => Some(Ok(CalendarQuery { past_days: v, ..q })),
    }
}

/// Applies one `key=value` pair of the query string to `q`.
fn apply_pair(q: CalendarQuery, key: &str, value: &str) -> (out: Option<AppResult<CalendarQuery>>)
    ensures
        result_matches(out, step_query(q, key@, value@)),
{
    if str_eq(key, "name") || str_eq(key, "title") {
        match parse_name_mode(value) {
            Some(mode) => {
                let out = CalendarQuery { name: mode, past_days: q.past_days };
                assert(step_query(q, key@, value@) == Outcome::Value(out));
                Some(Ok(out))
            },
            None => Some(Err(bad_request("unsupported name mode: ", value))),
        }
    } else if str_eq(key, "past_days") {
        let r = parse_non_negative_i64("past_days", value);
        let r = match r {
            Ok(v) => Some(Ok(v)),
            Err(e) => Some(Err(e)),
        };
        assert(result_matches(r, days_as_is(non_negative_spec("past_days"@, value@))));
        set_days(q, r)
    } else if str_eq(key, "past_months") {
        let n = parse_non_negative_i64("past_months", value);
        let r = months_in_days(n);
        assert(number_matches(n, non_negative_spec("past_months"@, value@)));
        assert(result_matches(r, months_to_days(non_negative_spec("past_months"@, value@))));
        set_days(q, r)
    } else if str_eq(key, "past") {
        let r = parse_past(value);
        assert(result_matches(r, past_spec(value@)));
        set_days(q, r)
    } else {
        Some(Ok(q))
    }
}

/// The query string of a URL, without its `?`, where it has one, as
/// `Url::query` gives it.
pub uninterp spec fn url_query_text(url: Url) -> Option<Seq<char>>;

/// The query text of a URL: empty where it has no query string.
pub open spec fn url_query_or_empty(url: Url) -> Seq<char> {
    match url_query_text(url) {
        Some(t) => t,
        None => Seq::<char>::empty(),
    }
}

/// `Url::query`: the query string of `url`, without its `?`, where it has
/// one. Claimed: the result is `url_query_text(url)`, a function of the URL
/// alone.
#[verifier::external_body]
fn url_query(url: &Url) -> (q: Option<String>)
    ensures
        opt_view(q) == url_query_text(*url),
{
    url.query().map(|q| q.to_owned())
}

/// The `(name, value)` pairs that `application/x-www-form-urlencoded` text
/// decodes to, as `form_urlencoded::parse` yields them.
pub uninterp spec fn form_urlencoded_pairs(input: Seq<char>) -> Seq<(Seq<char>, Seq<char>)>;

/// `form_urlencoded::parse` (re-exported by `url`), each pair made owned:
/// splits `input` at `&`, drops empty parts, splits each part at its first
/// `=`, and percent-decodes names and values (`+` read as a space, invalid
/// UTF-8 replaced). Claimed: the pairs are `form_urlencoded_pairs(input)`,
/// and an empty input gives no pair.
#[verifier::external_body]
fn decode_form_pairs(input: &str) -> (pairs: Vec<(String, String)>)
    ensures
        pairs_view(pairs@) == form_urlencoded_pairs(input@),
        input@.len() == 0 ==> pairs@.len() == 0,
{
    url::form_urlencoded::parse(input.as_bytes()).into_owned().collect()
}

/// The text of an optional query string: empty where there is none.
pub open spec fn query_text(query: Option<&str>) -> Seq<char> {
    match query {
        Some(q) => q@,
        None => Seq::<char>::empty(),
    }
}

impl CalendarQuery {
    /// The query that a query string describes (see
    /// [`CalendarQuery::from_query_pairs`]), read from its decoded pairs; no
    /// query string gives the default query. `None` where a month count
    /// overflows when turned into days.
    pub fn from_query(query: Option<&str>) -> (r: Option<AppResult<CalendarQuery>>)
        ensures
            result_matches(r, query_from_pairs(form_urlencoded_pairs(query_text(query)))),
            query_text(query).len() == 0 ==> r == Some(Ok::<CalendarQuery, AppError>(default_query())),
    {
        let pairs = match query {
            Some(q) => decode_form_pairs(q),
            None => {
                proof {
                    reveal_strlit("");
                    assert(""@ =~= Seq::<char>::empty());
                }
                decode_form_pairs("")
            },
        };
        if pairs.len() == 0 {
            assert(pairs_view(pairs@) =~= Seq::<(Seq<char>, Seq<char>)>::empty());
        }
        Self::from_query_pairs(&pairs)
    }

    /// The query that a URL's query string describes: [`CalendarQuery::from_query`]
    /// of `url.query()`.
    pub fn from_url(url: &Url) -> (r: Option<AppResult<CalendarQuery>>)
        ensures
            result_matches(r, query_from_pairs(form_urlencoded_pairs(url_query_or_empty(*url)))),
    {
        let text = url_query(url);
        let r = match &text {
            Some(q) => Self::from_query(Some(q.as_str())),
            None => Self::from_query(None),
        };
        r
    }

    /// The query that a list of decoded `key=value` pairs describes, read in
    /// order from the default query: an unsupported name mode or a bad number
    /// gives a `BadRequest`; `None` where a month count overflows when turned
    /// into days.
    pub fn from_query_pairs(pairs: &Vec<(String, String)>) -> (r: Option<AppResult<CalendarQuery>>)
        ensures
            result_matches(r, query_from_pairs(pairs_view(pairs@))),
    {
        let ghost all = pairs_view(pairs@);
        let mut q = CalendarQuery::default();
        let mut i: usize = 0;
        assert(all.skip(0) =~= all);
        while i < pairs.len()
            invariant
                i <= pairs.len(),
                all == pairs_view(pairs@),
                query_from_pairs(all) == fold_query(q, all.skip(i as int)),
            decreases pairs.len() - i,
        {
            let ghost rest = all.skip(i as int);
            assert(rest[0] == all[i as int]);
            assert(rest.drop_first() == all.skip(i + 1));
            let (key, value) = &pairs[i];
            match apply_pair(q, key.as_str(), value.as_str()) {
                Some(Ok(next)) => {
                    q = next;
                },
                other => {
                    return other;
                },
            }
            i = i + 1;
        }
        assert(all.skip(i as int).len() == 0);
        Some(Ok(q))
    }
}

/// A query string without pairs gives the default query: original names,
/// 31 days back.
pub proof fn lemma_no_pairs_give_default()
    ensures
        query_from_pairs(Seq::<(Seq<char>, Seq<char>)>::empty()) == Outcome::Value(default_query()),
{
}

/// Reading one more pair continues from where the earlier pairs left off:
/// each pair is applied to the query the earlier ones made, so a later
/// setting of an option overrides an earlier one, and the first rejection
/// or overflow stays the answer.
pub proof fn lemma_fold_query_push(
    q: CalendarQuery,
    pairs: Seq<(Seq<char>, Seq<char>)>,
    key: Seq<char>,
    value: Seq<char>,
)
    ensures
        fold_query(q, pairs.push((key, value))) == match fold_query(q, pairs) {
            Outcome::Value(r) => step_query(r, key, value),
            other => other,
        },
    decreases pairs.len(),
{
    let longer = pairs.push((key, value));
    assert(longer[0] == if pairs.len() == 0 { (key, value) } else { pairs[0] });
    if pairs.len() == 0 {
        assert(longer.drop_first() =~= Seq::<(Seq<char>, Seq<char>)>::empty());
        reveal_with_fuel(fold_query, 2);
    } else {
        assert(longer.drop_first() =~= pairs.drop_first().push((key, value)));
        match step_query(q, pairs[0].0, pairs[0].1) {
            Outcome::Value(next) => {
                lemma_fold_query_push(next, pairs.drop_first(), key, value);
            },
            _ => {},
        }
    }
}

/// A day count that reading accepts is never negative.
proof fn lemma_step_keeps_days_non_negative(q: CalendarQuery, key: Seq<char>, value: Seq<char>)
    requires
        q.past_days >= 0,
    ensures
        step_query(q, key, value) matches Outcome::Value(r) ==> r.past_days >= 0,
{
}

/// Reading pairs from a query with a non-negative day count never gives a
/// negative one.
proof fn lemma_fold_keeps_days_non_negative(q: CalendarQuery, pairs: Seq<(Seq<char>, Seq<char>)>)
    requires
        q.past_days >= 0,
    ensures
        fold_query(q, pairs) matches Outcome::Value(r) ==> r.past_days >= 0,
    decreases pairs.len(),
{
    if pairs.len() > 0 {
        lemma_step_keeps_days_non_negative(q, pairs[0].0, pairs[0].1);
        if let Outcome::Value(next) = step_query(q, pairs[0].0, pairs[0].1) {
            lemma_fold_keeps_days_non_negative(next, pairs.drop_first());
        }
    }
}

/// Every query that a query string gives looks back a non-negative number
/// of days.
pub proof fn lemma_query_days_non_negative(pairs: Seq<(Seq<char>, Seq<char>)>)
    ensures
        query_from_pairs(pairs) matches Outcome::Value(q) ==> q.past_days >= 0,
{
    lemma_fold_keeps_days_non_negative(default_query(), pairs);
}

/// A key that sets the day count.
pub open spec fn is_day_key(key: Seq<char>) -> bool {
    key == "past_days"@ || key == "past_months"@ || key == "past"@
}

/// A key that sets the name mode.
pub open spec fn is_name_key(key: Seq<char>) -> bool {
    key == "name"@ || key == "title"@
}

/// The day count that the last accepted day-setting pair sets, or `days`
/// where no pair sets one.
pub open spec fn last_days(days: i64, pairs: Seq<(Seq<char>, Seq<char>)>) -> i64
    decreases pairs.len(),
{
    if pairs.len() == 0 {
        days
    } else {
        let next = if is_day_key(pairs[0].0) {
            match step_query(default_query(), pairs[0].0, pairs[0].1) {
                Outcome::Value(q) => q.past_days,
                _ => days,
            }
        } else {
            days
        };
        last_days(next, pairs.drop_first())
    }
}

/// The name mode that the last name-setting pair selects, or `mode` where
/// no pair selects one.
pub open spec fn last_name(mode: NameMode, pairs: Seq<(Seq<char>, Seq<char>)>) -> NameMode
    decreases pairs.len(),
{
    if pairs.len() == 0 {
        mode
    } else {
        let next = if is_name_key(pairs[0].0) {
            match name_mode_spec(pairs[0].1) {
                Some(m) => m,
                None => mode,
            }
        } else {
            mode
        };
        last_name(next, pairs.drop_first())
    }
}

proof fn lemma_keys_differ()
    ensures
        !(is_day_key("name"@) || is_day_key("title"@)),
        !(is_name_key("past_days"@) || is_name_key("past_months"@) || is_name_key("past"@)),
{
    reveal_strlit("name");
    reveal_strlit("title");
    reveal_strlit("past_days");
    reveal_strlit("past_months");
    reveal_strlit("past");
    assert("name"@[0] != "past"@[0]);
    assert("title"@.len() != "past"@.len());
    assert("title"@[0] != "past_days"@[0]);
    assert("title"@[0] != "past_months"@[0]);
    assert("name"@.len() != "past_days"@.len());
    assert("name"@.len() != "past_months"@.len());
}

proof fn lemma_fold_last_setting(q: CalendarQuery, pairs: Seq<(Seq<char>, Seq<char>)>)
    ensures
        fold_query(q, pairs) matches Outcome::Value(r) ==> r.past_days == last_days(q.past_days, pairs)
            && r.name == last_name(q.name, pairs),
    decreases pairs.len(),
{
    if pairs.len() > 0 {
        lemma_keys_differ();
        let key = pairs[0].0;
        let value = pairs[0].1;
        if let Outcome::Value(next) = step_query(q, key, value) {
            lemma_fold_last_setting(next, pairs.drop_first());
            if is_name_key(key) {
                assert(!is_day_key(key));
            } else if is_day_key(key) {
                assert(!is_name_key(key));
            }
        }
    }
}

/// The last setting wins: in a query that reads, the day count is the one
/// that the last accepted `past_days`, `past_months` or `past` pair sets
/// (31 where there is none), and the name mode is the one that the last
/// `name` or `title` pair selects (original names where there is none);
/// other keys change nothing.
pub proof fn lemma_last_setting_wins(pairs: Seq<(Seq<char>, Seq<char>)>)
    ensures
        query_from_pairs(pairs) matches Outcome::Value(q) ==> q.past_days == last_days(31, pairs)
            && q.name == last_name(NameMode::Original, pairs),
{
    lemma_fold_last_setting(default_query(), pairs);
}

} // verus!
