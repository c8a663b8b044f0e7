use vstd::prelude::*;

use crate::issue_tool::{confirmation, format_confirmation, UserBean};
use crate::json::{jv, jv_items, jv_members, json_str, push_item, push_member, str_or, Json, JsonNumber, JsonV};
use crate::text::{
    decimal, join, join_seq, line_nonempty, line_some, lowercase, opt_ref, opt_view, parse_i64,
    parse_i64_seq, push_decimal_i64, push_decimal_u64, push_line_nonempty, push_line_some,
    replace_first, replace_first_seq, str_eq, to_lowercase, trim, trim_seq, views,
};

verus! {

/// The Unix time in milliseconds of an RFC 3339 date and time, as
/// `chrono::DateTime::parse_from_rfc3339` reads it, or `None` when it does
/// not read it.
pub uninterp spec fn rfc3339_millis(s: Seq<char>) -> Option<i64>;

/// The Unix time in milliseconds of a date and time without zone, taken as
/// UTC, as `chrono::NaiveDateTime::parse_from_str` reads it with the format
/// `fmt`, or `None` when it does not read it.
pub uninterp spec fn naive_datetime_millis(s: Seq<char>, fmt: Seq<char>) -> Option<i64>;

/// The Unix time in milliseconds of the start (UTC) of a date, as
/// `chrono::NaiveDate::parse_from_str` reads it with the format `fmt`, or
/// `None` when it does not read it.
pub uninterp spec fn naive_date_millis(s: Seq<char>, fmt: Seq<char>) -> Option<i64>;

/// Calls `chrono::DateTime::parse_from_rfc3339` and reads the result as Unix
/// milliseconds with `timestamp_millis`; the result is named
/// `rfc3339_millis` of the input.
#[verifier::external_body]
fn parse_rfc3339_millis(s: &str) -> (r: Option<i64>)
    ensures
        r == rfc3339_millis(s@),
{
    match chrono::DateTime::parse_from_rfc3339(s) {
        Ok(dt) => Some(dt.timestamp_millis()),
        Err(_) => None,
    }
}

/// Calls `chrono::NaiveDateTime::parse_from_str` and reads the result as UTC
/// Unix milliseconds with `and_utc().timestamp_millis()`; the result is named
/// `naive_datetime_millis` of the input and the format.
#[verifier::external_body]
fn parse_naive_datetime_millis(s: &str, fmt: &str) -> (r: Option<i64>)
    ensures
        r == naive_datetime_millis(s@, fmt@),
{
    match chrono::NaiveDateTime::parse_from_str(s, fmt) {
        Ok(ndt) => Some(ndt.and_utc().timestamp_millis()),
        Err(_) => None,
    }
}

/// Calls `chrono::NaiveDate::parse_from_str` and reads the start of that day
/// as UTC Unix milliseconds with `and_hms_opt(0, 0, 0)` and
/// `and_utc().timestamp_millis()`; the result is named `naive_date_millis` of
/// the input and the format. Midnight always exists, so `and_hms_opt` gives
/// `Some` here.
#[verifier::external_body]
fn parse_naive_date_millis(s: &str, fmt: &str) -> (r: Option<i64>)
    ensures
        r == naive_date_millis(s@, fmt@),
{
    match chrono::NaiveDate::parse_from_str(s, fmt) {
        Ok(nd) => match nd.and_hms_opt(0, 0, 0) {
            Some(ndt) => Some(ndt.and_utc().timestamp_millis()),
            None => None,
        },
        Err(_) => None,
    }
}

/// Whether an integer timestamp can be scaled: values from 10^10 on are
/// already milliseconds, and smaller ones must still fit in `i64` once
/// multiplied by 1000.
pub open spec fn scales(n: i64) -> bool {
    n >= 10_000_000_000 || n * 1000 >= i64::MIN
}

/// An integer timestamp in milliseconds: values from 10^10 on are already
/// milliseconds, smaller ones are seconds and are multiplied by 1000.
pub open spec fn scaled_timestamp(n: i64) -> int {
    if n >= 10_000_000_000 {
        n as int
    } else {
        n * 1000
    }
}

/// The formats without zone that a timestamp is tried with, in order.
pub open spec fn naive_formats() -> Seq<Seq<char>> {
    seq!["%Y-%m-%dT%H:%M:%S"@, "%Y-%m-%dT%H:%M"@, "%Y-%m-%d %H:%M:%S"@, "%Y-%m-%d %H:%M"@, "%Y-%m-%d"@]
}

/// The readings of a normalised timestamp tried in order: RFC 3339, then for
/// each format a date and time, then a date.
pub open spec fn readings(s: Seq<char>) -> Seq<Option<i64>> {
    let f = naive_formats();
    seq![
        rfc3339_millis(s),
        naive_datetime_millis(s, f[0]),
        naive_date_millis(s, f[0]),
        naive_datetime_millis(s, f[1]),
        naive_date_millis(s, f[1]),
        naive_datetime_millis(s, f[2]),
        naive_date_millis(s, f[2]),
        naive_datetime_millis(s, f[3]),
        naive_date_millis(s, f[3]),
        naive_datetime_millis(s, f[4]),
        naive_date_millis(s, f[4]),
    ]
}

/// The first reading that succeeded.
pub open spec fn first_reading(rs: Seq<Option<i64>>) -> Option<i64>
    decreases rs.len(),
{
    if rs.len() == 0 {
        None
    } else {
        match rs[0] {
            Some(v) => Some(v),
            None => first_reading(rs.drop_first()),
        }
    }
}

/// The text of a timestamp with a space before its offset removed: the first
/// `" +"` becomes `"+"`, then the first `" -"` becomes `"-"`.
pub open spec fn normalised(t: Seq<char>) -> Seq<char> {
    replace_first_seq(replace_first_seq(t, " +"@, "+"@), " -"@, "-"@)
}

/// The message for a timestamp that cannot be read.
pub open spec fn timestamp_error(input: Seq<char>) -> Seq<char> {
    "Cannot parse '"@ + input
        + "' as a timestamp. Use a Unix timestamp (ms or s) or an ISO 8601 date/datetime string."@
}

/// A timestamp read from the readings of its text: an integer comes first,
/// then the first reading that succeeded.
pub open spec fn timestamp_of(input: Seq<char>, integer: Option<i64>, rs: Seq<Option<i64>>) -> Result<i64, Seq<char>> {
    match integer {
        Some(n) => Ok(scaled_timestamp(n) as i64),
        None => match first_reading(rs) {
            Some(v) => Ok(v),
            None => Err(timestamp_error(input)),
        },
    }
}

/// A timestamp in Unix milliseconds read from text: a Unix time in
/// milliseconds or seconds, an RFC 3339 date and time, or a date and time (or
/// date) without zone taken as UTC. Surrounding white space is ignored.
pub open spec fn timestamp_ms(input: Seq<char>) -> Result<i64, Seq<char>> {
    let t = trim_seq(input);
    let integer = match parse_i64_seq(t) {
        Some(n) => Some(n as i64),
        None => None,
    };
    timestamp_of(input, integer, readings(normalised(t)))
}

/// Whether reading `input` as a timestamp stays within `i64`: an integer
/// below 10^10 is taken as seconds, and its milliseconds must fit.
pub open spec fn timestamp_readable(input: Seq<char>) -> bool {
    match parse_i64_seq(trim_seq(input)) {
        Some(n) => scales(n as i64),
        None => true,
    }
}

/// The view of a result whose error is a string.
pub open spec fn result_view(r: Result<i64, String>) -> Result<i64, Seq<char>> {
    match r {
        Ok(v) => Ok(v),
        Err(e) => Err(e@),
    }
}

/// Reads a timestamp from the integer it writes, if any, and from its other
/// readings in the order they are tried.
pub fn timestamp_from_readings(input: &str, integer: Option<i64>, readings: &Vec<Option<i64>>) -> (r: Result<i64, String>)
    requires
        integer matches Some(n) ==> scales(n),
    ensures
        result_view(r) == timestamp_of(input@, integer, readings@),
{
    if let Some(n) = integer {
        return Ok(if n >= 10_000_000_000 {
            n
        } else {
            n * 1000
        });
    }
    let n = readings.len();
    let mut i: usize = 0;
    assert(readings@.skip(0) =~= readings@);
    while i < n
        invariant
            n == readings@.len(),
            i <= n,
            integer is None,
            first_reading(readings@) == first_reading(readings@.skip(i as int)),
        decreases n - i,
    {
        assert(readings@.skip(i as int).drop_first() =~= readings@.skip(i + 1));
        if let Some(v) = readings[i] {
            return Ok(v);
        }
        i = i + 1;
    }
    let mut msg = "Cannot parse '".to_owned();
    msg.append(input);
    msg.append("' as a timestamp. Use a Unix timestamp (ms or s) or an ISO 8601 date/datetime string.");
    Err(msg)
}

/// Whether `input` can be read as a timestamp without leaving `i64` (see
/// `timestamp_readable`).
pub fn timestamp_in_range(input: &str) -> (r: bool)
    ensures
        r == timestamp_readable(input@),
{
    let t = trim(input);
    match parse_i64(t.as_str()) {
        Some(n) => n >= 10_000_000_000 || n >= -9_223_372_036_854_775,
        None => true,
    }
}

/// Reads a timestamp in Unix milliseconds from text (see `timestamp_ms`).
pub fn parse_timestamp_ms(input: &str) -> (r: Result<i64, String>)
    requires
        timestamp_readable(input@),
    ensures
        result_view(r) == timestamp_ms(input@),
{
    let t = trim(input);
    let integer = parse_i64(t.as_str());
    let ghost want_integer = match parse_i64_seq(t@) {
        Some(n) => Some(n as i64),
        None => None,
    };
    assert(integer == want_integer);
    let mut rs: Vec<Option<i64>> = Vec::new();
    let norm = replace_first(replace_first(t.as_str(), " +", "+").as_str(), " -", "-");
    if integer.is_none() {
        rs.push(parse_rfc3339_millis(norm.as_str()));
        let formats = ["%Y-%m-%dT%H:%M:%S", "%Y-%m-%dT%H:%M", "%Y-%m-%d %H:%M:%S", "%Y-%m-%d %H:%M", "%Y-%m-%d"];
        let mut k: usize = 0;
        while k < 5
            invariant
                k <= 5,
                rs@.len() == 1 + 2 * k,
                rs@[0] == rfc3339_millis(norm@),
                forall|j: int| #![trigger formats@[j]] 0 <= j < k ==> rs@[1 + 2 * j] == naive_datetime_millis(norm@, formats@[j]@) && rs@[2 + 2 * j] == naive_date_millis(norm@, formats@[j]@),
            decreases 5 - k,
        {
            rs.push(parse_naive_datetime_millis(norm.as_str(), formats[k]));
            rs.push(parse_naive_date_millis(norm.as_str(), formats[k]));
            k = k + 1;
        }
        assert(rs@ =~= readings(norm@)) by {
            assert(formats@[0]@ == naive_formats()[0]);
        }
    }
    timestamp_from_readings(input, integer, &rs)
}


/// One changed worklog in a page of the worklog change feed.
pub struct WorklogChangeBean {
    pub worklog_id: Option<i64>,
    /// When the worklog was last updated, in Unix milliseconds.
    pub updated_time: Option<i64>,
}

/// A page of the worklog change feed.
pub struct WorklogChangedSinceBean {
    pub values: Option<Vec<WorklogChangeBean>>,
    pub last_page: Option<bool>,
    pub is_last_page: Option<bool>,
    /// Where the next page starts.
    pub until: Option<i64>,
}

/// What the worklog tool takes from a page: the worklog identifiers, and where
/// the next page starts, if there is one to read.
#[derive(Debug, PartialEq)]
pub struct PageStep {
    pub ids: Vec<i64>,
    pub next_since: Option<i64>,
}

/// Whether a change lies within the requested range: with an end `until_ms`,
/// it must have been updated before it; without one, every change does.
pub open spec fn in_range(c: WorklogChangeBean, until_ms: Option<i64>) -> bool {
    match until_ms {
        Some(u) => match c.updated_time {
            Some(t) => t < u,
            None => false,
        },
        None => true,
    }
}

/// The identifiers of the changed worklogs that have one and lie within the
/// requested range.
pub open spec fn change_ids(vs: Seq<WorklogChangeBean>, until_ms: Option<i64>) -> Seq<i64>
    decreases vs.len(),
{
    if vs.len() == 0 {
        Seq::<i64>::empty()
    } else {
        let p = change_ids(vs.drop_last(), until_ms);
        match vs.last().worklog_id {
            Some(id) => if in_range(vs.last(), until_ms) {
                p.push(id)
            } else {
                p
            },
            None => p,
        }
    }
}

proof fn lemma_change_ids_in_range(vs: Seq<WorklogChangeBean>, until_ms: Option<i64>)
    ensures
        forall|k: int|
            0 <= k < change_ids(vs, until_ms).len() ==> exists|j: int|
                0 <= j < vs.len() && vs[j].worklog_id == Some(#[trigger] change_ids(vs, until_ms)[k])
                    && in_range(vs[j], until_ms),
    decreases vs.len(),
{
    if vs.len() > 0 {
        let q = vs.drop_last();
        lemma_change_ids_in_range(q, until_ms);
        let p = change_ids(q, until_ms);
        let r = change_ids(vs, until_ms);
        assert forall|k: int| 0 <= k < r.len() implies exists|j: int|
            0 <= j < vs.len() && vs[j].worklog_id == Some(#[trigger] r[k]) && in_range(vs[j], until_ms) by {
            if k < p.len() {
                assert(r[k] == p[k]);
                let j = choose|j: int| 0 <= j < q.len() && q[j].worklog_id == Some(#[trigger] p[k]) && in_range(q[j], until_ms);
                assert(vs[j] == q[j]);
            } else {
                assert(vs[vs.len() - 1].worklog_id == Some(r[k]));
            }
        }
    }
}

/// Where reading continues after a page: nowhere after the last page (either
/// flag says so), without a cursor, or when the cursor reaches the end of the
/// requested range; else at the cursor.
pub open spec fn next_since(page: WorklogChangedSinceBean, until_ms: Option<i64>) -> Option<i64> {
    if page.last_page == Some(true) || page.is_last_page == Some(true) {
        None
    } else {
        match page.until {
            Some(n) => match until_ms {
                Some(u) => if n >= u {
                    None
                } else {
                    Some(n)
                },
                None => Some(n),
            },
            None => None,
        }
    }
}

/// Decides what a page of the worklog change feed yields and where reading
/// goes on: the identifiers of the changes updated before the end of the
/// requested range (all of them when it has no end), and the next cursor.
pub fn page_step(page: &WorklogChangedSinceBean, until_ms: Option<i64>) -> (r: PageStep)
    ensures
        r.ids@ == change_ids(
            match page.values {
                Some(v) => v@,
                None => Seq::<WorklogChangeBean>::empty(),
            },
            until_ms,
        ),
        until_ms matches Some(u) ==> forall|k: int|
            0 <= k < r.ids@.len() ==> exists|j: int|
                0 <= j < page.values->0@.len() && page.values->0@[j].worklog_id == Some(
                    #[trigger] r.ids@[k],
                ) && (page.values->0@[j].updated_time matches Some(t) && t < u),
        r.next_since == next_since(*page, until_ms),
{
    let mut ids: Vec<i64> = Vec::new();
    if let Some(vs) = &page.values {
        let n = vs.len();
        let mut i: usize = 0;
        assert(vs@.take(0) =~= Seq::<WorklogChangeBean>::empty());
        while i < n
            invariant
                n == vs@.len(),
                i <= n,
                ids@ == change_ids(vs@.take(i as int), until_ms),
            decreases n - i,
        {
            assert(vs@.take(i + 1).drop_last() =~= vs@.take(i as int));
            assert(vs@.take(i + 1).last() == vs@[i as int]);
            if let Some(id) = vs[i].worklog_id {
                let keep = match until_ms {
                    Some(u) => match vs[i].updated_time {
                        Some(t) => t < u,
                        None => false,
                    },
                    None => true,
                };
                if keep {
                    ids.push(id);
                }
            }
            i = i + 1;
        }
        assert(vs@.take(n as int) =~= vs@);
        proof {
            lemma_change_ids_in_range(vs@, until_ms);
        }
    } else {
        assert(change_ids(Seq::<WorklogChangeBean>::empty(), until_ms) =~= ids@);
    }
    let last = page.last_page == Some(true) || page.is_last_page == Some(true);
    let next = if last {
        None
    } else {
        match page.until {
            Some(n) => match until_ms {
                Some(u) => if n >= u {
                    None
                } else {
                    Some(n)
                },
                None => Some(n),
            },
            None => None,
        }
    };
    PageStep { ids, next_since: next }
}

/// The size of the batches in which worklog details are read.
pub open spec fn batch() -> int {
    1000
}

/// The identifiers in each batch.
pub open spec fn batch_views(cs: Seq<Vec<i64>>) -> Seq<Seq<i64>> {
    cs.map_values(|c: Vec<i64>| c@)
}

/// Splits worklog identifiers into batches of 1000 (the last one shorter), as
/// `chunks(1000)` does.
pub fn chunk_ids(ids: &Vec<i64>) -> (r: Vec<Vec<i64>>)
    ensures
        batches_of(ids@, batch_views(r@)),
{
    let n = ids.len();
    let mut r: Vec<Vec<i64>> = Vec::new();
    let mut start: usize = 0;
    while start < n
        invariant
            n == ids@.len(),
            start <= n,
            start == n || start == 1000 * r@.len(),
            r@.len() == (start + 999) / 1000,
            forall|k: int|
                0 <= k < r@.len() ==> #[trigger] r@[k]@ == ids@.subrange(
                    1000 * k,
                    if 1000 * k + 1000 <= ids@.len() {
                        1000 * k + 1000
                    } else {
                        ids@.len() as int
                    },
                ),
        decreases n - start,
    {
        let end: usize = if n - start >= 1000 {
            start + 1000
        } else {
            n
        };
        let mut c: Vec<i64> = Vec::new();
        let mut j: usize = start;
        while j < end
            invariant
                start <= j <= end <= n,
                n == ids@.len(),
                c@ == ids@.subrange(start as int, j as int),
            decreases end - j,
        {
            c.push(ids[j]);
            j = j + 1;
            assert(ids@.subrange(start as int, j as int) =~= ids@.subrange(start as int, j - 1).push(
                ids@[j - 1],
            ));
        }
        r.push(c);
        start = end;
    }
    assert(r@.len() == (n + 999) / 1000);
    let ghost vs = batch_views(r@);
    assert forall|k: int| 0 <= k < r@.len() implies #[trigger] vs[k] == ids@.subrange(
        1000 * k,
        if 1000 * k + 1000 <= ids@.len() {
            1000 * k + 1000
        } else {
            ids@.len() as int
        },
    ) by {
        assert(vs[k] == r@[k]@);
    }
    r
}

/// The batches laid end to end.
pub open spec fn flatten(cs: Seq<Seq<i64>>) -> Seq<i64>
    decreases cs.len(),
{
    if cs.len() == 0 {
        Seq::<i64>::empty()
    } else {
        flatten(cs.drop_last()) + cs.last()
    }
}

/// Whether `cs` are the batches of 1000 of `ids`, as `chunk_ids` makes them.
pub open spec fn batches_of(ids: Seq<i64>, cs: Seq<Seq<i64>>) -> bool {
    &&& cs.len() == (ids.len() + 999) / 1000
    &&& forall|k: int|
        0 <= k < cs.len() ==> #[trigger] cs[k] == ids.subrange(
            1000 * k,
            if 1000 * k + 1000 <= ids.len() {
                1000 * k + 1000
            } else {
                ids.len() as int
            },
        )
}

proof fn lemma_flatten_prefix(ids: Seq<i64>, cs: Seq<Seq<i64>>, j: int)
    requires
        batches_of(ids, cs),
        0 <= j <= cs.len(),
    ensures
        flatten(cs.take(j)) == ids.subrange(
            0,
            if 1000 * j <= ids.len() {
                1000 * j
            } else {
                ids.len() as int
            },
        ),
    decreases j,
{
    if j == 0 {
        assert(cs.take(0) =~= Seq::<Seq<i64>>::empty());
        assert(ids.subrange(0, 0) =~= Seq::<i64>::empty());
    } else {
        lemma_flatten_prefix(ids, cs, j - 1);
        assert(cs.take(j).drop_last() =~= cs.take(j - 1));
        assert(cs.take(j).last() == cs[j - 1]);
        assert(1000 * (j - 1) < ids.len());
        let e = if 1000 * j <= ids.len() {
            1000 * j
        } else {
            ids.len() as int
        };
        assert(ids.subrange(0, 1000 * (j - 1)) + ids.subrange(1000 * (j - 1), e) =~= ids.subrange(
            0,
            e,
        ));
    }
}

/// Splitting into batches loses nothing and reorders nothing: the batches laid
/// end to end are the identifiers, and no batch is empty or over 1000 long.
pub proof fn law_batches_cover_ids(ids: Seq<i64>, cs: Seq<Seq<i64>>)
    requires
        batches_of(ids, cs),
    ensures
        flatten(cs) == ids,
        forall|k: int| 0 <= k < cs.len() ==> 0 < #[trigger] cs[k].len() <= 1000,
{
    lemma_flatten_prefix(ids, cs, cs.len() as int);
    assert(cs.take(cs.len() as int) =~= cs);
    assert(ids.subrange(0, ids.len() as int) =~= ids);
    assert forall|k: int| 0 <= k < cs.len() implies 0 < #[trigger] cs[k].len() <= 1000 by {
        assert(1000 * k < ids.len());
    }
}


/// A worklog entry.
pub struct Worklog {
    pub id: Option<String>,
    pub issue_id: Option<String>,
    pub author: Option<UserBean>,
    pub time_spent: Option<String>,
    pub time_spent_seconds: Option<i64>,
    pub started: Option<String>,
    pub created: Option<String>,
    pub updated: Option<String>,
    pub comment: Option<String>,
}

/// Each text lower-cased.
pub open spec fn lower_all(ss: Seq<Seq<char>>) -> Seq<Seq<char>>
    decreases ss.len(),
{
    if ss.len() == 0 {
        Seq::<Seq<char>>::empty()
    } else {
        lower_all(ss.drop_last()).push(lowercase(ss.last()))
    }
}

/// The author names that worklogs are filtered by: the single user, then the
/// listed users, all lower-cased.
pub open spec fn author_filter(user: Option<String>, users: Option<Vec<String>>) -> Seq<Seq<char>> {
    (match user {
        Some(u) => seq![lowercase(u@)],
        None => Seq::<Seq<char>>::empty(),
    }) + match users {
        Some(us) => lower_all(views(us@)),
        None => Seq::<Seq<char>>::empty(),
    }
}

/// Builds the author filter of the worklog tool.
pub fn build_author_filter(user: &Option<String>, users: &Option<Vec<String>>) -> (r: Vec<String>)
    ensures
        views(r@) == author_filter(*user, *users),
{
    let mut r: Vec<String> = Vec::new();
    if let Some(u) = user {
        r.push(to_lowercase(u.as_str()));
    }
    let ghost head = views(r@);
    assert(head =~= match *user {
        Some(u) => seq![lowercase(u@)],
        None => Seq::<Seq<char>>::empty(),
    });
    if let Some(us) = users {
        let n = us.len();
        let mut i: usize = 0;
        assert(views(us@).take(0) =~= Seq::<Seq<char>>::empty());
        assert(views(r@) =~= head + lower_all(views(us@).take(0)));
        while i < n
            invariant
                n == us@.len(),
                i <= n,
                views(r@) == head + lower_all(views(us@).take(i as int)),
            decreases n - i,
        {
            assert(views(us@).take(i + 1).drop_last() =~= views(us@).take(i as int));
            let ghost before = views(r@);
            let l = to_lowercase(us[i].as_str());
            r.push(l);
            assert(views(r@) =~= before.push(l@));
            i = i + 1;
        }
        assert(views(us@).take(n as int) =~= views(us@));
    } else {
        assert(views(r@) =~= head + Seq::<Seq<char>>::empty());
    }
    r
}

/// Whether a worklog's author has a user name or display name that is one of
/// `filter`, ignoring case.
pub open spec fn author_matches(w: Worklog, filter: Seq<Seq<char>>) -> bool {
    match w.author {
        Some(a) => exists|k: int|
            0 <= k < filter.len() && (lowercase(str_or(opt_view(a.name), ""@)) == #[trigger] filter[k]
                || lowercase(str_or(opt_view(a.display_name), ""@)) == filter[k]),
        None => false,
    }
}

/// The worklogs whose author matches `filter`, in order.
pub open spec fn matching(ws: Seq<Worklog>, filter: Seq<Seq<char>>) -> Seq<Worklog>
    decreases ws.len(),
{
    if ws.len() == 0 {
        Seq::<Worklog>::empty()
    } else {
        let p = matching(ws.drop_last(), filter);
        if author_matches(ws.last(), filter) {
            p.push(ws.last())
        } else {
            p
        }
    }
}

/// The worklogs the worklog tool shows: all of them without a filter, else
/// those whose author matches it.
pub open spec fn shown_worklogs(ws: Seq<Worklog>, filter: Seq<Seq<char>>) -> Seq<Worklog> {
    if filter.len() == 0 {
        ws
    } else {
        matching(ws, filter)
    }
}

#[verifier::loop_isolation(false)]
fn author_matches_exec(w: &Worklog, filter: &Vec<String>) -> (r: bool)
    ensures
        r == author_matches(*w, views(filter@)),
{
    match &w.author {
        Some(a) => {
            let name: &str = match &a.name {
                Some(n) => n.as_str(),
                None => "",
            };
            let display: &str = match &a.display_name {
                Some(n) => n.as_str(),
                None => "",
            };
            let name_l = to_lowercase(name);
            let display_l = to_lowercase(display);
            let n = filter.len();
            let mut k: usize = 0;
            while k < n
                invariant
                    n == filter@.len(),
                    k <= n,
                    name_l@ == lowercase(str_or(opt_view(a.name), ""@)),
                    display_l@ == lowercase(str_or(opt_view(a.display_name), ""@)),
                    forall|j: int|
                        0 <= j < k ==> !(name_l@ == #[trigger] views(filter@)[j] || display_l@
                            == views(filter@)[j]),
                decreases n - k,
            {
                if crate::text::str_eq(name_l.as_str(), filter[k].as_str()) || crate::text::str_eq(
                    display_l.as_str(),
                    filter[k].as_str(),
                ) {
                    assert(views(filter@)[k as int] == filter@[k as int]@);
                    return true;
                }
                k = k + 1;
            }
            false
        },
        None => false,
    }
}

/// The positions of the worklogs the worklog tool shows.
pub open spec fn shown_positions_ok(ws: Seq<Worklog>, filter: Seq<Seq<char>>, idx: Seq<usize>) -> bool {
    &&& forall|k: int| 0 <= k < idx.len() ==> #[trigger] idx[k] < ws.len()
    &&& idx.map_values(|i: usize| ws[i as int]) == shown_worklogs(ws, filter)
}

/// Chooses the worklogs to show (see `shown_worklogs`), by their positions.
pub fn select_worklogs(ws: &Vec<Worklog>, filter: &Vec<String>) -> (idx: Vec<usize>)
    ensures
        shown_positions_ok(ws@, views(filter@), idx@),
{
    let n = ws.len();
    let mut idx: Vec<usize> = Vec::new();
    let all = filter.len() == 0;
    let mut i: usize = 0;
    assert(ws@.take(0) =~= Seq::<Worklog>::empty());
    assert(idx@.map_values(|i: usize| ws@[i as int]) =~= Seq::<Worklog>::empty());
    while i < n
        invariant
            n == ws@.len(),
            i <= n,
            all == (filter@.len() == 0),
            forall|k: int| 0 <= k < idx@.len() ==> #[trigger] idx@[k] < i,
            idx@.map_values(|j: usize| ws@[j as int]) == if all {
                ws@.take(i as int)
            } else {
                matching(ws@.take(i as int), views(filter@))
            },
        decreases n - i,
    {
        assert(ws@.take(i + 1).drop_last() =~= ws@.take(i as int));
        assert(ws@.take(i + 1).last() == ws@[i as int]);
        let ghost before = idx@;
        if all || author_matches_exec(&ws[i], filter) {
            idx.push(i);
            assert(idx@.map_values(|j: usize| ws@[j as int]) =~= before.map_values(
                |j: usize| ws@[j as int],
            ).push(ws@[i as int]));
        }
        i = i + 1;
    }
    assert(ws@.take(n as int) =~= ws@);
    idx
}

/// The identity, author and time spent of a worklog.
#[verifier::opaque]
pub open spec fn worklog_head(w: Worklog) -> Seq<char> {
    line_some("ID: "@, opt_view(w.id)) + line_some("Issue ID: "@, opt_view(w.issue_id))
        + author_line(w.author) + line_some("Time Spent: "@, opt_view(w.time_spent)) + seconds_line(
        w.time_spent_seconds,
    )
}

/// The author line of a worklog.
pub open spec fn author_line(author: Option<UserBean>) -> Seq<char> {
    match author {
        Some(a) => "Author: "@ + str_or(opt_view(a.display_name), "Unknown"@) + "\n"@,
        None => Seq::<char>::empty(),
    }
}

/// The line with the seconds spent on a worklog.
pub open spec fn seconds_line(seconds: Option<i64>) -> Seq<char> {
    match seconds {
        Some(n) => "Time Spent (seconds): "@ + decimal(n as int) + "\n"@,
        None => Seq::<char>::empty(),
    }
}

fn push_author_line(out: &mut String, author: &Option<UserBean>)
    ensures
        final(out)@ == old(out)@ + author_line(*author),
{
    if let Some(a) = author {
        let name: &str = match &a.display_name {
            Some(n) => n.as_str(),
            None => "Unknown",
        };
        out.append("Author: ");
        out.append(name);
        out.append("\n");
    }
}

fn push_seconds_line(out: &mut String, seconds: Option<i64>)
    ensures
        final(out)@ == old(out)@ + seconds_line(seconds),
{
    if let Some(n) = seconds {
        out.append("Time Spent (seconds): ");
        push_decimal_i64(out, n);
        out.append("\n");
    }
}

/// The dates and comment of a worklog.
#[verifier::opaque]
pub open spec fn worklog_tail(w: Worklog) -> Seq<char> {
    line_some("Started: "@, opt_view(w.started)) + line_some("Created: "@, opt_view(w.created))
        + line_some("Updated: "@, opt_view(w.updated)) + line_nonempty(
        "Comment: "@,
        opt_view(w.comment),
    )
}

/// The text of a worklog.
pub open spec fn worklog_text(w: Worklog) -> Seq<char> {
    worklog_head(w) + worklog_tail(w)
}

fn push_worklog_head(out: &mut String, w: &Worklog)
    ensures
        final(out)@ == old(out)@ + worklog_head(*w),
{
    reveal(worklog_head);
    let ghost o = out@;
    push_line_some(out, "ID: ", opt_ref(&w.id));
    push_line_some(out, "Issue ID: ", opt_ref(&w.issue_id));
    push_author_line(out, &w.author);
    push_line_some(out, "Time Spent: ", opt_ref(&w.time_spent));
    push_seconds_line(out, w.time_spent_seconds);
    assert(out@ =~= o + worklog_head(*w));
}

fn push_worklog_tail(out: &mut String, w: &Worklog)
    ensures
        final(out)@ == old(out)@ + worklog_tail(*w),
{
    reveal(worklog_tail);
    let ghost o = out@;
    push_line_some(out, "Started: ", opt_ref(&w.started));
    push_line_some(out, "Created: ", opt_ref(&w.created));
    push_line_some(out, "Updated: ", opt_ref(&w.updated));
    push_line_nonempty(out, "Comment: ", opt_ref(&w.comment));
    assert(out@ =~= o + worklog_tail(*w));
}

/// Formats a worklog.
pub fn format_worklog(w: &Worklog) -> (r: String)
    ensures
        r@ == worklog_text(*w),
{
    let mut out = String::new();
    push_worklog_head(&mut out, w);
    push_worklog_tail(&mut out, w);
    assert(out@ =~= worklog_text(*w));
    out
}

/// A text value, or `null` when missing.
pub open spec fn text_or_null(v: Option<Seq<char>>) -> JsonV {
    match v {
        Some(s) => JsonV::Str(s),
        None => JsonV::Null,
    }
}

/// The structured form of a worklog, its members in key order.
pub open spec fn worklog_object(w: Worklog) -> JsonV {
    JsonV::Object(
        seq![
            ("author"@, text_or_null(match w.author {
                Some(a) => opt_view(a.display_name),
                None => None,
            })),
            ("comment"@, text_or_null(opt_view(w.comment))),
            ("created"@, text_or_null(opt_view(w.created))),
            ("id"@, text_or_null(opt_view(w.id))),
            ("issue_id"@, text_or_null(opt_view(w.issue_id))),
            ("started"@, text_or_null(opt_view(w.started))),
            ("time_spent"@, text_or_null(opt_view(w.time_spent))),
            ("time_spent_seconds"@, match w.time_spent_seconds {
                Some(n) => JsonV::Number(JsonNumber { int: Some(n), truncated: n }),
                None => JsonV::Null,
            }),
            ("updated"@, text_or_null(opt_view(w.updated))),
        ],
    )
}

fn text_or_null_exec(v: Option<&String>) -> (r: Json)
    ensures
        jv(r) == text_or_null(crate::text::ref_view(v)),
{
    match v {
        Some(s) => json_str(s.as_str()),
        None => Json::Null,
    }
}

/// Builds the structured form of a worklog.
pub fn worklog_to_json(w: &Worklog) -> (r: Json)
    ensures
        jv(r) == worklog_object(*w),
{
    let mut es: Vec<(String, Json)> = Vec::new();
    assert(jv_members(es@) =~= Seq::<(Seq<char>, JsonV)>::empty());
    let author = match &w.author {
        Some(a) => opt_ref(&a.display_name),
        None => None,
    };
    push_member(&mut es, "author", text_or_null_exec(author));
    push_member(&mut es, "comment", text_or_null_exec(opt_ref(&w.comment)));
    push_member(&mut es, "created", text_or_null_exec(opt_ref(&w.created)));
    push_member(&mut es, "id", text_or_null_exec(opt_ref(&w.id)));
    push_member(&mut es, "issue_id", text_or_null_exec(opt_ref(&w.issue_id)));
    push_member(&mut es, "started", text_or_null_exec(opt_ref(&w.started)));
    push_member(&mut es, "time_spent", text_or_null_exec(opt_ref(&w.time_spent)));
    let seconds = match w.time_spent_seconds {
        Some(n) => Json::Number(JsonNumber { int: Some(n), truncated: n }),
        None => Json::Null,
    };
    push_member(&mut es, "time_spent_seconds", seconds);
    push_member(&mut es, "updated", text_or_null_exec(opt_ref(&w.updated)));
    let r = Json::Object(es);
    assert(jv_members(es@) =~= match worklog_object(*w) {
        JsonV::Object(m) => m,
        _ => Seq::<(Seq<char>, JsonV)>::empty(),
    });
    r
}


/// An answer of the worklog tool: text, or a JSON value to print.
#[derive(Debug, PartialEq)]
pub enum WorklogAnswer {
    Text(String),
    Structured(Json),
}

/// The texts of the worklogs.
pub open spec fn worklog_texts(ws: Seq<Worklog>) -> Seq<Seq<char>>
    decreases ws.len(),
{
    if ws.len() == 0 {
        Seq::<Seq<char>>::empty()
    } else {
        worklog_texts(ws.drop_last()).push(worklog_text(ws.last()))
    }
}

/// The structured forms of the worklogs.
pub open spec fn worklog_objects(ws: Seq<Worklog>) -> Seq<JsonV>
    decreases ws.len(),
{
    if ws.len() == 0 {
        Seq::<JsonV>::empty()
    } else {
        worklog_objects(ws.drop_last()).push(worklog_object(ws.last()))
    }
}

/// The answer of the worklog tool once the worklog details are read, for
/// `id_count` identifiers: a note when no details came back or no author
/// matched, else the shown worklogs as a JSON array or as texts separated by
/// rules.
pub open spec fn worklogs_answer(
    id_count: nat,
    ws: Seq<Worklog>,
    filter: Seq<Seq<char>>,
    structured: bool,
) -> Result<JsonV, Seq<char>> {
    let shown = shown_worklogs(ws, filter);
    if ws.len() == 0 {
        Err("No worklog details returned for "@ + decimal(id_count as int) + " IDs."@)
    } else if shown.len() == 0 {
        Err("No worklogs matched the specified author filter."@)
    } else if structured {
        Ok(JsonV::Array(worklog_objects(shown)))
    } else {
        Err(join_seq(worklog_texts(shown), "\n---\n"@))
    }
}

/// The view of an answer of the worklog tool: text as `Err`, JSON as `Ok`.
pub open spec fn answer_view(a: WorklogAnswer) -> Result<JsonV, Seq<char>> {
    match a {
        WorklogAnswer::Text(t) => Err(t@),
        WorklogAnswer::Structured(j) => Ok(jv(j)),
    }
}

/// Builds the answer of the worklog tool once the details of `id_count`
/// worklog identifiers are read.
pub fn answer_worklogs(id_count: usize, ws: &Vec<Worklog>, filter: &Vec<String>, structured: bool) -> (r: WorklogAnswer)
    ensures
        answer_view(r) == worklogs_answer(id_count as nat, ws@, views(filter@), structured),
{
    if ws.len() == 0 {
        let mut t = "No worklog details returned for ".to_owned();
        push_decimal_u64(&mut t, id_count as u64);
        t.append(" IDs.");
        return WorklogAnswer::Text(t);
    }
    let idx = select_worklogs(ws, filter);
    let ghost shown = shown_worklogs(ws@, views(filter@));
    assert(shown.len() == idx@.len());
    let n = idx.len();
    if n == 0 {
        return WorklogAnswer::Text("No worklogs matched the specified author filter.".to_owned());
    }
    if structured {
        let mut a: Vec<Json> = Vec::new();
        let mut i: usize = 0;
        assert(shown.take(0) =~= Seq::<Worklog>::empty());
        while i < n
            invariant
                n == idx@.len(),
                i <= n,
                shown == idx@.map_values(|j: usize| ws@[j as int]),
                forall|k: int| 0 <= k < idx@.len() ==> #[trigger] idx@[k] < ws@.len(),
                jv_items(a@) == worklog_objects(shown.take(i as int)),
            decreases n - i,
        {
            assert(shown.take(i + 1).drop_last() =~= shown.take(i as int));
            assert(shown.take(i + 1).last() == ws@[idx@[i as int] as int]);
            push_item(&mut a, worklog_to_json(&ws[idx[i]]));
            i = i + 1;
        }
        assert(shown.take(n as int) =~= shown);
        WorklogAnswer::Structured(Json::Array(a))
    } else {
        let mut texts: Vec<String> = Vec::new();
        let mut i: usize = 0;
        assert(shown.take(0) =~= Seq::<Worklog>::empty());
        assert(views(texts@) =~= Seq::<Seq<char>>::empty());
        while i < n
            invariant
                n == idx@.len(),
                i <= n,
                shown == idx@.map_values(|j: usize| ws@[j as int]),
                forall|k: int| 0 <= k < idx@.len() ==> #[trigger] idx@[k] < ws@.len(),
                views(texts@) == worklog_texts(shown.take(i as int)),
            decreases n - i,
        {
            assert(shown.take(i + 1).drop_last() =~= shown.take(i as int));
            assert(shown.take(i + 1).last() == ws@[idx@[i as int] as int]);
            let t = format_worklog(&ws[idx[i]]);
            let ghost before = views(texts@);
            texts.push(t);
            assert(views(texts@) =~= before.push(t@));
            i = i + 1;
        }
        assert(shown.take(n as int) =~= shown);
        WorklogAnswer::Text(join(&texts, "\n---\n"))
    }
}

/// The answer of the worklog tool when no worklog changed since `since`.
pub fn no_worklogs_since(since: &str) -> (r: String)
    ensures
        r@ == "No worklogs updated since "@ + since@ + "."@,
{
    let mut t = "No worklogs updated since ".to_owned();
    t.append(since);
    t.append(".");
    t
}

/// What the worklog tool does with the identifiers it collected: with none,
/// it answers that no worklog changed since `since` and reads no details;
/// else it reads their details in batches of 1000.
pub fn plan_worklog_details(since: &str, ids: &Vec<i64>) -> (r: Result<Vec<Vec<i64>>, String>)
    ensures
        r is Err <==> ids@.len() == 0,
        r matches Err(m) ==> m@ == "No worklogs updated since "@ + since@ + "."@,
        r matches Ok(cs) ==> batches_of(ids@, batch_views(cs@)),
{
    if ids.len() == 0 {
        Err(no_worklogs_since(since))
    } else {
        Ok(chunk_ids(ids))
    }
}

/// The answer of the worklog tool for an added worklog.
pub fn format_added_worklog(w: &Worklog) -> (r: String)
    ensures
        r@ == confirmation(
            "Worklog added successfully."@,
            "ID: "@,
            w.id,
            "Time Spent: "@,
            w.time_spent,
            "Started: "@,
            w.started,
        ),
{
    format_confirmation(
        "Worklog added successfully.",
        "ID: ",
        &w.id,
        "Time Spent: ",
        &w.time_spent,
        "Started: ",
        &w.started,
    )
}


/// The time range of the worklog tool: its start, and its end when one is
/// given, or the message for the first of them that cannot be read.
pub open spec fn worklog_range(since: Seq<char>, until: Option<Seq<char>>) -> Result<(i64, Option<i64>), Seq<char>> {
    match timestamp_ms(since) {
        Err(e) => Err(e),
        Ok(s) => match until {
            None => Ok((s, None)),
            Some(u) => match timestamp_ms(u) {
                Err(e) => Err(e),
                Ok(v) => Ok((s, Some(v))),
            },
        },
    }
}

/// Reads the time range of the worklog tool.
pub fn parse_worklog_range(since: &str, until: Option<&str>) -> (r: Result<(i64, Option<i64>), String>)
    requires
        timestamp_readable(since@),
        timestamp_ms(since@) is Ok ==> (until matches Some(u) ==> timestamp_readable(u@)),
    ensures
        match r {
            Ok(p) => worklog_range(
                since@,
                match until {
                    Some(u) => Some(u@),
                    None => None,
                },
            ) == Ok::<(i64, Option<i64>), Seq<char>>(p),
            Err(e) => worklog_range(
                since@,
                match until {
                    Some(u) => Some(u@),
                    None => None,
                },
            ) == Err::<(i64, Option<i64>), Seq<char>>(e@),
        },
{
    let s = match parse_timestamp_ms(since) {
        Ok(v) => v,
        Err(e) => return Err(e),
    };
    match until {
        None => Ok((s, None)),
        Some(u) => match parse_timestamp_ms(u) {
            Ok(v) => Ok((s, Some(v))),
            Err(e) => Err(e),
        },
    }
}

/// The worklog that the add-worklog tool sends: the time spent, start and
/// comment given, nothing else.
pub fn worklog_request(time_spent: String, started: Option<String>, comment: Option<String>) -> (r: Worklog)
    ensures
        r.time_spent == Some(time_spent),
        r.started == started,
        r.comment == comment,
        r.id is None && r.issue_id is None && r.author is None && r.time_spent_seconds is None,
        r.created is None && r.updated is None,
{
    Worklog {
        id: None,
        issue_id: None,
        author: None,
        time_spent: Some(time_spent),
        time_spent_seconds: None,
        started,
        created: None,
        updated: None,
        comment,
    }
}

/// Reading a timestamp ignores surrounding white space: two texts that are
/// the same once trimmed read as the same time.
pub proof fn law_timestamp_ignores_surrounding_space(a: Seq<char>, b: Seq<char>, v: i64)
    requires
        trim_seq(a) == trim_seq(b),
    ensures
        timestamp_ms(a) == Ok::<i64, Seq<char>>(v) <==> timestamp_ms(b) == Ok::<i64, Seq<char>>(v),
{
}

/// A Unix time written as an integer reads back as milliseconds: values from
/// 10^10 on as they are, smaller ones as seconds times 1000.
pub proof fn law_integer_timestamps(n: i64)
    requires
        scales(n),
    ensures
        timestamp_readable(decimal(n as int)),
        timestamp_ms(decimal(n as int)) == Ok::<i64, Seq<char>>(scaled_timestamp(n) as i64),
{
    crate::text::law_decimal_round_trip(n);
    crate::text::lemma_decimal_trimmed(n as int);
}

/// Paging never reads past the end of the requested range, and stops after
/// the last page.
pub proof fn law_paging_stays_in_range(page: WorklogChangedSinceBean, until_ms: Option<i64>)
    ensures
        next_since(page, until_ms) matches Some(n) ==> (until_ms matches Some(u) ==> n < u),
        (page.last_page == Some(true) || page.is_last_page == Some(true)) ==> next_since(
            page,
            until_ms,
        ) is None,
{
}


proof fn lemma_matching_matches(ws: Seq<Worklog>, filter: Seq<Seq<char>>)
    ensures
        forall|k: int|
            0 <= k < matching(ws, filter).len() ==> author_matches(
                #[trigger] matching(ws, filter)[k],
                filter,
            ),
        matching(ws, filter).len() <= ws.len(),
    decreases ws.len(),
{
    if ws.len() > 0 {
        lemma_matching_matches(ws.drop_last(), filter);
        let p = matching(ws.drop_last(), filter);
        let r = matching(ws, filter);
        assert forall|k: int| 0 <= k < r.len() implies author_matches(#[trigger] r[k], filter) by {
            if k < p.len() {
                assert(r[k] == p[k]);
            }
        }
    }
}

proof fn lemma_matching_keeps(ws: Seq<Worklog>, filter: Seq<Seq<char>>, i: int)
    requires
        0 <= i < ws.len(),
        author_matches(ws[i], filter),
    ensures
        matching(ws, filter).contains(ws[i]),
    decreases ws.len(),
{
    let p = matching(ws.drop_last(), filter);
    if i == ws.len() - 1 {
        assert(matching(ws, filter)[p.len() as int] == ws[i]);
    } else {
        lemma_matching_keeps(ws.drop_last(), filter, i);
        let k = choose|k: int| 0 <= k < p.len() && p[k] == ws[i];
        if author_matches(ws.last(), filter) {
            assert(matching(ws, filter)[k] == ws[i]);
        } else {
            assert(matching(ws, filter)[k] == ws[i]);
        }
    }
}

/// With an author filter, the worklog tool shows exactly the worklogs whose
/// author matches it: each shown one matches, and each matching one is shown;
/// without a filter it shows them all.
pub proof fn law_author_filter(ws: Seq<Worklog>, filter: Seq<Seq<char>>)
    ensures
        filter.len() > 0 ==> forall|k: int|
            0 <= k < shown_worklogs(ws, filter).len() ==> author_matches(
                #[trigger] shown_worklogs(ws, filter)[k],
                filter,
            ),
        forall|i: int|
            0 <= i < ws.len() && (filter.len() == 0 || author_matches(ws[i], filter))
                ==> #[trigger] shown_worklogs(ws, filter).contains(ws[i]),
        filter.len() == 0 ==> shown_worklogs(ws, filter) == ws,
{
    lemma_matching_matches(ws, filter);
    assert forall|i: int|
        0 <= i < ws.len() && (filter.len() == 0 || author_matches(ws[i], filter))
            implies #[trigger] shown_worklogs(ws, filter).contains(ws[i]) by {
        if filter.len() == 0 {
            assert(shown_worklogs(ws, filter)[i] == ws[i]);
        } else {
            lemma_matching_keeps(ws, filter, i);
        }
    }
}


/// The user name of a worklog's author, empty when it has none.
pub open spec fn author_name(w: Worklog) -> Seq<char> {
    str_or(opt_view(w.author->0.name), ""@)
}

/// The display name of a worklog's author, empty when it has none.
pub open spec fn author_display(w: Worklog) -> Seq<char> {
    str_or(opt_view(w.author->0.display_name), ""@)
}

/// Matching an author ignores case: two worklogs with authors whose user
/// names agree once lower-cased, and whose display names agree once
/// lower-cased, match exactly the same filters.
pub proof fn law_author_match_ignores_case(w1: Worklog, w2: Worklog, filter: Seq<Seq<char>>)
    requires
        w1.author is Some,
        w2.author is Some,
        lowercase(author_name(w1)) == lowercase(author_name(w2)),
        lowercase(author_display(w1)) == lowercase(author_display(w2)),
    ensures
        author_matches(w1, filter) == author_matches(w2, filter),
{
    if author_matches(w1, filter) {
        let k = choose|k: int|
            0 <= k < filter.len() && (lowercase(author_name(w1)) == #[trigger] filter[k]
                || lowercase(author_display(w1)) == filter[k]);
        assert(lowercase(author_name(w2)) == filter[k] || lowercase(author_display(w2)) == filter[k]);
    }
    if author_matches(w2, filter) {
        let k = choose|k: int|
            0 <= k < filter.len() && (lowercase(author_name(w2)) == #[trigger] filter[k]
                || lowercase(author_display(w2)) == filter[k]);
        assert(lowercase(author_name(w1)) == filter[k] || lowercase(author_display(w1)) == filter[k]);
    }
}

/// Filtering by one user keeps every worklog whose author's user name or
/// display name is that user's name in any case.
pub proof fn law_user_filter_ignores_case(ws: Seq<Worklog>, user: String, i: int)
    requires
        0 <= i < ws.len(),
        ws[i].author is Some,
        lowercase(author_name(ws[i])) == lowercase(user@) || lowercase(author_display(ws[i]))
            == lowercase(user@),
    ensures
        shown_worklogs(ws, author_filter(Some(user), None)).contains(ws[i]),
{
    let filter = author_filter(Some(user), None);
    assert(filter =~= seq![lowercase(user@)]);
    assert(filter[0] == lowercase(user@));
    assert(author_matches(ws[i], filter));
    law_author_filter(ws, filter);
}

} // verus!
