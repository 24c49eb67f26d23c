use vstd::prelude::*;
use vstd::string::StrSliceExecFns;
use crate::codec::{digit_val, is_digit};
use crate::record::{models_of, RecordModel, TransactionData};
use crate::store::{records_for, InMemoryDatabase};

verus! {

/// The parameters of one read request: the tracking key, an optional
/// `dd/mm/yyyy` calendar-day filter, and pagination bounds.
#[derive(Debug)]
pub struct TransactionQueryParams {
    pub pub_key: String,
    pub day: Option<String>,
    pub limit: Option<usize>,
    pub offset: Option<usize>,
}

/// Why a read request was rejected.
#[derive(Debug, Clone, PartialEq, Eq, Structural)]
pub enum QueryError {
    /// The `day` parameter is not a well-formed `dd/mm/yyyy` date.
    InvalidDateFormat,
}

/// A calendar date in the proleptic Gregorian calendar, day and month
/// one-based, year of at most four digits.
#[derive(Debug, Clone, Copy, PartialEq, Eq, Structural)]
pub struct Date {
    pub day: u64,
    pub month: u64,
    pub year: u64,
}

pub open spec fn is_leap_year(y: int) -> bool {
    y % 4 == 0 && (y % 100 != 0 || y % 400 == 0)
}

pub open spec fn days_in_month(y: int, m: int) -> int {
    if m == 2 {
        if is_leap_year(y) {
            29
        } else {
            28
        }
    } else if m == 4 || m == 6 || m == 9 || m == 11 {
        30
    } else {
        31
    }
}

/// A date the calendar has, within the four-digit years.
pub open spec fn valid_date(d: Date) -> bool {
    1 <= d.month <= 12 && 1 <= d.day <= days_in_month(d.year as int, d.month as int) && d.year
        <= 9999
}

pub open spec fn days_in_year(y: int) -> int {
    if is_leap_year(y) {
        366
    } else {
        365
    }
}

/// Days from the start of 1970 to the start of year `y`.
pub open spec fn days_before_year(y: int) -> int
    decreases y - 1970,
{
    if y <= 1970 {
        0
    } else {
        days_before_year(y - 1) + days_in_year(y - 1)
    }
}

/// Days from the start of year `y` to the start of its month `m`.
pub open spec fn days_before_month(y: int, m: int) -> int
    decreases m,
{
    if m <= 1 {
        0
    } else {
        days_before_month(y, m - 1) + days_in_month(y, m - 1)
    }
}

/// Days from 1970-01-01 to the date `d` (for years at or after 1970).
pub open spec fn day_number(d: Date) -> int {
    days_before_year(d.year as int) + days_before_month(d.year as int, d.month as int) + d.day - 1
}

/// Whether the timestamp `ts`, read as Unix seconds in UTC, falls on the
/// calendar day `d`.  A day before 1970 holds no such timestamp.
pub open spec fn date_matches_ts(d: Date, ts: u64) -> bool {
    d.year >= 1970 && day_number(d) * 86400 <= ts < (day_number(d) + 1) * 86400
}

proof fn lemma_days_before_year_bound(y: int)
    requires
        1970 <= y <= 10000,
    ensures
        0 <= days_before_year(y) <= (y - 1970) * 366,
    decreases y - 1970,
{
    if y > 1970 {
        lemma_days_before_year_bound(y - 1);
    }
}

proof fn lemma_days_before_month_bound(y: int, m: int)
    requires
        1 <= m <= 13,
    ensures
        0 <= days_before_month(y, m) <= (m - 1) * 31,
    decreases m,
{
    if m > 1 {
        lemma_days_before_month_bound(y, m - 1);
    }
}

fn is_leap_year_x(y: u64) -> (r: bool)
    ensures
        r == is_leap_year(y as int),
{
    y % 4 == 0 && (y % 100 != 0 || y % 400 == 0)
}

fn days_in_month_x(y: u64, m: u64) -> (r: u64)
    ensures
        r == days_in_month(y as int, m as int),
{
    if m == 2 {
        if is_leap_year_x(y) {
            29
        } else {
            28
        }
    } else if m == 4 || m == 6 || m == 9 || m == 11 {
        30
    } else {
        31
    }
}

/// Days from 1970-01-01 to `d`, executably.
fn day_number_of(d: &Date) -> (n: u64)
    requires
        valid_date(*d),
        d.year >= 1970,
    ensures
        n == day_number(*d),
{
    proof {
        lemma_days_before_year_bound(d.year as int);
    }
    let mut days: u64 = 0;
    let mut y: u64 = 1970;
    while y < d.year
        invariant
            1970 <= y <= d.year,
            d.year <= 9999,
            days == days_before_year(y as int),
            days <= (y - 1970) * 366,
        decreases d.year - y,
    {
        proof {
            lemma_days_before_year_bound((y + 1) as int);
        }
        if is_leap_year_x(y) {
            days = days + 366;
        } else {
            days = days + 365;
        }
        y = y + 1;
    }
    let mut m: u64 = 1;
    while m < d.month
        invariant
            1 <= m <= d.month,
            d.month <= 12,
            days == days_before_year(d.year as int) + days_before_month(d.year as int, m as int),
            days_before_year(d.year as int) <= 8030 * 366,
            days <= 8030 * 366 + (m - 1) * 31,
        decreases d.month - m,
    {
        proof {
            lemma_days_before_month_bound(d.year as int, (m + 1) as int);
        }
        days = days + days_in_month_x(d.year, m);
        m = m + 1;
    }
    days + (d.day - 1)
}

/// Whether the timestamp falls on the given day: the read path's
/// per-record date test.
pub fn is_same_day(timestamp: u64, date: &Date) -> (r: bool)
    requires
        valid_date(*date),
    ensures
        r == date_matches_ts(*date, timestamp),
{
    if date.year < 1970 {
        return false;
    }
    let n = day_number_of(date);
    proof {
        lemma_days_before_year_bound(date.year as int);
        lemma_days_before_month_bound(date.year as int, date.month as int);
    }
    let lo = n * 86400;
    timestamp >= lo && timestamp < lo + 86400
}

/// The date a `dd/mm/yyyy` string names: exactly ten characters, two digits,
/// a slash, two digits, a slash, four digits, and a day the calendar has.
pub open spec fn parse_date_spec(s: Seq<char>) -> Option<Date> {
    if s.len() == 10 && s[2] == '/' && s[5] == '/' && is_digit(s[0]) && is_digit(s[1]) && is_digit(
        s[3],
    ) && is_digit(s[4]) && is_digit(s[6]) && is_digit(s[7]) && is_digit(s[8]) && is_digit(s[9]) {
        let d = digit_val(s[0]) * 10 + digit_val(s[1]);
        let m = digit_val(s[3]) * 10 + digit_val(s[4]);
        let y = digit_val(s[6]) * 1000 + digit_val(s[7]) * 100 + digit_val(s[8]) * 10 + digit_val(
            s[9],
        );
        let date = Date { day: d as u64, month: m as u64, year: y as u64 };
        if valid_date(date) {
            Some(date)
        } else {
            None
        }
    } else {
        None
    }
}

/// Reads a digit character at `i`, or gives up on the whole date.
fn digit_at(s: &str, i: usize) -> (r: Option<u64>)
    requires
        i < s@.len(),
    ensures
        match r {
            Some(v) => is_digit(s@[i as int]) && v == digit_val(s@[i as int]),
            None => !is_digit(s@[i as int]),
        },
{
    let c = s.get_char(i) as u32;
    if 48 <= c && c <= 57 {
        Some(((c - 48) as u64))
    } else {
        None
    }
}

/// Parses a `dd/mm/yyyy` date string.
pub fn parse_date(date_str: &str) -> (r: Option<Date>)
    ensures
        r == parse_date_spec(date_str@),
{
    if date_str.unicode_len() != 10 {
        return None;
    }
    if date_str.get_char(2) != '/' || date_str.get_char(5) != '/' {
        return None;
    }
    let d1 = match digit_at(date_str, 0) {
        Some(v) => v,
        None => {
            return None;
        },
    };
    let d2 = match digit_at(date_str, 1) {
        Some(v) => v,
        None => {
            return None;
        },
    };
    let m1 = match digit_at(date_str, 3) {
        Some(v) => v,
        None => {
            return None;
        },
    };
    let m2 = match digit_at(date_str, 4) {
        Some(v) => v,
        None => {
            return None;
        },
    };
    let y1 = match digit_at(date_str, 6) {
        Some(v) => v,
        None => {
            return None;
        },
    };
    let y2 = match digit_at(date_str, 7) {
        Some(v) => v,
        None => {
            return None;
        },
    };
    let y3 = match digit_at(date_str, 8) {
        Some(v) => v,
        None => {
            return None;
        },
    };
    let y4 = match digit_at(date_str, 9) {
        Some(v) => v,
        None => {
            return None;
        },
    };
    let date = Date {
        day: d1 * 10 + d2,
        month: m1 * 10 + m2,
        year: y1 * 1000 + y2 * 100 + y3 * 10 + y4,
    };
    if date.month < 1 || date.month > 12 {
        return None;
    }
    if date.day < 1 || date.day > days_in_month_x(date.year, date.month) {
        return None;
    }
    Some(date)
}

/// The records of `s` whose timestamp falls on the day `d`, in order.
pub open spec fn filter_by_day(s: Seq<RecordModel>, d: Date) -> Seq<RecordModel>
    decreases s.len(),
{
    if s.len() == 0 {
        Seq::empty()
    } else {
        filter_by_day(s.drop_last(), d) + if date_matches_ts(d, s.last().timestamp) {
            seq![s.last()]
        } else {
            Seq::empty()
        }
    }
}

/// `s` filtered by the day, if one was asked for.
pub open spec fn filtered(s: Seq<RecordModel>, day: Option<Date>) -> Seq<RecordModel> {
    match day {
        None => s,
        Some(d) => filter_by_day(s, d),
    }
}

/// The page of `s` that skips `offset` records and then takes up to `limit`.
pub open spec fn page_of(s: Seq<RecordModel>, offset: int, limit: int) -> Seq<RecordModel> {
    let lo = if offset <= s.len() {
        offset
    } else {
        s.len() as int
    };
    let hi = if offset + limit <= s.len() {
        offset + limit
    } else {
        s.len() as int
    };
    if hi >= lo {
        s.subrange(lo, hi)
    } else {
        s.subrange(lo, lo)
    }
}

/// Law: for a stored sequence of length `L`, a page with bounds `offset` and
/// `limit` holds `min(limit, max(L - offset, 0))` records, and is exactly the
/// slice of the sequence from `offset` on, clipped at its end: nothing is
/// reordered.
pub proof fn lemma_pagination(s: Seq<RecordModel>, offset: int, limit: int)
    requires
        0 <= offset,
        0 <= limit,
    ensures
        page_of(s, offset, limit).len() == vstd::math::min(
            limit,
            vstd::math::max(s.len() - offset, 0),
        ),
        forall|k: int|
            0 <= k < page_of(s, offset, limit).len() ==> #[trigger] page_of(s, offset, limit)[k]
                == s[offset + k],
{
}

/// The day filter a request names: `Some(filter)` when the request is
/// acceptable, `None` when its day string is malformed.
pub open spec fn day_filter_of(day: Option<Seq<char>>) -> Option<Option<Date>> {
    match day {
        None => Some(None),
        Some(ds) => match parse_date_spec(ds) {
            Some(d) => Some(Some(d)),
            None => None,
        },
    }
}

/// The `day` parameter's characters, if one was given.
pub open spec fn day_view(p: &TransactionQueryParams) -> Option<Seq<char>> {
    match p.day {
        None => None,
        Some(ds) => Some(ds@),
    }
}

/// The page size a request asks for; five when it names none.
pub open spec fn limit_of(p: &TransactionQueryParams) -> usize {
    match p.limit {
        None => 5usize,
        Some(l) => l,
    }
}

/// The offset a request asks for; zero when it names none.
pub open spec fn offset_of(p: &TransactionQueryParams) -> usize {
    match p.offset {
        None => 0usize,
        Some(o) => o,
    }
}

/// Answers one read request from the store: the records under the request's
/// key, filtered to its calendar day if one was given, then paginated.  A
/// malformed day string is rejected before any further work, and the store
/// is never changed.
pub fn query_transactions(db: &InMemoryDatabase, params: &TransactionQueryParams) -> (r: Result<
    Vec<TransactionData>,
    QueryError,
>)
    ensures
        match r {
            Ok(v) => day_filter_of(day_view(params)) is Some && models_of(v@) == page_of(
                filtered(
                    records_for(db@, params.pub_key@),
                    day_filter_of(day_view(params))->Some_0,
                ),
                offset_of(params) as int,
                limit_of(params) as int,
            ),
            Err(e) => day_filter_of(day_view(params)) is None && e == QueryError::InvalidDateFormat,
        },
{
    let day_filter: Option<Date> = match &params.day {
        None => None,
        Some(ds) => match parse_date(ds.as_str()) {
            Some(d) => Some(d),
            None => {
                return Err(QueryError::InvalidDateFormat);
            },
        },
    };
    let records = db.get_transactions(params.pub_key.as_str());
    let ghost rm = records_for(db@, params.pub_key@);
    let filtered_records: Vec<TransactionData> = match &day_filter {
        None => records,
        Some(d) => {
            let mut out: Vec<TransactionData> = Vec::new();
            proof {
                assert(models_of(out@) =~= filter_by_day(rm.take(0), *d));
            }
            let mut i: usize = 0;
            while i < records.len()
                invariant
                    i <= records.len(),
                    valid_date(*d),
                    models_of(records@) == rm,
                    models_of(out@) == filter_by_day(rm.take(i as int), *d),
                decreases records.len() - i,
            {
                let ghost prev = out@;
                proof {
                    assert(rm.take(i + 1).drop_last() =~= rm.take(i as int));
                    assert(rm.take(i + 1).last() == records@[i as int]@);
                }
                if is_same_day(records[i].timestamp, d) {
                    out.push(records[i].duplicate());
                    proof {
                        assert(models_of(out@) =~= models_of(prev).push(records@[i as int]@));
                        assert(models_of(out@) =~= filter_by_day(rm.take(i as int), *d) + seq![
                            records@[i as int]@,
                        ]);
                    }
                } else {
                    proof {
                        assert(models_of(out@) =~= filter_by_day(rm.take(i as int), *d)
                            + Seq::<RecordModel>::empty());
                    }
                }
                i = i + 1;
            }
            proof {
                assert(rm.take(records@.len() as int) =~= rm);
            }
            out
        },
    };
    let ghost fm = filtered(rm, day_filter);
    let limit = match params.limit {
        Some(l) => l,
        None => 5,
    };
    let offset = match params.offset {
        Some(o) => o,
        None => 0,
    };
    let mut page: Vec<TransactionData> = Vec::new();
    if offset < filtered_records.len() {
        let mut idx: usize = offset;
        proof {
            assert(models_of(page@) =~= fm.subrange(offset as int, offset as int));
        }
        while idx < filtered_records.len() && page.len() < limit
            invariant
                offset <= idx <= filtered_records.len(),
                models_of(filtered_records@) == fm,
                page@.len() == idx - offset,
                page@.len() <= limit,
                models_of(page@) == fm.subrange(offset as int, idx as int),
            decreases filtered_records.len() - idx,
        {
            let ghost prev = page@;
            page.push(filtered_records[idx].duplicate());
            proof {
                assert(models_of(page@) =~= models_of(prev).push(filtered_records@[idx as int]@));
                assert(models_of(page@) =~= fm.subrange(offset as int, idx + 1));
            }
            idx = idx + 1;
        }
        proof {
            assert(models_of(page@) =~= page_of(fm, offset as int, limit as int));
        }
    } else {
        proof {
            assert(models_of(page@) =~= page_of(fm, offset as int, limit as int));
        }
    }
    Ok(page)
}

} // verus!
