//! The history view: uptime tallies over a time range and its timeline of
//! buckets, from the entries of the uptime log.
//!
//! Times are nanoseconds on the caller's wall clock. The averages and
//! percentages that need floating point are left to the caller; every
//! decision here is made on integers.

use vstd::prelude::*;
use chrono::TimeZone;
use crate::hoststate::{range_buckets, range_secs, HistoryRange};
use crate::records::{csv_rows, read_csv_rows, row_views};
use crate::registry::{log_text, log_up};
use crate::text::str_eq;

verus! {

/// One uptime-log entry of a host.
#[derive(Clone, Copy, Debug)]
pub struct LogPoint {
    pub ts_ns: i64,
    pub up: bool,
}

/// The tallies of a history range.
#[derive(Debug)]
pub struct HistoryCounts {
    pub total: usize,
    pub up: usize,
    pub down: usize,
    /// The index of the latest down entry in range (the later one on a tie).
    pub last_down: Option<usize>,
    /// One flag per bucket, oldest first: `true` for mostly up.
    pub buckets: Vec<bool>,
}

pub open spec fn range_ns(r: HistoryRange) -> int {
    range_secs(r) * 1_000_000_000
}

/// Entries at or after `lo` and before `hi` (no upper end when `hi` is
/// `None`), counting only up entries when `only_up`.
pub open spec fn count_between(es: Seq<LogPoint>, lo: int, hi: Option<int>, only_up: bool) -> nat
    decreases es.len(),
{
    if es.len() == 0 {
        0
    } else {
        let e = es.last();
        count_between(es.drop_last(), lo, hi, only_up) + if lo <= e.ts_ns && (match hi {
            Some(h) => e.ts_ns < h,
            None => true,
        }) && (!only_up || e.up) {
            1nat
        } else {
            0nat
        }
    }
}

proof fn lemma_count_bounds(es: Seq<LogPoint>, lo: int, hi: Option<int>)
    ensures
        count_between(es, lo, hi, true) <= count_between(es, lo, hi, false),
        count_between(es, lo, hi, false) <= es.len(),
    decreases es.len(),
{
    if es.len() > 0 {
        lemma_count_bounds(es.drop_last(), lo, hi);
    }
}

/// `j` is the latest down entry at or after `cutoff`; on equal times the
/// later entry wins.
pub open spec fn is_last_down(es: Seq<LogPoint>, cutoff: int, j: int) -> bool {
    &&& 0 <= j < es.len()
    &&& es[j].ts_ns >= cutoff
    &&& !es[j].up
    &&& forall|k: int|
        0 <= k < es.len() && #[trigger] es[k].ts_ns >= cutoff && !es[k].up ==> es[k].ts_ns
            < es[j].ts_ns || (es[k].ts_ns == es[j].ts_ns && k <= j)
}

pub open spec fn has_down_after(es: Seq<LogPoint>, cutoff: int) -> bool {
    exists|k: int| 0 <= k < es.len() && #[trigger] es[k].ts_ns >= cutoff && !es[k].up
}

/// Bucket `i` of a range that starts at `cutoff`: mostly up when it holds
/// entries; otherwise up when the whole range is at least half up.
pub open spec fn bucket_up(es: Seq<LogPoint>, cutoff: int, width: int, i: int) -> bool {
    let lo = cutoff + width * i;
    let n = count_between(es, lo, Some(lo + width), false);
    let u = count_between(es, lo, Some(lo + width), true);
    let total = count_between(es, cutoff, None, false);
    let ups = count_between(es, cutoff, None, true);
    if n > 0 {
        2 * u >= n
    } else {
        total > 0 && 2 * ups >= total
    }
}

/// The entries at or after `lo` and before `hi` (no upper end when `hi` is
/// `None`).
pub open spec fn in_window(lo: int, hi: Option<int>) -> spec_fn(LogPoint) -> bool {
    |e: LogPoint| lo <= e.ts_ns && (match hi {
        Some(h) => e.ts_ns < h,
        None => true,
    })
}

/// The up entries of a window.
pub open spec fn up_in_window(lo: int, hi: Option<int>) -> spec_fn(LogPoint) -> bool {
    |e: LogPoint| lo <= e.ts_ns && (match hi {
        Some(h) => e.ts_ns < h,
        None => true,
    }) && e.up
}

proof fn lemma_count_is_filter(es: Seq<LogPoint>, lo: int, hi: Option<int>)
    ensures
        count_between(es, lo, hi, false) == es.filter(in_window(lo, hi)).len(),
        count_between(es, lo, hi, true) == es.filter(up_in_window(lo, hi)).len(),
    decreases es.len(),
{
    reveal(Seq::filter);
    if es.len() > 0 {
        lemma_count_is_filter(es.drop_last(), lo, hi);
    }
}

/// A bucket of the timeline that holds entries is mostly up exactly when at
/// least half of its entries are up: all up gives up, all down gives down.
/// An empty bucket follows the whole range the same way (and is down when
/// the range holds no entry).
pub proof fn law_bucket_is_majority_up(es: Seq<LogPoint>, cutoff: int, width: int, i: int)
    ensures
        ({
            let lo = cutoff + width * i;
            let n = es.filter(in_window(lo, Some(lo + width))).len();
            let u = es.filter(up_in_window(lo, Some(lo + width))).len();
            let total = es.filter(in_window(cutoff, None)).len();
            let ups = es.filter(up_in_window(cutoff, None)).len();
            &&& n > 0 ==> (bucket_up(es, cutoff, width, i) <==> 2 * u >= n)
            &&& n > 0 && u == n ==> bucket_up(es, cutoff, width, i)
            &&& n > 0 && u == 0 ==> !bucket_up(es, cutoff, width, i)
            &&& n == 0 ==> (bucket_up(es, cutoff, width, i) <==> total > 0 && 2 * ups >= total)
        }),
{
    let lo = cutoff + width * i;
    lemma_count_is_filter(es, lo, Some(lo + width));
    lemma_count_is_filter(es, cutoff, None);
}

/// The range's tallies count its entries: all entries at or after the
/// cutoff, the up ones among them, and the rest down.
pub proof fn law_range_tallies(es: Seq<LogPoint>, cutoff: int)
    ensures
        count_between(es, cutoff, None, false) == es.filter(in_window(cutoff, None)).len(),
        count_between(es, cutoff, None, true) == es.filter(up_in_window(cutoff, None)).len(),
        count_between(es, cutoff, None, false) - count_between(es, cutoff, None, true) == es.filter(
            |e: LogPoint| cutoff <= e.ts_ns && !e.up,
        ).len(),
    decreases es.len(),
{
    reveal(Seq::filter);
    lemma_count_is_filter(es, cutoff, None);
    if es.len() > 0 {
        law_range_tallies(es.drop_last(), cutoff);
        lemma_count_bounds(es.drop_last(), cutoff, None);
    }
}

/// Tallies the entries of the range that ends at `now_ns`.
pub fn history_counts(entries: &Vec<LogPoint>, now_ns: i64, range: HistoryRange) -> (r: HistoryCounts)
    requires
        now_ns >= i64::MIN + 1_000_000_000_000_000,
    ensures
        ({
            let es = entries@;
            let cutoff = now_ns - range_ns(range);
            let width = range_ns(range) / (range_buckets(range) as int);
            &&& r.total == count_between(es, cutoff, None, false)
            &&& r.up == count_between(es, cutoff, None, true)
            &&& r.down == r.total - r.up
            &&& match r.last_down {
                Some(j) => is_last_down(es, cutoff, j as int),
                None => !has_down_after(es, cutoff),
            }
            &&& r.buckets.len() == range_buckets(range)
            &&& forall|i: int|
                0 <= i < r.buckets.len() ==> #[trigger] r.buckets@[i] == bucket_up(
                    es,
                    cutoff,
                    width,
                    i,
                )
        }),
{
    let ghost es = entries@;
    let dur: i64 = (range.duration_secs() as i64) * 1_000_000_000;
    let count = range.bucket_count();
    let width: i64 = dur / (count as i64);
    assert(width * (count as i64) == dur);
    let cutoff: i64 = now_ns - dur;
    let mut total: usize = 0;
    let mut ups: usize = 0;
    let mut last_down: Option<usize> = None;
    let mut k: usize = 0;
    while k < entries.len()
        invariant
            0 <= k <= entries.len(),
            es == entries@,
            total == count_between(es.take(k as int), cutoff as int, None, false),
            ups == count_between(es.take(k as int), cutoff as int, None, true),
            match last_down {
                Some(j) => j < k && is_last_down(es.take(k as int), cutoff as int, j as int),
                None => !has_down_after(es.take(k as int), cutoff as int),
            },
        decreases entries.len() - k,
    {
        proof {
            lemma_count_bounds(es.take(k as int), cutoff as int, None);
        }
        let e = entries[k];
        let ghost t = es.take(k + 1);
        assert(t.drop_last() =~= es.take(k as int));
        assert(t.last() == e);
        if e.ts_ns >= cutoff {
            total += 1;
            if e.up {
                ups += 1;
            }
            if !e.up {
                let replace = match last_down {
                    Some(j) => entries[j].ts_ns <= e.ts_ns,
                    None => true,
                };
                if replace {
                    last_down = Some(k);
                }
            }
        }
        proof {
            let p = es.take(k as int);
            match last_down {
                Some(j) => {
                    assert forall|m: int|
                        0 <= m < t.len() && #[trigger] t[m].ts_ns >= cutoff && !t[m].up implies t[m].ts_ns
                        < t[j as int].ts_ns || (t[m].ts_ns == t[j as int].ts_ns && m <= j) by {
                        if m < k {
                            assert(t[m] == p[m]);
                            if j < k {
                                assert(t[j as int] == p[j as int]);
                            } else {
                                if has_down_after(p, cutoff as int) {
                                    assert(p[m].ts_ns >= cutoff && !p[m].up);
                                }
                            }
                        }
                    }
                    if j < k {
                        assert(t[j as int] == p[j as int]);
                    }
                },
                None => {
                    assert forall|m: int| 0 <= m < t.len() implies !(#[trigger] t[m].ts_ns
                        >= cutoff && !t[m].up) by {
                        if m < k {
                            assert(t[m] == p[m]);
                        }
                    }
                },
            }
        }
        k += 1;
    }
    assert(es.take(entries.len() as int) =~= es);
    proof {
        lemma_count_bounds(es, cutoff as int, None);
    }
    let mut buckets: Vec<bool> = Vec::new();
    let mut i: usize = 0;
    while i < count
        invariant
            0 <= i <= count,
            es == entries@,
            count == range_buckets(range),
            width == range_ns(range) / (count as int),
            width * (count as int) == range_ns(range),
            cutoff == now_ns - range_ns(range),
            now_ns >= i64::MIN + 1_000_000_000_000_000,
            total == count_between(es, cutoff as int, None, false),
            ups == count_between(es, cutoff as int, None, true),
            buckets.len() == i,
            forall|b: int|
                0 <= b < i ==> #[trigger] buckets@[b] == bucket_up(es, cutoff as int, width as int, b),
        decreases count - i,
    {
        assert(0 <= width * (i as int) <= width * (count as int)) by (nonlinear_arith)
            requires
                0 <= i <= count,
                width > 0,
        ;
        assert(width * (i as int) + width <= width * (count as int)) by (nonlinear_arith)
            requires
                0 <= i < count,
                width > 0,
        ;
        let lo: i64 = cutoff + width * (i as i64);
        let hi: i64 = lo + width;
        let mut n: usize = 0;
        let mut u: usize = 0;
        let mut m: usize = 0;
        while m < entries.len()
            invariant
                0 <= m <= entries.len(),
                es == entries@,
                n == count_between(es.take(m as int), lo as int, Some(hi as int), false),
                u == count_between(es.take(m as int), lo as int, Some(hi as int), true),
            decreases entries.len() - m,
        {
            proof {
                lemma_count_bounds(es.take(m as int), lo as int, Some(hi as int));
            }
            let e = entries[m];
            assert(es.take(m + 1).drop_last() =~= es.take(m as int));
            assert(es.take(m + 1).last() == e);
            if lo <= e.ts_ns && e.ts_ns < hi {
                n += 1;
                if e.up {
                    u += 1;
                }
            }
            m += 1;
        }
        assert(es.take(entries.len() as int) =~= es);
        let b = if n > 0 {
            2 * (u as u128) >= n as u128
        } else {
            total > 0 && 2 * (ups as u128) >= total as u128
        };
        buckets.push(b);
        i += 1;
    }
    HistoryCounts { total, up: ups, down: total - ups, last_down, buckets }
}

// ---------------------------------------------------------------------------
// Reading a host's entries from the log
// ---------------------------------------------------------------------------

/// The format of the log's timestamps.
pub open spec fn log_time_format() -> Seq<char> {
    "%Y-%m-%d %H:%M:%S"@
}

/// The wall-clock time `chrono::NaiveDateTime::parse_from_str` reads from
/// `text` in `format`, as seconds since 1970-01-01 00:00:00 on that wall
/// clock; `None` when the text does not parse.
pub uninterp spec fn naive_time(text: Seq<char>, format: Seq<char>) -> Option<i64>;

/// Parses a wall-clock time with `chrono::NaiveDateTime::parse_from_str`
/// and gives its seconds (`and_utc().timestamp()`). The contract names the
/// result; it does not restate the format's grammar.
#[verifier::external_body]
fn parse_naive_time(text: &str, format: &str) -> (r: Option<i64>)
    ensures
        r == naive_time(text@, format@),
{
    chrono::NaiveDateTime::parse_from_str(text, format).ok().map(|t| t.and_utc().timestamp())
}

/// Places a wall-clock time (seconds, as `naive_time` gives them) in the
/// machine's time zone with `chrono::Local`, as nanoseconds since the
/// epoch; a time that does not exist there, or exists twice, becomes the
/// current time. Nothing is stated of the result: it rests on the time
/// zone and the clock.
#[verifier::external_body]
fn local_time_ns(naive_secs: i64) -> (r: i64) {
    let naive = chrono::DateTime::from_timestamp(naive_secs, 0).map(|d| d.naive_utc());
    let local = naive.and_then(|n| chrono::Local.from_local_datetime(&n).single());
    local.unwrap_or_else(chrono::Local::now).timestamp_nanos_opt().unwrap_or(0)
}

/// One log entry of a host: its wall-clock time, the point on the local
/// time line, and the latency text as logged (empty when missing).
pub struct LogLine {
    pub naive_secs: i64,
    pub point: LogPoint,
    pub latency: String,
}

pub open spec fn line_views(s: Seq<LogLine>) -> Seq<(i64, bool, Seq<char>)> {
    s.map_values(|l: LogLine| (l.naive_secs, l.point.up, l.latency@))
}

/// The entries of `host` among readable log rows, in file order: each row
/// naming the host whose timestamp parses gives its time, whether it is
/// `UP`, and its latency text. Unreadable rows are skipped.
pub open spec fn host_lines(rows: Seq<Option<Seq<Seq<char>>>>, host: Seq<char>) -> Seq<
    (i64, bool, Seq<char>),
>
    decreases rows.len(),
{
    if rows.len() == 0 {
        Seq::empty()
    } else {
        let rest = host_lines(rows.drop_last(), host);
        match rows.last() {
            Some(rec) => if log_text(rec, 1) == host {
                match naive_time(log_text(rec, 0), log_time_format()) {
                    Some(t) => rest.push((t, log_up(rec), log_text(rec, 3))),
                    None => rest,
                }
            } else {
                rest
            },
            None => rest,
        }
    }
}

fn field_or_empty(rec: &Vec<String>, k: usize) -> (r: String)
    ensures
        r@ == log_text(crate::config::string_views(rec@), k as int),
{
    if k < rec.len() {
        rec[k].clone()
    } else {
        proof {
            reveal_strlit("");
        }
        "".to_string()
    }
}

/// The entries of `host` in the uptime log `data` (see `host_lines`), each
/// placed on the local time line.
pub fn host_log_entries(data: &[u8], host: &str) -> (r: Vec<LogLine>)
    ensures
        line_views(r@) == host_lines(csv_rows(data@, false), host@),
{
    let rows = read_csv_rows(data, false);
    let ghost rv = row_views(rows@);
    let mut out: Vec<LogLine> = Vec::new();
    let mut i: usize = 0;
    while i < rows.len()
        invariant
            0 <= i <= rows.len(),
            rv == row_views(rows@),
            line_views(out@) == host_lines(rv.take(i as int), host@),
        decreases rows.len() - i,
    {
        assert(rv.take(i + 1).drop_last() =~= rv.take(i as int));
        assert(rv.take(i + 1).last() == rv[i as int]);
        if let Some(rec) = &rows[i] {
            let ghost v = crate::config::string_views(rec@);
            let name = field_or_empty(rec, 1);
            if str_eq(name.as_str(), host) {
                let ts = field_or_empty(rec, 0);
                proof {
                    reveal_strlit("%Y-%m-%d %H:%M:%S");
                }
                if let Some(t) = parse_naive_time(ts.as_str(), "%Y-%m-%d %H:%M:%S") {
                    let status = field_or_empty(rec, 2);
                    let up = rec.len() > 2 && str_eq(status.as_str(), "UP");
                    proof {
                        reveal_strlit("UP");
                        assert(up == log_up(v));
                    }
                    let latency = field_or_empty(rec, 3);
                    let ghost before = out@;
                    out.push(LogLine { naive_secs: t, point: LogPoint { ts_ns: local_time_ns(t), up }, latency });
                    assert(line_views(out@) =~= line_views(before).push((t, up, latency@)));
                }
            }
        }
        i += 1;
    }
    assert(rv.take(rows.len() as int) =~= rv);
    out
}

} // verus!
