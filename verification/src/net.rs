//! Probe scheduling: per-host schedules, start-up jitter, the worker's next
//! step, and reading a `ping` reply.
//!
//! Times are milliseconds on a monotonic clock whose origin the caller picks.

use vstd::prelude::*;
use crate::config::{effective_interval, host_views, opt_view, HostConfig, HostView};

verus! {

/// What `DefaultHasher::new()` yields for `name` after hashing it and
/// finishing. Every hasher made by `DefaultHasher::new` is the same, so the
/// value depends on `name` alone.
pub uninterp spec fn default_hash(name: Seq<char>) -> u64;

/// Hashes `name` with `std::collections::hash_map::DefaultHasher` (its
/// `Hash for str` impl, then `finish`). The contract claims only that the
/// result is the same for the same text.
#[verifier::external_body]
fn hash_name(name: &str) -> (h: u64)
    ensures
        h == default_hash(name@),
{
    let mut s = std::collections::hash_map::DefaultHasher::new();
    std::hash::Hash::hash(name, &mut s);
    std::hash::Hasher::finish(&s)
}

/// The largest jitter plus one: half the interval, kept within 1 ..= 30.
pub open spec fn jitter_span(interval_secs: u64) -> u64 {
    let half = interval_secs / 2;
    if half < 1 {
        1
    } else if half > 30 {
        30
    } else {
        half
    }
}

/// The start-up offset of a host, in seconds.
pub open spec fn jitter_of(name: Seq<char>, interval_secs: u64) -> u64 {
    (default_hash(name) % jitter_span(interval_secs)) as u64
}

/// A deterministic per-host offset in seconds that spreads the first checks
/// of hosts with the same interval.
pub fn host_jitter(name: &str, interval_secs: u64) -> (r: u64)
    ensures
        r == jitter_of(name@, interval_secs),
        r < jitter_span(interval_secs),
        r < 30,
{
    let hash = hash_name(name);
    let half = interval_secs / 2;
    let max_jitter = if half < 1 {
        1
    } else if half > 30 {
        30
    } else {
        half
    };
    hash % max_jitter
}

/// The same name and interval always give the same jitter, and it is always
/// below 30 seconds.
pub proof fn lemma_jitter_deterministic_bounded(a: Seq<char>, b: Seq<char>, interval_secs: u64)
    requires
        a == b,
    ensures
        jitter_of(a, interval_secs) == jitter_of(b, interval_secs),
        jitter_of(a, interval_secs) < 30,
{
}

/// When a host is next due.
#[derive(Debug)]
pub struct HostSchedule {
    pub name: String,
    pub port: Option<u16>,
    pub interval_secs: u64,
    /// Milliseconds on the caller's monotonic clock.
    pub next_ping_ms: u64,
}

pub ghost struct ScheduleView {
    pub name: Seq<char>,
    pub port: Option<u16>,
    pub interval_secs: u64,
    pub next_ping_ms: u64,
}

impl View for HostSchedule {
    type V = ScheduleView;

    open spec fn view(&self) -> ScheduleView {
        ScheduleView {
            name: self.name@,
            port: self.port,
            interval_secs: self.interval_secs,
            next_ping_ms: self.next_ping_ms,
        }
    }
}

pub open spec fn schedule_views(s: Seq<HostSchedule>) -> Seq<ScheduleView> {
    s.map_values(|x: HostSchedule| x@)
}

/// The schedule of one host at time `now_ms`: its effective interval, first
/// check after its jitter.
pub open spec fn schedule_for(h: HostView, now_ms: u64) -> ScheduleView {
    let interval = effective_interval(h);
    ScheduleView {
        name: h.name,
        port: h.port,
        interval_secs: interval,
        next_ping_ms: (now_ms + jitter_of(h.name, interval) * 1000) as u64,
    }
}

/// One schedule per host, in config order.
pub fn schedules_from_config(hosts: &Vec<HostConfig>, now_ms: u64) -> (r: Vec<HostSchedule>)
    requires
        now_ms + 30000 <= u64::MAX,
    ensures
        r.len() == hosts.len(),
        forall|i: int|
            0 <= i < hosts.len() ==> #[trigger] r@[i]@ == schedule_for(hosts@[i]@, now_ms),
{
    let mut r: Vec<HostSchedule> = Vec::new();
    let mut i: usize = 0;
    while i < hosts.len()
        invariant
            0 <= i <= hosts.len(),
            now_ms + 30000 <= u64::MAX,
            r.len() == i,
            forall|k: int| 0 <= k < i ==> #[trigger] r@[k]@ == schedule_for(hosts@[k]@, now_ms),
        decreases hosts.len() - i,
    {
        let h = &hosts[i];
        let interval_secs = h.effective_interval_secs();
        let j = host_jitter(h.name.as_str(), interval_secs);
        r.push(
            HostSchedule {
                name: h.name.clone(),
                port: h.port,
                interval_secs,
                next_ping_ms: now_ms + j * 1000,
            },
        );
        i += 1;
    }
    r
}

/// What the probe worker does next.
#[derive(Debug, PartialEq, Eq, Structural)]
pub enum WorkerStep {
    /// Check the host at this index of the schedule list now.
    Check(usize),
    /// Nothing is due; sleep this many milliseconds.
    Sleep(u64),
}

/// The index of the first schedule with the smallest `next_ping_ms`.
pub open spec fn is_first_min(s: Seq<ScheduleView>, i: int) -> bool {
    &&& 0 <= i < s.len()
    &&& forall|k: int| 0 <= k < s.len() ==> s[i].next_ping_ms <= #[trigger] s[k].next_ping_ms
    &&& forall|k: int| 0 <= k < i ==> s[i].next_ping_ms < #[trigger] s[k].next_ping_ms
}

/// The worker's step at `now_ms`: the earliest-due host (the first one on a
/// tie) is checked when its time has come; otherwise the worker sleeps until
/// it is due, at most 100 ms; with no hosts it sleeps 100 ms.
pub fn next_worker_step(scheds: &Vec<HostSchedule>, now_ms: u64) -> (r: WorkerStep)
    ensures
        scheds.len() == 0 ==> r == WorkerStep::Sleep(100),
        scheds.len() > 0 ==> exists|i: int|
            #![trigger is_first_min(schedule_views(scheds@), i)]
            is_first_min(schedule_views(scheds@), i) && (if scheds@[i].next_ping_ms <= now_ms {
                r == WorkerStep::Check(i as usize)
            } else {
                r == WorkerStep::Sleep(
                    if scheds@[i].next_ping_ms - now_ms < 100 {
                        (scheds@[i].next_ping_ms - now_ms) as u64
                    } else {
                        100
                    },
                )
            }),
{
    if scheds.len() == 0 {
        return WorkerStep::Sleep(100);
    }
    let ghost v = schedule_views(scheds@);
    let mut best: usize = 0;
    let mut i: usize = 1;
    while i < scheds.len()
        invariant
            1 <= i <= scheds.len(),
            best < i,
            v == schedule_views(scheds@),
            forall|k: int| 0 <= k < i ==> v[best as int].next_ping_ms <= #[trigger] v[k].next_ping_ms,
            forall|k: int| 0 <= k < best ==> v[best as int].next_ping_ms < #[trigger] v[k].next_ping_ms,
        decreases scheds.len() - i,
    {
        if scheds[i].next_ping_ms < scheds[best].next_ping_ms {
            best = i;
        }
        i += 1;
    }
    assert(is_first_min(v, best as int));
    let due = scheds[best].next_ping_ms;
    if due <= now_ms {
        WorkerStep::Check(best)
    } else {
        let wait = due - now_ms;
        WorkerStep::Sleep(
            if wait < 100 {
                wait
            } else {
                100
            },
        )
    }
}

/// When a host checked at `now_ms` is next due: one interval plus its jitter.
pub open spec fn next_due(name: Seq<char>, interval_secs: u64, now_ms: u64) -> int {
    now_ms + interval_secs * 1000 + jitter_of(name, interval_secs) * 1000
}

/// A host checked at `now_ms` is next due one whole interval later, plus
/// its jitter: never sooner than the interval, less than 30 s later than it,
/// and (for intervals of two seconds or more) less than half an interval
/// later.
pub proof fn law_next_check_one_interval_later(name: Seq<char>, interval_secs: u64, now_ms: u64)
    ensures
        now_ms + interval_secs * 1000 <= next_due(name, interval_secs, now_ms),
        next_due(name, interval_secs, now_ms) < now_ms + interval_secs * 1000 + 30000,
        interval_secs >= 2 ==> next_due(name, interval_secs, now_ms) < now_ms + interval_secs
            * 1000 + (interval_secs / 2) * 1000,
        next_due(name, interval_secs, now_ms) - now_ms - interval_secs * 1000 == jitter_of(
            name,
            interval_secs,
        ) * 1000,
{
    assert(jitter_of(name, interval_secs) < jitter_span(interval_secs));
}

/// A host's first check comes within its jitter of start-up: at or after
/// `now_ms` and less than 30 s later, with the host's own interval.
pub proof fn law_first_check_within_jitter(h: HostView, now_ms: u64)
    requires
        now_ms + 30000 <= u64::MAX,
    ensures
        now_ms <= schedule_for(h, now_ms).next_ping_ms < now_ms + 30000,
        schedule_for(h, now_ms).interval_secs == effective_interval(h),
        schedule_for(h, now_ms).name == h.name,
        schedule_for(h, now_ms).port == h.port,
{
    assert(jitter_of(h.name, effective_interval(h)) < jitter_span(effective_interval(h)));
}

pub fn next_ping_after(s: &HostSchedule, now_ms: u64) -> (r: u64)
    requires
        now_ms + s.interval_secs * 1000 + 30000 <= u64::MAX,
    ensures
        r == next_due(s.name@, s.interval_secs, now_ms),
        now_ms + s.interval_secs * 1000 <= r < now_ms + s.interval_secs * 1000 + 30000,
{
    proof {
        law_next_check_one_interval_later(s.name@, s.interval_secs, now_ms);
    }
    let j = host_jitter(s.name.as_str(), s.interval_secs);
    now_ms + s.interval_secs * 1000 + j * 1000
}

/// Sets the next check time of the first schedule named `name`, if any; the
/// rest of the list is unchanged.
pub fn reschedule(scheds: &mut Vec<HostSchedule>, name: &str, next_ping_ms: u64)
    ensures
        final(scheds).len() == old(scheds).len(),
        forall|i: int|
            0 <= i < old(scheds).len() ==> #[trigger] final(scheds)@[i]@ == (if old(scheds)@[i]@.name
                == name@ && (forall|k: int|
                0 <= k < i ==> (#[trigger] old(scheds)@[k]@).name != name@) {
                ScheduleView { next_ping_ms, ..old(scheds)@[i]@ }
            } else {
                old(scheds)@[i]@
            }),
{
    let n = scheds.len();
    let mut i: usize = 0;
    while i < n
        invariant
            0 <= i <= n == old(scheds).len(),
            forall|k: int| 0 <= k < i ==> (#[trigger] old(scheds)@[k]@).name != name@,
            *scheds == *old(scheds),
        decreases n - i,
    {
        if crate::text::str_eq(scheds[i].name.as_str(), name) {
            let old_s = &scheds[i];
            let updated = HostSchedule {
                name: old_s.name.clone(),
                port: old_s.port,
                interval_secs: old_s.interval_secs,
                next_ping_ms,
            };
            scheds.set(i, updated);
            assert forall|k: int| 0 <= k < n implies #[trigger] scheds@[k]@ == (if old(
                scheds,
            )@[k]@.name == name@ && (forall|m: int|
                0 <= m < k ==> (#[trigger] old(scheds)@[m]@).name != name@) {
                ScheduleView { next_ping_ms, ..old(scheds)@[k]@ }
            } else {
                old(scheds)@[k]@
            }) by {
                if k > i {
                    assert(old(scheds)@[i as int]@.name == name@);
                }
            }
            return;
        }
        i += 1;
    }
}

// ---------------------------------------------------------------------------
// Ping replies
// ---------------------------------------------------------------------------

/// The text of capture group 1 of the leftmost match of `pattern` in
/// `text`, as the `regex` crate finds it; `None` when the pattern does not
/// compile, nothing matches, or group 1 takes no part in the match.
pub uninterp spec fn regex_group1(pattern: Seq<char>, text: Seq<char>) -> Option<Seq<char>>;

/// Compiles `pattern` with `regex::Regex::new` and takes capture group 1
/// of the leftmost match in `text` (`captures`, then `get(1)`). The
/// contract names the result; it states nothing about how the match is
/// found.
#[verifier::external_body]
fn capture_group1(pattern: &str, text: &str) -> (r: Option<String>)
    ensures
        opt_view(r) == regex_group1(pattern@, text@),
{
    let re = regex::Regex::new(pattern).ok()?;
    re.captures(text).and_then(|c| c.get(1)).map(|m| m.as_str().to_string())
}

/// Where `ping` output shows the round trip: `time=12.3 ms` or `time<1ms`.
pub open spec fn ping_latency_pattern() -> Seq<char> {
    "time[<=]([\\d.]+)\\s*ms"@
}

/// What a finished `ping` run says about the host.
#[derive(Debug)]
pub enum PingReply {
    Down,
    /// Up; the latency text when the output shows one.
    Up(Option<String>),
}

/// A run that exited with success means up, with the latency text found in
/// its output; any other run means down.
pub fn read_ping_reply(success: bool, stdout: &str) -> (r: PingReply)
    ensures
        !success ==> r is Down,
        success ==> (r matches PingReply::Up(t) && opt_view(t) == regex_group1(
            ping_latency_pattern(),
            stdout@,
        )),
{
    if success {
        PingReply::Up(capture_group1("time[<=]([\\d.]+)\\s*ms", stdout))
    } else {
        PingReply::Down
    }
}

} // verus!
