//! Live per-host state: counters, the history strip, and flap tracking.
//!
//! Times are milliseconds on a monotonic clock whose origin the caller picks.

use vstd::prelude::*;
use crate::config::{
    blank, clone_opt_string, format_interval, interval_text, is_blank, opt_view, target_string,
    target_text, DEFAULT_GRAPH_WIDTH,
};
use crate::text::{decimal, push_decimal, string_from_chars};

verus! {

/// Transitions older than this many milliseconds no longer count as flaps.
pub const FLAP_WINDOW_MS: u64 = 600000;

/// A state change stays highlighted for this many milliseconds.
pub const FLASH_MS: u64 = 15000;

/// A host with at least this many recent transitions is flapping.
pub const FLAP_COUNT: usize = 3;

#[derive(Debug)]
pub struct HostState {
    pub name: String,
    pub alias: Option<String>,
    pub group: String,
    pub interval_secs: u64,
    pub port: Option<u16>,
    pub next_ping_ms: u64,
    /// Rounded latencies, oldest first; 0 marks a failed check.
    pub history: Vec<u64>,
    pub up: bool,
    pub total_checks: u64,
    pub up_checks: u64,
    /// When the up/down state last changed.
    pub last_change_ms: Option<u64>,
    /// Recent state-change times, oldest first.
    pub flaps: Vec<u64>,
}

pub ghost struct HostStateView {
    pub name: Seq<char>,
    pub alias: Option<Seq<char>>,
    pub group: Seq<char>,
    pub interval_secs: u64,
    pub port: Option<u16>,
    pub next_ping_ms: u64,
    pub history: Seq<u64>,
    pub up: bool,
    pub total_checks: u64,
    pub up_checks: u64,
    pub last_change_ms: Option<u64>,
    pub flaps: Seq<u64>,
}

impl View for HostState {
    type V = HostStateView;

    open spec fn view(&self) -> HostStateView {
        HostStateView {
            name: self.name@,
            alias: opt_view(self.alias),
            group: self.group@,
            interval_secs: self.interval_secs,
            port: self.port,
            next_ping_ms: self.next_ping_ms,
            history: self.history@,
            up: self.up,
            total_checks: self.total_checks,
            up_checks: self.up_checks,
            last_change_ms: self.last_change_ms,
            flaps: self.flaps@,
        }
    }
}

pub open spec fn state_views(s: Seq<HostState>) -> Seq<HostStateView> {
    s.map_values(|h: HostState| h@)
}

/// The name shown for a live host: its alias, else its check target.
pub open spec fn state_label(h: HostStateView) -> Seq<char> {
    match h.alias {
        Some(a) => a,
        None => target_text(h.name, h.port),
    }
}

/// Drops the leading transitions that are more than the flap window older
/// than `now_ms`.
pub open spec fn drop_stale(s: Seq<u64>, now_ms: u64) -> Seq<u64>
    decreases s.len(),
{
    if s.len() > 0 && now_ms - s[0] > FLAP_WINDOW_MS {
        drop_stale(s.drop_first(), now_ms)
    } else {
        s
    }
}

/// The transitions recorded after a check result at `now_ms`.
pub open spec fn flaps_after(h: HostStateView, up: bool, now_ms: u64) -> Seq<u64> {
    drop_stale(
        if up != h.up {
            h.flaps.push(now_ms)
        } else {
            h.flaps
        },
        now_ms,
    )
}

/// Transition times in order, none later than `now_ms`: what a monotonic
/// clock gives.
pub open spec fn flaps_ordered(s: Seq<u64>, now_ms: u64) -> bool {
    &&& forall|i: int, j: int| 0 <= i <= j < s.len() ==> s[i] <= s[j]
    &&& forall|i: int| 0 <= i < s.len() ==> #[trigger] s[i] <= now_ms
}

/// Within the flap window of `now_ms`.
pub open spec fn recent(t: u64, now_ms: u64) -> bool {
    now_ms - t <= FLAP_WINDOW_MS
}

impl HostState {
    pub fn new(
        name: &str,
        interval_secs: u64,
        group: &str,
        alias: Option<String>,
        port: Option<u16>,
        now_ms: u64,
    ) -> (h: Self)
        ensures
            h@ == (HostStateView {
                name: name@,
                alias: match alias {
                    Some(a) => if blank(a@) {
                        None
                    } else {
                        Some(a@)
                    },
                    None => None,
                },
                group: group@,
                interval_secs,
                port,
                next_ping_ms: now_ms,
                history: Seq::empty(),
                up: false,
                total_checks: 0,
                up_checks: 0,
                last_change_ms: None,
                flaps: Seq::empty(),
            }),
    {
        let alias = match alias {
            Some(a) => if is_blank(a.as_str()) {
                None
            } else {
                Some(a)
            },
            None => None,
        };
        HostState {
            name: name.to_owned(),
            alias,
            group: group.to_owned(),
            interval_secs,
            port,
            next_ping_ms: now_ms,
            history: Vec::with_capacity(DEFAULT_GRAPH_WIDTH),
            up: false,
            total_checks: 0,
            up_checks: 0,
            last_change_ms: None,
            flaps: Vec::new(),
        }
    }

    /// Name shown in the UI: alias if set, else the target IP/hostname.
    pub fn display_name(&self) -> (r: String)
        ensures
            r@ == state_label(self@),
    {
        match &self.alias {
            Some(a) => a.clone(),
            None => self.target(),
        }
    }

    /// `db.internal:5432`-style target for display and TCP checks.
    pub fn target(&self) -> (r: String)
        ensures
            r@ == target_text(self.name@, self.port),
    {
        target_string(&self.name, self.port)
    }

    /// Records a check result's state change at `now_ms` and forgets
    /// transitions older than the flap window; returns whether the host is
    /// flapping. The `up` field itself is left for the caller to set.
    pub fn note_result(&mut self, up: bool, now_ms: u64) -> (flapping: bool)
        ensures
            final(self)@ == (HostStateView {
                last_change_ms: if up != old(self).up {
                    Some(now_ms)
                } else {
                    old(self).last_change_ms
                },
                flaps: flaps_after(old(self)@, up, now_ms),
                ..old(self)@
            }),
            flapping == (final(self).flaps.len() >= FLAP_COUNT),
    {
        if up != self.up {
            self.last_change_ms = Some(now_ms);
            self.flaps.push(now_ms);
        }
        let ghost pushed = self.flaps@;
        let n = self.flaps.len();
        let mut k: usize = 0;
        assert(pushed.subrange(0, n as int) =~= pushed);
        while k < n && now_ms.saturating_sub(self.flaps[k]) > FLAP_WINDOW_MS
            invariant
                0 <= k <= n == self.flaps.len(),
                self.flaps@ == pushed,
                drop_stale(pushed, now_ms) == drop_stale(pushed.subrange(k as int, n as int), now_ms),
            decreases n - k,
        {
            assert(pushed.subrange(k as int, n as int).drop_first() =~= pushed.subrange(
                k + 1,
                n as int,
            ));
            k += 1;
        }
        let mut kept: Vec<u64> = Vec::new();
        let mut i = k;
        while i < n
            invariant
                k <= i <= n == self.flaps.len(),
                self.flaps@ == pushed,
                kept@ == pushed.subrange(k as int, i as int),
            decreases n - i,
        {
            kept.push(self.flaps[i]);
            i += 1;
        }
        proof {
            let rest = pushed.subrange(k as int, n as int);
            if rest.len() > 0 {
                assert(rest[0] == pushed[k as int]);
            }
            assert(drop_stale(rest, now_ms) == rest);
        }
        self.flaps = kept;
        self.flaps.len() >= FLAP_COUNT
    }

    pub fn flapping(&self) -> (r: bool)
        ensures
            r == (self.flaps.len() >= FLAP_COUNT),
    {
        self.flaps.len() >= FLAP_COUNT
    }

    /// True when the state changed within the flash window before `now_ms`.
    pub fn just_changed(&self, now_ms: u64) -> (r: bool)
        ensures
            r == (match self.last_change_ms {
                Some(t) => (if now_ms >= t {
                    now_ms - t
                } else {
                    0
                }) < FLASH_MS,
                None => false,
            }),
    {
        match self.last_change_ms {
            Some(t) => now_ms.saturating_sub(t) < FLASH_MS,
            None => false,
        }
    }
}

/// With transitions recorded in clock order, dropping the stale prefix keeps
/// exactly the transitions inside the flap window.
pub proof fn lemma_drop_stale_is_window(s: Seq<u64>, now_ms: u64)
    requires
        flaps_ordered(s, now_ms),
    ensures
        drop_stale(s, now_ms) == s.filter(|t: u64| recent(t, now_ms)),
    decreases s.len(),
{
    reveal_with_fuel(Seq::<_>::filter, 2);
    if s.len() == 0 {
        assert(s.filter(|t: u64| recent(t, now_ms)) =~= Seq::<u64>::empty());
    } else if now_ms - s[0] > FLAP_WINDOW_MS {
        let t = s.drop_first();
        assert(flaps_ordered(t, now_ms)) by {
            assert forall|i: int, j: int| 0 <= i <= j < t.len() implies t[i] <= t[j] by {
                assert(t[i] == s[i + 1] && t[j] == s[j + 1]);
            }
            assert forall|i: int| 0 <= i < t.len() implies #[trigger] t[i] <= now_ms by {
                assert(t[i] == s[i + 1]);
            }
        }
        lemma_drop_stale_is_window(t, now_ms);
        lemma_filter_first(s, now_ms);
    } else {
        // The first transition is recent, so all later ones are too.
        assert(forall|i: int| 0 <= i < s.len() ==> recent(#[trigger] s[i], now_ms)) by {
            assert forall|i: int| 0 <= i < s.len() implies recent(#[trigger] s[i], now_ms) by {
                assert(s[0] <= s[i]);
            }
        }
        lemma_filter_all(s, now_ms);
    }
}

proof fn lemma_filter_first(s: Seq<u64>, now_ms: u64)
    requires
        s.len() > 0,
        !recent(s[0], now_ms),
    ensures
        s.filter(|t: u64| recent(t, now_ms)) == s.drop_first().filter(|t: u64| recent(t, now_ms)),
    decreases s.len(),
{
    reveal_with_fuel(Seq::<_>::filter, 2);
    let p = |t: u64| recent(t, now_ms);
    if s.len() == 1 {
        assert(s.drop_last() =~= Seq::<u64>::empty());
        assert(s.drop_first() =~= Seq::<u64>::empty());
    } else {
        lemma_filter_first(s.drop_last(), now_ms);
        assert(s.drop_last().drop_first() =~= s.drop_first().drop_last());
        assert(s.drop_first().last() == s.last());
    }
}

proof fn lemma_filter_all(s: Seq<u64>, now_ms: u64)
    requires
        forall|i: int| 0 <= i < s.len() ==> recent(#[trigger] s[i], now_ms),
    ensures
        s.filter(|t: u64| recent(t, now_ms)) == s,
    decreases s.len(),
{
    reveal_with_fuel(Seq::<_>::filter, 2);
    if s.len() > 0 {
        let d = s.drop_last();
        assert forall|i: int| 0 <= i < d.len() implies recent(#[trigger] d[i], now_ms) by {
            assert(d[i] == s[i]);
        }
        lemma_filter_all(d, now_ms);
        assert(d.push(s.last()) =~= s);
    } else {
        assert(s.filter(|t: u64| recent(t, now_ms)) =~= s);
    }
}

/// Recording a result at a time no earlier than any recorded transition keeps
/// the transitions in clock order.
pub proof fn lemma_flaps_stay_ordered(h: HostStateView, up: bool, now_ms: u64)
    requires
        flaps_ordered(h.flaps, now_ms),
    ensures
        flaps_ordered(flaps_after(h, up, now_ms), now_ms),
{
    let p = if up != h.up {
        h.flaps.push(now_ms)
    } else {
        h.flaps
    };
    assert(flaps_ordered(p, now_ms)) by {
        if up != h.up {
            assert forall|i: int, j: int| 0 <= i <= j < p.len() implies p[i] <= p[j] by {
                if j < h.flaps.len() {
                    assert(p[i] == h.flaps[i] && p[j] == h.flaps[j]);
                } else if i < h.flaps.len() {
                    assert(p[i] == h.flaps[i]);
                }
            }
            assert forall|i: int| 0 <= i < p.len() implies #[trigger] p[i] <= now_ms by {
                if i < h.flaps.len() {
                    assert(p[i] == h.flaps[i]);
                }
            }
        }
    }
    lemma_drop_stale_suffix(p, now_ms);
}

proof fn lemma_drop_stale_suffix(s: Seq<u64>, now_ms: u64)
    requires
        flaps_ordered(s, now_ms),
    ensures
        flaps_ordered(drop_stale(s, now_ms), now_ms),
    decreases s.len(),
{
    if s.len() > 0 && now_ms - s[0] > FLAP_WINDOW_MS {
        let t = s.drop_first();
        assert forall|i: int, j: int| 0 <= i <= j < t.len() implies t[i] <= t[j] by {
            assert(t[i] == s[i + 1] && t[j] == s[j + 1]);
        }
        assert forall|i: int| 0 <= i < t.len() implies #[trigger] t[i] <= now_ms by {
            assert(t[i] == s[i + 1]);
        }
        lemma_drop_stale_suffix(t, now_ms);
    }
}

/// With transitions recorded in clock order, `note_result` reports flapping
/// exactly when at least three transitions, counting the new one, fall in the
/// ten minutes before `now_ms`.
pub proof fn lemma_note_result_counts_window(h: HostStateView, up: bool, now_ms: u64)
    requires
        flaps_ordered(h.flaps, now_ms),
    ensures
        flaps_after(h, up, now_ms) == (if up != h.up {
            h.flaps.push(now_ms)
        } else {
            h.flaps
        }).filter(|t: u64| recent(t, now_ms)),
        (flaps_after(h, up, now_ms).len() >= FLAP_COUNT) == ((if up != h.up {
            h.flaps.push(now_ms)
        } else {
            h.flaps
        }).filter(|t: u64| recent(t, now_ms)).len() >= FLAP_COUNT),
{
    let p = if up != h.up {
        h.flaps.push(now_ms)
    } else {
        h.flaps
    };
    if up != h.up {
        assert forall|i: int, j: int| 0 <= i <= j < p.len() implies p[i] <= p[j] by {
            if j < h.flaps.len() {
                assert(p[i] == h.flaps[i] && p[j] == h.flaps[j]);
            } else if i < h.flaps.len() {
                assert(p[i] == h.flaps[i]);
            }
        }
        assert forall|i: int| 0 <= i < p.len() implies #[trigger] p[i] <= now_ms by {
            if i < h.flaps.len() {
                assert(p[i] == h.flaps[i]);
            }
        }
    }
    lemma_drop_stale_is_window(p, now_ms);
}

// ---------------------------------------------------------------------------
// History ranges
// ---------------------------------------------------------------------------

#[derive(Clone, Copy, PartialEq, Eq, Debug, Structural)]
pub enum HistoryRange {
    Hours8,
    Hours24,
    Days7,
}

pub open spec fn range_secs(r: HistoryRange) -> u64 {
    match r {
        HistoryRange::Hours8 => 28800,
        HistoryRange::Hours24 => 86400,
        HistoryRange::Days7 => 604800,
    }
}

pub open spec fn range_buckets(r: HistoryRange) -> usize {
    match r {
        HistoryRange::Hours8 => 32,
        HistoryRange::Hours24 => 48,
        HistoryRange::Days7 => 84,
    }
}

/// The three ranges in picker order.
pub open spec fn history_ranges() -> Seq<HistoryRange> {
    seq![HistoryRange::Hours8, HistoryRange::Hours24, HistoryRange::Days7]
}

impl HistoryRange {
    pub fn all() -> (r: [HistoryRange; 3])
        ensures
            r@ == history_ranges(),
    {
        let r = [HistoryRange::Hours8, HistoryRange::Hours24, HistoryRange::Days7];
        assert(r@ =~= history_ranges());
        r
    }

    pub fn label(&self) -> (r: &'static str)
        ensures
            r@ == (match *self {
                HistoryRange::Hours8 => "8h"@,
                HistoryRange::Hours24 => "24h"@,
                HistoryRange::Days7 => "7d"@,
            }),
    {
        match self {
            HistoryRange::Hours8 => "8h",
            HistoryRange::Hours24 => "24h",
            HistoryRange::Days7 => "7d",
        }
    }

    /// The length of the range in seconds.
    pub fn duration_secs(&self) -> (r: u64)
        ensures
            r == range_secs(*self),
    {
        match self {
            HistoryRange::Hours8 => 28800,
            HistoryRange::Hours24 => 86400,
            HistoryRange::Days7 => 604800,
        }
    }

    pub fn bucket_count(&self) -> (r: usize)
        ensures
            r == range_buckets(*self),
    {
        match self {
            HistoryRange::Hours8 => 32,
            HistoryRange::Hours24 => 48,
            HistoryRange::Days7 => 84,
        }
    }

    /// Position in picker order.
    pub fn position(&self) -> (r: usize)
        ensures
            r < 3,
            history_ranges()[r as int] == *self,
    {
        match self {
            HistoryRange::Hours8 => 0,
            HistoryRange::Hours24 => 1,
            HistoryRange::Days7 => 2,
        }
    }

    /// The previous range in picker order, wrapping around.
    pub fn prev(&self) -> (r: HistoryRange)
        ensures
            r == history_ranges()[(self.position_spec() + 2) % 3],
    {
        match self {
            HistoryRange::Hours8 => HistoryRange::Days7,
            HistoryRange::Hours24 => HistoryRange::Hours8,
            HistoryRange::Days7 => HistoryRange::Hours24,
        }
    }

    /// The next range in picker order, wrapping around.
    pub fn next(&self) -> (r: HistoryRange)
        ensures
            r == history_ranges()[(self.position_spec() + 1) % 3],
    {
        match self {
            HistoryRange::Hours8 => HistoryRange::Hours24,
            HistoryRange::Hours24 => HistoryRange::Days7,
            HistoryRange::Days7 => HistoryRange::Hours8,
        }
    }

    pub open spec fn position_spec(&self) -> int {
        match *self {
            HistoryRange::Hours8 => 0,
            HistoryRange::Hours24 => 1,
            HistoryRange::Days7 => 2,
        }
    }
}

// ---------------------------------------------------------------------------
// The add/edit form
// ---------------------------------------------------------------------------

/// All-in-one add-host form state (the focused field is editable).
#[derive(Debug)]
pub struct AddHostForm {
    pub host: String,
    pub interval: String,
    pub group: String,
    pub alias: String,
    pub port: String,
    pub focus: usize,
}

/// The number of fields of the form.
pub const FORM_FIELDS: usize = 5;

impl Default for AddHostForm {
    fn default() -> (f: Self)
        ensures
            f.host@ == Seq::<char>::empty(),
            f.interval@ == Seq::<char>::empty(),
            f.group@ == Seq::<char>::empty(),
            f.alias@ == Seq::<char>::empty(),
            f.port@ == Seq::<char>::empty(),
            f.focus == 0,
    {
        AddHostForm {
            host: String::new(),
            interval: String::new(),
            group: String::new(),
            alias: String::new(),
            port: String::new(),
            focus: 0,
        }
    }
}

impl AddHostForm {
    /// A form filled in from a live host, for editing.
    pub fn for_host(h: &HostState) -> (f: Self)
        ensures
            f.host@ == h.name@,
            f.interval@ == interval_text(h.interval_secs),
            f.group@ == h.group@,
            f.alias@ == (match h.alias {
                Some(a) => a@,
                None => Seq::empty(),
            }),
            f.port@ == (match h.port {
                Some(p) => decimal(p as nat),
                None => Seq::empty(),
            }),
            f.focus == 0,
    {
        let port = match h.port {
            Some(p) => {
                let mut v: Vec<char> = Vec::new();
                push_decimal(&mut v, p as u64);
                assert(v@ =~= decimal(p as nat));
                string_from_chars(&v)
            },
            None => String::new(),
        };
        AddHostForm {
            host: h.name.clone(),
            interval: format_interval(h.interval_secs),
            group: h.group.clone(),
            alias: match &h.alias {
                Some(a) => a.clone(),
                None => String::new(),
            },
            port,
            focus: 0,
        }
    }

    pub fn duplicate(&self) -> (r: Self)
        ensures
            r == *self,
    {
        AddHostForm {
            host: self.host.clone(),
            interval: self.interval.clone(),
            group: self.group.clone(),
            alias: self.alias.clone(),
            port: self.port.clone(),
            focus: self.focus,
        }
    }
}

// ---------------------------------------------------------------------------
// History strip
// ---------------------------------------------------------------------------

/// The last `w` elements of `s` (all of them when there are fewer).
pub open spec fn keep_last(s: Seq<u64>, w: int) -> Seq<u64> {
    if s.len() > w {
        s.subrange(s.len() - w, s.len() as int)
    } else {
        s
    }
}

pub fn keep_last_vec(v: &Vec<u64>, w: usize) -> (r: Vec<u64>)
    ensures
        r@ == keep_last(v@, w as int),
{
    let n = v.len();
    let start = if n > w {
        n - w
    } else {
        0
    };
    let mut r: Vec<u64> = Vec::new();
    let mut i = start;
    while i < n
        invariant
            start <= i <= n == v.len(),
            r@ == v@.subrange(start as int, i as int),
        decreases n - i,
    {
        r.push(v[i]);
        i += 1;
    }
    assert(v@.subrange(0, n as int) =~= v@);
    r
}

/// The cells of a history strip `width` columns wide: the newest samples
/// that fit (one cell and one gap each), newest first, each `true` for a
/// check that was up; and the padding that fills the rest.
pub open spec fn graph_cells_spec(history: Seq<u64>, width: usize) -> (Seq<bool>, usize) {
    let shown = keep_last(history, (width / 2) as int);
    let cells = Seq::new(shown.len(), |k: int| shown[shown.len() - 1 - k] > 0);
    let used: int = if shown.len() > 0 {
        2 * shown.len() - 1
    } else {
        0
    };
    (cells, if width >= used {
        (width - used) as usize
    } else {
        0
    })
}

pub fn graph_cells(history: &Vec<u64>, width: usize) -> (r: (Vec<bool>, usize))
    ensures
        (r.0@, r.1) == graph_cells_spec(history@, width),
{
    let shown = keep_last_vec(history, width / 2);
    let n = shown.len();
    let mut cells: Vec<bool> = Vec::new();
    let mut k: usize = 0;
    while k < n
        invariant
            0 <= k <= n == shown.len(),
            cells@ == Seq::new(k as nat, |j: int| shown@[n - 1 - j] > 0),
        decreases n - k,
    {
        cells.push(shown[n - 1 - k] > 0);
        assert(cells@ =~= Seq::new((k + 1) as nat, |j: int| shown@[n - 1 - j] > 0));
        k += 1;
    }
    let used: usize = if n > 0 {
        2 * n - 1
    } else {
        0
    };
    let pad = if width >= used {
        width - used
    } else {
        0
    };
    (cells, pad)
}

// ---------------------------------------------------------------------------
// Screen tallies
// ---------------------------------------------------------------------------

/// How many hosts are up.
pub open spec fn count_up(hs: Seq<HostStateView>) -> nat
    decreases hs.len(),
{
    if hs.len() == 0 {
        0
    } else {
        count_up(hs.drop_last()) + if hs.last().up {
            1nat
        } else {
            0nat
        }
    }
}

/// How many hosts are flapping.
pub open spec fn count_flapping(hs: Seq<HostStateView>) -> nat
    decreases hs.len(),
{
    if hs.len() == 0 {
        0
    } else {
        count_flapping(hs.drop_last()) + if hs.last().flaps.len() >= FLAP_COUNT {
            1nat
        } else {
            0nat
        }
    }
}

/// The tallies of the stats box: hosts up, hosts down, hosts flapping.
pub fn host_tallies(hosts: &Vec<HostState>) -> (r: (usize, usize, usize))
    ensures
        r.0 == count_up(state_views(hosts@)),
        r.1 == hosts.len() - count_up(state_views(hosts@)),
        r.2 == count_flapping(state_views(hosts@)),
{
    let ghost hs = state_views(hosts@);
    let mut up: usize = 0;
    let mut flapping: usize = 0;
    let mut i: usize = 0;
    while i < hosts.len()
        invariant
            0 <= i <= hosts.len(),
            hs == state_views(hosts@),
            up == count_up(hs.take(i as int)),
            flapping == count_flapping(hs.take(i as int)),
            up <= i,
            flapping <= i,
        decreases hosts.len() - i,
    {
        assert(hs.take(i as int + 1).drop_last() =~= hs.take(i as int));
        assert(hs.take(i as int + 1).last() == hosts@[i as int]@);
        if hosts[i].up {
            up += 1;
        }
        if hosts[i].flapping() {
            flapping += 1;
        }
        i += 1;
    }
    assert(hs.take(hosts.len() as int) =~= hs);
    (up, hosts.len() - up, flapping)
}

} // verus!
