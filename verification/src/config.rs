//! Config, host entries and interval parsing.
//!
//! Host intervals used to be minutes-only (`interval_m`). `interval_secs`
//! wins when > 0; otherwise `interval_m * 60` applies.

use vstd::prelude::*;
use crate::records::{csv_rows, read_csv_rows, readable_prefix, rec_views, rows_before_bad};
use crate::json::{
    field_items, field_number, field_text, field_truth, fields_view, get_items, get_number,
    get_pair_number, get_pair_text, get_text, get_truth, item_text, item_view, items_view,
    json_doc, pair_number, pair_text, parse_json, FieldView, ItemView, JsonField, JsonItem,
};
use crate::text::{
    chars_of, decimal, is_ws, lemma_decimal, lemma_no_ws_trim, lemma_parse_decimal, no_ws,
    parse_uint, parse_uint_chars, push_decimal, str_eq, string_from_chars, sub_chars, trim, trim_chars,
};

verus! {

pub const DEFAULT_INTERVAL_SECS: u64 = 120;

pub const MIN_INTERVAL_SECS: u64 = 5;

pub const MAX_INTERVAL_SECS: u64 = 86400;

pub const DEFAULT_TIMEOUT_MS: u64 = 1000;

pub const DEFAULT_GRAPH_WIDTH: usize = 20;

pub const MAX_HISTORY: usize = 10000;

// ---------------------------------------------------------------------------
// Intervals
// ---------------------------------------------------------------------------

pub open spec fn sat_mul(a: nat, b: nat) -> u64 {
    if a * b > u64::MAX {
        u64::MAX
    } else {
        (a * b) as u64
    }
}

/// The unit multiplier selected by the last character of a trimmed interval,
/// and the text that is left for the number.
pub open spec fn interval_split(t: Seq<char>) -> (Seq<char>, nat) {
    if t.last() == 's' || t.last() == 'S' {
        (t.drop_last(), 1)
    } else if t.last() == 'm' || t.last() == 'M' {
        (t.drop_last(), 60)
    } else if t.last() == 'h' || t.last() == 'H' {
        (t.drop_last(), 3600)
    } else {
        (t, 60)
    }
}

/// What `parse_interval` returns for the text `s`: seconds for `30s`, `5m`,
/// `2h` (unit letters in either case), legacy minutes for a bare number,
/// `None` for blank or malformed text. Large values saturate.
pub open spec fn interval_of(s: Seq<char>) -> Option<u64> {
    let t = trim(s);
    if t.len() == 0 {
        None
    } else {
        let (num, mult) = interval_split(t);
        match parse_uint(trim(num), u64::MAX as nat) {
            Some(n) => Some(sat_mul(n, mult)),
            None => None,
        }
    }
}

/// Parse a human interval into seconds. Accepts `30s`, `5m`, `2h`, or a bare
/// number (legacy minutes, so `"2"` == 120s). Empty/whitespace → None.
pub fn parse_interval(s: &str) -> (r: Option<u64>)
    ensures
        r == interval_of(s@),
{
    let v = chars_of(s);
    parse_interval_chars(&v)
}

pub fn parse_interval_chars(v: &Vec<char>) -> (r: Option<u64>)
    ensures
        r == interval_of(v@),
{
    let t = trim_chars(v);
    if t.len() == 0 {
        return None;
    }
    let last = t[t.len() - 1];
    let (num, mult): (Vec<char>, u64) = if last == 's' || last == 'S' {
        (sub_chars(&t, 0, t.len() - 1), 1)
    } else if last == 'm' || last == 'M' {
        (sub_chars(&t, 0, t.len() - 1), 60)
    } else if last == 'h' || last == 'H' {
        (sub_chars(&t, 0, t.len() - 1), 3600)
    } else {
        (sub_chars(&t, 0, t.len()), 60)
    };
    assert(t@.subrange(0, t@.len() - 1) =~= t@.drop_last());
    assert(t@.subrange(0, t@.len() as int) =~= t@);
    let num = trim_chars(&num);
    match parse_uint_chars(&num, u64::MAX) {
        Some(n) => {
            let m = if (n as u128) * (mult as u128) > u64::MAX as u128 {
                u64::MAX
            } else {
                n * mult
            };
            Some(m)
        },
        None => None,
    }
}

/// What `format_interval` returns: hours when `secs` is a positive whole
/// number of hours, else minutes when it is a whole number of minutes, else
/// seconds.
pub open spec fn interval_text(secs: u64) -> Seq<char> {
    if secs >= 3600 && secs % 3600 == 0 {
        decimal((secs / 3600) as nat).push('h')
    } else if secs % 60 == 0 {
        decimal((secs / 60) as nat).push('m')
    } else {
        decimal(secs as nat).push('s')
    }
}

/// Compact display for the Int column: `30s`, `5m`, `2h`.
pub fn format_interval(secs: u64) -> (r: String)
    ensures
        r@ == interval_text(secs),
{
    let mut out: Vec<char> = Vec::new();
    if secs >= 3600 && secs % 3600 == 0 {
        push_decimal(&mut out, secs / 3600);
        out.push('h');
    } else if secs % 60 == 0 {
        push_decimal(&mut out, secs / 60);
        out.push('m');
    } else {
        push_decimal(&mut out, secs);
        out.push('s');
    }
    string_from_chars(&out)
}

/// Formatting an interval and parsing the text back gives the same number of
/// seconds, for every interval.
pub proof fn lemma_interval_roundtrip(secs: u64)
    ensures
        interval_of(interval_text(secs)) == Some(secs),
{
    let t = interval_text(secs);
    let x: nat = if secs >= 3600 && secs % 3600 == 0 {
        (secs / 3600) as nat
    } else if secs % 60 == 0 {
        (secs / 60) as nat
    } else {
        secs as nat
    };
    lemma_decimal(x);
    let d = decimal(x);
    assert(t.drop_last() =~= d);
    assert(no_ws(t)) by {
        assert forall|i: int| 0 <= i < t.len() implies !is_ws(#[trigger] t[i]) by {
            if i < d.len() {
                assert(t[i] == d[i]);
            }
        }
    }
    lemma_no_ws_trim(t);
    lemma_no_ws_trim(d);
    lemma_parse_decimal(x, u64::MAX as nat);
    assert(trim(t) == t);
    assert(t.len() > 0);
    if secs >= 3600 && secs % 3600 == 0 {
        assert(t.last() == 'h');
        assert(interval_split(t) == (d, 3600nat));
        assert(x * 3600 == secs);
    } else if secs % 60 == 0 {
        assert(t.last() == 'm');
        assert(interval_split(t) == (d, 60nat));
        assert(x * 60 == secs);
    } else {
        assert(t.last() == 's');
        assert(interval_split(t) == (d, 1nat));
    }
}

// ---------------------------------------------------------------------------
// Host entries
// ---------------------------------------------------------------------------

/// Whether `s` is empty after trimming whitespace.
pub open spec fn blank(s: Seq<char>) -> bool {
    trim(s).len() == 0
}

pub fn is_blank(s: &str) -> (b: bool)
    ensures
        b == blank(s@),
{
    let v = chars_of(s);
    trim_chars(&v).len() == 0
}

pub open spec fn opt_view(o: Option<String>) -> Option<Seq<char>> {
    match o {
        Some(s) => Some(s@),
        None => None,
    }
}

pub fn clone_opt_string(o: &Option<String>) -> (r: Option<String>)
    ensures
        r == *o,
{
    match o {
        Some(s) => Some(s.clone()),
        None => None,
    }
}

/// One monitored host as stored in the config.
#[derive(Debug)]
pub struct HostConfig {
    pub name: String,
    /// Legacy minutes. Used only when `interval_secs` is 0.
    pub interval_m: u64,
    /// Preferred interval in seconds. 0 = fall back to `interval_m`.
    pub interval_secs: u64,
    pub group: String,
    pub alias: Option<String>,
    /// TCP check port. None = ICMP ping.
    pub port: Option<u16>,
}

/// The value of a host entry, with its strings as character sequences.
pub ghost struct HostView {
    pub name: Seq<char>,
    pub interval_m: u64,
    pub interval_secs: u64,
    pub group: Seq<char>,
    pub alias: Option<Seq<char>>,
    pub port: Option<u16>,
}

impl View for HostConfig {
    type V = HostView;

    open spec fn view(&self) -> HostView {
        HostView {
            name: self.name@,
            interval_m: self.interval_m,
            interval_secs: self.interval_secs,
            group: self.group@,
            alias: opt_view(self.alias),
            port: self.port,
        }
    }
}

pub open spec fn host_views(s: Seq<HostConfig>) -> Seq<HostView> {
    s.map_values(|h: HostConfig| h@)
}

/// The group name used when none is given.
pub open spec fn default_group_name() -> Seq<char> {
    seq!['d', 'e', 'f', 'a', 'u', 'l', 't']
}

/// The entry that `HostConfig::new` builds: a blank group becomes `default`,
/// a blank alias is dropped, and the legacy minutes are 0.
pub open spec fn new_host(
    name: Seq<char>,
    interval_secs: u64,
    group: Seq<char>,
    alias: Option<Seq<char>>,
    port: Option<u16>,
) -> HostView {
    HostView {
        name,
        interval_m: 0,
        interval_secs,
        group: if blank(group) {
            default_group_name()
        } else {
            group
        },
        alias: match alias {
            Some(a) => if blank(a) {
                None
            } else {
                Some(a)
            },
            None => None,
        },
        port,
    }
}

pub open spec fn clamp(x: u64, lo: u64, hi: u64) -> u64 {
    if x < lo {
        lo
    } else if x > hi {
        hi
    } else {
        x
    }
}

/// The check interval of a host: `interval_secs` when positive, else the
/// legacy minutes, else the default, clamped to 5s ..= 24h.
pub open spec fn effective_interval(h: HostView) -> u64 {
    let raw = if h.interval_secs > 0 {
        h.interval_secs
    } else if h.interval_m > 0 {
        sat_mul(h.interval_m as nat, 60)
    } else {
        DEFAULT_INTERVAL_SECS
    };
    clamp(raw, MIN_INTERVAL_SECS, MAX_INTERVAL_SECS)
}

/// `name:port` for TCP hosts, the bare name otherwise.
pub open spec fn target_text(name: Seq<char>, port: Option<u16>) -> Seq<char> {
    match port {
        Some(p) => name.push(':') + decimal(p as nat),
        None => name,
    }
}

pub fn default_group() -> (r: String)
    ensures
        r@ == default_group_name(),
{
    let v: Vec<char> = vec!['d', 'e', 'f', 'a', 'u', 'l', 't'];
    assert(v@ =~= default_group_name());
    string_from_chars(&v)
}

/// Builds `name:port`, or the bare name when there is no port.
pub fn target_string(name: &String, port: Option<u16>) -> (r: String)
    ensures
        r@ == target_text(name@, port),
{
    match port {
        Some(p) => {
            let mut v = chars_of(name.as_str());
            v.push(':');
            push_decimal(&mut v, p as u64);
            string_from_chars(&v)
        },
        None => name.clone(),
    }
}

impl HostConfig {
    pub fn new(
        name: String,
        interval_secs: u64,
        group: String,
        alias: Option<String>,
        port: Option<u16>,
    ) -> (h: Self)
        ensures
            h@ == new_host(name@, interval_secs, group@, opt_view(alias), port),
    {
        let alias = match alias {
            Some(a) => if is_blank(a.as_str()) {
                None
            } else {
                Some(a)
            },
            None => None,
        };
        let group = if is_blank(group.as_str()) {
            default_group()
        } else {
            group
        };
        HostConfig { name, interval_m: 0, interval_secs, group, alias, port }
    }

    /// An identical copy of the entry.
    pub fn duplicate(&self) -> (r: Self)
        ensures
            r == *self,
            r@ == self@,
    {
        HostConfig {
            name: self.name.clone(),
            interval_m: self.interval_m,
            interval_secs: self.interval_secs,
            group: self.group.clone(),
            alias: clone_opt_string(&self.alias),
            port: self.port,
        }
    }

    /// Effective check interval, clamped to sane bounds.
    pub fn effective_interval_secs(&self) -> (r: u64)
        ensures
            r == effective_interval(self@),
            MIN_INTERVAL_SECS <= r <= MAX_INTERVAL_SECS,
    {
        let raw = if self.interval_secs > 0 {
            self.interval_secs
        } else if self.interval_m > 0 {
            if (self.interval_m as u128) * 60 > u64::MAX as u128 {
                u64::MAX
            } else {
                self.interval_m * 60
            }
        } else {
            DEFAULT_INTERVAL_SECS
        };
        if raw < MIN_INTERVAL_SECS {
            MIN_INTERVAL_SECS
        } else if raw > MAX_INTERVAL_SECS {
            MAX_INTERVAL_SECS
        } else {
            raw
        }
    }

    /// Alias if set, else the raw name.
    pub fn display_name(&self) -> (r: String)
        ensures
            r@ == (match self.alias {
                Some(a) => a@,
                None => self.name@,
            }),
    {
        match &self.alias {
            Some(a) => a.clone(),
            None => self.name.clone(),
        }
    }

    /// `db.internal:5432`-style display target.
    pub fn target(&self) -> (r: String)
        ensures
            r@ == target_text(self.name@, self.port),
    {
        target_string(&self.name, self.port)
    }
}

// ---------------------------------------------------------------------------
// Sort mode
// ---------------------------------------------------------------------------

/// View applied to the host list. Combines ordering (flat view and inside
/// each group) with the down-only filter.
#[derive(Clone, Copy, PartialEq, Eq, Debug, Structural)]
pub enum SortMode {
    Off,
    DownFirst,
    UpFirst,
    Name,
    Group,
    DownOnly,
}

impl Default for SortMode {
    fn default() -> (r: Self)
        ensures
            r == SortMode::Off,
    {
        SortMode::Off
    }
}

pub open spec fn sort_mode_index(m: SortMode) -> usize {
    match m {
        SortMode::Off => 0,
        SortMode::DownFirst => 1,
        SortMode::UpFirst => 2,
        SortMode::Name => 3,
        SortMode::Group => 4,
        SortMode::DownOnly => 5,
    }
}

pub open spec fn sort_mode_at(i: usize) -> SortMode {
    if i == 1 {
        SortMode::DownFirst
    } else if i == 2 {
        SortMode::UpFirst
    } else if i == 3 {
        SortMode::Name
    } else if i == 4 {
        SortMode::Group
    } else if i == 5 {
        SortMode::DownOnly
    } else {
        SortMode::Off
    }
}

/// The six modes in picker order.
pub open spec fn sort_modes() -> Seq<SortMode> {
    seq![
        SortMode::Off,
        SortMode::DownFirst,
        SortMode::UpFirst,
        SortMode::Name,
        SortMode::Group,
        SortMode::DownOnly,
    ]
}

impl SortMode {
    /// All modes, in picker order.
    pub fn all() -> (r: [SortMode; 6])
        ensures
            r@ == sort_modes(),
    {
        let r = [
            SortMode::Off,
            SortMode::DownFirst,
            SortMode::UpFirst,
            SortMode::Name,
            SortMode::Group,
            SortMode::DownOnly,
        ];
        assert(r@ =~= sort_modes());
        r
    }

    pub fn index(&self) -> (r: usize)
        ensures
            r == sort_mode_index(*self),
    {
        match self {
            SortMode::Off => 0,
            SortMode::DownFirst => 1,
            SortMode::UpFirst => 2,
            SortMode::Name => 3,
            SortMode::Group => 4,
            SortMode::DownOnly => 5,
        }
    }

    pub fn from_index(i: usize) -> (r: Self)
        ensures
            r == sort_mode_at(i),
    {
        match i {
            1 => SortMode::DownFirst,
            2 => SortMode::UpFirst,
            3 => SortMode::Name,
            4 => SortMode::Group,
            5 => SortMode::DownOnly,
            _ => SortMode::Off,
        }
    }

    pub fn label(&self) -> (r: &'static str)
        ensures
            r@ == (match *self {
                SortMode::Off => "off"@,
                SortMode::DownFirst => "down first"@,
                SortMode::UpFirst => "up first"@,
                SortMode::Name => "name"@,
                SortMode::Group => "group"@,
                SortMode::DownOnly => "down only"@,
            }),
    {
        match self {
            SortMode::Off => "off",
            SortMode::DownFirst => "down first",
            SortMode::UpFirst => "up first",
            SortMode::Name => "name",
            SortMode::Group => "group",
            SortMode::DownOnly => "down only",
        }
    }
}

/// A mode's index picks the mode back out: `from_index(index(m)) == m`.
pub proof fn lemma_sort_mode_index_roundtrip(m: SortMode)
    ensures
        sort_mode_at(sort_mode_index(m)) == m,
        sort_modes()[sort_mode_index(m) as int] == m,
        sort_mode_index(m) < 6,
{
}

/// Every index below 6 names a distinct mode, and larger indices fall back to
/// `Off`: `index(from_index(i)) == if i < 6 { i } else { 0 }`.
pub proof fn lemma_sort_mode_from_index(i: usize)
    ensures
        sort_mode_index(sort_mode_at(i)) == (if i < 6 {
            i
        } else {
            0
        }),
{
}

/// What `parse_sort_mode` accepts: the variant name or its snake, spaced or
/// dashed spelling; anything else is `None`.
pub open spec fn sort_mode_named(s: Seq<char>) -> SortMode {
    if s == "DownFirst"@ || s == "down_first"@ || s == "down first"@ || s == "down-first"@ {
        SortMode::DownFirst
    } else if s == "UpFirst"@ || s == "up_first"@ || s == "up first"@ || s == "up-first"@ {
        SortMode::UpFirst
    } else if s == "Name"@ || s == "name"@ {
        SortMode::Name
    } else if s == "Group"@ || s == "group"@ {
        SortMode::Group
    } else if s == "DownOnly"@ || s == "down_only"@ || s == "down only"@ || s == "down-only"@ {
        SortMode::DownOnly
    } else {
        SortMode::Off
    }
}

/// The label a mode is shown with.
pub open spec fn mode_label(m: SortMode) -> Seq<char> {
    match m {
        SortMode::Off => "off"@,
        SortMode::DownFirst => "down first"@,
        SortMode::UpFirst => "up first"@,
        SortMode::Name => "name"@,
        SortMode::Group => "group"@,
        SortMode::DownOnly => "down only"@,
    }
}

/// The names a mode goes by: its variant name, its label, and the snake
/// and dashed spellings of the label (the mode that sorts nothing has only
/// its label).
pub open spec fn mode_spellings(m: SortMode) -> Seq<Seq<char>> {
    match m {
        SortMode::Off => seq!["off"@],
        SortMode::DownFirst => seq!["DownFirst"@, "down first"@, "down_first"@, "down-first"@],
        SortMode::UpFirst => seq!["UpFirst"@, "up first"@, "up_first"@, "up-first"@],
        SortMode::Name => seq!["Name"@, "name"@],
        SortMode::Group => seq!["Group"@, "group"@],
        SortMode::DownOnly => seq!["DownOnly"@, "down only"@, "down_only"@, "down-only"@],
    }
}

/// Reading any name a mode goes by, its label included, gives that mode
/// back; so reading a mode's label after showing it never changes the mode.
pub proof fn law_sort_mode_names_read_back(m: SortMode)
    ensures
        forall|k: int|
            0 <= k < mode_spellings(m).len() ==> sort_mode_named(#[trigger] mode_spellings(m)[k])
                == m,
        sort_mode_named(mode_label(m)) == m,
{
    reveal_strlit("DownFirst");
    reveal_strlit("down_first");
    reveal_strlit("down first");
    reveal_strlit("down-first");
    reveal_strlit("UpFirst");
    reveal_strlit("up_first");
    reveal_strlit("up first");
    reveal_strlit("up-first");
    reveal_strlit("Name");
    reveal_strlit("name");
    reveal_strlit("Group");
    reveal_strlit("group");
    reveal_strlit("DownOnly");
    reveal_strlit("down_only");
    reveal_strlit("down only");
    reveal_strlit("down-only");
    reveal_strlit("off");
    assert(mode_label(m) == mode_spellings(m)[if m == SortMode::Off { 0int } else { 1int }]);
    assert("DownFirst"@[0] != "down_only"@[0]);
    assert("DownFirst"@[0] != "down only"@[0]);
    assert("DownFirst"@[0] != "down-only"@[0]);
    assert("down_first"@[4] != "down first"@[4]);
    assert("down_first"@[4] != "down-first"@[4]);
    assert("down first"@[4] != "down-first"@[4]);
    assert("up_first"@[2] != "up first"@[2]);
    assert("up_first"@[2] != "up-first"@[2]);
    assert("up_first"@[0] != "DownOnly"@[0]);
    assert("up first"@[2] != "up-first"@[2]);
    assert("up first"@[0] != "DownOnly"@[0]);
    assert("up-first"@[0] != "DownOnly"@[0]);
    assert("Name"@[0] != "name"@[0]);
    assert("Group"@[0] != "group"@[0]);
    assert("down_only"@[4] != "down only"@[4]);
    assert("down_only"@[4] != "down-only"@[4]);
    assert("down only"@[4] != "down-only"@[4]);
    assert forall|k: int| 0 <= k < mode_spellings(m).len() implies sort_mode_named(
        #[trigger] mode_spellings(m)[k],
    ) == m by {
        assert("DownFirst"@.len() == 9);
        assert("down_first"@.len() == 10);
        assert("down first"@.len() == 10);
        assert("down-first"@.len() == 10);
        assert("UpFirst"@.len() == 7);
        assert("up_first"@.len() == 8);
        assert("up first"@.len() == 8);
        assert("up-first"@.len() == 8);
        assert("Name"@.len() == 4);
        assert("name"@.len() == 4);
        assert("Group"@.len() == 5);
        assert("group"@.len() == 5);
        assert("DownOnly"@.len() == 8);
        assert("down_only"@.len() == 9);
        assert("down only"@.len() == 9);
        assert("down-only"@.len() == 9);
        assert("off"@.len() == 3);
    }
}

pub fn parse_sort_mode(s: &str) -> (r: SortMode)
    ensures
        r == sort_mode_named(s@),
{
    if str_eq(s, "DownFirst") || str_eq(s, "down_first") || str_eq(s, "down first") || str_eq(
        s,
        "down-first",
    ) {
        SortMode::DownFirst
    } else if str_eq(s, "UpFirst") || str_eq(s, "up_first") || str_eq(s, "up first") || str_eq(
        s,
        "up-first",
    ) {
        SortMode::UpFirst
    } else if str_eq(s, "Name") || str_eq(s, "name") {
        SortMode::Name
    } else if str_eq(s, "Group") || str_eq(s, "group") {
        SortMode::Group
    } else if str_eq(s, "DownOnly") || str_eq(s, "down_only") || str_eq(s, "down only") || str_eq(
        s,
        "down-only",
    ) {
        SortMode::DownOnly
    } else {
        SortMode::Off
    }
}

// ---------------------------------------------------------------------------
// Whole config
// ---------------------------------------------------------------------------

#[derive(Debug)]
pub struct Config {
    pub hosts: Vec<HostConfig>,
    pub timeout_ms: u64,
    pub graph_width: usize,
    pub theme: String,
    pub group_by: bool,
    pub sort_mode: SortMode,
    /// Generic webhook POSTed on up/down transitions. None = disabled.
    pub webhook_url: Option<String>,
    /// Terminal bell on down-transitions.
    pub notify_bell: bool,
    /// Collapsed group names in grouped view.
    pub collapsed_groups: Vec<String>,
}

pub ghost struct ConfigView {
    pub hosts: Seq<HostView>,
    pub timeout_ms: u64,
    pub graph_width: usize,
    pub theme: Seq<char>,
    pub group_by: bool,
    pub sort_mode: SortMode,
    pub webhook_url: Option<Seq<char>>,
    pub notify_bell: bool,
    pub collapsed_groups: Seq<Seq<char>>,
}

pub open spec fn string_views(s: Seq<String>) -> Seq<Seq<char>> {
    s.map_values(|x: String| x@)
}

impl View for Config {
    type V = ConfigView;

    open spec fn view(&self) -> ConfigView {
        ConfigView {
            hosts: host_views(self.hosts@),
            timeout_ms: self.timeout_ms,
            graph_width: self.graph_width,
            theme: self.theme@,
            group_by: self.group_by,
            sort_mode: self.sort_mode,
            webhook_url: opt_view(self.webhook_url),
            notify_bell: self.notify_bell,
            collapsed_groups: string_views(self.collapsed_groups@),
        }
    }
}

pub open spec fn default_theme_text() -> Seq<char> {
    seq!['b', 't', 'o', 'p']
}

pub fn default_theme_name() -> (r: String)
    ensures
        r@ == default_theme_text(),
{
    let v: Vec<char> = vec!['b', 't', 'o', 'p'];
    assert(v@ =~= default_theme_text());
    string_from_chars(&v)
}

pub fn default_timeout() -> (r: u64)
    ensures
        r == DEFAULT_TIMEOUT_MS,
{
    DEFAULT_TIMEOUT_MS
}

pub fn default_graph_width() -> (r: usize)
    ensures
        r == DEFAULT_GRAPH_WIDTH,
{
    DEFAULT_GRAPH_WIDTH
}

/// The starter host set used on first launch.
pub open spec fn starter_hosts() -> Seq<HostView> {
    seq![
        new_host("8.8.8.8"@, 60, "external"@, None, None),
        new_host("1.1.1.1"@, 120, "external"@, Some("Cloudflare"@), None),
        new_host("192.168.1.1"@, 120, "router"@, None, None),
        new_host("google.com"@, 120, "external"@, None, None),
    ]
}

impl Default for Config {
    fn default() -> (c: Self)
        ensures
            c@ == (ConfigView {
                hosts: starter_hosts(),
                timeout_ms: DEFAULT_TIMEOUT_MS,
                graph_width: DEFAULT_GRAPH_WIDTH,
                theme: default_theme_text(),
                group_by: false,
                sort_mode: SortMode::Off,
                webhook_url: None,
                notify_bell: false,
                collapsed_groups: Seq::empty(),
            }),
    {
        let mut hosts: Vec<HostConfig> = Vec::new();
        hosts.push(HostConfig::new("8.8.8.8".to_owned(), 60, "external".to_owned(), None, None));
        hosts.push(
            HostConfig::new(
                "1.1.1.1".to_owned(),
                120,
                "external".to_owned(),
                Some("Cloudflare".to_owned()),
                None,
            ),
        );
        hosts.push(HostConfig::new("192.168.1.1".to_owned(), 120, "router".to_owned(), None, None));
        hosts.push(HostConfig::new("google.com".to_owned(), 120, "external".to_owned(), None, None));
        let collapsed: Vec<String> = Vec::new();
        let c = Config {
            hosts,
            timeout_ms: DEFAULT_TIMEOUT_MS,
            graph_width: DEFAULT_GRAPH_WIDTH,
            theme: default_theme_name(),
            group_by: false,
            sort_mode: SortMode::Off,
            webhook_url: None,
            notify_bell: false,
            collapsed_groups: collapsed,
        };
        assert(host_views(c.hosts@) =~= starter_hosts());
        assert(string_views(c.collapsed_groups@) =~= Seq::<Seq<char>>::empty());
        c
    }
}

// ---------------------------------------------------------------------------
// Older config layouts
// ---------------------------------------------------------------------------

/// The fields of one host object in an older config file, each present only
/// when the file holds it with the expected JSON type.
#[derive(Debug)]
pub struct LegacyHostFields {
    pub name: Option<String>,
    pub interval_secs: Option<u64>,
    pub interval: Option<String>,
    pub interval_s: Option<u64>,
    pub interval_m: Option<u64>,
    pub group: Option<String>,
    pub alias: Option<String>,
    pub port: Option<u64>,
}

/// One element of the `hosts` array of an older config file.
#[derive(Debug)]
pub enum LegacyHost {
    /// A bare host name.
    Name(String),
    /// A host object.
    Entry(LegacyHostFields),
    /// Anything else; skipped.
    Other,
}

/// The top-level fields of an older config file, each present only when the
/// file holds it with the expected JSON type. A missing `hosts` array is an
/// empty one; `collapsed_groups` holds `None` for each non-string element.
#[derive(Debug)]
pub struct LegacyConfig {
    pub hosts: Vec<LegacyHost>,
    pub timeout_ms: Option<u64>,
    pub graph_width: Option<u64>,
    pub theme: Option<String>,
    pub group_by: Option<bool>,
    pub sort_mode: Option<String>,
    pub webhook_url: Option<String>,
    pub notify_bell: Option<bool>,
    pub collapsed_groups: Vec<Option<String>>,
}

/// The view of a legacy host object's fields.
pub ghost struct LegacyHostFieldsView {
    pub name: Option<Seq<char>>,
    pub interval_secs: Option<u64>,
    pub interval: Option<Seq<char>>,
    pub interval_s: Option<u64>,
    pub interval_m: Option<u64>,
    pub group: Option<Seq<char>>,
    pub alias: Option<Seq<char>>,
    pub port: Option<u64>,
}

impl View for LegacyHostFields {
    type V = LegacyHostFieldsView;

    open spec fn view(&self) -> LegacyHostFieldsView {
        LegacyHostFieldsView {
            name: opt_view(self.name),
            interval_secs: self.interval_secs,
            interval: opt_view(self.interval),
            interval_s: self.interval_s,
            interval_m: self.interval_m,
            group: opt_view(self.group),
            alias: opt_view(self.alias),
            port: self.port,
        }
    }
}

/// The view of an element of a legacy `hosts` array.
pub ghost enum LegacyHostView {
    Name(Seq<char>),
    Entry(LegacyHostFieldsView),
    Other,
}

impl View for LegacyHost {
    type V = LegacyHostView;

    open spec fn view(&self) -> LegacyHostView {
        match self {
            LegacyHost::Name(n) => LegacyHostView::Name(n@),
            LegacyHost::Entry(f) => LegacyHostView::Entry(f@),
            LegacyHost::Other => LegacyHostView::Other,
        }
    }
}

/// The view of the fields of an older config file.
pub ghost struct LegacyConfigView {
    pub hosts: Seq<LegacyHostView>,
    pub timeout_ms: Option<u64>,
    pub graph_width: Option<u64>,
    pub theme: Option<Seq<char>>,
    pub group_by: Option<bool>,
    pub sort_mode: Option<Seq<char>>,
    pub webhook_url: Option<Seq<char>>,
    pub notify_bell: Option<bool>,
    pub collapsed_groups: Seq<Option<Seq<char>>>,
}

impl View for LegacyConfig {
    type V = LegacyConfigView;

    open spec fn view(&self) -> LegacyConfigView {
        LegacyConfigView {
            hosts: self.hosts@.map_values(|h: LegacyHost| h@),
            timeout_ms: self.timeout_ms,
            graph_width: self.graph_width,
            theme: opt_view(self.theme),
            group_by: self.group_by,
            sort_mode: opt_view(self.sort_mode),
            webhook_url: opt_view(self.webhook_url),
            notify_bell: self.notify_bell,
            collapsed_groups: self.collapsed_groups@.map_values(|g: Option<String>| opt_view(g)),
        }
    }
}

/// The interval a legacy host object asks for, newest field first: explicit
/// positive seconds, a parseable `"30s"`-style string, positive `interval_s`,
/// positive legacy minutes, else the default.
pub open spec fn legacy_interval(f: LegacyHostFieldsView) -> u64 {
    if f.interval_secs matches Some(s) && s > 0 {
        f.interval_secs->0
    } else if f.interval matches Some(t) && interval_of(t) is Some {
        interval_of(f.interval->0)->0
    } else if f.interval_s matches Some(s) && s > 0 {
        f.interval_s->0
    } else if f.interval_m matches Some(m) && m > 0 {
        sat_mul(f.interval_m->0 as nat, 60)
    } else {
        DEFAULT_INTERVAL_SECS
    }
}

pub fn parse_host_interval(f: &LegacyHostFields) -> (r: u64)
    ensures
        r == legacy_interval(f@),
{
    if let Some(s) = f.interval_secs {
        if s > 0 {
            return s;
        }
    }
    if let Some(t) = &f.interval {
        if let Some(parsed) = parse_interval(t.as_str()) {
            return parsed;
        }
    }
    if let Some(s) = f.interval_s {
        if s > 0 {
            return s;
        }
    }
    let mins = match f.interval_m {
        Some(m) => m,
        None => 0,
    };
    if mins > 0 {
        return if (mins as u128) * 60 > u64::MAX as u128 {
            u64::MAX
        } else {
            mins * 60
        };
    }
    DEFAULT_INTERVAL_SECS
}

/// A port number is kept when it is in 1 ..= 65535.
pub open spec fn port_of(p: Option<u64>) -> Option<u16> {
    match p {
        Some(x) => if 0 < x && x <= 65535 {
            Some(x as u16)
        } else {
            None
        },
        None => None,
    }
}

pub fn parse_port(p: Option<u64>) -> (r: Option<u16>)
    ensures
        r == port_of(p),
{
    match p {
        Some(x) => if 0 < x && x <= 65535 {
            Some(x as u16)
        } else {
            None
        },
        None => None,
    }
}

/// The host entry an element of a legacy `hosts` array becomes, if any.
pub open spec fn legacy_host(h: LegacyHostView) -> Option<HostView> {
    match h {
        LegacyHostView::Name(n) => Some(
            new_host(n, DEFAULT_INTERVAL_SECS, default_group_name(), None, None),
        ),
        LegacyHostView::Entry(f) => Some(
            new_host(
                match f.name {
                    Some(n) => n,
                    None => Seq::empty(),
                },
                legacy_interval(f),
                match f.group {
                    Some(g) => g,
                    None => default_group_name(),
                },
                f.alias,
                port_of(f.port),
            ),
        ),
        LegacyHostView::Other => None,
    }
}

/// The entries of a legacy `hosts` array, in order, skipping unusable ones.
pub open spec fn legacy_hosts(s: Seq<LegacyHostView>) -> Seq<HostView>
    decreases s.len(),
{
    if s.len() == 0 {
        Seq::empty()
    } else {
        let rest = legacy_hosts(s.drop_last());
        match legacy_host(s.last()) {
            Some(h) => rest.push(h),
            None => rest,
        }
    }
}

/// The string elements of a legacy `collapsed_groups` array.
pub open spec fn present_strings(s: Seq<Option<Seq<char>>>) -> Seq<Seq<char>>
    decreases s.len(),
{
    if s.len() == 0 {
        Seq::empty()
    } else {
        let rest = present_strings(s.drop_last());
        match s.last() {
            Some(x) => rest.push(x),
            None => rest,
        }
    }
}

/// The config an older file describes; missing fields take their defaults.
pub open spec fn legacy_config(d: LegacyConfigView) -> ConfigView {
    ConfigView {
        hosts: legacy_hosts(d.hosts),
        timeout_ms: match d.timeout_ms {
            Some(t) => t,
            None => DEFAULT_TIMEOUT_MS,
        },
        graph_width: match d.graph_width {
            Some(w) => w as usize,
            None => DEFAULT_GRAPH_WIDTH,
        },
        theme: match d.theme {
            Some(t) => t,
            None => default_theme_text(),
        },
        group_by: match d.group_by {
            Some(b) => b,
            None => false,
        },
        sort_mode: match d.sort_mode {
            Some(m) => sort_mode_named(m),
            None => SortMode::Off,
        },
        webhook_url: match d.webhook_url {
            Some(u) => if blank(u) {
                None
            } else {
                Some(u)
            },
            None => None,
        },
        notify_bell: match d.notify_bell {
            Some(b) => b,
            None => false,
        },
        collapsed_groups: present_strings(d.collapsed_groups),
    }
}

fn legacy_host_entry(h: &LegacyHost) -> (r: Option<HostConfig>)
    ensures
        match legacy_host(h@) {
            Some(v) => r matches Some(c) && c@ == v,
            None => r is None,
        },
{
    match h {
        LegacyHost::Name(n) => Some(
            HostConfig::new(n.clone(), DEFAULT_INTERVAL_SECS, default_group(), None, None),
        ),
        LegacyHost::Entry(f) => {
            let name = match &f.name {
                Some(n) => n.clone(),
                None => String::new(),
            };
            let interval_secs = parse_host_interval(f);
            let group = match &f.group {
                Some(g) => g.clone(),
                None => default_group(),
            };
            let alias = clone_opt_string(&f.alias);
            Some(HostConfig::new(name, interval_secs, group, alias, parse_port(f.port)))
        },
        LegacyHost::Other => None,
    }
}

/// Builds a config from the fields of an older config file.
pub fn config_from_legacy(d: &LegacyConfig) -> (c: Config)
    ensures
        c@ == legacy_config(d@),
{
    let ghost dv = d@;
    let mut hosts: Vec<HostConfig> = Vec::new();
    let mut i: usize = 0;
    while i < d.hosts.len()
        invariant
            0 <= i <= d.hosts.len(),
            dv == d@,
            host_views(hosts@) == legacy_hosts(dv.hosts.take(i as int)),
        decreases d.hosts.len() - i,
    {
        assert(dv.hosts.take(i + 1).drop_last() =~= dv.hosts.take(i as int));
        assert(dv.hosts.take(i + 1).last() == d.hosts@[i as int]@);
        let e = legacy_host_entry(&d.hosts[i]);
        match e {
            Some(h) => {
                hosts.push(h);
            },
            None => {},
        }
        i += 1;
        assert(host_views(hosts@) =~= legacy_hosts(dv.hosts.take(i as int)));
    }
    assert(dv.hosts.take(d.hosts.len() as int) =~= dv.hosts);
    let mut groups: Vec<String> = Vec::new();
    let mut j: usize = 0;
    while j < d.collapsed_groups.len()
        invariant
            0 <= j <= d.collapsed_groups.len(),
            dv == d@,
            string_views(groups@) == present_strings(dv.collapsed_groups.take(j as int)),
        decreases d.collapsed_groups.len() - j,
    {
        assert(dv.collapsed_groups.take(j + 1).drop_last() =~= dv.collapsed_groups.take(j as int));
        assert(dv.collapsed_groups.take(j + 1).last() == opt_view(d.collapsed_groups@[j as int]));
        match &d.collapsed_groups[j] {
            Some(g) => {
                groups.push(g.clone());
            },
            None => {},
        }
        j += 1;
        assert(string_views(groups@) =~= present_strings(dv.collapsed_groups.take(j as int)));
    }
    assert(dv.collapsed_groups.take(d.collapsed_groups.len() as int) =~= dv.collapsed_groups);
    let webhook_url = match &d.webhook_url {
        Some(u) => if is_blank(u.as_str()) {
            None
        } else {
            Some(u.clone())
        },
        None => None,
    };
    Config {
        hosts,
        timeout_ms: match d.timeout_ms {
            Some(t) => t,
            None => DEFAULT_TIMEOUT_MS,
        },
        graph_width: match d.graph_width {
            Some(w) => w as usize,
            None => DEFAULT_GRAPH_WIDTH,
        },
        theme: match &d.theme {
            Some(t) => t.clone(),
            None => default_theme_name(),
        },
        group_by: match d.group_by {
            Some(b) => b,
            None => false,
        },
        sort_mode: match &d.sort_mode {
            Some(m) => parse_sort_mode(m.as_str()),
            None => SortMode::Off,
        },
        webhook_url,
        notify_bell: match d.notify_bell {
            Some(b) => b,
            None => false,
        },
        collapsed_groups: groups,
    }
}

/// An element of a legacy `hosts` array as the file holds it: a bare name
/// when a string, the host object's fields when an object, else unusable.
pub open spec fn legacy_host_of(it: ItemView) -> LegacyHostView {
    match it.0.0 {
        Some(n) => LegacyHostView::Name(n),
        None => match it.1 {
            Some(ps) => LegacyHostView::Entry(
                LegacyHostFieldsView {
                    name: pair_text(ps, "name"@),
                    interval_secs: pair_number(ps, "interval_secs"@),
                    interval: pair_text(ps, "interval"@),
                    interval_s: pair_number(ps, "interval_s"@),
                    interval_m: pair_number(ps, "interval_m"@),
                    group: pair_text(ps, "group"@),
                    alias: pair_text(ps, "alias"@),
                    port: pair_number(ps, "port"@),
                },
            ),
            None => LegacyHostView::Other,
        },
    }
}

/// What an older config file's top-level fields say; a missing `hosts` or
/// `collapsed_groups` array is an empty one.
pub open spec fn legacy_view_of(fs: Seq<FieldView>) -> LegacyConfigView {
    LegacyConfigView {
        hosts: match field_items(fs, "hosts"@) {
            Some(items) => items.map_values(|it: ItemView| legacy_host_of(it)),
            None => Seq::empty(),
        },
        timeout_ms: field_number(fs, "timeout_ms"@),
        graph_width: field_number(fs, "graph_width"@),
        theme: field_text(fs, "theme"@),
        group_by: field_truth(fs, "group_by"@),
        sort_mode: field_text(fs, "sort_mode"@),
        webhook_url: field_text(fs, "webhook_url"@),
        notify_bell: field_truth(fs, "notify_bell"@),
        collapsed_groups: match field_items(fs, "collapsed_groups"@) {
            Some(items) => items.map_values(|it: ItemView| it.0.0),
            None => Seq::empty(),
        },
    }
}

fn legacy_host_of_item(it: &JsonItem) -> (r: LegacyHost)
    ensures
        r@ == legacy_host_of(item_view(*it)),
{
    match item_text(it) {
        Some(n) => LegacyHost::Name(n),
        None => match &it.1 {
            Some(ps) => LegacyHost::Entry(
                LegacyHostFields {
                    name: get_pair_text(ps, "name"),
                    interval_secs: get_pair_number(ps, "interval_secs"),
                    interval: get_pair_text(ps, "interval"),
                    interval_s: get_pair_number(ps, "interval_s"),
                    interval_m: get_pair_number(ps, "interval_m"),
                    group: get_pair_text(ps, "group"),
                    alias: get_pair_text(ps, "alias"),
                    port: get_pair_number(ps, "port"),
                },
            ),
            None => LegacyHost::Other,
        },
    }
}

/// Takes the fields of an older config file from its top-level fields.
pub fn legacy_of_fields(fs: &Vec<JsonField>) -> (r: LegacyConfig)
    ensures
        r@ == legacy_view_of(fields_view(fs@)),
{
    let mut hosts: Vec<LegacyHost> = Vec::new();
    match get_items(fs, "hosts") {
        Some(items) => {
            let ghost iv = items_view(items@);
            let mut i: usize = 0;
            while i < items.len()
                invariant
                    0 <= i <= items.len(),
                    iv == items_view(items@),
                    hosts.len() == i,
                    forall|k: int| 0 <= k < i ==> #[trigger] hosts@[k]@ == legacy_host_of(iv[k]),
                decreases items.len() - i,
            {
                assert(iv[i as int] == item_view(items@[i as int]));
                hosts.push(legacy_host_of_item(&items[i]));
                i += 1;
            }
            assert(hosts@.map_values(|h: LegacyHost| h@) =~= iv.map_values(
                |it: ItemView| legacy_host_of(it),
            ));
        },
        None => {
            assert(hosts@.map_values(|h: LegacyHost| h@) =~= Seq::<LegacyHostView>::empty());
        },
    }
    let mut groups: Vec<Option<String>> = Vec::new();
    match get_items(fs, "collapsed_groups") {
        Some(items) => {
            let ghost iv = items_view(items@);
            let mut i: usize = 0;
            while i < items.len()
                invariant
                    0 <= i <= items.len(),
                    iv == items_view(items@),
                    groups.len() == i,
                    forall|k: int| 0 <= k < i ==> #[trigger] opt_view(groups@[k]) == iv[k].0.0,
                decreases items.len() - i,
            {
                assert(iv[i as int] == item_view(items@[i as int]));
                groups.push(item_text(&items[i]));
                i += 1;
            }
            assert(groups@.map_values(|g: Option<String>| opt_view(g)) =~= iv.map_values(
                |it: ItemView| it.0.0,
            ));
        },
        None => {
            assert(groups@.map_values(|g: Option<String>| opt_view(g)) =~= Seq::<
                Option<Seq<char>>,
            >::empty());
        },
    }
    LegacyConfig {
        hosts,
        timeout_ms: get_number(fs, "timeout_ms"),
        graph_width: get_number(fs, "graph_width"),
        theme: get_text(fs, "theme"),
        group_by: get_truth(fs, "group_by"),
        sort_mode: get_text(fs, "sort_mode"),
        webhook_url: get_text(fs, "webhook_url"),
        notify_bell: get_truth(fs, "notify_bell"),
        collapsed_groups: groups,
    }
}

/// The config an older config file's text describes (read as JSON);
/// `None` when the text is not JSON.
pub fn config_from_legacy_text(text: &str) -> (r: Option<Config>)
    ensures
        match json_doc(text@) {
            Some(f) => r matches Some(c) && c@ == legacy_config(legacy_view_of(f)),
            None => r is None,
        },
{
    match parse_json(text) {
        Some(fs) => Some(config_from_legacy(&legacy_of_fields(&fs))),
        None => None,
    }
}

// ---------------------------------------------------------------------------
// hosts.csv rows
// ---------------------------------------------------------------------------

pub open spec fn field_at(row: Seq<Seq<char>>, i: int) -> Option<Seq<char>> {
    if 0 <= i < row.len() {
        Some(row[i])
    } else {
        None
    }
}

/// The host a `hosts.csv` row of strings describes (see `csv_fields_host`).
pub open spec fn csv_host(row: Seq<String>) -> Option<HostView> {
    csv_fields_host(string_views(row))
}

/// The host a `hosts.csv` row describes (`name,interval,group,alias,port`,
/// later columns optional, further ones ignored), or `None` when the
/// trimmed name is empty.
pub open spec fn csv_fields_host(row: Seq<Seq<char>>) -> Option<HostView> {
    let name = match field_at(row, 0) {
        Some(n) => trim(n),
        None => Seq::empty(),
    };
    if name.len() == 0 {
        None
    } else {
        let interval = match field_at(row, 1) {
            Some(t) => match interval_of(t) {
                Some(x) => x,
                None => DEFAULT_INTERVAL_SECS,
            },
            None => DEFAULT_INTERVAL_SECS,
        };
        let group = match field_at(row, 2) {
            Some(g) => trim(g),
            None => Seq::empty(),
        };
        let alias = match field_at(row, 3) {
            Some(a) => Some(trim(a)),
            None => None,
        };
        let port: Option<u16> = match field_at(row, 4) {
            Some(p) => match parse_uint(trim(p), 65535) {
                Some(x) => if x > 0 {
                    Some(x as u16)
                } else {
                    None
                },
                None => None,
            },
            None => None,
        };
        Some(
            new_host(
                name,
                interval,
                if group.len() == 0 {
                    default_group_name()
                } else {
                    group
                },
                alias,
                port,
            ),
        )
    }
}

pub fn host_from_csv_row(row: &Vec<String>) -> (r: Option<HostConfig>)
    ensures
        match csv_host(row@) {
            Some(v) => r matches Some(h) && h@ == v,
            None => r is None,
        },
{
    let name: Vec<char> = if row.len() > 0 {
        let c = chars_of(row[0].as_str());
        trim_chars(&c)
    } else {
        Vec::new()
    };
    if name.len() == 0 {
        return None;
    }
    let interval = if row.len() > 1 {
        match parse_interval(row[1].as_str()) {
            Some(x) => x,
            None => DEFAULT_INTERVAL_SECS,
        }
    } else {
        DEFAULT_INTERVAL_SECS
    };
    let group: Vec<char> = if row.len() > 2 {
        let c = chars_of(row[2].as_str());
        trim_chars(&c)
    } else {
        Vec::new()
    };
    let group_s = if group.len() == 0 {
        default_group()
    } else {
        string_from_chars(&group)
    };
    let alias = if row.len() > 3 {
        let c = chars_of(row[3].as_str());
        Some(string_from_chars(&trim_chars(&c)))
    } else {
        None
    };
    let port: Option<u16> = if row.len() > 4 {
        let c = chars_of(row[4].as_str());
        match parse_uint_chars(&trim_chars(&c), 65535) {
            Some(x) => if x > 0 {
                Some(x as u16)
            } else {
                None
            },
            None => None,
        }
    } else {
        None
    };
    let h = HostConfig::new(string_from_chars(&name), interval, group_s, alias, port);
    Some(h)
}

/// The hosts that CSV rows describe, in order; rows that describe none
/// (an empty name) are skipped.
pub open spec fn csv_hosts(records: Seq<Seq<Seq<char>>>) -> Seq<HostView>
    decreases records.len(),
{
    if records.len() == 0 {
        Seq::empty()
    } else {
        let rest = csv_hosts(records.drop_last());
        match csv_fields_host(records.last()) {
            Some(h) => rest.push(h),
            None => rest,
        }
    }
}

/// The entries a `hosts.csv` file holds: the host of each row after the
/// header, in order, skipping rows without a name; rows of any length are
/// read. An error when a record cannot be read.
pub fn entries_from_csv(data: &[u8]) -> (r: Result<Vec<HostConfig>, String>)
    ensures
        ({
            let (recs, complete) = readable_prefix(csv_rows(data@, true));
            if complete {
                r matches Ok(v) && host_views(v@) == csv_hosts(recs)
            } else {
                r is Err
            }
        }),
{
    let rows = read_csv_rows(data, true);
    let (records, complete) = rows_before_bad(&rows);
    if !complete {
        return Err("a CSV record could not be read".to_string());
    }
    let ghost recs = rec_views(records@);
    let mut out: Vec<HostConfig> = Vec::new();
    let mut i: usize = 0;
    while i < records.len()
        invariant
            0 <= i <= records.len(),
            recs == rec_views(records@),
            host_views(out@) == csv_hosts(recs.take(i as int)),
        decreases records.len() - i,
    {
        assert(recs.take(i + 1).drop_last() =~= recs.take(i as int));
        assert(recs.take(i + 1).last() == string_views(records@[i as int]@));
        let ghost before = out@;
        match host_from_csv_row(&records[i]) {
            Some(h) => {
                out.push(h);
                assert(host_views(out@) =~= host_views(before).push(h@));
            },
            None => {},
        }
        i += 1;
    }
    assert(recs.take(records.len() as int) =~= recs);
    Ok(out)
}

/// The `hosts.csv` row written for an entry: its name, its effective
/// interval as `30s`-style text, its group, its alias (empty when none) and
/// its port (empty when none).
pub open spec fn csv_row(h: HostView) -> Seq<Seq<char>> {
    seq![
        h.name,
        interval_text(effective_interval(h)),
        h.group,
        match h.alias {
            Some(a) => a,
            None => Seq::empty(),
        },
        match h.port {
            Some(p) => decimal(p as nat),
            None => Seq::empty(),
        },
    ]
}

/// The `hosts.csv` record of an entry.
pub fn host_csv_record(h: &HostConfig) -> (r: Vec<String>)
    ensures
        string_views(r@) == csv_row(h@),
{
    let alias = match &h.alias {
        Some(a) => a.clone(),
        None => String::new(),
    };
    let port = match h.port {
        Some(p) => {
            let mut v: Vec<char> = Vec::new();
            push_decimal(&mut v, p as u64);
            assert(v@ =~= decimal(p as nat));
            string_from_chars(&v)
        },
        None => String::new(),
    };
    let r = vec![
        h.name.clone(),
        format_interval(h.effective_interval_secs()),
        h.group.clone(),
        alias,
        port,
    ];
    assert(string_views(r@) =~= csv_row(h@));
    r
}

/// Writing an entry to `hosts.csv` and reading the row back gives the entry
/// again, with its effective interval in seconds (the legacy minutes become
/// 0), for every entry whose name, group and alias are already trimmed and
/// non-empty (a missing alias is fine) and whose port is not 0.
pub proof fn law_csv_roundtrip(h: HostView, row: Seq<String>)
    requires
        string_views(row) == csv_row(h),
        h.name.len() > 0 && trim(h.name) == h.name,
        h.group.len() > 0 && trim(h.group) == h.group,
        h.alias matches Some(a) ==> a.len() > 0 && trim(a) == a,
        h.port != Some(0u16),
    ensures
        csv_host(row) == Some(HostView { interval_m: 0, interval_secs: effective_interval(h), ..h }),
{
    let v = string_views(row);
    assert(csv_row(h).len() == 5);
    assert(v.len() == row.len());
    assert(row.len() == 5);
    assert(field_at(v, 0) == Some(h.name));
    assert(field_at(v, 1) == Some(interval_text(effective_interval(h))));
    assert(field_at(v, 2) == Some(h.group));
    lemma_interval_roundtrip(effective_interval(h));
    let alias_text = match h.alias {
        Some(a) => a,
        None => Seq::<char>::empty(),
    };
    assert(field_at(v, 3) == Some(alias_text));
    assert(trim(Seq::<char>::empty()) =~= Seq::<char>::empty());
    match h.port {
        Some(p) => {
            assert(field_at(v, 4) == Some(decimal(p as nat)));
            lemma_decimal(p as nat);
            lemma_no_ws_trim(decimal(p as nat));
            lemma_parse_decimal(p as nat, 65535);
        },
        None => {
            assert(field_at(v, 4) == Some(Seq::<char>::empty()));
            assert(parse_uint(Seq::<char>::empty(), 65535) is None);
        },
    }
}

} // verus!
