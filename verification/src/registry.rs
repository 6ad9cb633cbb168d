//! The host list: config entries and live states kept side by side, and the
//! operations that change them (add, edit, remove, import, results, stats).
//!
//! Entry `i` of the config and live state `i` always describe the same host;
//! every operation here keeps that, and keeps host names unique.

use vstd::prelude::*;
use crate::records::{csv_rows, read_csv_rows, readable_prefix, rec_views, rows_before_bad};
use crate::config::{
    blank, clamp, default_group, default_group_name, effective_interval, host_views, interval_of,
    is_blank, new_host, parse_interval, string_views, Config, HostConfig, HostView,
    DEFAULT_INTERVAL_SECS, MAX_INTERVAL_SECS, MIN_INTERVAL_SECS,
};
use crate::hoststate::{
    flaps_after, keep_last, keep_last_vec, state_views, AddHostForm, HostState, HostStateView,
};
use crate::text::{
    chars_eq, chars_of, parse_uint, parse_uint_chars, string_from_chars, trim, trim_chars,
};

verus! {

/// What `Registry::add_host` does.
pub open spec fn add_done(
    r0: Registry,
    r1: Registry,
    name: Seq<char>,
    interval_secs: u64,
    group: Seq<char>,
    alias: Seq<char>,
    port: Option<u16>,
    now_ms: u64,
    added: bool,
) -> bool {
    let n = trim(name);
    let secs = clamp(interval_secs, MIN_INTERVAL_SECS, MAX_INTERVAL_SECS);
    &&& added == (n.len() > 0 && !has_name(r0.entries(), n))
    &&& added ==> r1.entries() == r0.entries().push(
        new_host(n, secs, form_group(group), form_alias(alias), port),
    ) && r1.states() == r0.states().push(
        fresh_state(n, secs, form_group(group), form_alias(alias), port, now_ms),
    )
    &&& !added ==> r1.entries() == r0.entries() && r1.states() == r0.states()
    &&& r1.selected_idx == r0.selected_idx
    &&& r1.config == Config { hosts: r1.config.hosts, ..r0.config }
}

/// What `Registry::remove_selected` does.
pub open spec fn remove_done(r0: Registry, r1: Registry, removed: bool) -> bool {
    let sel = r0.selected_idx;
    &&& removed == (r0.hosts.len() > 1 && sel < r0.hosts.len())
    &&& removed ==> r1.entries() == r0.entries().remove(sel as int) && r1.states()
        == r0.states().remove(sel as int) && r1.selected_idx == (if sel >= r1.hosts.len() {
        r1.hosts.len() - 1
    } else {
        sel as int
    })
    &&& !removed ==> r1 == r0
    &&& r1.config == Config { hosts: r1.config.hosts, ..r0.config }
}

/// What `Registry::edit_entry` does.
pub open spec fn edit_done(
    r0: Registry,
    r1: Registry,
    original: Seq<char>,
    form: AddHostForm,
    changed: bool,
) -> bool {
    &&& r1.selected_idx == r0.selected_idx
    &&& r1.config == Config { hosts: r1.config.hosts, ..r0.config }
    &&& match first_named(r0.entries(), original) {
        None => !changed,
        Some(i) => changed == !edit_blocked(r0.entries(), i, trim(form.host@)),
    }
    &&& !changed ==> r1.entries() == r0.entries() && r1.states() == r0.states()
    &&& changed ==> {
        let i = first_named(r0.entries(), original)->0;
        &&& r1.entries() == r0.entries().update(i, edited_entry(r0.entries()[i], form))
        &&& r1.states() == (if i < r0.states().len() {
            r0.states().update(i, edited_state(r0.states()[i], form))
        } else {
            r0.states()
        })
    }
}

/// Entry `i` of the config and live state `i` name the same host.
pub open spec fn in_step(c: Seq<HostView>, h: Seq<HostStateView>) -> bool {
    &&& c.len() == h.len()
    &&& forall|i: int| 0 <= i < c.len() ==> #[trigger] c[i].name == h[i].name
}

/// No two config entries share a name.
pub open spec fn names_unique(c: Seq<HostView>) -> bool {
    forall|i: int, j: int| 0 <= i < j < c.len() ==> c[i].name != c[j].name
}

pub open spec fn has_name(c: Seq<HostView>, n: Seq<char>) -> bool {
    exists|i: int| 0 <= i < c.len() && #[trigger] c[i].name == n
}

/// The first config entry named `n`.
pub open spec fn first_named_from(c: Seq<HostView>, n: Seq<char>, i: int) -> Option<int>
    decreases c.len() - i,
{
    if i < 0 || i >= c.len() {
        None
    } else if c[i].name == n {
        Some(i)
    } else {
        first_named_from(c, n, i + 1)
    }
}

pub open spec fn first_named(c: Seq<HostView>, n: Seq<char>) -> Option<int> {
    first_named_from(c, n, 0)
}

proof fn lemma_first_named_from(c: Seq<HostView>, n: Seq<char>, i: int)
    requires
        0 <= i,
    ensures
        first_named_from(c, n, i) matches Some(p) ==> i <= p < c.len() && c[p].name == n && forall|
            k: int,
        | i <= k < p ==> c[k].name != n,
        first_named_from(c, n, i) is None ==> forall|k: int| i <= k < c.len() ==> c[k].name != n,
    decreases c.len() - i,
{
    if i < c.len() && c[i].name != n {
        lemma_first_named_from(c, n, i + 1);
    }
}

pub proof fn lemma_first_named(c: Seq<HostView>, n: Seq<char>)
    ensures
        first_named(c, n) matches Some(p) ==> 0 <= p < c.len() && c[p].name == n && forall|k: int|
            0 <= k < p ==> c[k].name != n,
        first_named(c, n) is None <==> !has_name(c, n),
{
    lemma_first_named_from(c, n, 0);
}

/// The live state of a host that was just added at `now_ms`.
pub open spec fn fresh_state(
    name: Seq<char>,
    interval_secs: u64,
    group: Seq<char>,
    alias: Option<Seq<char>>,
    port: Option<u16>,
    now_ms: u64,
) -> HostStateView {
    HostStateView {
        name,
        alias: match alias {
            Some(a) => if blank(a) {
                None
            } else {
                Some(a)
            },
            None => None,
        },
        group,
        interval_secs,
        port,
        next_ping_ms: now_ms,
        history: Seq::empty(),
        up: false,
        total_checks: 0,
        up_checks: 0,
        last_change_ms: None,
        flaps: Seq::empty(),
    }
}

/// A group typed into a form: trimmed, `default` when blank.
pub open spec fn form_group(g: Seq<char>) -> Seq<char> {
    if blank(g) {
        default_group_name()
    } else {
        trim(g)
    }
}

/// An alias typed into a form: trimmed, absent when blank.
pub open spec fn form_alias(a: Seq<char>) -> Option<Seq<char>> {
    if blank(a) {
        None
    } else {
        Some(trim(a))
    }
}

/// A port typed into a form: a number in 1 ..= 65535, else none.
pub open spec fn form_port(p: Seq<char>) -> Option<u16> {
    match parse_uint(trim(p), 65535) {
        Some(x) => if x > 0 {
            Some(x as u16)
        } else {
            None
        },
        None => None,
    }
}

/// An interval typed into a form, clamped to 5s ..= 24h; the default when it
/// does not parse.
pub open spec fn form_interval(t: Seq<char>) -> u64 {
    clamp(
        match interval_of(t) {
            Some(x) => x,
            None => DEFAULT_INTERVAL_SECS,
        },
        MIN_INTERVAL_SECS,
        MAX_INTERVAL_SECS,
    )
}

pub fn form_group_string(g: &str) -> (r: String)
    ensures
        r@ == form_group(g@),
{
    if is_blank(g) {
        default_group()
    } else {
        let v = chars_of(g);
        string_from_chars(&trim_chars(&v))
    }
}

pub fn form_alias_string(a: &str) -> (r: Option<String>)
    ensures
        match form_alias(a@) {
            Some(x) => r matches Some(s) && s@ == x,
            None => r is None,
        },
{
    if is_blank(a) {
        None
    } else {
        let v = chars_of(a);
        Some(string_from_chars(&trim_chars(&v)))
    }
}

pub fn parse_form_port(p: &str) -> (r: Option<u16>)
    ensures
        r == form_port(p@),
{
    let v = chars_of(p);
    match parse_uint_chars(&trim_chars(&v), 65535) {
        Some(x) => if x > 0 {
            Some(x as u16)
        } else {
            None
        },
        None => None,
    }
}

pub fn clamp_interval(x: u64) -> (r: u64)
    ensures
        r == clamp(x, MIN_INTERVAL_SECS, MAX_INTERVAL_SECS),
{
    if x < MIN_INTERVAL_SECS {
        MIN_INTERVAL_SECS
    } else if x > MAX_INTERVAL_SECS {
        MAX_INTERVAL_SECS
    } else {
        x
    }
}

pub fn parse_form_interval(t: &str) -> (r: u64)
    ensures
        r == form_interval(t@),
{
    let x = match parse_interval(t) {
        Some(x) => x,
        None => DEFAULT_INTERVAL_SECS,
    };
    clamp_interval(x)
}

pub fn opt_clone(o: &Option<String>) -> (r: Option<String>)
    ensures
        r == *o,
{
    match o {
        Some(s) => Some(s.clone()),
        None => None,
    }
}

/// Config entries and live states of the monitored hosts, plus the selected
/// live host.
#[derive(Debug)]
pub struct Registry {
    pub config: Config,
    pub hosts: Vec<HostState>,
    pub selected_idx: usize,
}

impl Registry {
    pub open spec fn entries(&self) -> Seq<HostView> {
        host_views(self.config.hosts@)
    }

    pub open spec fn states(&self) -> Seq<HostStateView> {
        state_views(self.hosts@)
    }

    /// The index of the first config entry named `name`.
    pub fn find_entry(&self, name: &str) -> (r: Option<usize>)
        ensures
            match first_named(self.entries(), name@) {
                Some(p) => r == Some(p as usize),
                None => r is None,
            },
    {
        let ghost c = self.entries();
        proof {
            lemma_first_named_from(c, name@, 0);
        }
        let n = chars_of(name);
        let mut i: usize = 0;
        while i < self.config.hosts.len()
            invariant
                0 <= i <= self.config.hosts.len(),
                c == self.entries(),
                n@ == name@,
                first_named_from(c, name@, 0) == first_named_from(c, name@, i as int),
            decreases self.config.hosts.len() - i,
        {
            let v = chars_of(self.config.hosts[i].name.as_str());
            assert(c[i as int] == self.config.hosts@[i as int]@);
            if chars_eq(&v, &n) {
                return Some(i);
            }
            i += 1;
        }
        None
    }

    /// Adds a host unless its trimmed name is empty or already listed; the
    /// interval is clamped, a blank group becomes `default`, a blank alias is
    /// dropped. Returns whether the host was added.
    pub fn add_host(
        &mut self,
        name: &str,
        interval_secs: u64,
        group: &str,
        alias: &str,
        port: Option<u16>,
        now_ms: u64,
    ) -> (added: bool)
        ensures
            add_done(*old(self), *final(self), name@, interval_secs, group@, alias@, port, now_ms, added),
    {
        let nv = chars_of(name);
        let tn = trim_chars(&nv);
        let name_s = string_from_chars(&tn);
        if tn.len() == 0 {
            return false;
        }
        proof {
            lemma_first_named(self.entries(), trim(name@));
        }
        if self.find_entry(name_s.as_str()).is_some() {
            return false;
        }
        let interval = clamp_interval(interval_secs);
        let g = form_group_string(group);
        let a = form_alias_string(alias);
        let ghost old_c = self.config.hosts@;
        let ghost old_h = self.hosts@;
        let entry = HostConfig::new(name_s.clone(), interval, g.clone(), opt_clone(&a), port);
        let state = HostState::new(name_s.as_str(), interval, g.as_str(), a, port, now_ms);
        self.config.hosts.push(entry);
        self.hosts.push(state);
        assert(self.entries() =~= host_views(old_c).push(entry@));
        assert(self.states() =~= state_views(old_h).push(state@));
        true
    }

    /// Removes the selected host unless it is the only one, and keeps the
    /// selection on a listed host. Returns whether a host was removed.
    pub fn remove_selected(&mut self) -> (removed: bool)
        requires
            old(self).config.hosts.len() == old(self).hosts.len(),
        ensures
            remove_done(*old(self), *final(self), removed),
    {
        if self.hosts.len() <= 1 {
            return false;
        }
        if self.selected_idx < self.hosts.len() {
            let ghost old_c = self.config.hosts@;
            let ghost old_h = self.hosts@;
            let sel = self.selected_idx;
            self.hosts.remove(sel);
            self.config.hosts.remove(sel);
            assert(self.entries() =~= host_views(old_c).remove(sel as int));
            assert(self.states() =~= state_views(old_h).remove(sel as int));
            if self.selected_idx >= self.hosts.len() {
                self.selected_idx = self.hosts.len() - 1;
            }
            true
        } else {
            false
        }
    }

    /// Applies an edit form to the first entry named `original` and to its
    /// live state. Returns whether anything changed: nothing does when no
    /// entry has that name, or when the new name belongs to another entry.
    pub fn edit_entry(&mut self, original: &str, form: &AddHostForm) -> (changed: bool)
        ensures
            edit_done(*old(self), *final(self), original@, *form, changed),
    {
        proof {
            lemma_first_named(self.entries(), original@);
        }
        let idx = match self.find_entry(original) {
            Some(i) => i,
            None => {
                return false;
            },
        };
        assert(self.entries().len() == self.config.hosts.len());
        assert(first_named(self.entries(), original@) == Some(idx as int));
        let hv = chars_of(form.host.as_str());
        let new_name = trim_chars(&hv);
        let cur = chars_of(self.config.hosts[idx].name.as_str());
        assert(self.entries()[idx as int] == self.config.hosts@[idx as int]@);
        let renamed = new_name.len() > 0 && !chars_eq(&new_name, &cur);
        if renamed {
            let nn = string_from_chars(&new_name);
            proof {
                lemma_first_named(self.entries(), new_name@);
            }
            if self.find_entry(nn.as_str()).is_some() {
                assert(nn@ == trim(form.host@));
                assert(has_name(self.entries(), trim(form.host@)));
                assert(trim(form.host@) != self.entries()[idx as int].name);
                return false;
            }
        }
        let interval = parse_form_interval(form.interval.as_str());
        let group = form_group_string(form.group.as_str());
        let alias = form_alias_string(form.alias.as_str());
        let port = parse_form_port(form.port.as_str());
        let ghost old_c = self.config.hosts@;
        let ghost old_h = self.hosts@;
        let mut e = self.config.hosts.remove(idx);
        if new_name.len() > 0 {
            e.name = string_from_chars(&new_name);
        }
        e.interval_secs = interval;
        e.interval_m = 0;
        e.group = group.clone();
        e.alias = opt_clone(&alias);
        e.port = port;
        self.config.hosts.insert(idx, e);
        assert(self.config.hosts@ =~= old_c.update(idx as int, self.config.hosts@[idx as int]));
        assert(self.entries() =~= host_views(old_c).update(
            idx as int,
            edited_entry(host_views(old_c)[idx as int], *form),
        ));
        if idx < self.hosts.len() {
            let mut h = self.hosts.remove(idx);
            if new_name.len() > 0 {
                h.name = string_from_chars(&new_name);
            }
            h.interval_secs = interval;
            h.group = group;
            h.alias = alias;
            h.port = port;
            self.hosts.insert(idx, h);
            assert(self.hosts@ =~= old_h.update(idx as int, self.hosts@[idx as int]));
            assert(self.states() =~= state_views(old_h).update(
                idx as int,
                edited_state(state_views(old_h)[idx as int], *form),
            ));
        }
        true
    }

    /// Merges imported entries in order: an entry whose name is already
    /// listed replaces that entry and updates its live state; any other entry
    /// is appended with a fresh live state.
    pub fn import_entries(&mut self, entries: &Vec<HostConfig>, now_ms: u64)
        ensures
            (final(self).entries(), final(self).states()) == import_all(
                old(self).entries(),
                old(self).states(),
                host_views(entries@),
                now_ms,
            ),
            final(self).selected_idx == old(self).selected_idx,
    {
        let mut k: usize = 0;
        while k < entries.len()
            invariant
                0 <= k <= entries.len(),
                self.selected_idx == old(self).selected_idx,
                (self.entries(), self.states()) == import_all(
                    old(self).entries(),
                    old(self).states(),
                    host_views(entries@).take(k as int),
                    now_ms,
                ),
            decreases entries.len() - k,
        {
            let e = &entries[k];
            assert(host_views(entries@).take(k + 1).drop_last() =~= host_views(entries@).take(
                k as int,
            ));
            assert(host_views(entries@).take(k + 1).last() == e@);
            self.import_one(e, now_ms);
            k += 1;
        }
        assert(host_views(entries@).take(entries.len() as int) =~= host_views(entries@));
    }

    fn import_one(&mut self, e: &HostConfig, now_ms: u64)
        ensures
            (final(self).entries(), final(self).states()) == import_one_spec(
                old(self).entries(),
                old(self).states(),
                e@,
                now_ms,
            ),
            final(self).selected_idx == old(self).selected_idx,
    {
        proof {
            lemma_first_named(self.entries(), e.name@);
        }
        let ghost old_c = self.config.hosts@;
        let ghost old_h = self.hosts@;
        let interval = e.effective_interval_secs();
        assert(self.entries().len() == self.config.hosts.len());
        match self.find_entry(e.name.as_str()) {
            Some(i) => {
                assert(first_named(self.entries(), e.name@) == Some(i as int));
                self.config.hosts.set(i, e.duplicate());
                assert(self.entries() =~= host_views(old_c).update(i as int, e@));
                if i < self.hosts.len() {
                    let mut h = self.hosts.remove(i);
                    h.interval_secs = interval;
                    h.group = e.group.clone();
                    h.alias = opt_clone(&e.alias);
                    h.port = e.port;
                    self.hosts.insert(i, h);
                    assert(self.hosts@ =~= old_h.update(i as int, self.hosts@[i as int]));
                    assert(self.states() =~= state_views(old_h).update(
                        i as int,
                        HostStateView {
                            interval_secs: effective_interval(e@),
                            group: e.group@,
                            alias: crate::config::opt_view(e.alias),
                            port: e.port,
                            ..state_views(old_h)[i as int]
                        },
                    ));
                }
            },
            None => {
                self.config.hosts.push(e.duplicate());
                let st = HostState::new(
                    e.name.as_str(),
                    interval,
                    e.group.as_str(),
                    opt_clone(&e.alias),
                    e.port,
                    now_ms,
                );
                self.hosts.push(st);
                assert(self.entries() =~= host_views(old_c).push(e@));
                assert(self.states() =~= state_views(old_h).push(
                    fresh_state(
                        e.name@,
                        effective_interval(e@),
                        e.group@,
                        crate::config::opt_view(e.alias),
                        e.port,
                        now_ms,
                    ),
                ));
            },
        }
    }

    /// Resets the counters, history and status of the selected host.
    pub fn clear_selected_stats(&mut self)
        ensures
            final(self).config == old(self).config,
            final(self).selected_idx == old(self).selected_idx,
            final(self).states() == (if old(self).selected_idx < old(self).hosts.len() {
                old(self).states().update(
                    old(self).selected_idx as int,
                    HostStateView {
                        total_checks: 0,
                        up_checks: 0,
                        history: Seq::empty(),
                        up: false,
                        ..old(self).states()[old(self).selected_idx as int]
                    },
                )
            } else {
                old(self).states()
            }),
    {
        let sel = self.selected_idx;
        if sel < self.hosts.len() {
            let ghost old_h = self.hosts@;
            let mut h = self.hosts.remove(sel);
            h.total_checks = 0;
            h.up_checks = 0;
            h.history = Vec::new();
            h.up = false;
            self.hosts.insert(sel, h);
            assert(self.hosts@ =~= old_h.update(sel as int, self.hosts@[sel as int]));
            assert(self.states() =~= state_views(old_h).update(
                sel as int,
                HostStateView {
                    total_checks: 0,
                    up_checks: 0,
                    history: Seq::empty(),
                    up: false,
                    ..state_views(old_h)[sel as int]
                },
            ));
        }
    }
}

/// The new name would clash with another listed entry.
pub open spec fn edit_blocked(c: Seq<HostView>, i: int, new_name: Seq<char>) -> bool {
    new_name.len() > 0 && new_name != c[i].name && has_name(c, new_name)
}

/// An entry after an edit form is applied.
pub open spec fn edited_entry(e: HostView, f: AddHostForm) -> HostView {
    HostView {
        name: if trim(f.host@).len() > 0 {
            trim(f.host@)
        } else {
            e.name
        },
        interval_m: 0,
        interval_secs: form_interval(f.interval@),
        group: form_group(f.group@),
        alias: form_alias(f.alias@),
        port: form_port(f.port@),
    }
}

/// A live state after an edit form is applied.
pub open spec fn edited_state(h: HostStateView, f: AddHostForm) -> HostStateView {
    HostStateView {
        name: if trim(f.host@).len() > 0 {
            trim(f.host@)
        } else {
            h.name
        },
        interval_secs: form_interval(f.interval@),
        group: form_group(f.group@),
        alias: form_alias(f.alias@),
        port: form_port(f.port@),
        ..h
    }
}

/// Merging one imported entry.
pub open spec fn import_one_spec(
    c: Seq<HostView>,
    h: Seq<HostStateView>,
    e: HostView,
    now_ms: u64,
) -> (Seq<HostView>, Seq<HostStateView>) {
    match first_named(c, e.name) {
        Some(i) => (
            c.update(i, e),
            if i < h.len() {
                h.update(
                    i,
                    HostStateView {
                        interval_secs: effective_interval(e),
                        group: e.group,
                        alias: e.alias,
                        port: e.port,
                        ..h[i]
                    },
                )
            } else {
                h
            },
        ),
        None => (
            c.push(e),
            h.push(fresh_state(e.name, effective_interval(e), e.group, e.alias, e.port, now_ms)),
        ),
    }
}

/// Merging imported entries one after another.
pub open spec fn import_all(
    c: Seq<HostView>,
    h: Seq<HostStateView>,
    es: Seq<HostView>,
    now_ms: u64,
) -> (Seq<HostView>, Seq<HostStateView>)
    decreases es.len(),
{
    if es.len() == 0 {
        (c, h)
    } else {
        let prev = import_all(c, h, es.drop_last(), now_ms);
        import_one_spec(prev.0, prev.1, es.last(), now_ms)
    }
}

// ---------------------------------------------------------------------------
// Laws
// ---------------------------------------------------------------------------

/// Adding a host whose name is not listed keeps entries and live states in
/// step and keeps names unique.
pub proof fn law_add_keeps_invariants(
    c: Seq<HostView>,
    h: Seq<HostStateView>,
    name: Seq<char>,
    interval_secs: u64,
    group: Seq<char>,
    alias: Option<Seq<char>>,
    port: Option<u16>,
    now_ms: u64,
)
    requires
        in_step(c, h),
        names_unique(c),
        !has_name(c, name),
    ensures
        in_step(
            c.push(new_host(name, interval_secs, group, alias, port)),
            h.push(fresh_state(name, interval_secs, group, alias, port, now_ms)),
        ),
        names_unique(c.push(new_host(name, interval_secs, group, alias, port))),
{
    let c2 = c.push(new_host(name, interval_secs, group, alias, port));
    let h2 = h.push(fresh_state(name, interval_secs, group, alias, port, now_ms));
    assert forall|i: int| 0 <= i < c2.len() implies #[trigger] c2[i].name == h2[i].name by {
        if i < c.len() {
            assert(c2[i] == c[i] && h2[i] == h[i]);
        }
    }
    assert forall|i: int, j: int| 0 <= i < j < c2.len() implies c2[i].name != c2[j].name by {
        if j < c.len() {
            assert(c2[i] == c[i] && c2[j] == c[j]);
        } else {
            assert(c2[i] == c[i]);
        }
    }
}

/// Removing a host at the same position from both lists keeps them in step
/// and keeps names unique.
pub proof fn law_remove_keeps_invariants(c: Seq<HostView>, h: Seq<HostStateView>, i: int)
    requires
        in_step(c, h),
        names_unique(c),
        0 <= i < c.len(),
    ensures
        in_step(c.remove(i), h.remove(i)),
        names_unique(c.remove(i)),
{
    let c2 = c.remove(i);
    let h2 = h.remove(i);
    assert forall|k: int| 0 <= k < c2.len() implies #[trigger] c2[k].name == h2[k].name by {
        if k < i {
            assert(c2[k] == c[k] && h2[k] == h[k]);
        } else {
            assert(c2[k] == c[k + 1] && h2[k] == h[k + 1]);
        }
    }
    assert forall|a: int, b: int| 0 <= a < b < c2.len() implies c2[a].name != c2[b].name by {
        let a2 = if a < i {
            a
        } else {
            a + 1
        };
        let b2 = if b < i {
            b
        } else {
            b + 1
        };
        assert(c2[a] == c[a2] && c2[b] == c[b2]);
    }
}

/// An edit that is not refused keeps entries and live states in step and
/// keeps names unique.
pub proof fn law_edit_keeps_invariants(
    c: Seq<HostView>,
    h: Seq<HostStateView>,
    i: int,
    f: AddHostForm,
)
    requires
        in_step(c, h),
        names_unique(c),
        0 <= i < c.len(),
        !edit_blocked(c, i, trim(f.host@)),
    ensures
        in_step(c.update(i, edited_entry(c[i], f)), h.update(i, edited_state(h[i], f))),
        names_unique(c.update(i, edited_entry(c[i], f))),
{
    let c2 = c.update(i, edited_entry(c[i], f));
    let h2 = h.update(i, edited_state(h[i], f));
    assert(c[i].name == h[i].name);
    assert forall|k: int| 0 <= k < c2.len() implies #[trigger] c2[k].name == h2[k].name by {
        if k != i {
            assert(c2[k] == c[k] && h2[k] == h[k]);
        }
    }
    assert forall|a: int, b: int| 0 <= a < b < c2.len() implies c2[a].name != c2[b].name by {
        if a != i && b != i {
            assert(c2[a] == c[a] && c2[b] == c[b]);
        } else if a == i {
            assert(c2[b] == c[b]);
            if trim(f.host@).len() > 0 && trim(f.host@) != c[i].name {
                assert(!has_name(c, trim(f.host@)));
            }
        } else {
            assert(c2[a] == c[a]);
            if trim(f.host@).len() > 0 && trim(f.host@) != c[i].name {
                assert(!has_name(c, trim(f.host@)));
            }
        }
    }
}

/// Merging one imported entry keeps the lists in step and names unique,
/// lists the entry's name, and loses no listed name.
pub proof fn law_import_one(c: Seq<HostView>, h: Seq<HostStateView>, e: HostView, now_ms: u64)
    requires
        in_step(c, h),
        names_unique(c),
    ensures
        in_step(import_one_spec(c, h, e, now_ms).0, import_one_spec(c, h, e, now_ms).1),
        names_unique(import_one_spec(c, h, e, now_ms).0),
        has_name(import_one_spec(c, h, e, now_ms).0, e.name),
        forall|n: Seq<char>| has_name(c, n) ==> has_name(import_one_spec(c, h, e, now_ms).0, n),
{
    lemma_first_named(c, e.name);
    let r = import_one_spec(c, h, e, now_ms);
    match first_named(c, e.name) {
        Some(i) => {
            assert(r.0 == c.update(i, e));
            assert forall|k: int| 0 <= k < r.0.len() implies #[trigger] r.0[k].name == r.1[k].name by {
                if k != i {
                    assert(r.0[k] == c[k] && r.1[k] == h[k]);
                }
            }
            assert forall|a: int, b: int| 0 <= a < b < r.0.len() implies r.0[a].name
                != r.0[b].name by {
                if a != i {
                    assert(r.0[a] == c[a]);
                }
                if b != i {
                    assert(r.0[b] == c[b]);
                }
            }
            assert(r.0[i].name == e.name);
            assert forall|n: Seq<char>| has_name(c, n) implies has_name(r.0, n) by {
                let k = choose|k: int| 0 <= k < c.len() && #[trigger] c[k].name == n;
                if k == i {
                    assert(r.0[i].name == n);
                } else {
                    assert(r.0[k] == c[k]);
                }
            }
        },
        None => {
            assert forall|k: int| 0 <= k < r.0.len() implies #[trigger] r.0[k].name == r.1[k].name by {
                if k < c.len() {
                    assert(r.0[k] == c[k] && r.1[k] == h[k]);
                }
            }
            assert forall|a: int, b: int| 0 <= a < b < r.0.len() implies r.0[a].name
                != r.0[b].name by {
                assert(r.0[a] == c[a]);
                if b < c.len() {
                    assert(r.0[b] == c[b]);
                }
            }
            assert(r.0[c.len() as int].name == e.name);
            assert forall|n: Seq<char>| has_name(c, n) implies has_name(r.0, n) by {
                let k = choose|k: int| 0 <= k < c.len() && #[trigger] c[k].name == n;
                assert(r.0[k] == c[k]);
            }
        },
    }
}

/// Importing a list of entries keeps the lists in step and names unique;
/// afterwards every imported name is listed and no listed name is lost.
pub proof fn law_import_keeps_invariants(
    c: Seq<HostView>,
    h: Seq<HostStateView>,
    es: Seq<HostView>,
    now_ms: u64,
)
    requires
        in_step(c, h),
        names_unique(c),
    ensures
        in_step(import_all(c, h, es, now_ms).0, import_all(c, h, es, now_ms).1),
        names_unique(import_all(c, h, es, now_ms).0),
        forall|k: int| 0 <= k < es.len() ==> has_name(import_all(c, h, es, now_ms).0, #[trigger] es[k].name),
        forall|n: Seq<char>| has_name(c, n) ==> has_name(import_all(c, h, es, now_ms).0, n),
    decreases es.len(),
{
    if es.len() > 0 {
        let d = es.drop_last();
        law_import_keeps_invariants(c, h, d, now_ms);
        let p = import_all(c, h, d, now_ms);
        law_import_one(p.0, p.1, es.last(), now_ms);
        assert forall|k: int| 0 <= k < es.len() implies has_name(
            import_all(c, h, es, now_ms).0,
            #[trigger] es[k].name,
        ) by {
            if k < d.len() {
                assert(d[k] == es[k]);
                assert(has_name(p.0, d[k].name));
            }
        }
    }
}

// ---------------------------------------------------------------------------
// Check results and the uptime log
// ---------------------------------------------------------------------------

/// The first live state named `n`.
pub open spec fn first_state_from(h: Seq<HostStateView>, n: Seq<char>, i: int) -> Option<int>
    decreases h.len() - i,
{
    if i < 0 || i >= h.len() {
        None
    } else if h[i].name == n {
        Some(i)
    } else {
        first_state_from(h, n, i + 1)
    }
}

pub proof fn lemma_first_state_from(h: Seq<HostStateView>, n: Seq<char>, i: int)
    requires
        0 <= i,
    ensures
        first_state_from(h, n, i) matches Some(p) ==> i <= p < h.len() && h[p].name == n,
    decreases h.len() - i,
{
    if i < h.len() && h[i].name != n {
        lemma_first_state_from(h, n, i + 1);
    }
}

/// The first live host named `name`.
pub fn find_state(hosts: &Vec<HostState>, name: &str) -> (r: Option<usize>)
    ensures
        match first_state_from(state_views(hosts@), name@, 0) {
            Some(p) => r == Some(p as usize) && 0 <= p < hosts.len(),
            None => r is None,
        },
        r matches Some(i) ==> i < hosts.len(),
{
    let ghost h = state_views(hosts@);
    proof {
        lemma_first_state_from(h, name@, 0);
    }
    let n = chars_of(name);
    let mut i: usize = 0;
    while i < hosts.len()
        invariant
            0 <= i <= hosts.len(),
            h == state_views(hosts@),
            n@ == name@,
            first_state_from(h, name@, 0) == first_state_from(h, name@, i as int),
        decreases hosts.len() - i,
    {
        let v = chars_of(hosts[i].name.as_str());
        assert(h[i as int] == hosts@[i as int]@);
        if chars_eq(&v, &n) {
            return Some(i);
        }
        i += 1;
    }
    None
}

/// A live state after a check result: the transition is recorded, the
/// status, next due time and counters are updated, and the rounded latency
/// (0 when down) joins the history, which keeps its newest `graph_width`
/// samples.
pub open spec fn after_result(
    h: HostStateView,
    up: bool,
    latency: u64,
    now_ms: u64,
    next_ping_ms: u64,
    graph_width: usize,
) -> HostStateView {
    HostStateView {
        last_change_ms: if up != h.up {
            Some(now_ms)
        } else {
            h.last_change_ms
        },
        flaps: flaps_after(h, up, now_ms),
        up,
        next_ping_ms,
        total_checks: (h.total_checks + 1) as u64,
        up_checks: if up {
            (h.up_checks + 1) as u64
        } else {
            h.up_checks
        },
        history: keep_last(
            h.history.push(
                if up {
                    latency
                } else {
                    0
                },
            ),
            graph_width as int,
        ),
        ..h
    }
}

/// What recording a result did: the index of the updated host, and whether
/// its up/down status changed (not counting its very first result).
#[derive(Debug, PartialEq, Eq, Structural)]
pub struct ResultOutcome {
    pub index: usize,
    pub transition: bool,
}

/// Records a check result for the first live host named `host`.
pub fn record_result(
    hosts: &mut Vec<HostState>,
    host: &str,
    up: bool,
    latency: u64,
    now_ms: u64,
    next_ping_ms: u64,
    graph_width: usize,
) -> (r: Option<ResultOutcome>)
    requires
        forall|i: int|
            0 <= i < old(hosts).len() ==> #[trigger] old(hosts)@[i].total_checks < u64::MAX
                && old(hosts)@[i].up_checks < u64::MAX,
    ensures
        match first_state_from(state_views(old(hosts)@), host@, 0) {
            None => r is None && final(hosts)@ == old(hosts)@,
            Some(i) => r == Some(
                ResultOutcome {
                    index: i as usize,
                    transition: old(hosts)@[i].total_checks != 0 && up != old(hosts)@[i].up,
                },
            ) && state_views(final(hosts)@) == state_views(old(hosts)@).update(
                i,
                after_result(old(hosts)@[i]@, up, latency, now_ms, next_ping_ms, graph_width),
            ),
        },
{
    assert(state_views(hosts@).len() == hosts.len());
    let i = match find_state(hosts, host) {
        Some(i) => i,
        None => {
            return None;
        },
    };
    assert(first_state_from(state_views(old(hosts)@), host@, 0) == Some(i as int));
    let ghost old_h = hosts@;
    let mut h = hosts.remove(i);
    assert(h == old(hosts)@[i as int]);
    let first = h.total_checks == 0;
    let changed = !first && up != h.up;
    h.note_result(up, now_ms);
    h.up = up;
    h.next_ping_ms = next_ping_ms;
    h.total_checks = h.total_checks + 1;
    if up {
        h.up_checks = h.up_checks + 1;
    }
    h.history.push(
        if up {
            latency
        } else {
            0
        },
    );
    h.history = keep_last_vec(&h.history, graph_width);
    hosts.insert(i, h);
    assert(hosts@ =~= old_h.update(i as int, hosts@[i as int]));
    assert(state_views(hosts@) =~= state_views(old_h).update(
        i as int,
        after_result(old_h[i as int]@, up, latency, now_ms, next_ping_ms, graph_width),
    ));
    Some(ResultOutcome { index: i, transition: changed })
}

/// Field `k` of an uptime-log row: `Timestamp,Host,Status,LatencyMs`.
pub open spec fn log_field(rec: Seq<Seq<char>>, k: int) -> Option<Seq<char>> {
    if 0 <= k < rec.len() {
        Some(rec[k])
    } else {
        None
    }
}

/// Field `k` of a row, empty when the row is shorter.
pub open spec fn log_text(rec: Seq<Seq<char>>, k: int) -> Seq<char> {
    match log_field(rec, k) {
        Some(t) => t,
        None => Seq::empty(),
    }
}

/// The row's status is `UP`.
pub open spec fn log_up(rec: Seq<Seq<char>>) -> bool {
    log_field(rec, 2) == Some("UP"@)
}

/// The row's latency in whole milliseconds: 0 when missing or not a number.
pub open spec fn log_latency(rec: Seq<Seq<char>>) -> u64 {
    match log_field(rec, 3) {
        Some(t) => match crate::text::parse_uint(t, u64::MAX as nat) {
            Some(x) => x as u64,
            None => 0,
        },
        None => 0,
    }
}

/// The live states after replaying one log row: the first host the row
/// names gets one more check, one more up check when the status is `UP`,
/// and the logged latency appended to its history.
pub open spec fn replay_one(h: Seq<HostStateView>, rec: Seq<Seq<char>>) -> Seq<HostStateView> {
    match first_state_from(h, log_text(rec, 1), 0) {
        None => h,
        Some(i) => h.update(
            i,
            HostStateView {
                total_checks: (h[i].total_checks + 1) as u64,
                up_checks: if log_up(rec) {
                    (h[i].up_checks + 1) as u64
                } else {
                    h[i].up_checks
                },
                history: h[i].history.push(log_latency(rec)),
                ..h[i]
            },
        ),
    }
}

pub open spec fn replay_all(h: Seq<HostStateView>, recs: Seq<Seq<Seq<char>>>) -> Seq<HostStateView>
    decreases recs.len(),
{
    if recs.len() == 0 {
        h
    } else {
        replay_one(replay_all(h, recs.drop_last()), recs.last())
    }
}

/// Replaying `rec` would push a counter of the host it names past `u64::MAX`.
pub open spec fn step_overflows(h: Seq<HostStateView>, rec: Seq<Seq<char>>) -> bool {
    match first_state_from(h, log_text(rec, 1), 0) {
        Some(i) => h[i].total_checks == u64::MAX || (log_up(rec) && h[i].up_checks == u64::MAX),
        None => false,
    }
}

/// The first row whose replay would overflow a counter, if any.
pub open spec fn first_overflow(h: Seq<HostStateView>, recs: Seq<Seq<Seq<char>>>) -> Option<int>
    decreases recs.len(),
{
    if recs.len() == 0 {
        None
    } else {
        match first_overflow(h, recs.drop_last()) {
            Some(k) => Some(k),
            None => if step_overflows(replay_all(h, recs.drop_last()), recs.last()) {
                Some(recs.len() - 1)
            } else {
                None
            },
        }
    }
}

pub open spec fn trim_histories(h: Seq<HostStateView>, w: usize) -> Seq<HostStateView> {
    Seq::new(h.len(), |i: int| HostStateView { history: keep_last(h[i].history, w as int), ..h[i] })
}

/// Seeding the live states `h` from the readable log rows `recs` (`complete`
/// when no row was unreadable): the states afterwards, and whether it
/// succeeded. Rows are replayed in order; a row that would overflow a
/// counter stops the replay before it, with an error; an unreadable row
/// stops it after the rows before it, with an error; otherwise every
/// history then keeps its newest `w` samples.
pub open spec fn seed_outcome(
    h: Seq<HostStateView>,
    recs: Seq<Seq<Seq<char>>>,
    complete: bool,
    w: usize,
) -> (Seq<HostStateView>, bool) {
    match first_overflow(h, recs) {
        Some(k) => (replay_all(h, recs.take(k)), false),
        None => if complete {
            (trim_histories(replay_all(h, recs), w), true)
        } else {
            (replay_all(h, recs), false)
        },
    }
}

proof fn lemma_first_overflow_extends(h: Seq<HostStateView>, recs: Seq<Seq<Seq<char>>>, j: int, k: int)
    requires
        0 <= j <= recs.len(),
        first_overflow(h, recs.take(j)) == Some(k),
    ensures
        first_overflow(h, recs) == Some(k),
    decreases recs.len() - j,
{
    if j < recs.len() {
        assert(recs.take(j + 1).drop_last() =~= recs.take(j));
        lemma_first_overflow_extends(h, recs, j + 1, k);
    } else {
        assert(recs.take(j) =~= recs);
    }
}

/// Replays uptime-log rows into the live states (see `seed_outcome`):
/// `records` are the readable rows, `complete` says whether every row was.
pub fn seed_from_records(
    hosts: &mut Vec<HostState>,
    records: &Vec<Vec<String>>,
    complete: bool,
    graph_width: usize,
) -> (r: Result<(), String>)
    ensures
        state_views(final(hosts)@) == seed_outcome(
            state_views(old(hosts)@),
            rec_views(records@),
            complete,
            graph_width,
        ).0,
        r is Ok == seed_outcome(
            state_views(old(hosts)@),
            rec_views(records@),
            complete,
            graph_width,
        ).1,
{
    let ghost h0 = state_views(hosts@);
    let ghost recs = rec_views(records@);
    let mut k: usize = 0;
    while k < records.len()
        invariant
            0 <= k <= records.len(),
            hosts.len() == old(hosts).len(),
            h0 == state_views(old(hosts)@),
            recs == rec_views(records@),
            first_overflow(h0, recs.take(k as int)) is None,
            state_views(hosts@) == replay_all(h0, recs.take(k as int)),
        decreases records.len() - k,
    {
        let rec = &records[k];
        let ghost before = state_views(hosts@);
        let ghost rv = string_views(rec@);
        assert(recs.take(k + 1).drop_last() =~= recs.take(k as int));
        assert(recs.take(k + 1).last() == rv);
        assert(recs[k as int] == rv);
        let name: &str = if rec.len() > 1 {
            rec[1].as_str()
        } else {
            ""
        };
        proof {
            if rec.len() <= 1 {
                assert(name@ =~= Seq::<char>::empty()) by {
                    reveal_strlit("");
                }
            }
        }
        assert(name@ == log_text(rv, 1));
        assert(before.len() == hosts.len());
        match find_state(hosts, name) {
            None => {},
            Some(i) => {
                assert(first_state_from(before, log_text(rv, 1), 0) == Some(i as int));
                let is_up = rec.len() > 2 && crate::text::str_eq(rec[2].as_str(), "UP");
                proof {
                    reveal_strlit("UP");
                    assert(is_up == log_up(rv));
                    assert(before[i as int] == hosts@[i as int]@);
                }
                if hosts[i].total_checks == u64::MAX || (is_up && hosts[i].up_checks == u64::MAX) {
                    proof {
                        assert(step_overflows(before, rv));
                        assert(first_overflow(h0, recs.take(k + 1)) == Some(k as int));
                        lemma_first_overflow_extends(h0, recs, k + 1, k as int);
                    }
                    return Err("check counters would overflow".to_string());
                }
                let lat: u64 = if rec.len() > 3 {
                    let v = chars_of(rec[3].as_str());
                    match parse_uint_chars(&v, u64::MAX) {
                        Some(x) => x,
                        None => 0,
                    }
                } else {
                    0
                };
                assert(lat == log_latency(rv));
                let ghost old_h = hosts@;
                let mut h = hosts.remove(i);
                assert(h@ == before[i as int]);
                h.total_checks = h.total_checks + 1;
                if is_up {
                    h.up_checks = h.up_checks + 1;
                }
                h.history.push(lat);
                hosts.insert(i, h);
                assert(hosts@ =~= old_h.update(i as int, hosts@[i as int]));
            },
        }
        assert(!step_overflows(before, rv));
        assert(state_views(hosts@) =~= replay_one(before, rv));
        k += 1;
    }
    assert(recs.take(records.len() as int) =~= recs);
    if !complete {
        return Err("the uptime log has an unreadable row".to_string());
    }
    let ghost replayed = state_views(hosts@);
    let n = hosts.len();
    let mut j: usize = 0;
    while j < n
        invariant
            0 <= j <= n == hosts.len(),
            replayed.len() == n,
            forall|i: int|
                0 <= i < n ==> #[trigger] state_views(hosts@)[i] == (if i < j {
                    HostStateView {
                        history: keep_last(replayed[i].history, graph_width as int),
                        ..replayed[i]
                    }
                } else {
                    replayed[i]
                }),
        decreases n - j,
    {
        let ghost old_h = hosts@;
        let mut h = hosts.remove(j);
        h.history = keep_last_vec(&h.history, graph_width);
        hosts.insert(j, h);
        assert(hosts@ =~= old_h.update(j as int, hosts@[j as int]));
        assert forall|i: int| 0 <= i < n implies #[trigger] state_views(hosts@)[i] == (if i < j
            + 1 {
            HostStateView {
                history: keep_last(replayed[i].history, graph_width as int),
                ..replayed[i]
            }
        } else {
            replayed[i]
        }) by {
            assert(state_views(old_h)[i] == old_h[i]@);
            if i != j {
                assert(hosts@[i] == old_h[i]);
            }
        }
        j += 1;
    }
    assert(state_views(hosts@) =~= trim_histories(replayed, graph_width));
    Ok(())
}

/// Seeds the live states from the bytes of the uptime log (a `csv` reader,
/// every row the header's length): the rows before the first unreadable
/// one are replayed as `seed_outcome` says; an error when a row is
/// unreadable or a counter would overflow.
pub fn seed_from_log_bytes(hosts: &mut Vec<HostState>, data: &[u8], graph_width: usize) -> (r:
    Result<(), String>)
    ensures
        ({
            let (recs, complete) = readable_prefix(csv_rows(data@, false));
            let o = seed_outcome(state_views(old(hosts)@), recs, complete, graph_width);
            state_views(final(hosts)@) == o.0 && (r is Ok == o.1)
        }),
{
    let rows = read_csv_rows(data, false);
    let (records, complete) = rows_before_bad(&rows);
    seed_from_records(hosts, &records, complete, graph_width)
}

/// Clears the counters and histories of every host, before a re-seed.
pub fn reset_stats(hosts: &mut Vec<HostState>)
    ensures
        state_views(final(hosts)@) == Seq::new(
            old(hosts)@.len(),
            |i: int|
                HostStateView {
                    total_checks: 0,
                    up_checks: 0,
                    history: Seq::empty(),
                    ..state_views(old(hosts)@)[i]
                },
        ),
{
    let ghost h0 = state_views(hosts@);
    let n = hosts.len();
    let mut j: usize = 0;
    while j < n
        invariant
            0 <= j <= n == hosts.len() == h0.len(),
            h0 == state_views(old(hosts)@),
            forall|i: int|
                0 <= i < n ==> #[trigger] state_views(hosts@)[i] == (if i < j {
                    HostStateView { total_checks: 0, up_checks: 0, history: Seq::empty(), ..h0[i] }
                } else {
                    h0[i]
                }),
        decreases n - j,
    {
        let ghost old_h = hosts@;
        let mut h = hosts.remove(j);
        h.total_checks = 0;
        h.up_checks = 0;
        h.history = Vec::new();
        hosts.insert(j, h);
        assert(hosts@ =~= old_h.update(j as int, hosts@[j as int]));
        assert forall|i: int| 0 <= i < n implies #[trigger] state_views(hosts@)[i] == (if i < j
            + 1 {
            HostStateView { total_checks: 0, up_checks: 0, history: Seq::empty(), ..h0[i] }
        } else {
            h0[i]
        }) by {
            assert(state_views(old_h)[i] == old_h[i]@);
            if i != j {
                assert(hosts@[i] == old_h[i]);
            }
        }
        j += 1;
    }
    assert(state_views(hosts@) =~= Seq::new(
        n as nat,
        |i: int| HostStateView { total_checks: 0, up_checks: 0, history: Seq::empty(), ..h0[i] },
    ));
}

/// When the uptime log holds more than its header plus the newest
/// `MAX_HISTORY` rows, the lines to keep: the header and those rows.
pub open spec fn trimmed_log(lines: Seq<String>) -> Option<Seq<String>> {
    if lines.len() > crate::config::MAX_HISTORY + 1 {
        Some(
            seq![lines[0]] + lines.subrange(
                lines.len() - crate::config::MAX_HISTORY,
                lines.len() as int,
            ),
        )
    } else {
        None
    }
}

pub fn trim_log_lines(lines: &Vec<String>) -> (r: Option<Vec<String>>)
    ensures
        match trimmed_log(lines@) {
            Some(t) => r matches Some(v) && v@ == t,
            None => r is None,
        },
{
    let n = lines.len();
    if n <= crate::config::MAX_HISTORY + 1 {
        return None;
    }
    let mut kept: Vec<String> = Vec::new();
    kept.push(lines[0].clone());
    let start = n - crate::config::MAX_HISTORY;
    let mut i = start;
    while i < n
        invariant
            start <= i <= n == lines.len(),
            start >= 1,
            kept@ == seq![lines@[0]] + lines@.subrange(start as int, i as int),
        decreases n - i,
    {
        kept.push(lines[i].clone());
        assert(kept@ =~= seq![lines@[0]] + lines@.subrange(start as int, i + 1));
        i += 1;
    }
    Some(kept)
}

} // verus!
