//! What the running screen does with the events of its background work:
//! check results, release news and update progress; and how it starts.

use vstd::prelude::*;
use crate::config::{
    effective_interval, host_views, opt_view, string_views, target_text, Config, HostConfig,
    HostView,
};
use crate::hoststate::{state_views, HostState, HostStateView};
use crate::keys::{first_pos, InputMode, Ui, UpdateState};
use crate::registry::{after_result, first_state_from, lemma_first_state_from, record_result, Registry};
use crate::text::{chars_eq, chars_of, contains_chars, contains_seq, string_from_chars};
use crate::update::{is_newer_version, newer, version_numbers};

verus! {

// ---------------------------------------------------------------------------
// Starting up
// ---------------------------------------------------------------------------

/// The live state of a configured host before its first check.
pub open spec fn initial_state(h: HostView, now_ms: u64) -> HostStateView {
    HostStateView {
        name: h.name,
        alias: match h.alias {
            Some(a) => if crate::config::blank(a) {
                None
            } else {
                Some(a)
            },
            None => None,
        },
        group: h.group,
        interval_secs: effective_interval(h),
        port: h.port,
        next_ping_ms: now_ms,
        history: Seq::empty(),
        up: false,
        total_checks: 0,
        up_checks: 0,
        last_change_ms: None,
        flaps: Seq::empty(),
    }
}

/// One fresh live state per configured host, in order.
pub fn initial_states(hosts: &Vec<HostConfig>, now_ms: u64) -> (r: Vec<HostState>)
    ensures
        state_views(r@) == host_views(hosts@).map_values(|h: HostView| initial_state(h, now_ms)),
{
    let mut r: Vec<HostState> = Vec::new();
    let mut i: usize = 0;
    while i < hosts.len()
        invariant
            0 <= i <= hosts.len(),
            state_views(r@) == host_views(hosts@).take(i as int).map_values(
                |h: HostView| initial_state(h, now_ms),
            ),
        decreases hosts.len() - i,
    {
        let h = &hosts[i];
        let s = HostState::new(
            h.name.as_str(),
            h.effective_interval_secs(),
            h.group.as_str(),
            crate::config::clone_opt_string(&h.alias),
            h.port,
            now_ms,
        );
        assert(s@ == initial_state(hosts@[i as int]@, now_ms));
        let ghost prev = r@;
        r.push(s);
        assert(state_views(r@) =~= state_views(prev).push(s@));
        i += 1;
        assert(host_views(hosts@).take(i as int) =~= host_views(hosts@).take(i as int - 1).push(
            hosts@[i as int - 1]@,
        ));
        assert(state_views(r@) =~= host_views(hosts@).take(i as int).map_values(
            |h: HostView| initial_state(h, now_ms),
        ));
    }
    assert(host_views(hosts@).take(hosts.len() as int) =~= host_views(hosts@));
    r
}

/// `s` with later repeats dropped.
pub open spec fn dedup(s: Seq<Seq<char>>) -> Seq<Seq<char>>
    decreases s.len(),
{
    if s.len() == 0 {
        s
    } else if dedup(s.drop_last()).contains(s.last()) {
        dedup(s.drop_last())
    } else {
        dedup(s.drop_last()).push(s.last())
    }
}

fn dedup_strings(v: &Vec<String>) -> (r: Vec<String>)
    ensures
        string_views(r@) == dedup(string_views(v@)),
{
    let ghost s = string_views(v@);
    let mut r: Vec<String> = Vec::new();
    let mut i: usize = 0;
    while i < v.len()
        invariant
            0 <= i <= v.len(),
            s == string_views(v@),
            s.len() == v.len(),
            string_views(r@) == dedup(s.take(i as int)),
        decreases v.len() - i,
    {
        let c = chars_of(v[i].as_str());
        let ghost t = s.take(i as int + 1);
        assert(t.drop_last() =~= s.take(i as int));
        assert(t.last() == s[i as int]);
        let mut j: usize = 0;
        let mut seen = false;
        while j < r.len()
            invariant
                0 <= j <= r.len(),
                i < v.len(),
                s.len() == v.len(),
                c@ == s[i as int],
                seen <==> (exists|k: int| 0 <= k < j && #[trigger] string_views(r@)[k] == c@),
            decreases r.len() - j,
        {
            let d = chars_of(r[j].as_str());
            assert(d@ == string_views(r@)[j as int]);
            if chars_eq(&d, &c) {
                seen = true;
            }
            j += 1;
        }
        assert(seen == string_views(r@).contains(c@));
        if !seen {
            let ghost prev = r@;
            r.push(v[i].clone());
            assert(string_views(r@) =~= string_views(prev).push(c@));
        }
        i += 1;
    }
    assert(s.take(v.len() as int) =~= s);
    r
}

/// The position of the config's theme among the theme names, else 0.
pub open spec fn theme_pos(names: Seq<String>, theme: Seq<char>) -> usize {
    match first_pos(string_views(names), theme, 0) {
        Some(p) => p as usize,
        None => 0,
    }
}

proof fn lemma_first_pos_range(gs: Seq<Seq<char>>, g: Seq<char>, i: int)
    ensures
        first_pos(gs, g, i) matches Some(p) ==> i <= p < gs.len() && gs[p] == g,
    decreases gs.len() - i,
{
    if 0 <= i < gs.len() && gs[i] != g {
        lemma_first_pos_range(gs, g, i + 1);
    }
}

impl Ui {
    /// The screen at start: the config's theme (the first one when unknown),
    /// grouping, sort mode and collapsed groups; the first host selected; no
    /// filter, search, popup or known update.
    pub fn new(
        config: Config,
        hosts: Vec<HostState>,
        theme_names: Vec<String>,
        import_default: String,
        export_default: String,
    ) -> (u: Ui)
        requires
            theme_names.len() > 0,
            config.hosts.len() == hosts.len(),
        ensures
            u.wf(),
            u.reg == (Registry { config, hosts, selected_idx: 0 }),
            u.theme_names == theme_names,
            u.theme_idx == theme_pos(theme_names@, config.theme@),
            u.group_by == config.group_by,
            u.sort_mode == config.sort_mode,
            string_views(u.collapsed@) == dedup(string_views(config.collapsed_groups@)),
            u.search is None,
            u.group_filter is None,
            u.mode is Normal,
            u.update_available is None,
            u.update_state is Idle,
            u.import_default == import_default,
            u.export_default == export_default,
    {
        proof {
            lemma_first_pos_range(string_views(theme_names@), config.theme@, 0);
        }
        let t = chars_of(config.theme.as_str());
        let mut theme_idx: usize = 0;
        let mut i: usize = 0;
        while i < theme_names.len()
            invariant_except_break
                theme_idx == 0,
            invariant
                0 <= i <= theme_names.len(),
                t@ == config.theme@,
                first_pos(string_views(theme_names@), config.theme@, 0) == first_pos(
                    string_views(theme_names@),
                    config.theme@,
                    i as int,
                ),
            ensures
                theme_idx == theme_pos(theme_names@, config.theme@),
            decreases theme_names.len() - i,
        {
            let n = chars_of(theme_names[i].as_str());
            if chars_eq(&n, &t) {
                theme_idx = i;
                break;
            }
            i += 1;
        }
        let collapsed = dedup_strings(&config.collapsed_groups);
        Ui {
            group_by: config.group_by,
            sort_mode: config.sort_mode,
            collapsed,
            reg: Registry { config, hosts, selected_idx: 0 },
            theme_names,
            theme_idx,
            group_filter: None,
            search: None,
            mode: InputMode::Normal,
            update_available: None,
            update_state: UpdateState::Idle,
            import_default,
            export_default,
        }
    }
}

// ---------------------------------------------------------------------------
// Check results
// ---------------------------------------------------------------------------

/// What to announce when a host changes between up and down: its target,
/// the webhook to post to (if one is set), and whether to ring the bell
/// (going down, with the bell on).
#[derive(Debug)]
pub struct Alert {
    pub target: String,
    pub webhook: Option<String>,
    pub bell: bool,
}

impl Ui {
    /// Records a check result for the first live host named `host`, and
    /// returns the alert to raise when its status changed (not counting its
    /// first result).
    pub fn on_result(
        &mut self,
        host: &str,
        up: bool,
        latency: u64,
        now_ms: u64,
        next_ping_ms: u64,
    ) -> (a: Option<Alert>)
        requires
            old(self).wf(),
            forall|i: int|
                0 <= i < old(self).reg.hosts.len() ==> #[trigger] old(self).reg.hosts@[i].total_checks
                    < u64::MAX && old(self).reg.hosts@[i].up_checks < u64::MAX,
        ensures
            final(self).wf(),
            *final(self) == (Ui { reg: Registry { hosts: final(self).reg.hosts, ..old(self).reg }, ..*old(self) }),
            match first_state_from(old(self).reg.states(), host@, 0) {
                None => final(self).reg.hosts@ == old(self).reg.hosts@ && a is None,
                Some(i) => {
                    let h = old(self).reg.hosts@[i];
                    &&& final(self).reg.states() == old(self).reg.states().update(
                        i,
                        after_result(
                            h@,
                            up,
                            latency,
                            now_ms,
                            next_ping_ms,
                            old(self).reg.config.graph_width,
                        ),
                    )
                    &&& if h.total_checks != 0 && up != h.up {
                        a matches Some(al) && al.target@ == target_text(h.name@, h.port)
                            && al.webhook == old(self).reg.config.webhook_url && al.bell == (
                        old(self).reg.config.notify_bell && !up)
                    } else {
                        a is None
                    }
                },
            },
    {
        let gw = self.reg.config.graph_width;
        let ghost hs0 = self.reg.hosts@;
        proof {
            lemma_first_state_from(state_views(hs0), host@, 0);
        }
        let r = record_result(&mut self.reg.hosts, host, up, latency, now_ms, next_ping_ms, gw);
        proof {
            assert(state_views(self.reg.hosts@).len() == self.reg.hosts.len());
            assert(state_views(hs0).len() == hs0.len());
        }
        match r {
            None => None,
            Some(o) => {
                if o.transition {
                    assert(state_views(self.reg.hosts@)[o.index as int] == after_result(
                        hs0[o.index as int]@,
                        up,
                        latency,
                        now_ms,
                        next_ping_ms,
                        gw,
                    ));
                    assert(self.reg.hosts@[o.index as int]@ == after_result(
                        hs0[o.index as int]@,
                        up,
                        latency,
                        now_ms,
                        next_ping_ms,
                        gw,
                    ));
                    let target = crate::config::target_string(
                        &self.reg.hosts[o.index].name,
                        self.reg.hosts[o.index].port,
                    );
                    Some(
                        Alert {
                            target,
                            webhook: crate::config::clone_opt_string(&self.reg.config.webhook_url),
                            bell: self.reg.config.notify_bell && !up,
                        },
                    )
                } else {
                    None
                }
            },
        }
    }
}

// ---------------------------------------------------------------------------
// Release news and update progress
// ---------------------------------------------------------------------------

fn concat(a: &str, b: &str) -> (r: String)
    ensures
        r@ == a@ + b@,
{
    let mut v = chars_of(a);
    let bv = chars_of(b);
    let mut i: usize = 0;
    while i < bv.len()
        invariant
            0 <= i <= bv.len(),
            v@ == a@ + bv@.take(i as int),
        decreases bv.len() - i,
    {
        v.push(bv[i]);
        i += 1;
        assert(v@ =~= a@ + bv@.take(i as int));
    }
    assert(bv@.take(bv.len() as int) =~= bv@);
    string_from_chars(&v)
}

fn concat3(a: &str, b: &str, c: &str) -> (r: String)
    ensures
        r@ == a@ + b@ + c@,
{
    let ab = concat(a, b);
    concat(ab.as_str(), c)
}

/// What a manual update check reports: with the latest release known and
/// newer, that release (to install on the next `u`) and a notice; with it
/// known and not newer, that the running version is the latest; without
/// it, an error.
pub fn check_outcome(current: &str, latest: Option<String>) -> (r: (Option<String>, UpdateState))
    ensures
        match latest {
            Some(l) => if newer(version_numbers(current@), version_numbers(l@)) {
                r.0 == Some(l) && (r.1 matches UpdateState::Info(t) && t@ == "v"@ + l@
                    + " available — press u again to install"@)
            } else {
                r.0 is None && (r.1 matches UpdateState::Info(t) && t@ == "already on latest (v"@
                    + current@ + ")"@)
            },
            None => r.0 is None && (r.1 matches UpdateState::Error(t) && t@
                == "update check failed: no network or API error"@),
        },
{
    match latest {
        Some(l) => if is_newer_version(current, l.as_str()) {
            let msg = concat3("v", l.as_str(), " available — press u again to install");
            (Some(l), UpdateState::Info(msg))
        } else {
            (None, UpdateState::Info(concat3("already on latest (v", current, ")")))
        },
        None => (None, UpdateState::Error("update check failed: no network or API error".to_string())),
    }
}

impl Ui {
    /// A newer release was announced.
    pub fn on_update_available(&mut self, version: String)
        ensures
            *final(self) == (Ui { update_available: Some(version), ..*old(self) }),
    {
        self.update_available = Some(version);
    }

    /// The update work reported progress. Returns whether the program must
    /// now quit and restart (an install that needs a restart is done).
    pub fn on_update_state(&mut self, state: UpdateState) -> (restart: bool)
        ensures
            restart == (state matches UpdateState::Done { restart_required, .. } && restart_required),
            *final(self) == (Ui { update_state: state, ..*old(self) }),
    {
        let restart = match &state {
            UpdateState::Done { restart_required, .. } => *restart_required,
            _ => false,
        };
        self.update_state = state;
        restart
    }

    /// The export finished: where the file went, or why it failed.
    pub fn export_finished(&mut self, outcome: Result<String, String>)
        ensures
            *final(self) == (Ui { update_state: final(self).update_state, ..*old(self) }),
            match outcome {
                Ok(dest) => final(self).update_state matches UpdateState::Info(t) && t@
                    == "exported to "@ + dest@,
                Err(err) => final(self).update_state matches UpdateState::Error(t) && t@
                    == "export failed: "@ + err@,
            },
    {
        self.update_state = match outcome {
            Ok(dest) => UpdateState::Info(concat("exported to ", dest.as_str())),
            Err(err) => UpdateState::Error(concat("export failed: ", err.as_str())),
        };
    }
}

/// How a release gets installed.
#[derive(Debug, PartialEq, Eq, Structural)]
pub enum Installer {
    /// Download the release and replace the executable in place.
    InPlace,
    /// `brew upgrade`.
    Homebrew,
    /// `winget upgrade`.
    Winget,
    /// None of these is possible.
    Unsupported,
    /// The running executable cannot be found.
    Unknown,
}

/// A portable install updates in place. Else, with the executable found:
/// a Homebrew install uses brew; an executable in a writable directory is
/// replaced in place; on Windows with winget, winget upgrades it.
pub open spec fn installer_for(
    portable: bool,
    exe_found: bool,
    homebrew: bool,
    dir_writable: bool,
    winget: bool,
) -> Installer {
    if portable {
        Installer::InPlace
    } else if !exe_found {
        Installer::Unknown
    } else if homebrew {
        Installer::Homebrew
    } else if dir_writable {
        Installer::InPlace
    } else if winget {
        Installer::Winget
    } else {
        Installer::Unsupported
    }
}

pub fn choose_installer(
    portable: bool,
    exe_found: bool,
    homebrew: bool,
    dir_writable: bool,
    winget: bool,
) -> (r: Installer)
    ensures
        r == installer_for(portable, exe_found, homebrew, dir_writable, winget),
{
    if portable {
        Installer::InPlace
    } else if !exe_found {
        Installer::Unknown
    } else if homebrew {
        Installer::Homebrew
    } else if dir_writable {
        Installer::InPlace
    } else if winget {
        Installer::Winget
    } else {
        Installer::Unsupported
    }
}

pub open spec fn msg_no_installer() -> Seq<char> {
    "auto-update needs portable mode, Homebrew, or winget.\nUpdate with: brew upgrade ping-uin  /  winget upgrade altosaxplayer.ping-uin  /  cargo install --path ."@
}

impl Ui {
    /// An install was asked for and `how` was chosen: when no installer
    /// applies, the popup says so. Returns whether an installer runs.
    pub fn begin_install(&mut self, how: &Installer) -> (runs: bool)
        ensures
            runs == (*how != Installer::Unsupported && *how != Installer::Unknown),
            runs ==> *final(self) == *old(self),
            *how == Installer::Unsupported ==> *final(self) == (Ui {
                update_state: final(self).update_state,
                ..*old(self)
            }) && (final(self).update_state matches UpdateState::Error(t) && t@
                == msg_no_installer()),
            *how == Installer::Unknown ==> *final(self) == (Ui {
                update_state: final(self).update_state,
                ..*old(self)
            }) && (final(self).update_state matches UpdateState::Error(t) && t@
                == "cannot determine install type"@),
    {
        match how {
            Installer::Unsupported => {
                self.update_state = UpdateState::Error(
                    "auto-update needs portable mode, Homebrew, or winget.\nUpdate with: brew upgrade ping-uin  /  winget upgrade altosaxplayer.ping-uin  /  cargo install --path .".to_string(),
                );
                false
            },
            Installer::Unknown => {
                self.update_state = UpdateState::Error("cannot determine install type".to_string());
                false
            },
            _ => true,
        }
    }
}

/// Whether an executable path lies in a Homebrew cellar of this program.
pub open spec fn homebrew_path(path: Seq<char>) -> bool {
    contains_seq(path, "/Cellar/ping-uin/"@)
}

pub fn is_homebrew_install(path: &str) -> (r: bool)
    ensures
        r == homebrew_path(path@),
{
    let p = chars_of(path);
    let m = chars_of("/Cellar/ping-uin/");
    contains_chars(&p, &m)
}

} // verus!
