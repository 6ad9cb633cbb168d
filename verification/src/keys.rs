//! The interactive screen's state and what each key press does to it.
//!
//! `Ui::handle_key` is the whole key map: it changes the state and names the
//! one outside effect (saving, pinging, importing, updating, quitting) that
//! the terminal loop must carry out. `Ui::wf` holds before and after every key.

use vstd::prelude::*;
use crate::config::{
    blank, default_theme_name, default_theme_text, interval_of, interval_text, is_blank,
    parse_interval, sort_mode_at, string_views, ConfigView, SortMode, DEFAULT_INTERVAL_SECS,
    MIN_INTERVAL_SECS,
};
use crate::hoststate::{
    history_ranges, state_views, AddHostForm, HistoryRange, HostState, HostStateView, FORM_FIELDS,
};
use crate::order::{
    arrange, compare_chars, lemma_arrange_is, lemma_lex_irreflexive, lemma_lex_total,
    lemma_lex_transitive, lex_lt, same_elems, sorted_by, strict_total_on,
};
use crate::registry::{
    add_done, edit_done, first_named, form_alias, form_group, form_port, has_name, in_step,
    law_add_keeps_invariants, law_edit_keeps_invariants, law_remove_keeps_invariants,
    lemma_first_named, names_unique, parse_form_port, remove_done, Registry,
};
use crate::text::{chars_eq, chars_of, decimal, string_from_chars, trim, trim_chars};
use crate::view::{
    build_visible_rows, host_step, move_selection, norm_group, norm_group_chars, shown_hosts,
    visible_rows,
};
use crate::config::{opt_view, sort_mode_index};

verus! {

/// A key press, as far as the key map tells keys apart. `Ctrl(c)` is a
/// character typed with Control held.
#[derive(Clone, Copy, Debug, PartialEq, Eq, Structural)]
pub enum Key {
    Char(char),
    Ctrl(char),
    Enter,
    Esc,
    Tab,
    BackTab,
    Up,
    Down,
    Left,
    Right,
    Backspace,
    Other,
}

/// The character of a character key, with or without Control.
pub open spec fn key_char(k: Key) -> Option<char> {
    match k {
        Key::Char(c) => Some(c),
        Key::Ctrl(c) => Some(c),
        _ => None,
    }
}

fn char_of(k: Key) -> (r: Option<char>)
    ensures
        r == key_char(k),
{
    match k {
        Key::Char(c) => Some(c),
        Key::Ctrl(c) => Some(c),
        _ => None,
    }
}

/// Progress of an update check or install, shown in a popup unless idle.
#[derive(Debug)]
pub enum UpdateState {
    Idle,
    Checking,
    Downloading { version: String },
    Replacing { version: String },
    Error(String),
    Info(String),
    Done { version: String, restart_required: bool },
}

/// What the screen is doing: browsing, or one of its forms and pickers.
#[derive(Debug)]
pub enum InputMode {
    Normal,
    AddHost(AddHostForm),
    EditEntry { original: String, form: AddHostForm },
    SortPicker { selected: usize },
    GroupFilterPicker { groups: Vec<String>, selected: usize },
    ImportPath { path: String },
    ExportPath { path: String },
    HistoryView { host_idx: usize, range: HistoryRange },
    ThemePicker { original: usize, selected: usize },
    MenuModal,
    KeysHelp,
    Search { query: String },
    ConfirmDelete,
}

/// The outside work a key press asks for.
#[derive(Debug)]
pub enum Effect {
    Nothing,
    /// Stop the program.
    Quit,
    /// Check this host at once.
    PingNow(String),
    /// Save the config file.
    SavePrefs,
    /// The host list changed: save the config and the CSV copy, and rebuild
    /// the check schedule and the history cache.
    EntriesChanged,
    /// Counters were reset: drop the cached history summaries.
    StatsCleared,
    /// Import hosts from the CSV file at this path.
    Import(String),
    /// Export hosts as CSV into this directory.
    Export(String),
    /// Ask once whether a newer release exists.
    CheckForUpdate,
    /// Install this release.
    InstallUpdate(String),
    /// Scroll the table to this row.
    ShowRow(usize),
}

/// Everything the interactive screen keeps between key presses.
#[derive(Debug)]
pub struct Ui {
    pub reg: Registry,
    pub theme_names: Vec<String>,
    pub theme_idx: usize,
    pub group_by: bool,
    pub group_filter: Option<String>,
    pub sort_mode: SortMode,
    /// Collapsed groups of the grouped view.
    pub collapsed: Vec<String>,
    pub search: Option<String>,
    pub mode: InputMode,
    pub update_available: Option<String>,
    pub update_state: UpdateState,
    /// The path offered by the import prompt.
    pub import_default: String,
    /// The directory offered by the export prompt.
    pub export_default: String,
}

/// The number of sort modes.
pub const SORT_MODES: usize = 6;

pub open spec fn mode_wf(m: InputMode, themes: nat) -> bool {
    match m {
        InputMode::AddHost(f) => f.focus < FORM_FIELDS,
        InputMode::EditEntry { form, .. } => form.focus < FORM_FIELDS,
        InputMode::SortPicker { selected } => selected < SORT_MODES,
        InputMode::GroupFilterPicker { groups, selected } => selected == 0 || selected
            < groups.len(),
        InputMode::ThemePicker { original, selected } => original < themes && selected < themes,
        _ => true,
    }
}

impl Ui {
    /// The state is well formed: a theme is chosen among the known ones, the
    /// config and live host lists have the same length, and the open picker
    /// or form points inside its choices.
    pub open spec fn wf(&self) -> bool {
        &&& self.theme_idx < self.theme_names.len()
        &&& self.reg.config.hosts.len() == self.reg.hosts.len()
        &&& mode_wf(self.mode, self.theme_names@.len())
    }
}

// ---------------------------------------------------------------------------
// Messages shown in the popup
// ---------------------------------------------------------------------------

pub open spec fn msg_host_required() -> Seq<char> {
    "host/IP is required"@
}

pub open spec fn msg_host_exists() -> Seq<char> {
    "host already exists"@
}

pub open spec fn msg_name_taken() -> Seq<char> {
    "another host already uses that name"@
}

pub open spec fn msg_min_interval() -> Seq<char> {
    "minimum interval is 5s"@
}

pub open spec fn msg_bad_port() -> Seq<char> {
    "port must be 1-65535 (blank = ping)"@
}

pub open spec fn msg_stats_cleared() -> Seq<char> {
    "stats cleared for selected host"@
}

pub open spec fn msg_view_reset() -> Seq<char> {
    "view reset — showing all hosts"@
}

fn info(msg: &str) -> (r: UpdateState)
    ensures
        r matches UpdateState::Info(s) && s@ == msg@,
{
    UpdateState::Info(msg.to_string())
}

// ---------------------------------------------------------------------------
// Editing the add/edit form
// ---------------------------------------------------------------------------

/// The text of form field `i` (0 host, 1 interval, 2 group, 3 alias, else port).
pub open spec fn field_text(f: AddHostForm, i: usize) -> Seq<char> {
    if i == 0 {
        f.host@
    } else if i == 1 {
        f.interval@
    } else if i == 2 {
        f.group@
    } else if i == 3 {
        f.alias@
    } else {
        f.port@
    }
}

/// `g` is `f` with the focused field's text replaced by `t`.
pub open spec fn with_focused(f: AddHostForm, g: AddHostForm, t: Seq<char>) -> bool {
    &&& g.focus == f.focus
    &&& if f.focus == 0 { g.host@ == t } else { g.host == f.host }
    &&& if f.focus == 1 { g.interval@ == t } else { g.interval == f.interval }
    &&& if f.focus == 2 { g.group@ == t } else { g.group == f.group }
    &&& if f.focus == 3 { g.alias@ == t } else { g.alias == f.alias }
    &&& if f.focus >= 4 { g.port@ == t } else { g.port == f.port }
}

/// `String::pop`: the last character goes, if there is one.
pub open spec fn popped(s: Seq<char>) -> Seq<char> {
    if s.len() > 0 {
        s.drop_last()
    } else {
        s
    }
}

/// What a key does to the form's fields, when it edits them: Tab and Down
/// move the focus forward, BackTab and Up backward (both wrapping),
/// Backspace deletes the focused field's last character, and a character
/// is appended to it.
pub open spec fn form_edit(f: AddHostForm, k: Key) -> Option<spec_fn(AddHostForm) -> bool> {
    match k {
        Key::Tab | Key::Down => Some(
            |g: AddHostForm| g == AddHostForm { focus: ((f.focus + 1) % (FORM_FIELDS as int)) as usize, ..f },
        ),
        Key::BackTab | Key::Up => Some(
            |g: AddHostForm|
                g == AddHostForm {
                    focus: ((f.focus + FORM_FIELDS - 1) % (FORM_FIELDS as int)) as usize,
                    ..f
                },
        ),
        Key::Backspace => Some(
            |g: AddHostForm| with_focused(f, g, popped(field_text(f, f.focus))),
        ),
        Key::Char(c) => Some(
            |g: AddHostForm| with_focused(f, g, field_text(f, f.focus).push(c)),
        ),
        Key::Ctrl(c) => Some(
            |g: AddHostForm| with_focused(f, g, field_text(f, f.focus).push(c)),
        ),
        _ => None,
    }
}

fn pop_text(s: &String) -> (r: String)
    ensures
        r@ == popped(s@),
{
    let mut v = chars_of(s.as_str());
    if v.len() > 0 {
        v.pop();
    }
    string_from_chars(&v)
}

fn push_text(s: &String, c: char) -> (r: String)
    ensures
        r@ == s@.push(c),
{
    let mut v = chars_of(s.as_str());
    v.push(c);
    string_from_chars(&v)
}

/// Applies an editing key to the form; returns whether the key was one.
fn edit_form(f: &mut AddHostForm, k: Key) -> (handled: bool)
    requires
        old(f).focus < FORM_FIELDS,
    ensures
        handled == form_edit(*old(f), k) is Some,
        handled ==> (form_edit(*old(f), k)->0)(*final(f)),
        !handled ==> *final(f) == *old(f),
        final(f).focus < FORM_FIELDS,
{
    match k {
        Key::Tab | Key::Down => {
            f.focus = (f.focus + 1) % FORM_FIELDS;
            true
        },
        Key::BackTab | Key::Up => {
            f.focus = (f.focus + FORM_FIELDS - 1) % FORM_FIELDS;
            true
        },
        Key::Backspace | Key::Char(_) | Key::Ctrl(_) => {
            let focus = f.focus;
            let cur = if focus == 0 {
                &f.host
            } else if focus == 1 {
                &f.interval
            } else if focus == 2 {
                &f.group
            } else if focus == 3 {
                &f.alias
            } else {
                &f.port
            };
            let t = match k {
                Key::Char(c) => push_text(cur, c),
                Key::Ctrl(c) => push_text(cur, c),
                _ => pop_text(cur),
            };
            if focus == 0 {
                f.host = t;
            } else if focus == 1 {
                f.interval = t;
            } else if focus == 2 {
                f.group = t;
            } else if focus == 3 {
                f.alias = t;
            } else {
                f.port = t;
            }
            true
        },
        _ => false,
    }
}

// ---------------------------------------------------------------------------
// Saving the view preferences
// ---------------------------------------------------------------------------

/// The name of the chosen theme; `btop` when the index is out of range.
pub open spec fn theme_name(u: Ui) -> Seq<char> {
    if u.theme_idx < u.theme_names.len() {
        u.theme_names@[u.theme_idx as int]@
    } else {
        default_theme_text()
    }
}

/// The config with the screen's theme, grouping, sort mode and collapsed
/// groups copied in.
pub open spec fn prefs_of(u: Ui) -> ConfigView {
    ConfigView {
        theme: theme_name(u),
        group_by: u.group_by,
        sort_mode: u.sort_mode,
        collapsed_groups: string_views(u.collapsed@),
        ..u.reg.config@
    }
}

/// `v` is `u` with the view preferences copied into the config.
pub open spec fn saved(u: Ui, v: Ui) -> bool {
    &&& v == Ui { reg: Registry { config: v.reg.config, ..u.reg }, ..u }
    &&& v.reg.config@ == prefs_of(u)
}

pub fn copy_strings(v: &Vec<String>) -> (r: Vec<String>)
    ensures
        r@ == v@,
{
    let mut r: Vec<String> = Vec::new();
    let mut i: usize = 0;
    while i < v.len()
        invariant
            0 <= i <= v.len(),
            r@ == v@.take(i as int),
        decreases v.len() - i,
    {
        r.push(v[i].clone());
        i += 1;
        assert(r@ =~= v@.take(i as int));
    }
    assert(v@.take(v.len() as int) =~= v@);
    r
}

impl Ui {
    /// Copies the theme, grouping, sort mode and collapsed groups into the
    /// config, to be saved.
    pub fn save_prefs(&mut self)
        ensures
            saved(*old(self), *final(self)),
    {
        let name = if self.theme_idx < self.theme_names.len() {
            self.theme_names[self.theme_idx].clone()
        } else {
            default_theme_name()
        };
        self.reg.config.theme = name;
        self.reg.config.group_by = self.group_by;
        self.reg.config.sort_mode = self.sort_mode;
        self.reg.config.collapsed_groups = copy_strings(&self.collapsed);
    }
}

// ---------------------------------------------------------------------------
// Pickers and prompts
// ---------------------------------------------------------------------------

/// `v` is `u` with sort mode `m`, saved.
pub open spec fn sort_applied(u: Ui, m: SortMode, v: Ui, e: Effect) -> bool {
    saved(Ui { sort_mode: m, ..u }, v) && e is SavePrefs
}

/// The sort mode a digit key picks: `1` to `6`.
pub open spec fn digit_pick(c: char) -> Option<usize> {
    if c == '1' {
        Some(0)
    } else if c == '2' {
        Some(1)
    } else if c == '3' {
        Some(2)
    } else if c == '4' {
        Some(3)
    } else if c == '5' {
        Some(4)
    } else if c == '6' {
        Some(5)
    } else {
        None
    }
}

fn digit_pick_of(c: char) -> (r: Option<usize>)
    ensures
        r == digit_pick(c),
{
    match c {
        '1' => Some(0),
        '2' => Some(1),
        '3' => Some(2),
        '4' => Some(3),
        '5' => Some(4),
        '6' => Some(5),
        _ => None,
    }
}

/// The sort picker: arrows move (wrapping), Enter applies, Space shows all,
/// a digit picks directly, Esc or `q` cancels. `u` is the screen with the
/// picker closed.
pub open spec fn sort_step(sel: usize, u: Ui, k: Key, v: Ui, e: Effect) -> bool {
    let stay = |s: usize| v == Ui { mode: InputMode::SortPicker { selected: s }, ..u } && e is Nothing;
    match k {
        Key::Esc => v == u && e is Nothing,
        Key::Up => stay(if sel == 0 { (SORT_MODES - 1) as usize } else { (sel - 1) as usize }),
        Key::Down => stay(((sel + 1) % (SORT_MODES as int)) as usize),
        Key::Enter => sort_applied(u, sort_mode_at(sel), v, e),
        _ => match key_char(k) {
            Some(c) => if c == 'q' {
                v == u && e is Nothing
            } else if c == ' ' {
                sort_applied(u, SortMode::Off, v, e)
            } else if digit_pick(c) is Some {
                sort_applied(u, sort_mode_at(digit_pick(c)->0), v, e)
            } else {
                stay(sel)
            },
            None => stay(sel),
        },
    }
}

/// The group filter picker: arrows move (wrapping), Enter filters on the
/// chosen group, Space clears the filter, Esc or Ctrl-C cancels.
pub open spec fn group_step(groups: Vec<String>, sel: usize, u: Ui, k: Key, v: Ui, e: Effect) -> bool {
    let n = groups.len();
    let stay = |s: usize|
        v == Ui { mode: InputMode::GroupFilterPicker { groups, selected: s }, ..u } && e is Nothing;
    match k {
        Key::Esc => v == u && e is Nothing,
        Key::Ctrl('c') => v == u && e is Nothing,
        Key::Up => stay(
            if sel == 0 {
                if n == 0 {
                    0
                } else {
                    (n - 1) as usize
                }
            } else {
                (sel - 1) as usize
            },
        ),
        Key::Down => stay(
            if n == 0 {
                0
            } else {
                ((sel + 1) % (n as int)) as usize
            },
        ),
        Key::Enter => e is Nothing && if sel < n {
            v == Ui { group_filter: Some(groups@[sel as int]), ..u }
        } else {
            v == u
        },
        _ => if key_char(k) == Some(' ') {
            v == Ui { group_filter: None, ..u } && e is Nothing
        } else {
            stay(sel)
        },
    }
}

/// A path prompt: typing edits the path, Enter hands a non-blank path on,
/// Esc cancels.
pub open spec fn path_step(export: bool, path: String, u: Ui, k: Key, v: Ui, e: Effect) -> bool {
    let edited = |t: Seq<char>|
        v == Ui { mode: v.mode, ..u } && e is Nothing && if export {
            v.mode matches InputMode::ExportPath { path: p } && p@ == t
        } else {
            v.mode matches InputMode::ImportPath { path: p } && p@ == t
        };
    match k {
        Key::Esc => v == u && e is Nothing,
        Key::Enter => v == u && if blank(path@) {
            e is Nothing
        } else if export {
            e == Effect::Export(path)
        } else {
            e == Effect::Import(path)
        },
        Key::Backspace => edited(popped(path@)),
        _ => match key_char(k) {
            Some(c) => edited(path@.push(c)),
            None => e is Nothing && if export {
                v == Ui { mode: InputMode::ExportPath { path }, ..u }
            } else {
                v == Ui { mode: InputMode::ImportPath { path }, ..u }
            },
        },
    }
}

/// The history popup: Left and Right step through the ranges (wrapping);
/// Esc, `q` or `h` closes it.
pub open spec fn history_step(host_idx: usize, range: HistoryRange, u: Ui, k: Key, v: Ui, e: Effect) -> bool {
    let stay = |r: HistoryRange|
        v == Ui { mode: InputMode::HistoryView { host_idx, range: r }, ..u } && e is Nothing;
    if k == Key::Esc || key_char(k) == Some('q') || key_char(k) == Some('Q') || key_char(k) == Some(
        'h',
    ) || key_char(k) == Some('H') {
        v == u && e is Nothing
    } else if k == Key::Left {
        stay(history_ranges()[(range.position_spec() + 2) % 3])
    } else if k == Key::Right {
        stay(history_ranges()[(range.position_spec() + 1) % 3])
    } else {
        stay(range)
    }
}

/// The theme picker: arrows preview the previous or next theme (wrapping),
/// Enter keeps it, Esc, `q` or `t` goes back to the theme it started from.
pub open spec fn theme_step(original: usize, sel: usize, u: Ui, k: Key, v: Ui, e: Effect) -> bool {
    let n = u.theme_names.len();
    let preview = |s: usize|
        v == Ui {
            theme_idx: s,
            mode: InputMode::ThemePicker { original, selected: s },
            ..u
        } && e is Nothing;
    if k == Key::Esc || key_char(k) == Some('q') || key_char(k) == Some('Q') || key_char(k) == Some(
        't',
    ) || key_char(k) == Some('T') {
        v == Ui { theme_idx: original, ..u } && e is Nothing
    } else if k == Key::Up {
        preview(
            if sel == 0 {
                (n - 1) as usize
            } else {
                (sel - 1) as usize
            },
        )
    } else if k == Key::Down {
        preview(((sel + 1) % (n as int)) as usize)
    } else if k == Key::Enter {
        saved(u, v) && e is SavePrefs
    } else {
        v == Ui { mode: InputMode::ThemePicker { original, selected: sel }, ..u } && e is Nothing
    }
}

/// The key list: Esc, `?` or `q` closes it.
pub open spec fn help_step(u: Ui, k: Key, v: Ui, e: Effect) -> bool {
    e is Nothing && if k == Key::Esc || key_char(k) == Some('?') || key_char(k) == Some('q')
        || key_char(k) == Some('Q') {
        v == u
    } else {
        v == Ui { mode: InputMode::KeysHelp, ..u }
    }
}

/// The search prompt filters as it is typed: Esc clears the filter, Enter
/// keeps it.
pub open spec fn search_step(query: String, u: Ui, k: Key, v: Ui, e: Effect) -> bool {
    let typed = |t: Seq<char>|
        v == Ui { mode: v.mode, search: v.search, ..u } && (v.mode matches InputMode::Search {
            query: q,
        } && q@ == t) && (if t.len() == 0 {
            v.search is None
        } else {
            v.search matches Some(s) && s@ == t
        });
    e is Nothing && match k {
        Key::Esc => v == Ui { search: None, ..u },
        Key::Enter => v == u,
        Key::Backspace => typed(popped(query@)),
        _ => match key_char(k) {
            Some(c) => typed(query@.push(c)),
            None => v == Ui { mode: InputMode::Search { query }, ..u },
        },
    }
}

/// The delete confirmation: `y` removes the selected host, `n` or Esc
/// keeps it.
pub open spec fn confirm_step(u: Ui, k: Key, v: Ui, e: Effect) -> bool {
    if key_char(k) == Some('y') || key_char(k) == Some('Y') {
        &&& v == Ui { reg: v.reg, ..u }
        &&& remove_done(u.reg, v.reg, e is EntriesChanged)
        &&& e is EntriesChanged || e is Nothing
    } else if k == Key::Esc || key_char(k) == Some('n') || key_char(k) == Some('N') {
        v == u && e is Nothing
    } else {
        v == Ui { mode: InputMode::ConfirmDelete, ..u } && e is Nothing
    }
}

impl Ui {
    fn sort_picker_key(&mut self, sel: usize, k: Key) -> (e: Effect)
        ensures
            sort_step(sel, *old(self), k, *final(self), e),
    {
        match k {
            Key::Esc => Effect::Nothing,
            Key::Up => {
                self.mode = InputMode::SortPicker {
                    selected: if sel == 0 {
                        SORT_MODES - 1
                    } else {
                        sel - 1
                    },
                };
                Effect::Nothing
            },
            Key::Down => {
                self.mode = InputMode::SortPicker { selected: (sel % SORT_MODES + 1) % SORT_MODES };
                assert(((sel as int) % 6 + 1) % 6 == (sel as int + 1) % 6) by (nonlinear_arith);
                Effect::Nothing
            },
            Key::Enter => {
                self.sort_mode = SortMode::from_index(sel);
                self.save_prefs();
                Effect::SavePrefs
            },
            _ => match char_of(k) {
                Some(c) => if c == 'q' {
                    Effect::Nothing
                } else if c == ' ' {
                    self.sort_mode = SortMode::Off;
                    self.save_prefs();
                    Effect::SavePrefs
                } else {
                    match digit_pick_of(c) {
                        Some(i) => {
                            self.sort_mode = SortMode::from_index(i);
                            self.save_prefs();
                            Effect::SavePrefs
                        },
                        None => {
                            self.mode = InputMode::SortPicker { selected: sel };
                            Effect::Nothing
                        },
                    }
                },
                None => {
                    self.mode = InputMode::SortPicker { selected: sel };
                    Effect::Nothing
                },
            },
        }
    }

    fn group_picker_key(&mut self, groups: Vec<String>, sel: usize, k: Key) -> (e: Effect)
        ensures
            group_step(groups, sel, *old(self), k, *final(self), e),
    {
        let n = groups.len();
        match k {
            Key::Esc => Effect::Nothing,
            Key::Ctrl('c') => Effect::Nothing,
            Key::Up => {
                let s = if sel == 0 {
                    if n == 0 {
                        0
                    } else {
                        n - 1
                    }
                } else {
                    sel - 1
                };
                self.mode = InputMode::GroupFilterPicker { groups, selected: s };
                Effect::Nothing
            },
            Key::Down => {
                let s = if n == 0 {
                    0
                } else {
                    (sel % n + 1) % n
                };
                proof {
                    if n > 0 {
                        assert(((sel as int) % (n as int) + 1) % (n as int) == (sel as int + 1) % (n as int))
                            by (nonlinear_arith)
                            requires
                                n > 0,
                        ;
                    }
                }
                self.mode = InputMode::GroupFilterPicker { groups, selected: s };
                Effect::Nothing
            },
            Key::Enter => {
                if sel < n {
                    self.group_filter = Some(groups[sel].clone());
                }
                Effect::Nothing
            },
            _ => {
                if char_of(k) == Some(' ') {
                    self.group_filter = None;
                } else {
                    self.mode = InputMode::GroupFilterPicker { groups, selected: sel };
                }
                Effect::Nothing
            },
        }
    }

    fn path_key(&mut self, export: bool, path: String, k: Key) -> (e: Effect)
        ensures
            path_step(export, path, *old(self), k, *final(self), e),
    {
        match k {
            Key::Esc => Effect::Nothing,
            Key::Enter => {
                if is_blank(path.as_str()) {
                    Effect::Nothing
                } else if export {
                    Effect::Export(path)
                } else {
                    Effect::Import(path)
                }
            },
            _ => {
                let t = match k {
                    Key::Backspace => Some(pop_text(&path)),
                    Key::Char(c) => Some(push_text(&path, c)),
                    Key::Ctrl(c) => Some(push_text(&path, c)),
                    _ => None,
                };
                let p = match t {
                    Some(t) => t,
                    None => path,
                };
                self.mode = if export {
                    InputMode::ExportPath { path: p }
                } else {
                    InputMode::ImportPath { path: p }
                };
                Effect::Nothing
            },
        }
    }

    fn history_key(&mut self, host_idx: usize, range: HistoryRange, k: Key) -> (e: Effect)
        ensures
            history_step(host_idx, range, *old(self), k, *final(self), e),
    {
        let c = char_of(k);
        if k == Key::Esc || c == Some('q') || c == Some('Q') || c == Some('h') || c == Some('H') {
            return Effect::Nothing;
        }
        let r = if k == Key::Left {
            range.prev()
        } else if k == Key::Right {
            range.next()
        } else {
            range
        };
        self.mode = InputMode::HistoryView { host_idx, range: r };
        Effect::Nothing
    }

    fn theme_key(&mut self, original: usize, sel: usize, k: Key) -> (e: Effect)
        requires
            0 < old(self).theme_names.len(),
        ensures
            theme_step(original, sel, *old(self), k, *final(self), e),
    {
        let n = self.theme_names.len();
        let c = char_of(k);
        if k == Key::Esc || c == Some('q') || c == Some('Q') || c == Some('t') || c == Some('T') {
            self.theme_idx = original;
            Effect::Nothing
        } else if k == Key::Up || k == Key::Down {
            let s = if k == Key::Up {
                if sel == 0 {
                    n - 1
                } else {
                    sel - 1
                }
            } else {
                (sel % n + 1) % n
            };
            assert(((sel as int) % (n as int) + 1) % (n as int) == (sel as int + 1) % (n as int)) by (nonlinear_arith)
                requires
                    n > 0,
            ;
            self.theme_idx = s;
            self.mode = InputMode::ThemePicker { original, selected: s };
            Effect::Nothing
        } else if k == Key::Enter {
            self.save_prefs();
            Effect::SavePrefs
        } else {
            self.mode = InputMode::ThemePicker { original, selected: sel };
            Effect::Nothing
        }
    }

    fn help_key(&mut self, k: Key) -> (e: Effect)
        ensures
            help_step(*old(self), k, *final(self), e),
    {
        let c = char_of(k);
        if !(k == Key::Esc || c == Some('?') || c == Some('q') || c == Some('Q')) {
            self.mode = InputMode::KeysHelp;
        }
        Effect::Nothing
    }

    fn search_key(&mut self, query: String, k: Key) -> (e: Effect)
        ensures
            search_step(query, *old(self), k, *final(self), e),
    {
        match k {
            Key::Esc => {
                self.search = None;
            },
            Key::Enter => {},
            _ => {
                let t = match k {
                    Key::Backspace => Some(pop_text(&query)),
                    Key::Char(c) => Some(push_text(&query, c)),
                    Key::Ctrl(c) => Some(push_text(&query, c)),
                    _ => None,
                };
                match t {
                    Some(q) => {
                        self.search = if q.as_str().is_empty() {
                            None
                        } else {
                            Some(q.clone())
                        };
                        self.mode = InputMode::Search { query: q };
                    },
                    None => {
                        self.mode = InputMode::Search { query };
                    },
                }
            },
        }
        Effect::Nothing
    }

    fn confirm_key(&mut self, k: Key) -> (e: Effect)
        requires
            old(self).reg.config.hosts.len() == old(self).reg.hosts.len(),
        ensures
            confirm_step(*old(self), k, *final(self), e),
    {
        let c = char_of(k);
        if c == Some('y') || c == Some('Y') {
            if self.reg.remove_selected() {
                Effect::EntriesChanged
            } else {
                Effect::Nothing
            }
        } else if k == Key::Esc || c == Some('n') || c == Some('N') {
            Effect::Nothing
        } else {
            self.mode = InputMode::ConfirmDelete;
            Effect::Nothing
        }
    }
}

// ---------------------------------------------------------------------------
// The groups offered by the filter picker
// ---------------------------------------------------------------------------

pub open spec fn lex_fn() -> spec_fn(Seq<char>, Seq<char>) -> bool {
    |a: Seq<char>, b: Seq<char>| lex_lt(a, b)
}

/// The group each host is listed under.
pub open spec fn host_groups(hs: Seq<HostStateView>) -> Seq<Seq<char>> {
    hs.map_values(|h: HostStateView| norm_group(h))
}

/// The groups of the hosts, each once, in the order of `String`.
pub open spec fn filter_choices(hs: Seq<HostStateView>) -> Seq<Seq<char>> {
    arrange(host_groups(hs), lex_fn())
}

pub open spec fn char_views(s: Seq<Vec<char>>) -> Seq<Seq<char>> {
    s.map_values(|v: Vec<char>| v@)
}

proof fn lemma_lex_strict_total(s: Seq<Seq<char>>)
    ensures
        strict_total_on(s, lex_fn()),
{
    assert forall|x: Seq<char>| s.contains(x) implies !#[trigger] lex_fn()(x, x) by {
        lemma_lex_irreflexive(x);
    }
    assert forall|x: Seq<char>, y: Seq<char>, z: Seq<char>|
        s.contains(x) && s.contains(y) && s.contains(z) && #[trigger] lex_fn()(x, y)
            && #[trigger] lex_fn()(y, z) implies lex_fn()(x, z) by {
        lemma_lex_transitive(x, y, z);
    }
    assert forall|x: Seq<char>, y: Seq<char>|
        s.contains(x) && s.contains(y) && x != y implies #[trigger] lex_fn()(x, y)
            || #[trigger] lex_fn()(y, x) by {
        lemma_lex_total(x, y);
    }
}

/// The group list of the filter picker: every host's group once, sorted.
pub fn filter_groups(hosts: &Vec<HostState>) -> (r: Vec<String>)
    ensures
        string_views(r@) == filter_choices(state_views(hosts@)),
{
    let ghost hs = state_views(hosts@);
    let ghost all = host_groups(hs);
    let mut out: Vec<Vec<char>> = Vec::new();
    let mut k: usize = 0;
    while k < hosts.len()
        invariant
            0 <= k <= hosts.len(),
            hs == state_views(hosts@),
            all == host_groups(hs),
            sorted_by(char_views(out@), lex_fn()),
            forall|x: Seq<char>|
                #![trigger char_views(out@).contains(x)]
                char_views(out@).contains(x) <==> all.take(k as int).contains(x),
        decreases hosts.len() - k,
    {
        let g = norm_group_chars(&hosts[k]);
        assert(all[k as int] == g@);
        let ghost before = char_views(out@);
        let mut i: usize = 0;
        let mut same = false;
        while i < out.len()
            invariant_except_break
                !same,
            invariant
                0 <= i <= out.len(),
                before == char_views(out@),
                forall|j: int| 0 <= j < i ==> lex_lt(#[trigger] before[j], g@),
            ensures
                0 <= i <= out.len(),
                same ==> i < out.len() && before[i as int] == g@,
                !same ==> i == out.len() || lex_lt(g@, before[i as int]),
            decreases out.len() - i,
        {
            let c = compare_chars(&out[i], &g);
            if c == 0 {
                same = true;
                break;
            }
            if c > 0 {
                break;
            }
            i += 1;
        }
        assert(all.take(k as int + 1) =~= all.take(k as int).push(g@));
        if !same {
            out.insert(i, g);
            let ghost after = char_views(out@);
            assert(after =~= before.insert(i as int, g@));
            assert forall|a: int, b: int| 0 <= a < b < after.len() implies #[trigger] lex_fn()(
                after[a],
                after[b],
            ) by {
                if b < i {
                } else if b == i {
                } else if a == i {
                    if b - 1 > i {
                        assert(lex_fn()(before[i as int], before[b - 1]));
                        assert(lex_lt(before[i as int], before[b - 1]));
                        lemma_lex_transitive(g@, before[i as int], before[b - 1]);
                    }
                } else if a < i {
                    assert(lex_fn()(before[a], before[b - 1]));
                } else {
                    assert(lex_fn()(before[a - 1], before[b - 1]));
                }
            }
            assert forall|x: Seq<char>| #![trigger after.contains(x)]
                after.contains(x) <==> all.take(k as int + 1).contains(x) by {
                if after.contains(x) {
                    let j = choose|j: int| 0 <= j < after.len() && after[j] == x;
                    if j < i {
                        assert(before.contains(before[j]));
                    } else if j > i {
                        assert(before.contains(before[j - 1]));
                    } else {
                        assert(all.take(k as int + 1)[k as int] == x);
                    }
                }
                if all.take(k as int + 1).contains(x) {
                    if x == g@ {
                        assert(after[i as int] == x);
                    } else {
                        let j = choose|j: int|
                            0 <= j < all.take(k as int + 1).len() && #[trigger] all.take(k as int + 1)[j] == x;
                        assert(all.take(k as int)[j] == x);
                        assert(before.contains(x));
                        let q = choose|q: int| 0 <= q < before.len() && before[q] == x;
                        if q < i {
                            assert(after[q] == x);
                        } else {
                            assert(after[q + 1] == x);
                        }
                    }
                }
            }
        } else {
            assert(before[i as int] == g@);
            assert forall|x: Seq<char>| #![trigger before.contains(x)]
                before.contains(x) <==> all.take(k as int + 1).contains(x) by {
                if all.take(k as int + 1).contains(x) && x != g@ {
                    let j = choose|j: int|
                        0 <= j < all.take(k as int + 1).len() && #[trigger] all.take(k as int + 1)[j] == x;
                    assert(all.take(k as int)[j] == x);
                }
                if before.contains(x) && !all.take(k as int).contains(x) {
                }
            }
        }
        k += 1;
    }
    assert(all.len() == hosts.len());
    assert(all.take(hosts.len() as int) =~= all);
    proof {
        lemma_lex_strict_total(all);
        lemma_arrange_is(all, char_views(out@), lex_fn());
    }
    let mut r: Vec<String> = Vec::new();
    let mut i: usize = 0;
    while i < out.len()
        invariant
            0 <= i <= out.len(),
            string_views(r@) == char_views(out@).take(i as int),
        decreases out.len() - i,
    {
        let t = string_from_chars(&out[i]);
        assert(t@ == char_views(out@)[i as int]);
        let ghost prev = r@;
        r.push(t);
        assert(string_views(r@) =~= string_views(prev).push(t@));
        i += 1;
        assert(string_views(r@) =~= char_views(out@).take(i as int));
    }
    assert(char_views(out@).take(out.len() as int) =~= char_views(out@));
    r
}

// ---------------------------------------------------------------------------
// The add and edit forms
// ---------------------------------------------------------------------------

/// The interval typed into the add form, the default when it does not parse.
pub open spec fn typed_interval(f: AddHostForm) -> u64 {
    match interval_of(f.interval@) {
        Some(x) => x,
        None => DEFAULT_INTERVAL_SECS,
    }
}

/// A port was typed that is not a number in 1 ..= 65535.
pub open spec fn bad_port(f: AddHostForm) -> bool {
    !blank(f.port@) && form_port(f.port@) is None
}

/// Why the add form is not accepted, if it is not.
pub open spec fn add_refusal(u: Ui, f: AddHostForm) -> Option<Seq<char>> {
    let host = trim(f.host@);
    if host.len() == 0 {
        Some(msg_host_required())
    } else if has_name(u.reg.entries(), host) {
        Some(msg_host_exists())
    } else if typed_interval(f) < MIN_INTERVAL_SECS {
        Some(msg_min_interval())
    } else if bad_port(f) {
        Some(msg_bad_port())
    } else {
        None
    }
}

/// Why the edit form is not accepted, if it is not. An interval that does
/// not parse is refused here, where the add form falls back to the default.
pub open spec fn edit_refusal(u: Ui, original: Seq<char>, f: AddHostForm) -> Option<Seq<char>> {
    let name = trim(f.host@);
    if name.len() == 0 {
        Some(msg_host_required())
    } else if name != original && has_name(u.reg.entries(), name) {
        Some(msg_name_taken())
    } else if (match interval_of(f.interval@) {
        Some(x) => x < MIN_INTERVAL_SECS,
        None => true,
    }) {
        Some(msg_min_interval())
    } else if bad_port(f) {
        Some(msg_bad_port())
    } else {
        None
    }
}

/// `v` is `u` showing message `msg`, with mode `m`.
pub open spec fn refused(u: Ui, msg: Seq<char>, m: InputMode, v: Ui, e: Effect) -> bool {
    &&& v == Ui { update_state: v.update_state, mode: m, ..u }
    &&& v.update_state matches UpdateState::Info(t) && t@ == msg
    &&& e is Nothing
}

/// The add form: editing keys edit it, Enter adds the host when the form is
/// accepted (else says why and stays), Esc cancels.
pub open spec fn add_step(f: AddHostForm, u: Ui, k: Key, now_ms: u64, v: Ui, e: Effect) -> bool {
    match k {
        Key::Esc => v == u && e is Nothing,
        Key::Enter => match add_refusal(u, f) {
            Some(msg) => refused(u, msg, InputMode::AddHost(f), v, e),
            None => {
                &&& v == Ui { reg: v.reg, ..u }
                &&& add_done(
                    u.reg,
                    v.reg,
                    f.host@,
                    typed_interval(f),
                    f.group@,
                    f.alias@,
                    form_port(f.port@),
                    now_ms,
                    true,
                )
                &&& e is EntriesChanged
            },
        },
        _ => e is Nothing && match form_edit(f, k) {
            Some(p) => v == Ui { mode: v.mode, ..u } && (v.mode matches InputMode::AddHost(g) && p(g)),
            None => v == Ui { mode: InputMode::AddHost(f), ..u },
        },
    }
}

/// The edit form: as the add form, but Enter applies the form to the host
/// it was opened for.
pub open spec fn edit_step(original: String, f: AddHostForm, u: Ui, k: Key, v: Ui, e: Effect) -> bool {
    match k {
        Key::Esc => v == u && e is Nothing,
        Key::Enter => match edit_refusal(u, original@, f) {
            Some(msg) => refused(u, msg, InputMode::EditEntry { original, form: f }, v, e),
            None => {
                &&& v == Ui { reg: v.reg, ..u }
                &&& edit_done(u.reg, v.reg, original@, f, e is EntriesChanged)
                &&& e is EntriesChanged || e is Nothing
            },
        },
        _ => e is Nothing && match form_edit(f, k) {
            Some(p) => v == Ui { mode: v.mode, ..u } && (v.mode matches InputMode::EditEntry {
                original: o,
                form: g,
            } && o == original && p(g)),
            None => v == Ui { mode: InputMode::EditEntry { original, form: f }, ..u },
        },
    }
}

fn trimmed(s: &String) -> (r: String)
    ensures
        r@ == trim(s@),
{
    let v = chars_of(s.as_str());
    string_from_chars(&trim_chars(&v))
}

impl Ui {
    fn has_entry(&self, name: &String) -> (r: bool)
        ensures
            r == has_name(self.reg.entries(), name@),
    {
        proof {
            lemma_first_named(self.reg.entries(), name@);
        }
        self.reg.find_entry(name.as_str()).is_some()
    }

    fn add_refusal_text(&self, f: &AddHostForm) -> (r: Option<&'static str>)
        ensures
            match add_refusal(*self, *f) {
                Some(m) => r matches Some(t) && t@ == m,
                None => r is None,
            },
    {
        let host = trimmed(&f.host);
        if host.as_str().is_empty() {
            return Some("host/IP is required");
        }
        if self.has_entry(&host) {
            return Some("host already exists");
        }
        let secs = match parse_interval(f.interval.as_str()) {
            Some(x) => x,
            None => DEFAULT_INTERVAL_SECS,
        };
        if secs < MIN_INTERVAL_SECS {
            return Some("minimum interval is 5s");
        }
        if !is_blank(f.port.as_str()) && parse_form_port(f.port.as_str()).is_none() {
            return Some("port must be 1-65535 (blank = ping)");
        }
        None
    }

    fn edit_refusal_text(&self, original: &String, f: &AddHostForm) -> (r: Option<&'static str>)
        ensures
            match edit_refusal(*self, original@, *f) {
                Some(m) => r matches Some(t) && t@ == m,
                None => r is None,
            },
    {
        let name = trimmed(&f.host);
        if name.as_str().is_empty() {
            return Some("host/IP is required");
        }
        if !(name == *original) && self.has_entry(&name) {
            return Some("another host already uses that name");
        }
        let too_short = match parse_interval(f.interval.as_str()) {
            Some(x) => x < MIN_INTERVAL_SECS,
            None => true,
        };
        if too_short {
            return Some("minimum interval is 5s");
        }
        if !is_blank(f.port.as_str()) && parse_form_port(f.port.as_str()).is_none() {
            return Some("port must be 1-65535 (blank = ping)");
        }
        None
    }

    fn add_form_key(&mut self, f: AddHostForm, k: Key, now_ms: u64) -> (e: Effect)
        requires
            f.focus < FORM_FIELDS,
        ensures
            add_step(f, *old(self), k, now_ms, *final(self), e),
    {
        match k {
            Key::Esc => Effect::Nothing,
            Key::Enter => match self.add_refusal_text(&f) {
                Some(msg) => {
                    self.update_state = info(msg);
                    self.mode = InputMode::AddHost(f);
                    Effect::Nothing
                },
                None => {
                    let secs = match parse_interval(f.interval.as_str()) {
                        Some(x) => x,
                        None => DEFAULT_INTERVAL_SECS,
                    };
                    let port = parse_form_port(f.port.as_str());
                    let _ = self.reg.add_host(
                        f.host.as_str(),
                        secs,
                        f.group.as_str(),
                        f.alias.as_str(),
                        port,
                        now_ms,
                    );
                    Effect::EntriesChanged
                },
            },
            _ => {
                let mut g = f;
                let _ = edit_form(&mut g, k);
                self.mode = InputMode::AddHost(g);
                Effect::Nothing
            },
        }
    }

    fn edit_form_key(&mut self, original: String, f: AddHostForm, k: Key) -> (e: Effect)
        requires
            f.focus < FORM_FIELDS,
        ensures
            edit_step(original, f, *old(self), k, *final(self), e),
    {
        match k {
            Key::Esc => Effect::Nothing,
            Key::Enter => match self.edit_refusal_text(&original, &f) {
                Some(msg) => {
                    self.update_state = info(msg);
                    self.mode = InputMode::EditEntry { original, form: f };
                    Effect::Nothing
                },
                None => {
                    if self.reg.edit_entry(original.as_str(), &f) {
                        Effect::EntriesChanged
                    } else {
                        Effect::Nothing
                    }
                },
            },
            _ => {
                let mut g = f;
                let _ = edit_form(&mut g, k);
                self.mode = InputMode::EditEntry { original, form: g };
                Effect::Nothing
            },
        }
    }
}

// ---------------------------------------------------------------------------
// Browsing
// ---------------------------------------------------------------------------

/// The selection points at a live host.
pub open spec fn sel_ok(u: Ui) -> bool {
    u.reg.selected_idx < u.reg.hosts.len()
}

pub open spec fn sel_host(u: Ui) -> HostState {
    u.reg.hosts@[u.reg.selected_idx as int]
}

/// Checking the selected host at once, if there is one.
pub open spec fn ping_ok(u: Ui, e: Effect) -> bool {
    if sel_ok(u) {
        e == Effect::PingNow(sel_host(u).name)
    } else {
        e is Nothing
    }
}

/// A form filled in from a live host (see `AddHostForm::for_host`).
pub open spec fn form_of_host(f: AddHostForm, h: HostState) -> bool {
    &&& f.host@ == h.name@
    &&& f.interval@ == interval_text(h.interval_secs)
    &&& f.group@ == h.group@
    &&& f.alias@ == (match h.alias {
        Some(a) => a@,
        None => Seq::empty(),
    })
    &&& f.port@ == (match h.port {
        Some(p) => decimal(p as nat),
        None => Seq::empty(),
    })
    &&& f.focus == 0
}

pub open spec fn empty_form(f: AddHostForm) -> bool {
    &&& f.host@.len() == 0
    &&& f.interval@.len() == 0
    &&& f.group@.len() == 0
    &&& f.alias@.len() == 0
    &&& f.port@.len() == 0
    &&& f.focus == 0
}

/// `v` is `u` with mode `m`.
pub open spec fn opens(u: Ui, m: InputMode, v: Ui) -> bool {
    v == Ui { mode: m, ..u }
}

pub open spec fn opens_add(u: Ui, v: Ui) -> bool {
    v == Ui { mode: v.mode, ..u } && (v.mode matches InputMode::AddHost(f) && empty_form(f))
}

pub open spec fn opens_edit(u: Ui, v: Ui) -> bool {
    if sel_ok(u) {
        v == Ui { mode: v.mode, ..u } && (v.mode matches InputMode::EditEntry { original, form } && original
            == sel_host(u).name && form_of_host(form, sel_host(u)))
    } else {
        v == u
    }
}

pub open spec fn opens_history(u: Ui, v: Ui) -> bool {
    if sel_ok(u) {
        opens(
            u,
            InputMode::HistoryView { host_idx: u.reg.selected_idx, range: HistoryRange::Hours24 },
            v,
        )
    } else {
        v == u
    }
}

pub open spec fn opens_delete(u: Ui, v: Ui) -> bool {
    if u.reg.hosts.len() > 0 {
        opens(u, InputMode::ConfirmDelete, v)
    } else {
        v == u
    }
}

pub open spec fn opens_search(u: Ui, v: Ui) -> bool {
    v == Ui { mode: v.mode, ..u } && (v.mode matches InputMode::Search { query } && match u.search {
        Some(s) => query == s,
        None => query@.len() == 0,
    })
}

/// The first position at or after `i` that holds `g`.
pub open spec fn first_pos(gs: Seq<Seq<char>>, g: Seq<char>, i: int) -> Option<int>
    decreases gs.len() - i,
{
    if i < 0 || i >= gs.len() {
        None
    } else if gs[i] == g {
        Some(i)
    } else {
        first_pos(gs, g, i + 1)
    }
}

/// Where the filter picker starts: on the active filter's group, else on
/// the first group.
pub open spec fn filter_pos(gs: Seq<Seq<char>>, f: Option<String>) -> usize {
    match f {
        Some(g) => match first_pos(gs, g@, 0) {
            Some(p) => p as usize,
            None => 0,
        },
        None => 0,
    }
}

pub open spec fn opens_filter(u: Ui, v: Ui) -> bool {
    v == Ui { mode: v.mode, ..u } && (v.mode matches InputMode::GroupFilterPicker { groups, selected }
        && string_views(groups@) == filter_choices(u.reg.states()) && selected == filter_pos(
        string_views(groups@),
        u.group_filter,
    ))
}

/// The live states after resetting the selected host's counters (see
/// `Registry::clear_selected_stats`).
pub open spec fn stats_cleared(r0: Registry, r1: Registry) -> bool {
    &&& r1.config == r0.config
    &&& r1.selected_idx == r0.selected_idx
    &&& r1.states() == (if r0.selected_idx < r0.hosts.len() {
        r0.states().update(
            r0.selected_idx as int,
            HostStateView {
                total_checks: 0,
                up_checks: 0,
                history: Seq::empty(),
                up: false,
                ..r0.states()[r0.selected_idx as int]
            },
        )
    } else {
        r0.states()
    })
}

/// `s` without the elements equal to `g`.
pub open spec fn without(s: Seq<Seq<char>>, g: Seq<char>) -> Seq<Seq<char>>
    decreases s.len(),
{
    if s.len() == 0 {
        s
    } else if s.last() == g {
        without(s.drop_last(), g)
    } else {
        without(s.drop_last(), g).push(s.last())
    }
}

/// The collapsed groups after collapsing or expanding `g`.
pub open spec fn toggled(cs: Seq<Seq<char>>, g: Seq<char>) -> Seq<Seq<char>> {
    if cs.contains(g) {
        without(cs, g)
    } else {
        cs.push(g)
    }
}

/// Enter collapses or expands the selected host's group, and saves.
pub open spec fn toggle_step(u: Ui, v: Ui, e: Effect) -> bool {
    if sel_ok(u) {
        &&& saved(Ui { collapsed: v.collapsed, ..u }, v)
        &&& string_views(v.collapsed@) == toggled(
            string_views(u.collapsed@),
            norm_group(u.reg.states()[u.reg.selected_idx as int]),
        )
        &&& e is SavePrefs
    } else {
        v == u && e is Nothing
    }
}

/// Esc leaves any sort or filter: both are reset and saved, with a notice.
pub open spec fn reset_step(u: Ui, v: Ui, e: Effect) -> bool {
    if u.sort_mode != SortMode::Off || u.group_filter is Some {
        let x = Ui { sort_mode: SortMode::Off, group_filter: None, ..u };
        &&& saved(x, Ui { update_state: x.update_state, ..v })
        &&& v.update_state matches UpdateState::Info(t) && t@ == msg_view_reset()
        &&& e is SavePrefs
    } else {
        v == u && e is Nothing
    }
}

/// The rows of the table as the screen shows them.
pub open spec fn shown(u: Ui) -> Seq<Option<usize>> {
    shown_hosts(
        visible_rows(
            u.reg.states(),
            u.group_by,
            opt_view(u.group_filter),
            u.sort_mode,
            opt_view(u.search),
            string_views(u.collapsed@),
        ),
    )
}

/// Up and Down move the selection to the nearest host row above or below.
pub open spec fn move_step(u: Ui, up: bool, v: Ui, e: Effect) -> bool {
    match host_step(shown(u), u.reg.selected_idx, up) {
        None => v == u && e is Nothing,
        Some((idx, pos)) => v == Ui { reg: Registry { selected_idx: idx, ..u.reg }, ..u } && match pos {
            Some(p) => e == Effect::ShowRow(p),
            None => e is Nothing,
        },
    }
}

pub open spec fn can_install(s: UpdateState) -> bool {
    s is Idle || s is Error || s is Info || s is Done
}

pub open spec fn can_check(s: UpdateState) -> bool {
    s is Idle || s is Error || s is Info
}

/// `u` installs a known newer release, or else asks whether there is one,
/// unless an update is already under way.
pub open spec fn update_step(u: Ui, v: Ui, e: Effect) -> bool {
    match u.update_available {
        Some(ver) => if can_install(u.update_state) {
            v == Ui { update_state: UpdateState::Checking, ..u } && e == Effect::InstallUpdate(ver)
        } else {
            v == u && e is Nothing
        },
        None => v == u && if can_check(u.update_state) {
            e is CheckForUpdate
        } else {
            e is Nothing
        },
    }
}

/// The keys that the menu shares with the main screen.
pub open spec fn shared_char(c: char) -> bool {
    c == ' ' || c == 'p' || c == 'P' || c == 'a' || c == 'A' || c == 'd' || c == 'D' || c == 'e'
        || c == 'h' || c == 'H' || c == 's' || c == 'S' || c == '/' || c == '?' || c == 'g' || c
        == 'q' || c == 'Q'
}

/// What a character key does on the main screen (the menu shares most).
pub open spec fn normal_char(u: Ui, c: char, v: Ui, e: Effect) -> bool {
    if c == 'q' || c == 'Q' {
        v == u && e is Quit
    } else if c == ' ' || c == 'p' || c == 'P' {
        v == u && ping_ok(u, e)
    } else if c == 'a' || c == 'A' {
        opens_add(u, v) && e is Nothing
    } else if c == 'd' || c == 'D' {
        opens_delete(u, v) && e is Nothing
    } else if c == 'c' || c == 'C' {
        &&& v == Ui { reg: v.reg, update_state: v.update_state, ..u }
        &&& stats_cleared(u.reg, v.reg)
        &&& v.update_state matches UpdateState::Info(t) && t@ == msg_stats_cleared()
        &&& e is StatsCleared
    } else if c == 'e' {
        opens_edit(u, v) && e is Nothing
    } else if c == 'h' || c == 'H' {
        opens_history(u, v) && e is Nothing
    } else if c == 'i' || c == 'I' {
        opens(u, InputMode::ImportPath { path: u.import_default }, v) && e is Nothing
    } else if c == 'E' {
        opens(u, InputMode::ExportPath { path: u.export_default }, v) && e is Nothing
    } else if c == 'u' || c == 'U' {
        update_step(u, v, e)
    } else if c == 'g' {
        saved(Ui { group_by: !u.group_by, ..u }, v) && e is SavePrefs
    } else if c == 'f' || c == 'F' {
        opens_filter(u, v) && e is Nothing
    } else if c == 's' || c == 'S' {
        opens(u, InputMode::SortPicker { selected: sort_mode_index(u.sort_mode) }, v)
            && e is Nothing
    } else if c == 't' || c == 'T' {
        opens(u, InputMode::ThemePicker { original: u.theme_idx, selected: u.theme_idx }, v)
            && e is Nothing
    } else if c == 'm' || c == 'M' {
        opens(u, InputMode::MenuModal, v) && e is Nothing
    } else if c == '?' {
        opens(u, InputMode::KeysHelp, v) && e is Nothing
    } else if c == '/' {
        opens_search(u, v) && e is Nothing
    } else {
        v == u && e is Nothing
    }
}

/// The main screen. Ctrl-C quits; Enter collapses or expands a group; Esc
/// resets the view; the arrows move the selection.
pub open spec fn normal_step(u: Ui, k: Key, v: Ui, e: Effect) -> bool {
    match k {
        Key::Ctrl('c') => v == u && e is Quit,
        Key::Enter => toggle_step(u, v, e),
        Key::Esc => reset_step(u, v, e),
        Key::Up => move_step(u, true, v, e),
        Key::Down => move_step(u, false, v, e),
        _ => match key_char(k) {
            Some(c) => normal_char(u, c, v, e),
            None => v == u && e is Nothing,
        },
    }
}

/// The menu: its keys act as on the main screen and close it (`c` clears
/// the counters without a notice); Esc or `m` closes it.
pub open spec fn menu_step(u: Ui, k: Key, v: Ui, e: Effect) -> bool {
    let stay = v == Ui { mode: InputMode::MenuModal, ..u } && e is Nothing;
    match k {
        Key::Esc => v == u && e is Nothing,
        Key::Enter => toggle_step(u, v, e),
        _ => match key_char(k) {
            Some(c) => if c == 'm' || c == 'M' {
                v == u && e is Nothing
            } else if c == 'c' || c == 'C' {
                v == Ui { reg: v.reg, ..u } && stats_cleared(u.reg, v.reg) && e is StatsCleared
            } else if shared_char(c) {
                normal_char(u, c, v, e)
            } else {
                stay
            },
            None => stay,
        },
    }
}

/// What a key press does to the screen `u`, giving `v` and effect `e`.
/// While an update popup is shown, Esc closes it; otherwise the key goes to
/// the open form or picker, or to the main screen.
pub open spec fn step(u: Ui, k: Key, now_ms: u64, v: Ui, e: Effect) -> bool {
    if !(u.update_state is Idle) && k == Key::Esc {
        v == Ui { update_state: UpdateState::Idle, ..u } && e is Nothing
    } else {
        let b = Ui { mode: InputMode::Normal, ..u };
        match u.mode {
            InputMode::Normal => normal_step(b, k, v, e),
            InputMode::AddHost(f) => add_step(f, b, k, now_ms, v, e),
            InputMode::EditEntry { original, form } => edit_step(original, form, b, k, v, e),
            InputMode::SortPicker { selected } => sort_step(selected, b, k, v, e),
            InputMode::GroupFilterPicker { groups, selected } => group_step(
                groups,
                selected,
                b,
                k,
                v,
                e,
            ),
            InputMode::ImportPath { path } => path_step(false, path, b, k, v, e),
            InputMode::ExportPath { path } => path_step(true, path, b, k, v, e),
            InputMode::HistoryView { host_idx, range } => history_step(host_idx, range, b, k, v, e),
            InputMode::ThemePicker { original, selected } => theme_step(original, selected, b, k, v, e),
            InputMode::MenuModal => menu_step(b, k, v, e),
            InputMode::KeysHelp => help_step(b, k, v, e),
            InputMode::Search { query } => search_step(query, b, k, v, e),
            InputMode::ConfirmDelete => confirm_step(b, k, v, e),
        }
    }
}

proof fn lemma_first_pos_range(gs: Seq<Seq<char>>, g: Seq<char>, i: int)
    ensures
        first_pos(gs, g, i) matches Some(p) ==> i <= p < gs.len() && gs[p] == g,
    decreases gs.len() - i,
{
    if 0 <= i < gs.len() && gs[i] != g {
        lemma_first_pos_range(gs, g, i + 1);
    }
}

fn position_of(gs: &Vec<String>, g: &String) -> (r: Option<usize>)
    ensures
        match first_pos(string_views(gs@), g@, 0) {
            Some(p) => r == Some(p as usize) && 0 <= p < gs.len(),
            None => r is None,
        },
{
    proof {
        lemma_first_pos_range(string_views(gs@), g@, 0);
    }
    let ghost s = string_views(gs@);
    let gv = chars_of(g.as_str());
    let mut i: usize = 0;
    while i < gs.len()
        invariant
            0 <= i <= gs.len(),
            s == string_views(gs@),
            gv@ == g@,
            first_pos(s, g@, 0) == first_pos(s, g@, i as int),
        decreases gs.len() - i,
    {
        let c = chars_of(gs[i].as_str());
        if chars_eq(&c, &gv) {
            return Some(i);
        }
        i += 1;
    }
    None
}

proof fn lemma_reg_lens(r: Registry)
    ensures
        r.entries().len() == r.config.hosts.len(),
        r.states().len() == r.hosts.len(),
{
}

impl Ui {
    fn ping_effect(&self) -> (e: Effect)
        ensures
            ping_ok(*self, e),
    {
        if self.reg.selected_idx < self.reg.hosts.len() {
            Effect::PingNow(self.reg.hosts[self.reg.selected_idx].name.clone())
        } else {
            Effect::Nothing
        }
    }

    fn open_edit(&mut self)
        ensures
            opens_edit(*old(self), *final(self)),
    {
        let sel = self.reg.selected_idx;
        if sel < self.reg.hosts.len() {
            let f = AddHostForm::for_host(&self.reg.hosts[sel]);
            self.mode = InputMode::EditEntry { original: self.reg.hosts[sel].name.clone(), form: f };
        }
    }

    fn open_history(&mut self)
        ensures
            opens_history(*old(self), *final(self)),
    {
        if self.reg.selected_idx < self.reg.hosts.len() {
            self.mode = InputMode::HistoryView {
                host_idx: self.reg.selected_idx,
                range: HistoryRange::Hours24,
            };
        }
    }

    fn open_delete(&mut self)
        ensures
            opens_delete(*old(self), *final(self)),
    {
        if self.reg.hosts.len() > 0 {
            self.mode = InputMode::ConfirmDelete;
        }
    }

    fn open_search(&mut self)
        ensures
            opens_search(*old(self), *final(self)),
    {
        let q = match &self.search {
            Some(s) => s.clone(),
            None => String::new(),
        };
        self.mode = InputMode::Search { query: q };
    }

    fn open_filter(&mut self)
        ensures
            opens_filter(*old(self), *final(self)),
            match final(self).mode {
                InputMode::GroupFilterPicker { groups, selected } => selected == 0 || selected
                    < groups.len(),
                _ => false,
            },
    {
        let groups = filter_groups(&self.reg.hosts);
        let selected = match &self.group_filter {
            Some(f) => match position_of(&groups, f) {
                Some(i) => i,
                None => 0,
            },
            None => 0,
        };
        assert(selected == 0 || selected < groups.len());
        self.mode = InputMode::GroupFilterPicker { groups, selected };
    }

    fn toggle_collapse_selected(&mut self) -> (e: Effect)
        ensures
            toggle_step(*old(self), *final(self), e),
    {
        let sel = self.reg.selected_idx;
        if sel >= self.reg.hosts.len() {
            return Effect::Nothing;
        }
        let g = norm_group_chars(&self.reg.hosts[sel]);
        assert(g@ == norm_group(self.reg.states()[sel as int]));
        let ghost cs = string_views(self.collapsed@);
        let mut out: Vec<String> = Vec::new();
        let mut found = false;
        let mut i: usize = 0;
        while i < self.collapsed.len()
            invariant
                0 <= i <= self.collapsed.len(),
                cs == string_views(self.collapsed@),
                string_views(out@) == without(cs.take(i as int), g@),
                found == cs.take(i as int).contains(g@),
            decreases self.collapsed.len() - i,
        {
            let c = chars_of(self.collapsed[i].as_str());
            let ghost prev = out@;
            assert(cs.take(i as int + 1).drop_last() =~= cs.take(i as int));
            assert(cs.take(i as int + 1).last() == cs[i as int]);
            if chars_eq(&c, &g) {
                found = true;
                assert(cs.take(i as int + 1)[i as int] == g@);
            } else {
                out.push(self.collapsed[i].clone());
                assert(string_views(out@) =~= string_views(prev).push(cs[i as int]));
                assert(cs.take(i as int + 1).contains(g@) ==> cs.take(i as int).contains(g@)) by {
                    if cs.take(i as int + 1).contains(g@) {
                        let j = choose|j: int|
                            0 <= j < cs.take(i as int + 1).len() && #[trigger] cs.take(
                                i as int + 1,
                            )[j] == g@;
                        assert(j != i);
                        assert(cs.take(i as int)[j] == g@);
                    }
                }
            }
            proof {
                if found {
                    assert(cs.take(i as int) .contains(g@) ==> cs.take(i as int + 1).contains(g@))
                        by {
                        if cs.take(i as int).contains(g@) {
                            let j = choose|j: int|
                                0 <= j < cs.take(i as int).len() && #[trigger] cs.take(
                                    i as int,
                                )[j] == g@;
                            assert(cs.take(i as int + 1)[j] == g@);
                        }
                    }
                }
            }
            i += 1;
        }
        assert(cs.take(self.collapsed.len() as int) =~= cs);
        if found {
            self.collapsed = out;
        } else {
            let gs = string_from_chars(&g);
            let ghost prev = self.collapsed@;
            self.collapsed.push(gs);
            assert(string_views(self.collapsed@) =~= string_views(prev).push(g@));
        }
        self.save_prefs();
        Effect::SavePrefs
    }

    fn reset_view(&mut self) -> (e: Effect)
        ensures
            reset_step(*old(self), *final(self), e),
    {
        if self.sort_mode != SortMode::Off || self.group_filter.is_some() {
            self.sort_mode = SortMode::Off;
            self.group_filter = None;
            self.save_prefs();
            self.update_state = info("view reset — showing all hosts");
            Effect::SavePrefs
        } else {
            Effect::Nothing
        }
    }

    fn move_key(&mut self, up: bool) -> (e: Effect)
        ensures
            move_step(*old(self), up, *final(self), e),
    {
        let rows = {
            let gf = match &self.group_filter {
                Some(s) => Some(s.as_str()),
                None => None,
            };
            let sr = match &self.search {
                Some(s) => Some(s.as_str()),
                None => None,
            };
            build_visible_rows(&self.reg.hosts, self.group_by, gf, self.sort_mode, sr, &self.collapsed)
        };
        match move_selection(&rows, self.reg.selected_idx, up) {
            None => Effect::Nothing,
            Some((idx, pos)) => {
                self.reg.selected_idx = idx;
                match pos {
                    Some(p) => Effect::ShowRow(p),
                    None => Effect::Nothing,
                }
            },
        }
    }

    fn update_key(&mut self) -> (e: Effect)
        ensures
            update_step(*old(self), *final(self), e),
    {
        match &self.update_available {
            Some(ver) => {
                let ok = match self.update_state {
                    UpdateState::Idle | UpdateState::Error(_) | UpdateState::Info(_)
                    | UpdateState::Done { .. } => true,
                    _ => false,
                };
                if ok {
                    let v = ver.clone();
                    self.update_state = UpdateState::Checking;
                    Effect::InstallUpdate(v)
                } else {
                    Effect::Nothing
                }
            },
            None => {
                let ok = match self.update_state {
                    UpdateState::Idle | UpdateState::Error(_) | UpdateState::Info(_) => true,
                    _ => false,
                };
                if ok {
                    Effect::CheckForUpdate
                } else {
                    Effect::Nothing
                }
            },
        }
    }

    fn normal_char_key(&mut self, c: char) -> (e: Effect)
        requires
            old(self).wf(),
            old(self).mode is Normal,
        ensures
            normal_char(*old(self), c, *final(self), e),
            final(self).wf(),
    {
        let e = {
            if c == 'q' || c == 'Q' {
                Effect::Quit
            } else if c == ' ' || c == 'p' || c == 'P' {
                self.ping_effect()
            } else if c == 'a' || c == 'A' {
                self.mode = InputMode::AddHost(AddHostForm::default());
                Effect::Nothing
            } else if c == 'd' || c == 'D' {
                self.open_delete();
                Effect::Nothing
            } else if c == 'c' || c == 'C' {
                self.reg.clear_selected_stats();
                self.update_state = info("stats cleared for selected host");
                Effect::StatsCleared
            } else if c == 'e' {
                self.open_edit();
                Effect::Nothing
            } else if c == 'h' || c == 'H' {
                self.open_history();
                Effect::Nothing
            } else if c == 'i' || c == 'I' {
                self.mode = InputMode::ImportPath { path: self.import_default.clone() };
                Effect::Nothing
            } else if c == 'E' {
                self.mode = InputMode::ExportPath { path: self.export_default.clone() };
                Effect::Nothing
            } else if c == 'u' || c == 'U' {
                self.update_key()
            } else if c == 'g' {
                self.group_by = !self.group_by;
                self.save_prefs();
                Effect::SavePrefs
            } else if c == 'f' || c == 'F' {
                self.open_filter();
                Effect::Nothing
            } else if c == 's' || c == 'S' {
                self.mode = InputMode::SortPicker { selected: self.sort_mode.index() };
                Effect::Nothing
            } else if c == 't' || c == 'T' {
                self.mode = InputMode::ThemePicker { original: self.theme_idx, selected: self.theme_idx };
                Effect::Nothing
            } else if c == 'm' || c == 'M' {
                self.mode = InputMode::MenuModal;
                Effect::Nothing
            } else if c == '?' {
                self.mode = InputMode::KeysHelp;
                Effect::Nothing
            } else if c == '/' {
                self.open_search();
                Effect::Nothing
            } else {
                Effect::Nothing
            }
        };
        proof {
            lemma_reg_lens(old(self).reg);
            lemma_reg_lens(self.reg);
        }
        e
    }

    fn normal_key(&mut self, k: Key) -> (e: Effect)
        requires
            old(self).wf(),
            old(self).mode is Normal,
        ensures
            normal_step(*old(self), k, *final(self), e),
            final(self).wf(),
    {
        let e = {
            match k {
                Key::Ctrl('c') => Effect::Quit,
                Key::Enter => self.toggle_collapse_selected(),
                Key::Esc => self.reset_view(),
                Key::Up => self.move_key(true),
                Key::Down => self.move_key(false),
                _ => match char_of(k) {
                    Some(c) => self.normal_char_key(c),
                    None => Effect::Nothing,
                },
            }
        };
        proof {
            lemma_reg_lens(old(self).reg);
            lemma_reg_lens(self.reg);
        }
        e
    }

    fn menu_key(&mut self, k: Key) -> (e: Effect)
        requires
            old(self).wf(),
            old(self).mode is Normal,
        ensures
            menu_step(*old(self), k, *final(self), e),
            final(self).wf(),
    {
        let e = {
            match k {
                Key::Esc => Effect::Nothing,
                Key::Enter => self.toggle_collapse_selected(),
                _ => match char_of(k) {
                    Some(c) => if c == 'm' || c == 'M' {
                        Effect::Nothing
                    } else if c == 'c' || c == 'C' {
                        self.reg.clear_selected_stats();
                        Effect::StatsCleared
                    } else if c == ' ' || c == 'p' || c == 'P' || c == 'a' || c == 'A' || c == 'd' || c
                        == 'D' || c == 'e' || c == 'h' || c == 'H' || c == 's' || c == 'S' || c == '/'
                        || c == '?' || c == 'g' || c == 'q' || c == 'Q' {
                        self.normal_char_key(c)
                    } else {
                        self.mode = InputMode::MenuModal;
                        Effect::Nothing
                    },
                    None => {
                        self.mode = InputMode::MenuModal;
                        Effect::Nothing
                    },
                },
            }
        };
        proof {
            lemma_reg_lens(old(self).reg);
            lemma_reg_lens(self.reg);
        }
        e
    }

    /// Whether the state is well formed (`wf`).
    pub fn well_formed(&self) -> (r: bool)
        ensures
            r == self.wf(),
    {
        let themes = self.theme_names.len();
        let mode_ok = match &self.mode {
            InputMode::AddHost(f) => f.focus < FORM_FIELDS,
            InputMode::EditEntry { form, .. } => form.focus < FORM_FIELDS,
            InputMode::SortPicker { selected } => *selected < SORT_MODES,
            InputMode::GroupFilterPicker { groups, selected } => *selected == 0 || *selected
                < groups.len(),
            InputMode::ThemePicker { original, selected } => *original < themes && *selected
                < themes,
            _ => true,
        };
        self.theme_idx < themes && self.reg.config.hosts.len() == self.reg.hosts.len() && mode_ok
    }

    /// Handles one key press: updates the screen and returns the outside
    /// work it asks for.
    pub fn handle_key(&mut self, k: Key, now_ms: u64) -> (e: Effect)
        requires
            old(self).wf(),
        ensures
            final(self).wf(),
            step(*old(self), k, now_ms, *final(self), e),
    {
        if !matches!(self.update_state, UpdateState::Idle) && k == Key::Esc {
            self.update_state = UpdateState::Idle;
            return Effect::Nothing;
        }
        let mut mode = InputMode::Normal;
        std::mem::swap(&mut mode, &mut self.mode);
        let ghost base = *self;
        let ghost edited_name = match &mode {
            InputMode::EditEntry { original, .. } => original@,
            _ => Seq::empty(),
        };
        let e = match mode {
            InputMode::Normal => self.normal_key(k),
            InputMode::AddHost(f) => self.add_form_key(f, k, now_ms),
            InputMode::EditEntry { original, form } => self.edit_form_key(original, form, k),
            InputMode::SortPicker { selected } => self.sort_picker_key(selected, k),
            InputMode::GroupFilterPicker { groups, selected } => self.group_picker_key(
                groups,
                selected,
                k,
            ),
            InputMode::ImportPath { path } => self.path_key(false, path, k),
            InputMode::ExportPath { path } => self.path_key(true, path, k),
            InputMode::HistoryView { host_idx, range } => self.history_key(host_idx, range, k),
            InputMode::ThemePicker { original, selected } => self.theme_key(original, selected, k),
            InputMode::MenuModal => self.menu_key(k),
            InputMode::KeysHelp => self.help_key(k),
            InputMode::Search { query } => self.search_key(query, k),
            InputMode::ConfirmDelete => self.confirm_key(k),
        };
        proof {
            lemma_reg_lens(base.reg);
            lemma_reg_lens(self.reg);
            lemma_first_named(base.reg.entries(), edited_name);
        }
        e
    }
}

// ---------------------------------------------------------------------------
// Laws of the key map
// ---------------------------------------------------------------------------

/// Esc closes whatever form, picker or prompt is open and goes back to the
/// main screen without touching the hosts or asking for outside work (the
/// theme picker puts back the theme it started from; the search prompt
/// clears the search).
pub proof fn law_esc_closes(u: Ui, now_ms: u64, v: Ui, e: Effect)
    requires
        u.update_state is Idle,
        !(u.mode is Normal),
        step(u, Key::Esc, now_ms, v, e),
    ensures
        v.mode is Normal,
        v.reg == u.reg,
        e is Nothing,
{
}

/// While a notice or update popup is shown, Esc closes only the popup.
pub proof fn law_esc_closes_popup(u: Ui, now_ms: u64, v: Ui, e: Effect)
    requires
        !(u.update_state is Idle),
        step(u, Key::Esc, now_ms, v, e),
    ensures
        v == (Ui { update_state: UpdateState::Idle, ..u }),
        e is Nothing,
{
}

/// No key press leaves the screen without hosts when it had some: only the
/// delete confirmation removes a host, and never the last one.
pub proof fn law_hosts_never_emptied(u: Ui, k: Key, now_ms: u64, v: Ui, e: Effect)
    requires
        u.wf(),
        u.reg.hosts.len() > 0,
        step(u, k, now_ms, v, e),
    ensures
        v.reg.hosts.len() > 0,
{
    lemma_reg_lens(u.reg);
    lemma_reg_lens(v.reg);
    if !(u.update_state is Idle) && k == Key::Esc {
    } else {
        match u.mode {
            InputMode::EditEntry { original, form } => {
                lemma_first_named(u.reg.entries(), original@);
            },
            _ => {},
        }
    }
}

proof fn lemma_push_contains(t: Seq<Seq<char>>, y: Seq<char>, x: Seq<char>)
    ensures
        t.push(y).contains(x) == (t.contains(x) || x == y),
{
    if t.push(y).contains(x) && x != y {
        let i = choose|i: int| 0 <= i < t.push(y).len() && t.push(y)[i] == x;
        assert(t[i] == x);
    }
    if t.contains(x) {
        let i = choose|i: int| 0 <= i < t.len() && t[i] == x;
        assert(t.push(y)[i] == x);
    }
    if x == y {
        assert(t.push(y)[t.len() as int] == y);
    }
}

proof fn lemma_without_contains(s: Seq<Seq<char>>, g: Seq<char>, x: Seq<char>)
    ensures
        without(s, g).contains(x) == (s.contains(x) && x != g),
    decreases s.len(),
{
    if s.len() > 0 {
        let t = s.drop_last();
        lemma_without_contains(t, g, x);
        assert(s =~= t.push(s.last()));
        lemma_push_contains(t, s.last(), x);
        if s.last() != g {
            lemma_push_contains(without(t, g), s.last(), x);
        }
    }
}

/// Pressing Enter twice on the same group gives back the same set of
/// collapsed groups.
pub proof fn law_collapse_twice(cs: Seq<Seq<char>>, g: Seq<char>, x: Seq<char>)
    ensures
        toggled(toggled(cs, g), g).contains(x) == cs.contains(x),
{
    lemma_without_contains(cs, g, x);
    lemma_without_contains(cs, g, g);
    lemma_without_contains(cs.push(g), g, x);
    lemma_push_contains(cs, g, g);
    lemma_push_contains(cs, g, x);
    lemma_push_contains(without(cs, g), g, x);
    lemma_push_contains(without(cs, g), g, g);
}

/// Every key press keeps each config entry beside the live state of the
/// same host, and keeps host names unique.
pub proof fn law_keys_keep_host_invariants(u: Ui, k: Key, now_ms: u64, v: Ui, e: Effect)
    requires
        in_step(u.reg.entries(), u.reg.states()),
        names_unique(u.reg.entries()),
        step(u, k, now_ms, v, e),
    ensures
        in_step(v.reg.entries(), v.reg.states()),
        names_unique(v.reg.entries()),
{
    let c = u.reg.entries();
    let h = u.reg.states();
    if !(u.update_state is Idle) && k == Key::Esc {
    } else {
        match u.mode {
            InputMode::AddHost(f) => {
                if k == Key::Enter && add_refusal(Ui { mode: InputMode::Normal, ..u }, f) is None {
                    law_add_keeps_invariants(
                        c,
                        h,
                        trim(f.host@),
                        crate::config::clamp(
                            typed_interval(f),
                            crate::config::MIN_INTERVAL_SECS,
                            crate::config::MAX_INTERVAL_SECS,
                        ),
                        form_group(f.group@),
                        form_alias(f.alias@),
                        form_port(f.port@),
                        now_ms,
                    );
                }
            },
            InputMode::EditEntry { original, form } => {
                lemma_first_named(c, original@);
                if k == Key::Enter && e is EntriesChanged {
                    let i = first_named(c, original@)->0;
                    law_edit_keeps_invariants(c, h, i, form);
                }
            },
            InputMode::ConfirmDelete => {
                if e is EntriesChanged {
                    law_remove_keeps_invariants(c, h, u.reg.selected_idx as int);
                }
            },
            _ => {},
        }
    }
}

} // verus!
