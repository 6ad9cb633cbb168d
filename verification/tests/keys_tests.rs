use ping_uin::config::{Config, HostConfig, SortMode};
use ping_uin::hoststate::HistoryRange;
use ping_uin::keys::{filter_groups, Effect, InputMode, Key, Ui, UpdateState};
use ping_uin::session::initial_states;

fn host(name: &str, group: &str) -> HostConfig {
    HostConfig::new(name.to_string(), 60, group.to_string(), None, None)
}

fn config(hosts: Vec<HostConfig>) -> Config {
    Config {
        hosts,
        timeout_ms: 1000,
        graph_width: 20,
        theme: "nord".to_string(),
        group_by: false,
        sort_mode: SortMode::Off,
        webhook_url: None,
        notify_bell: false,
        collapsed_groups: vec![],
    }
}

fn screen_with(hosts: Vec<HostConfig>) -> Ui {
    let c = config(hosts);
    let states = initial_states(&c.hosts, 0);
    Ui::new(
        c,
        states,
        vec!["btop".to_string(), "dracula".to_string(), "nord".to_string()],
        "hosts.csv".to_string(),
        "/home/me".to_string(),
    )
}

fn screen() -> Ui {
    screen_with(vec![host("a.example", "web"), host("b.example", "db"), host("c.example", "web")])
}

fn type_text(ui: &mut Ui, text: &str) {
    for c in text.chars() {
        ui.handle_key(Key::Char(c), 0);
    }
}

fn info_text(ui: &Ui) -> String {
    match &ui.update_state {
        UpdateState::Info(t) => t.clone(),
        other => panic!("expected a notice, got {:?}", other),
    }
}

#[test]
fn new_screen_starts_on_config_theme() {
    let ui = screen();
    assert_eq!(ui.theme_idx, 2);
    assert_eq!(ui.reg.selected_idx, 0);
    assert!(matches!(ui.mode, InputMode::Normal));
    let mut c = config(vec![host("a", "g")]);
    c.theme = "unknown".to_string();
    c.collapsed_groups = vec!["g".to_string(), "h".to_string(), "g".to_string()];
    let states = initial_states(&c.hosts, 0);
    let ui2 = Ui::new(c, states, vec!["btop".to_string()], String::new(), String::new());
    assert_eq!(ui2.theme_idx, 0);
    assert_eq!(ui2.collapsed, vec!["g".to_string(), "h".to_string()]);
}

#[test]
fn quit_keys() {
    let mut ui = screen();
    assert!(matches!(ui.handle_key(Key::Char('q'), 0), Effect::Quit));
    assert!(matches!(ui.handle_key(Key::Ctrl('c'), 0), Effect::Quit));
    assert!(matches!(ui.handle_key(Key::Char('Q'), 0), Effect::Quit));
}

#[test]
fn add_host_through_form() {
    let mut ui = screen();
    assert!(matches!(ui.handle_key(Key::Char('a'), 0), Effect::Nothing));
    assert!(matches!(ui.mode, InputMode::AddHost(_)));
    type_text(&mut ui, " new.example ");
    ui.handle_key(Key::Tab, 0);
    type_text(&mut ui, "30s");
    ui.handle_key(Key::Tab, 0);
    type_text(&mut ui, "lab");
    let e = ui.handle_key(Key::Enter, 7);
    assert!(matches!(e, Effect::EntriesChanged));
    assert!(matches!(ui.mode, InputMode::Normal));
    assert_eq!(ui.reg.config.hosts.len(), 4);
    assert_eq!(ui.reg.hosts.len(), 4);
    let added = &ui.reg.config.hosts[3];
    assert_eq!(added.name, "new.example");
    assert_eq!(added.interval_secs, 30);
    assert_eq!(added.group, "lab");
    assert_eq!(ui.reg.hosts[3].next_ping_ms, 7);
}

#[test]
fn add_form_refusals() {
    let mut ui = screen();
    ui.handle_key(Key::Char('a'), 0);
    ui.handle_key(Key::Enter, 0);
    assert_eq!(info_text(&ui), "host/IP is required");
    assert!(matches!(ui.mode, InputMode::AddHost(_)));
    type_text(&mut ui, "a.example");
    ui.handle_key(Key::Enter, 0);
    assert_eq!(info_text(&ui), "host already exists");
    for _ in 0..9 {
        ui.handle_key(Key::Backspace, 0);
    }
    type_text(&mut ui, "z.example");
    ui.handle_key(Key::Down, 0);
    type_text(&mut ui, "2s");
    ui.handle_key(Key::Enter, 0);
    assert_eq!(info_text(&ui), "minimum interval is 5s");
    ui.handle_key(Key::Backspace, 0);
    ui.handle_key(Key::Backspace, 0);
    ui.handle_key(Key::BackTab, 0);
    ui.handle_key(Key::BackTab, 0); // wraps to the port field
    type_text(&mut ui, "70000");
    ui.handle_key(Key::Enter, 0);
    assert_eq!(info_text(&ui), "port must be 1-65535 (blank = ping)");
    assert_eq!(ui.reg.config.hosts.len(), 3);
    ui.handle_key(Key::Esc, 0); // closes the notice only
    assert!(matches!(ui.update_state, UpdateState::Idle));
    assert!(matches!(ui.mode, InputMode::AddHost(_)));
    ui.handle_key(Key::Esc, 0);
    assert!(matches!(ui.mode, InputMode::Normal));
}

#[test]
fn edit_selected_host() {
    let mut ui = screen();
    ui.handle_key(Key::Char('e'), 0);
    match &ui.mode {
        InputMode::EditEntry { original, form } => {
            assert_eq!(original, "a.example");
            assert_eq!(form.interval, "1m");
            assert_eq!(form.group, "web");
        },
        other => panic!("unexpected {:?}", other),
    }
    ui.handle_key(Key::Tab, 0);
    ui.handle_key(Key::Backspace, 0);
    ui.handle_key(Key::Backspace, 0);
    type_text(&mut ui, "2m");
    assert!(matches!(ui.handle_key(Key::Enter, 0), Effect::EntriesChanged));
    assert_eq!(ui.reg.config.hosts[0].interval_secs, 120);
    assert_eq!(ui.reg.hosts[0].interval_secs, 120);
    // renaming onto another host is refused
    ui.handle_key(Key::Char('e'), 0);
    for _ in 0..9 {
        ui.handle_key(Key::Backspace, 0);
    }
    type_text(&mut ui, "b.example");
    ui.handle_key(Key::Enter, 0);
    assert_eq!(info_text(&ui), "another host already uses that name");
}

#[test]
fn delete_needs_confirmation() {
    let mut ui = screen();
    ui.handle_key(Key::Char('d'), 0);
    assert!(matches!(ui.mode, InputMode::ConfirmDelete));
    ui.handle_key(Key::Char('n'), 0);
    assert_eq!(ui.reg.hosts.len(), 3);
    ui.handle_key(Key::Char('d'), 0);
    assert!(matches!(ui.handle_key(Key::Char('y'), 0), Effect::EntriesChanged));
    assert_eq!(ui.reg.hosts.len(), 2);
    assert_eq!(ui.reg.config.hosts[0].name, "b.example");
}

#[test]
fn last_host_is_never_removed() {
    let mut ui = screen_with(vec![host("only", "g")]);
    ui.handle_key(Key::Char('d'), 0);
    assert!(matches!(ui.handle_key(Key::Char('y'), 0), Effect::Nothing));
    assert_eq!(ui.reg.hosts.len(), 1);
}

#[test]
fn sort_picker_keys() {
    let mut ui = screen();
    ui.handle_key(Key::Char('s'), 0);
    assert!(matches!(ui.mode, InputMode::SortPicker { selected: 0 }));
    ui.handle_key(Key::Up, 0);
    assert!(matches!(ui.mode, InputMode::SortPicker { selected: 5 }));
    ui.handle_key(Key::Down, 0);
    assert!(matches!(ui.mode, InputMode::SortPicker { selected: 0 }));
    assert!(matches!(ui.handle_key(Key::Char('3'), 0), Effect::SavePrefs));
    assert_eq!(ui.sort_mode, SortMode::UpFirst);
    assert_eq!(ui.reg.config.sort_mode, SortMode::UpFirst);
    ui.handle_key(Key::Char('s'), 0);
    ui.handle_key(Key::Char('9'), 0);
    assert!(matches!(ui.mode, InputMode::SortPicker { selected: 2 }));
    ui.handle_key(Key::Char(' '), 0);
    assert_eq!(ui.sort_mode, SortMode::Off);
}

#[test]
fn esc_resets_sort_and_filter() {
    let mut ui = screen();
    assert!(matches!(ui.handle_key(Key::Esc, 0), Effect::Nothing));
    ui.sort_mode = SortMode::DownOnly;
    assert!(matches!(ui.handle_key(Key::Esc, 0), Effect::SavePrefs));
    assert_eq!(ui.sort_mode, SortMode::Off);
    assert_eq!(info_text(&ui), "view reset — showing all hosts");
}

#[test]
fn group_filter_picker() {
    let mut ui = screen();
    ui.handle_key(Key::Char('f'), 0);
    match &ui.mode {
        InputMode::GroupFilterPicker { groups, selected } => {
            assert_eq!(groups, &vec!["db".to_string(), "web".to_string()]);
            assert_eq!(*selected, 0);
        },
        other => panic!("unexpected {:?}", other),
    }
    ui.handle_key(Key::Down, 0);
    ui.handle_key(Key::Enter, 0);
    assert_eq!(ui.group_filter, Some("web".to_string()));
    ui.handle_key(Key::Char('f'), 0);
    assert!(matches!(ui.mode, InputMode::GroupFilterPicker { selected: 1, .. }));
    ui.handle_key(Key::Char(' '), 0);
    assert_eq!(ui.group_filter, None);
}

#[test]
fn filter_groups_sorted_unique() {
    let c = config(vec![host("a", "web"), host("b", "db"), host("c", "web"), host("d", "")]);
    let states = initial_states(&c.hosts, 0);
    assert_eq!(
        filter_groups(&states),
        vec!["db".to_string(), "default".to_string(), "web".to_string()]
    );
}

#[test]
fn theme_picker_previews_and_cancels() {
    let mut ui = screen();
    ui.handle_key(Key::Char('t'), 0);
    ui.handle_key(Key::Down, 0);
    assert_eq!(ui.theme_idx, 0);
    ui.handle_key(Key::Up, 0);
    ui.handle_key(Key::Up, 0);
    assert_eq!(ui.theme_idx, 1);
    ui.handle_key(Key::Esc, 0);
    assert_eq!(ui.theme_idx, 2);
    ui.handle_key(Key::Char('t'), 0);
    ui.handle_key(Key::Up, 0);
    assert!(matches!(ui.handle_key(Key::Enter, 0), Effect::SavePrefs));
    assert_eq!(ui.reg.config.theme, "dracula");
}

#[test]
fn search_filters_as_typed() {
    let mut ui = screen();
    ui.handle_key(Key::Char('/'), 0);
    type_text(&mut ui, "web");
    assert_eq!(ui.search, Some("web".to_string()));
    ui.handle_key(Key::Backspace, 0);
    assert_eq!(ui.search, Some("we".to_string()));
    ui.handle_key(Key::Enter, 0);
    assert_eq!(ui.search, Some("we".to_string()));
    ui.handle_key(Key::Char('/'), 0);
    ui.handle_key(Key::Esc, 0);
    assert_eq!(ui.search, None);
}

#[test]
fn arrows_move_selection_and_scroll() {
    let mut ui = screen();
    match ui.handle_key(Key::Down, 0) {
        Effect::ShowRow(p) => assert_eq!(p, 1),
        other => panic!("unexpected {:?}", other),
    }
    assert_eq!(ui.reg.selected_idx, 1);
    ui.handle_key(Key::Up, 0);
    assert_eq!(ui.reg.selected_idx, 0);
    assert!(matches!(ui.handle_key(Key::Up, 0), Effect::Nothing));
}

#[test]
fn enter_toggles_collapse_of_selected_group() {
    let mut ui = screen();
    assert!(matches!(ui.handle_key(Key::Enter, 0), Effect::SavePrefs));
    assert_eq!(ui.collapsed, vec!["web".to_string()]);
    assert_eq!(ui.reg.config.collapsed_groups, vec!["web".to_string()]);
    ui.handle_key(Key::Enter, 0);
    assert!(ui.collapsed.is_empty());
}

#[test]
fn update_key_checks_then_installs() {
    let mut ui = screen();
    assert!(matches!(ui.handle_key(Key::Char('u'), 0), Effect::CheckForUpdate));
    ui.on_update_available("9.9.9".to_string());
    match ui.handle_key(Key::Char('u'), 0) {
        Effect::InstallUpdate(v) => assert_eq!(v, "9.9.9"),
        other => panic!("unexpected {:?}", other),
    }
    assert!(matches!(ui.update_state, UpdateState::Checking));
    assert!(matches!(ui.handle_key(Key::Char('u'), 0), Effect::Nothing));
}

#[test]
fn ping_clear_and_history() {
    let mut ui = screen();
    match ui.handle_key(Key::Char('p'), 0) {
        Effect::PingNow(n) => assert_eq!(n, "a.example"),
        other => panic!("unexpected {:?}", other),
    }
    ui.reg.hosts[0].total_checks = 5;
    assert!(matches!(ui.handle_key(Key::Char('c'), 0), Effect::StatsCleared));
    assert_eq!(ui.reg.hosts[0].total_checks, 0);
    assert_eq!(info_text(&ui), "stats cleared for selected host");
    ui.handle_key(Key::Esc, 0);
    ui.handle_key(Key::Char('h'), 0);
    assert!(matches!(ui.mode, InputMode::HistoryView { host_idx: 0, range: HistoryRange::Hours24 }));
    ui.handle_key(Key::Right, 0);
    assert!(matches!(ui.mode, InputMode::HistoryView { range: HistoryRange::Days7, .. }));
    ui.handle_key(Key::Right, 0);
    assert!(matches!(ui.mode, InputMode::HistoryView { range: HistoryRange::Hours8, .. }));
    ui.handle_key(Key::Char('h'), 0);
    assert!(matches!(ui.mode, InputMode::Normal));
}

#[test]
fn import_and_export_prompts() {
    let mut ui = screen();
    ui.handle_key(Key::Char('i'), 0);
    match ui.handle_key(Key::Enter, 0) {
        Effect::Import(p) => assert_eq!(p, "hosts.csv"),
        other => panic!("unexpected {:?}", other),
    }
    ui.handle_key(Key::Char('E'), 0);
    type_text(&mut ui, "/x");
    match ui.handle_key(Key::Enter, 0) {
        Effect::Export(p) => assert_eq!(p, "/home/me/x"),
        other => panic!("unexpected {:?}", other),
    }
    ui.handle_key(Key::Char('i'), 0);
    for _ in 0..9 {
        ui.handle_key(Key::Backspace, 0);
    }
    type_text(&mut ui, "   ");
    assert!(matches!(ui.handle_key(Key::Enter, 0), Effect::Nothing));
}

#[test]
fn menu_acts_and_closes() {
    let mut ui = screen();
    ui.handle_key(Key::Char('m'), 0);
    assert!(matches!(ui.mode, InputMode::MenuModal));
    ui.handle_key(Key::Char('x'), 0);
    assert!(matches!(ui.mode, InputMode::MenuModal));
    assert!(matches!(ui.handle_key(Key::Char('g'), 0), Effect::SavePrefs));
    assert!(ui.group_by);
    assert!(matches!(ui.mode, InputMode::Normal));
    ui.handle_key(Key::Char('m'), 0);
    assert!(matches!(ui.handle_key(Key::Char('c'), 0), Effect::StatsCleared));
    assert!(matches!(ui.update_state, UpdateState::Idle));
    ui.handle_key(Key::Char('m'), 0);
    ui.handle_key(Key::Char('?'), 0);
    assert!(matches!(ui.mode, InputMode::KeysHelp));
    ui.handle_key(Key::Char('?'), 0);
    assert!(matches!(ui.mode, InputMode::Normal));
}

#[test]
fn esc_closes_every_form_and_picker() {
    for opener in ['a', 'e', 's', 'f', 'i', 'E', 'h', 't', 'm', '?', '/', 'd'] {
        let mut ui = screen();
        ui.handle_key(Key::Char(opener), 0);
        assert!(!matches!(ui.mode, InputMode::Normal), "{} opens something", opener);
        let hosts_before = ui.reg.config.hosts.len();
        assert!(matches!(ui.handle_key(Key::Esc, 0), Effect::Nothing));
        assert!(matches!(ui.mode, InputMode::Normal), "Esc closes what {} opened", opener);
        assert_eq!(ui.reg.config.hosts.len(), hosts_before);
        assert_eq!(ui.theme_idx, 2);
    }
}

#[test]
fn screen_stays_well_formed() {
    let mut ui = screen();
    assert!(ui.well_formed());
    for k in [Key::Char('t'), Key::Up, Key::Up, Key::Up, Key::Down, Key::Esc, Key::Char('a'), Key::BackTab, Key::Tab, Key::Esc] {
        ui.handle_key(k, 0);
        assert!(ui.well_formed());
    }
    ui.theme_idx = 7;
    assert!(!ui.well_formed());
}
