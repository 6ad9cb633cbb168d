use ping_uin::footer::{build_footer_plan, FooterPlan};
use ping_uin::config::{Config, HostConfig, SortMode};
use ping_uin::history::{history_counts, LogPoint};
use ping_uin::hoststate::{graph_cells, HistoryRange, HostState};
use ping_uin::registry::{trim_log_lines, Registry};
use ping_uin::session::initial_states;
use ping_uin::view::{build_visible_rows, host_matches_search, RowKind, VisibleRow};

fn state(name: &str, group: &str, alias: Option<&str>, up: bool) -> HostState {
    let mut h = HostState::new(name, 60, group, alias.map(|a| a.to_string()), None, 0);
    h.up = up;
    h
}

fn describe(rows: &[VisibleRow]) -> Vec<String> {
    rows.iter()
        .map(|r| match &r.kind {
            RowKind::GroupHeader { name, collapsed, hidden } => {
                format!("[{}{}{}]", name, if *collapsed { " +" } else { "" }, hidden)
            },
            RowKind::Host => format!("{}", r.host_idx.unwrap()),
        })
        .collect()
}

#[test]
fn search_is_case_insensitive() {
    let h = state("web.example", "Front", Some("Shop"), true);
    assert!(host_matches_search(&h, Some("WEB")));
    assert!(host_matches_search(&h, Some("shop")));
    assert!(host_matches_search(&h, Some("front")));
    assert!(host_matches_search(&h, Some("  ")));
    assert!(host_matches_search(&h, None));
    assert!(!host_matches_search(&h, Some("db")));
}

#[test]
fn flat_rows_down_first_have_sections() {
    let hosts = vec![state("a", "g", None, true), state("b", "g", None, false), state("c", "g", None, true)];
    let rows = build_visible_rows(&hosts, false, None, SortMode::DownFirst, None, &vec![]);
    assert_eq!(describe(&rows), vec!["[Down0]", "1", "[Up0]", "0", "2"]);
    let off = build_visible_rows(&hosts, false, None, SortMode::Off, None, &vec![]);
    assert_eq!(describe(&off), vec!["0", "1", "2"]);
    let down_only = build_visible_rows(&hosts, false, None, SortMode::DownOnly, None, &vec![]);
    assert_eq!(describe(&down_only), vec!["[Down0]", "1"]);
}

#[test]
fn grouped_rows_put_down_groups_first_and_collapse() {
    let hosts = vec![
        state("a", "web", None, true),
        state("b", "db", None, true),
        state("c", "web", None, false),
    ];
    let rows = build_visible_rows(&hosts, true, None, SortMode::Off, None, &vec![]);
    assert_eq!(describe(&rows), vec!["[web0]", "2", "0", "[db0]", "1"]);
    let collapsed = build_visible_rows(&hosts, true, None, SortMode::Off, None, &vec!["web".to_string()]);
    assert_eq!(describe(&collapsed), vec!["[web +2]", "[db0]", "1"]);
    let filtered = build_visible_rows(&hosts, true, Some("db"), SortMode::Off, None, &vec![]);
    assert_eq!(describe(&filtered), vec!["[db0]", "1"]);
}

#[test]
fn import_merges_by_name() {
    let c = Config {
        hosts: vec![HostConfig::new("a".to_string(), 60, "g".to_string(), None, None)],
        timeout_ms: 1000,
        graph_width: 20,
        theme: "btop".to_string(),
        group_by: false,
        sort_mode: SortMode::Off,
        webhook_url: None,
        notify_bell: false,
        collapsed_groups: vec![],
    };
    let states = initial_states(&c.hosts, 0);
    let mut reg = Registry { config: c, hosts: states, selected_idx: 0 };
    let incoming = vec![
        HostConfig::new("a".to_string(), 300, "new".to_string(), None, Some(22)),
        HostConfig::new("b".to_string(), 30, "g".to_string(), None, None),
    ];
    reg.import_entries(&incoming, 5);
    assert_eq!(reg.config.hosts.len(), 2);
    assert_eq!(reg.config.hosts[0].interval_secs, 300);
    assert_eq!(reg.hosts[0].group, "new");
    assert_eq!(reg.hosts[0].port, Some(22));
    assert_eq!(reg.hosts[1].name, "b");
    assert_eq!(reg.hosts[1].next_ping_ms, 5);
}

#[test]
fn history_tallies() {
    let hour: i64 = 3_600_000_000_000;
    let now = 100 * hour;
    let entries = vec![
        LogPoint { ts_ns: now - 30 * hour, up: false },
        LogPoint { ts_ns: now - 3 * hour, up: true },
        LogPoint { ts_ns: now - 2 * hour, up: false },
        LogPoint { ts_ns: now - hour, up: true },
    ];
    let c = history_counts(&entries, now, HistoryRange::Hours8);
    assert_eq!(c.total, 3);
    assert_eq!(c.up, 2);
    assert_eq!(c.down, 1);
    assert_eq!(c.last_down, Some(2));
    assert_eq!(c.buckets.len(), 32);
    let d = history_counts(&entries, now, HistoryRange::Days7);
    assert_eq!(d.total, 4);
    assert_eq!(d.buckets.len(), 84);
}

#[test]
fn graph_shows_newest_first() {
    let (cells, pad) = graph_cells(&vec![5, 0, 7], 10);
    assert_eq!(cells, vec![true, false, true]);
    assert_eq!(pad, 5);
    let (cells, pad) = graph_cells(&vec![1, 2, 3, 0], 4);
    assert_eq!(cells, vec![false, true]);
    assert_eq!(pad, 1);
}

#[test]
fn log_trim_keeps_recent_lines() {
    let mut lines = vec!["Timestamp,Host,Status,LatencyMs".to_string()];
    assert!(trim_log_lines(&lines).is_none());
    for i in 0..10002 {
        lines.push(format!("t{},h,UP,1", i));
    }
    let kept = trim_log_lines(&lines).expect("over the limit");
    assert_eq!(kept.len(), 10001);
    assert_eq!(kept[0], "Timestamp,Host,Status,LatencyMs");
    assert_eq!(kept[1], "t2,h,UP,1");
    assert_eq!(kept[10000], "t10001,h,UP,1");
}

#[test]
fn stats_box_tallies() {
    use_tallies();
}

fn use_tallies() {
    let mut hosts = vec![state("a", "g", None, true), state("b", "g", None, false), state("c", "g", None, true)];
    hosts[1].flaps = vec![1, 2, 3];
    assert_eq!(ping_uin::hoststate::host_tallies(&hosts), (2, 1, 1));
    assert_eq!(ping_uin::hoststate::host_tallies(&vec![]), (0, 0, 0));
}

#[test]
fn flapping_counts_recent_transitions() {
    let mut h = state("x", "g", None, false);
    let min = 60_000u64;
    // down -> up -> down -> up within ten minutes: three transitions.
    assert!(!h.note_result(true, min));
    h.up = true;
    assert!(!h.note_result(false, 2 * min));
    h.up = false;
    assert!(h.note_result(true, 3 * min));
    h.up = true;
    assert!(h.flapping());
    assert!(h.just_changed(3 * min + 1000));
    assert!(!h.just_changed(3 * min + 15_000));
    // No change for a while: old transitions age out of the window.
    assert!(!h.note_result(true, 14 * min));
    assert_eq!(h.flaps, Vec::<u64>::new());
}

#[test]
fn footer_plans_stay_in_two_rows() {
    for width in [0usize, 20, 30, 45, 60, 80, 100, 120, 200] {
        for update in [None, Some("1.2.3")] {
            match build_footer_plan(update, width) {
                FooterPlan::Full { rows, badge_row } | FooterPlan::Short { rows, badge_row } => {
                    assert_eq!(rows.len(), 17);
                    assert!(rows.iter().all(|r| *r < 2));
                    assert_eq!(badge_row.is_some(), update.is_some());
                },
                FooterPlan::KeysOnly { rows, more } => {
                    assert!(update.is_none());
                    assert!(rows.iter().all(|r| *r < 2));
                    match more {
                        None => assert_eq!(rows.len(), 18),
                        Some(m) => {
                            assert_eq!(m.text, format!("+{} more [M]", 18 - rows.len()));
                            assert!(m.row < 2);
                        },
                    }
                },
                FooterPlan::Overflow { rows, tail } => {
                    assert!(update.is_some());
                    assert!(rows.iter().all(|r| *r < 2));
                    assert!(tail.row < 2);
                    assert_eq!(tail.text, format!("↑v1.2.3 · +{} more [M]", 17 - rows.len()));
                    if tail.alone {
                        assert!(rows.iter().all(|r| *r != tail.row));
                    }
                },
            }
        }
    }
    match build_footer_plan(None, 400) {
        FooterPlan::Full { rows, badge_row } => {
            assert!(rows.iter().all(|r| *r == 0));
            assert!(badge_row.is_none());
        },
        other => panic!("unexpected {:?}", other),
    }
}

#[test]
fn narrow_keys_only_menu_counts_the_keys_left_out() {
    match build_footer_plan(None, 20) {
        FooterPlan::KeysOnly { rows, more } => {
            assert_eq!(rows, vec![0, 0, 0]);
            let m = more.expect("a marker for the keys left out");
            assert_eq!(m.text, "+15 more [M]");
            assert_eq!(m.row, 1);
            assert!(m.alone);
        },
        other => panic!("unexpected {:?}", other),
    }
}

#[test]
fn narrow_menu_with_update_counts_every_hint_left_out() {
    match build_footer_plan(Some("1.2.3"), 20) {
        FooterPlan::Overflow { rows, tail } => {
            assert_eq!(tail.text, format!("↑v1.2.3 · +{} more [M]", 17 - rows.len()));
            assert!(tail.alone);
            assert!(rows.iter().all(|r| *r != tail.row));
        },
        other => panic!("unexpected {:?}", other),
    }
}
