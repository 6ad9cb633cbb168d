use ping_uin::config::{config_from_legacy_text, HostConfig, SortMode};
use ping_uin::history::host_log_entries;
use ping_uin::registry::{seed_from_log_bytes, seed_from_records};
use ping_uin::session::initial_states;

#[test]
fn legacy_config_text_is_read_field_by_field() {
    let text = r#"{
        "hosts": ["1.1.1.1", {"name": "db", "interval_m": 3, "group": "core", "alias": "DB", "port": 5432},
                  {"name": "web", "interval": "45s", "port": 70000}, 7, null],
        "timeout_ms": 500,
        "graph_width": 40,
        "theme": "nord",
        "group_by": true,
        "sort_mode": "down_first",
        "webhook_url": "   ",
        "notify_bell": true,
        "collapsed_groups": ["core", 3, "edge"]
    }"#;
    let c = config_from_legacy_text(text).expect("JSON");
    let names: Vec<&str> = c.hosts.iter().map(|h| h.name.as_str()).collect();
    assert_eq!(names, vec!["1.1.1.1", "db", "web"]);
    assert_eq!(c.hosts[0].group, "default");
    assert_eq!(c.hosts[1].interval_secs, 180);
    assert_eq!(c.hosts[1].group, "core");
    assert_eq!(c.hosts[1].alias.as_deref(), Some("DB"));
    assert_eq!(c.hosts[1].port, Some(5432));
    assert_eq!(c.hosts[2].interval_secs, 45);
    assert_eq!(c.hosts[2].port, None);
    assert_eq!(c.timeout_ms, 500);
    assert_eq!(c.graph_width, 40);
    assert_eq!(c.theme, "nord");
    assert!(c.group_by);
    assert_eq!(c.sort_mode, SortMode::DownFirst);
    assert_eq!(c.webhook_url, None);
    assert!(c.notify_bell);
    assert_eq!(c.collapsed_groups, vec!["core".to_string(), "edge".to_string()]);
}

#[test]
fn legacy_config_text_defaults_and_failures() {
    assert!(config_from_legacy_text("{ not json").is_none());
    let c = config_from_legacy_text("[1, 2]").expect("JSON, but no object");
    assert!(c.hosts.is_empty());
    assert_eq!(c.theme, "btop");
    assert_eq!(c.sort_mode, SortMode::Off);
    assert!(!c.group_by);
}

fn two_hosts() -> Vec<ping_uin::hoststate::HostState> {
    let hosts = vec![
        HostConfig::new("a".to_string(), 60, "g".to_string(), None, None),
        HostConfig::new("b".to_string(), 60, "g".to_string(), None, None),
    ];
    initial_states(&hosts, 0)
}

const LOG: &str = "Timestamp,Host,Status,LatencyMs\n\
2024-01-01 00:00:00,a,UP,12\n\
2024-01-01 00:00:05,b,DOWN,\n\
2024-01-01 00:00:10,a,DOWN,\n\
2024-01-01 00:00:15,zz,UP,3\n\
2024-01-01 00:00:20,a,UP,x\n";

#[test]
fn seeding_counts_every_row_and_keeps_the_newest_samples() {
    let mut hosts = two_hosts();
    assert!(seed_from_log_bytes(&mut hosts, LOG.as_bytes(), 2).is_ok());
    assert_eq!(hosts[0].total_checks, 3);
    assert_eq!(hosts[0].up_checks, 2);
    assert_eq!(hosts[0].history, vec![0, 0]);
    assert_eq!(hosts[1].total_checks, 1);
    assert_eq!(hosts[1].up_checks, 0);
    assert_eq!(hosts[1].history, vec![0]);
}

#[test]
fn seeding_stops_at_an_unreadable_row_after_counting_the_rows_before() {
    let data = "Timestamp,Host,Status,LatencyMs\n\
2024-01-01 00:00:00,a,UP,12\n\
2024-01-01 00:00:05,a,UP\n\
2024-01-01 00:00:10,a,UP,7\n";
    let mut hosts = two_hosts();
    assert!(seed_from_log_bytes(&mut hosts, data.as_bytes(), 1).is_err());
    assert_eq!(hosts[0].total_checks, 1);
    assert_eq!(hosts[0].up_checks, 1);
    assert_eq!(hosts[0].history, vec![12]);
}

#[test]
fn seeding_refuses_a_counter_overflow() {
    let mut hosts = two_hosts();
    hosts[1].total_checks = u64::MAX;
    let rows = vec![
        vec!["t".to_string(), "a".to_string(), "UP".to_string(), "5".to_string()],
        vec!["t".to_string(), "b".to_string(), "DOWN".to_string(), String::new()],
        vec!["t".to_string(), "a".to_string(), "UP".to_string(), "6".to_string()],
    ];
    assert!(seed_from_records(&mut hosts, &rows, true, 10).is_err());
    assert_eq!(hosts[0].total_checks, 1);
    assert_eq!(hosts[0].history, vec![5]);
    assert_eq!(hosts[1].total_checks, u64::MAX);
}

#[test]
fn a_hosts_log_entries_in_file_order() {
    let data = "Timestamp,Host,Status,LatencyMs\n\
1970-01-01 00:01:00,a,UP,12.5\n\
1970-01-01 00:02:00,b,UP,1\n\
not a time,a,UP,3\n\
1970-01-01 00:03:00,a,DOWN\n\
1970-01-01 00:04:00,a,DOWN,\n";
    let lines = host_log_entries(data.as_bytes(), "a");
    let seen: Vec<(i64, bool, &str)> =
        lines.iter().map(|l| (l.naive_secs, l.point.up, l.latency.as_str())).collect();
    assert_eq!(seen, vec![(60, true, "12.5"), (240, false, "")]);
    assert!(host_log_entries(b"", "a").is_empty());
}
