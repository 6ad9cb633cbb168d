use ping_uin::config::{
    host_csv_record, host_from_csv_row,
    format_interval, parse_host_interval, parse_interval, parse_sort_mode, HostConfig,
    LegacyHostFields, SortMode, DEFAULT_INTERVAL_SECS, MIN_INTERVAL_SECS,
};

fn legacy_fields() -> LegacyHostFields {
    LegacyHostFields {
        name: None,
        interval_secs: None,
        interval: None,
        interval_s: None,
        interval_m: None,
        group: None,
        alias: None,
        port: None,
    }
}

#[test]
fn parse_interval_units() {
    assert_eq!(parse_interval("30s"), Some(30));
    assert_eq!(parse_interval("5m"), Some(300));
    assert_eq!(parse_interval("2h"), Some(7200));
    assert_eq!(parse_interval("2"), Some(120)); // legacy bare minutes
    assert_eq!(parse_interval(" 10S "), Some(10));
    assert_eq!(parse_interval(""), None);
    assert_eq!(parse_interval("abc"), None);
}

#[test]
fn effective_interval_prefers_secs_and_clamps() {
    let mut h = HostConfig::new("x".to_string(), 30, "g".to_string(), None, None);
    assert_eq!(h.effective_interval_secs(), 30);
    h.interval_secs = 0;
    h.interval_m = 2;
    assert_eq!(h.effective_interval_secs(), 120);
    h.interval_secs = 1; // below minimum
    assert_eq!(h.effective_interval_secs(), MIN_INTERVAL_SECS);
    h.interval_secs = 0;
    h.interval_m = 0;
    assert_eq!(h.effective_interval_secs(), DEFAULT_INTERVAL_SECS);
}

#[test]
fn format_interval_roundtrip() {
    assert_eq!(format_interval(30), "30s");
    assert_eq!(format_interval(300), "5m");
    assert_eq!(format_interval(7200), "2h");
    assert_eq!(parse_interval(&format_interval(90)), Some(90));
}

#[test]
fn legacy_json_minutes_migrate_to_secs() {
    let mut obj = legacy_fields();
    obj.interval_m = Some(3);
    assert_eq!(parse_host_interval(&obj), 180);
    obj.interval_s = Some(45);
    assert_eq!(parse_host_interval(&obj), 45);
    obj.interval = Some("10m".to_string());
    // explicit string wins over nothing... interval_secs absent, string present
    let mut obj2 = legacy_fields();
    obj2.interval = Some("10m".to_string());
    assert_eq!(parse_host_interval(&obj2), 600);
}

#[test]
fn sort_mode_labels_roundtrip() {
    for m in SortMode::all() {
        assert_eq!(SortMode::from_index(m.index()), m);
    }
    assert_eq!(parse_sort_mode("DownOnly"), SortMode::DownOnly);
    assert_eq!(parse_sort_mode("down only"), SortMode::DownOnly);
    assert_eq!(parse_sort_mode("bogus"), SortMode::Off);
}

#[test]
fn tcp_target_display() {
    let h = HostConfig::new("db".to_string(), 60, "g".to_string(), None, Some(5432));
    assert_eq!(h.target(), "db:5432");
    let p = HostConfig::new("db".to_string(), 60, "g".to_string(), None, None);
    assert_eq!(p.target(), "db");
}

#[test]
fn interval_parse_of_format_is_identity_on_samples() {
    for secs in [5u64, 59, 60, 61, 90, 3600, 7200, 86400, 86401] {
        assert_eq!(parse_interval(&format_interval(secs)), Some(secs));
    }
}

#[test]
fn interval_large_values_saturate_or_fail() {
    assert_eq!(parse_interval("0s"), Some(0));
    assert_eq!(parse_interval("1x"), None);
    assert_eq!(parse_interval("-5s"), None);
}

#[test]
fn legacy_interval_field_order() {
    let mut f = legacy_fields();
    assert_eq!(parse_host_interval(&f), DEFAULT_INTERVAL_SECS);
    f.interval_secs = Some(0);
    f.interval_m = Some(1);
    assert_eq!(parse_host_interval(&f), 60);
    f.interval = Some("bogus".to_string());
    assert_eq!(parse_host_interval(&f), 60);
    f.interval_secs = Some(7);
    assert_eq!(parse_host_interval(&f), 7);
}

#[test]
fn blank_group_becomes_default_and_blank_alias_drops() {
    let h = HostConfig::new("n".to_string(), 60, "  ".to_string(), Some(" ".to_string()), None);
    assert_eq!(h.group, "default");
    assert_eq!(h.alias, None);
    assert_eq!(h.display_name(), "n");
    let a = HostConfig::new("n".to_string(), 60, "g".to_string(), Some("Nice".to_string()), None);
    assert_eq!(a.display_name(), "Nice");
}

#[test]
fn csv_record_reads_back() {
    use_roundtrip(HostConfig::new("db.internal".to_string(), 30, "databases".to_string(), Some("Primary DB".to_string()), Some(5432)));
    use_roundtrip(HostConfig::new("192.168.1.1".to_string(), 180, "router".to_string(), None, None));
    let mut legacy = HostConfig::new("old".to_string(), 0, "g".to_string(), None, None);
    legacy.interval_m = 3;
    let back = host_from_csv_row(&host_csv_record(&legacy)).unwrap();
    assert_eq!(back.interval_secs, 180);
    assert_eq!(back.interval_m, 0);
}

fn use_roundtrip(h: HostConfig) {
    let row = host_csv_record(&h);
    let back = host_from_csv_row(&row).expect("row has a name");
    assert_eq!(back.name, h.name);
    assert_eq!(back.interval_secs, h.effective_interval_secs());
    assert_eq!(back.group, h.group);
    assert_eq!(back.alias, h.alias);
    assert_eq!(back.port, h.port);
}
