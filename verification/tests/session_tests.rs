use ping_uin::cli::{parse_args, Command};
use ping_uin::once::once_report;
use ping_uin::theme::{rgb, theme_table};
use ping_uin::config::{Config, HostConfig, SortMode};
use ping_uin::keys::{Ui, UpdateState};
use ping_uin::session::{
    check_outcome, choose_installer, initial_states, is_homebrew_install, Installer,
};
use ping_uin::update::{
    archive_name_from_url, asset_name, is_newer_version, parse_sha256_text, sha256_hex_upper,
    should_announce, version_from_tag, version_parts,
};

fn args(list: &[&str]) -> Vec<String> {
    list.iter().map(|s| s.to_string()).collect()
}

fn screen() -> Ui {
    let c = Config {
        hosts: vec![
            HostConfig::new("db".to_string(), 60, "g".to_string(), None, Some(5432)),
            HostConfig::new("web".to_string(), 60, "g".to_string(), None, None),
        ],
        timeout_ms: 1000,
        graph_width: 3,
        theme: "btop".to_string(),
        group_by: false,
        sort_mode: SortMode::Off,
        webhook_url: Some("http://hook".to_string()),
        notify_bell: true,
        collapsed_groups: vec![],
    };
    let states = initial_states(&c.hosts, 0);
    Ui::new(c, states, vec!["btop".to_string()], String::new(), String::new())
}

#[test]
fn command_line_forms() {
    assert!(matches!(parse_args(&args(&["ping-uin"])), Command::Tui));
    assert!(matches!(parse_args(&args(&["ping-uin", "--once", "-h"])), Command::Help));
    assert!(matches!(parse_args(&args(&["ping-uin", "--help"])), Command::Help));
    match parse_args(&args(&["ping-uin", "--once"])) {
        Command::Once(f) => assert_eq!(f, "text"),
        other => panic!("unexpected {:?}", other),
    }
    match parse_args(&args(&["ping-uin", "--once", "--format", "json"])) {
        Command::Once(f) => assert_eq!(f, "json"),
        other => panic!("unexpected {:?}", other),
    }
    assert!(matches!(
        parse_args(&args(&["ping-uin", "--once", "--format", "xml"])),
        Command::BadFormat
    ));
    match parse_args(&args(&["ping-uin", "--once", "--format"])) {
        Command::Once(f) => assert_eq!(f, "text"),
        other => panic!("unexpected {:?}", other),
    }
}

#[test]
fn result_transitions_raise_alerts() {
    let mut ui = screen();
    assert!(ui.on_result("db", true, 12, 1000, 61_000).is_none());
    assert_eq!(ui.reg.hosts[0].total_checks, 1);
    assert_eq!(ui.reg.hosts[0].history, vec![12]);
    assert!(ui.on_result("db", true, 14, 2000, 62_000).is_none());
    let a = ui.on_result("db", false, 0, 3000, 63_000).expect("went down");
    assert_eq!(a.target, "db:5432");
    assert_eq!(a.webhook, Some("http://hook".to_string()));
    assert!(a.bell);
    let b = ui.on_result("db", true, 9, 4000, 64_000).expect("came back");
    assert!(!b.bell);
    assert_eq!(ui.reg.hosts[0].history, vec![14, 0, 9]);
    assert_eq!(ui.reg.hosts[0].up_checks, 3);
    assert!(ui.on_result("nope", true, 1, 0, 0).is_none());
}

#[test]
fn update_popup_messages() {
    let (avail, st) = check_outcome("1.2.0", Some("1.10.0".to_string()));
    assert_eq!(avail, Some("1.10.0".to_string()));
    match st {
        UpdateState::Info(t) => assert_eq!(t, "v1.10.0 available — press u again to install"),
        other => panic!("unexpected {:?}", other),
    }
    let (avail, st) = check_outcome("1.2.0", Some("1.2.0".to_string()));
    assert_eq!(avail, None);
    match st {
        UpdateState::Info(t) => assert_eq!(t, "already on latest (v1.2.0)"),
        other => panic!("unexpected {:?}", other),
    }
    match check_outcome("1.2.0", None).1 {
        UpdateState::Error(t) => assert_eq!(t, "update check failed: no network or API error"),
        other => panic!("unexpected {:?}", other),
    }
}

#[test]
fn installer_choice() {
    assert_eq!(choose_installer(true, false, false, false, false), Installer::InPlace);
    assert_eq!(choose_installer(false, false, true, true, true), Installer::Unknown);
    assert_eq!(choose_installer(false, true, true, true, true), Installer::Homebrew);
    assert_eq!(choose_installer(false, true, false, true, true), Installer::InPlace);
    assert_eq!(choose_installer(false, true, false, false, true), Installer::Winget);
    assert_eq!(choose_installer(false, true, false, false, false), Installer::Unsupported);
    let mut ui = screen();
    assert!(ui.begin_install(&Installer::Homebrew));
    assert!(!ui.begin_install(&Installer::Unknown));
    match &ui.update_state {
        UpdateState::Error(t) => assert_eq!(t, "cannot determine install type"),
        other => panic!("unexpected {:?}", other),
    }
    assert!(ui.on_update_state(UpdateState::Done { version: "2".to_string(), restart_required: true }));
    assert!(!ui.on_update_state(UpdateState::Done { version: "2".to_string(), restart_required: false }));
    ui.export_finished(Ok("/tmp/x.csv".to_string()));
    match &ui.update_state {
        UpdateState::Info(t) => assert_eq!(t, "exported to /tmp/x.csv"),
        other => panic!("unexpected {:?}", other),
    }
    ui.export_finished(Err("denied".to_string()));
    match &ui.update_state {
        UpdateState::Error(t) => assert_eq!(t, "export failed: denied"),
        other => panic!("unexpected {:?}", other),
    }
}

#[test]
fn homebrew_paths() {
    assert!(is_homebrew_install("/opt/homebrew/Cellar/ping-uin/1.0/bin/ping-uin"));
    assert!(!is_homebrew_install("/usr/local/bin/ping-uin"));
}

#[test]
fn version_comparison() {
    assert_eq!(version_parts("1.2.x.3"), vec![1, 2, 3]);
    assert!(is_newer_version("0.9.9", "0.10.0"));
    assert!(!is_newer_version("1.0", "1.0.0"));
    assert!(!is_newer_version("1.0.1", "1.0"));
    assert!(is_newer_version("1", "1.0.1"));
    assert!(should_announce("1.0.0", "1.1.0", None));
    assert!(!should_announce("1.0.0", "1.1.0", Some("1.1.0")));
    assert_eq!(version_from_tag("v1.2.3"), "1.2.3");
    assert_eq!(version_from_tag("vv2"), "2");
}

#[test]
fn release_assets() {
    assert_eq!(asset_name("windows", "x86_64"), "ping-uin-windows-x86_64.zip");
    assert_eq!(asset_name("macos", "aarch64"), "ping-uin-macos-aarch64.tar.gz");
    assert_eq!(asset_name("linux", "aarch64"), "ping-uin-linux-x86_64.tar.gz");
    assert_eq!(archive_name_from_url("https://x/y/z.tar.gz"), "z.tar.gz");
    let h = "ab".repeat(32);
    let text = format!("notes\n{}  ping-uin-linux-x86_64.tar.gz\n", h);
    assert_eq!(parse_sha256_text(&text, "ping-uin-linux-x86_64.tar.gz"), Some("AB".repeat(32)));
    assert_eq!(parse_sha256_text(&h, "other"), Some("AB".repeat(32)));
    assert_eq!(parse_sha256_text("short", "other"), None);
}

#[test]
fn sha256_digest_of_abc() {
    assert_eq!(
        sha256_hex_upper(b"abc"),
        "BA7816BF8F01CFEA414140DE5DAE2223B00361A396177A9CB410FF61F20015AD"
    );
}

#[test]
fn theme_colors() {
    assert_eq!(rgb("#161a22"), Some((0x16, 0x1a, 0x22)));
    assert_eq!(rgb("##FFffFF"), Some((255, 255, 255)));
    assert_eq!(rgb("+f0a0b0c"), Some((15, 0x0a, 0x0b)));
    assert_eq!(rgb("#12345"), None);
    assert_eq!(rgb("#zz0000"), None);
}

#[test]
fn once_report_orders_by_label_and_counts_down() {
    let hosts = vec![
        HostConfig::new("web".to_string(), 60, "g".to_string(), None, None),
        HostConfig::new("db".to_string(), 60, "g".to_string(), Some("zeta".to_string()), None),
        HostConfig::new("api".to_string(), 60, "g".to_string(), None, None),
        HostConfig::new("api".to_string(), 60, "h".to_string(), None, Some(80)),
    ];
    let r = once_report(&hosts, &vec![true, false, true, true]);
    assert_eq!(r.order, vec![2, 3, 0, 1]);
    assert_eq!(r.down, 1);
    assert_eq!(r.exit_code, 2);
    let all_up = once_report(&hosts, &vec![true, true, true, true]);
    assert_eq!(all_up.exit_code, 0);
    assert_eq!(all_up.down, 0);
}

#[test]
fn once_report_with_no_hosts_is_a_config_error() {
    let r = once_report(&Vec::new(), &Vec::new());
    assert_eq!(r.exit_code, 1);
    assert_eq!(r.down, 0);
    assert!(r.order.is_empty());
}

#[test]
fn theme_table_holds_the_six_themes_in_order() {
    let t = theme_table();
    let names: Vec<&str> = t.iter().map(|x| x.name.as_str()).collect();
    assert_eq!(names, vec!["btop", "dracula", "nord", "gruvbox-dark", "ayu-light", "archwave"]);
    assert!(t.iter().all(|x| x.colors.len() == 14));
    assert_eq!(t[0].colors[0], (0x16, 0x1a, 0x22));
    assert_eq!(t[1].colors[10], (0xff, 0x55, 0x55));
    assert_eq!(t[5].colors[13], (0x1a, 0x0d, 0x2e));
}
