use ping_uin::config::entries_from_csv;
use ping_uin::release::{
    choose_checksum, latest_version_from_text, pick_release_asset, release_asset_from_text,
    ReleaseAssetEntry, ReleaseDoc,
};

const ASSET: &str = "ping-uin-linux-x86_64.tar.gz";

fn release_text(tag: &str, notes: &str) -> String {
    let assets = [
        ("ping-uin-windows-x86_64.zip", "https://dl/win.zip"),
        ("ping-uin-linux-x86_64.tar.gz", "https://dl/linux.tar.gz"),
        ("ping-uin-linux-x86_64.tar.gz.sha256", "https://dl/linux.sha256"),
    ];
    let list: Vec<String> = assets
        .iter()
        .map(|(n, u)| format!("{{\"name\":\"{}\",\"browser_download_url\":\"{}\"}}", n, u))
        .collect();
    format!("{{\"tag_name\":\"{}\",\"body\":\"{}\",\"assets\":[{}]}}", tag, notes, list.join(","))
}

#[test]
fn release_text_gives_the_asset_its_checksum_file_and_notes_hash() {
    let h = "ab".repeat(32);
    let text = release_text("v1.2.0", &format!("Checksums\\n{}  {}\\n", h, ASSET));
    let c = release_asset_from_text(&text, "1.2.0", "1.1.0", ASSET).expect("asset");
    assert_eq!(c.url, "https://dl/linux.tar.gz");
    assert_eq!(c.sidecar_url.as_deref(), Some("https://dl/linux.sha256"));
    assert_eq!(c.notes_hash, Some("AB".repeat(32)));
}

#[test]
fn release_text_is_refused_when_not_newer_or_not_json() {
    let text = release_text("v1.0.0", "");
    assert!(release_asset_from_text(&text, "1.2.0", "1.1.0", ASSET).is_none());
    assert!(release_asset_from_text("not json", "1.2.0", "1.1.0", ASSET).is_none());
    // A newer release than the one offered is installed instead.
    let newer = release_text("v1.3.0", "");
    let c = release_asset_from_text(&newer, "1.2.0", "1.1.0", ASSET).expect("asset");
    assert_eq!(c.notes_hash, None);
    // An asset this OS has no build for.
    assert!(release_asset_from_text(&newer, "1.2.0", "1.1.0", "ping-uin-macos-aarch64.tar.gz").is_none());
}

#[test]
fn latest_version_comes_from_the_tag() {
    assert_eq!(latest_version_from_text(&release_text("v2.0.1", "")), Some("2.0.1".to_string()));
    assert_eq!(latest_version_from_text("{\"name\":\"x\"}"), None);
    assert_eq!(latest_version_from_text("[1,2"), None);
}

#[test]
fn picking_needs_a_tag_assets_and_a_link() {
    let entry = |n: Option<&str>, u: Option<&str>| ReleaseAssetEntry {
        name: n.map(|s| s.to_string()),
        url: u.map(|s| s.to_string()),
    };
    let doc = ReleaseDoc {
        tag: Some("v1.2.0".to_string()),
        assets: Some(vec![entry(None, Some("https://dl/nameless")), entry(Some(ASSET), None)]),
        notes: None,
    };
    // The first asset with the name has no link: nothing to download.
    assert!(pick_release_asset(&doc, "1.2.0", "1.0.0", ASSET).is_none());
    let doc = ReleaseDoc {
        tag: Some("1.2.0".to_string()),
        assets: Some(vec![entry(Some(ASSET), Some("https://dl/a")), entry(Some("ping-uin-linux-x86_64.tar.gz.sha256"), None)]),
        notes: None,
    };
    let c = pick_release_asset(&doc, "1.2.0", "1.0.0", ASSET).expect("asset");
    assert_eq!(c.url, "https://dl/a");
    assert_eq!(c.sidecar_url, None);
    let no_tag = ReleaseDoc { tag: None, assets: Some(Vec::new()), notes: None };
    assert!(pick_release_asset(&no_tag, "1.2.0", "1.0.0", ASSET).is_none());
    let no_assets = ReleaseDoc { tag: Some("v1.2.0".to_string()), assets: None, notes: None };
    assert!(pick_release_asset(&no_assets, "1.2.0", "1.0.0", ASSET).is_none());
}

#[test]
fn checksum_file_wins_over_the_notes() {
    let a = "ab".repeat(32);
    let b = "cd".repeat(32);
    let side = format!("{}  {}\n", a, ASSET);
    assert_eq!(choose_checksum(Some(&side), ASSET, Some(b.clone())), Some("AB".repeat(32)));
    assert_eq!(choose_checksum(Some("no hash here"), ASSET, Some(b.clone())), Some(b.clone()));
    assert_eq!(choose_checksum(None, ASSET, Some(b.clone())), Some(b));
    assert_eq!(choose_checksum(None, ASSET, None), None);
}

#[test]
fn readme_csv_example_imports_every_row() {
    let data = [
        "name,interval,group,alias,port,warn_ms,check_cmd,depends_on",
        "8.8.8.8,1m,public-dns,Google DNS,,,,",
        "1.1.1.1,2m,public-dns,Cloudflare,,,,,",
        "server3.internal,5m,router,Server 3,,,,",
        "db.internal,30s,databases,Primary DB,5432,200,,",
        "web.internal,30s,web,Web,,500,,db.internal",
        "192.168.1.1,3m,router,,,,,",
    ]
    .join("\n");
    let hosts = entries_from_csv(data.as_bytes()).expect("the example reads");
    let names: Vec<&str> = hosts.iter().map(|h| h.name.as_str()).collect();
    assert_eq!(names, vec!["8.8.8.8", "1.1.1.1", "server3.internal", "db.internal", "web.internal", "192.168.1.1"]);
    assert_eq!(hosts[1].alias.as_deref(), Some("Cloudflare"));
    assert_eq!(hosts[1].interval_secs, 120);
    assert_eq!(hosts[3].port, Some(5432));
    assert_eq!(hosts[3].interval_secs, 30);
    assert_eq!(hosts[0].group, "public-dns");
}

#[test]
fn csv_rows_without_a_name_are_skipped_and_short_rows_read() {
    let data = "name,interval\n,5m\nalpha\n  beta ,10s,grp\n";
    let hosts = entries_from_csv(data.as_bytes()).expect("reads");
    assert_eq!(hosts.len(), 2);
    assert_eq!(hosts[0].name, "alpha");
    assert_eq!(hosts[1].name, "beta");
    assert_eq!(hosts[1].group, "grp");
    assert_eq!(hosts[1].interval_secs, 10);
    assert!(entries_from_csv(b"name\n\xff\xfe,1m\n").is_err());
}
