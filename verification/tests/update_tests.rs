use wifl::update::{asset_url, can_update, current_tag, json_str, plan_update, UpdatePlan, API};

const BODY: &str = r#"{"url":"x","tag_name": "v1.2.3","assets":[{"name":"wifl-aarch64-unknown-linux-musl","browser_download_url":"https://example.com/arm"},{"name":"wifl-x86_64-unknown-linux-musl","browser_download_url":"https://example.com/x86"}]}"#;

#[test]
fn build_tag() {
    assert_eq!(current_tag(None), "dev");
    assert_eq!(current_tag(Some("v1a2b3c4d")), "v1a2b3c4d");
    assert!(!can_update(current_tag(None)));
    assert!(can_update(current_tag(Some("v1a2b3c4d"))));
    assert!(can_update("v1.0.0"));
    assert!(API.starts_with("https://api.github.com/"));
}

#[test]
fn json_string_values() {
    assert_eq!(json_str(BODY, "tag_name").as_deref(), Some("v1.2.3"));
    assert_eq!(json_str(BODY, "url").as_deref(), Some("x"));
    assert_eq!(json_str(BODY, "missing"), None);
    assert_eq!(json_str(r#"{"n": 5}"#, "n"), None);
    assert_eq!(json_str(r#"{"n": "open"#, "n"), None);
}

#[test]
fn asset_urls() {
    assert_eq!(
        asset_url(BODY, "wifl-x86_64-unknown-linux-musl").as_deref(),
        Some("https://example.com/x86")
    );
    assert_eq!(
        asset_url(BODY, "wifl-aarch64-unknown-linux-musl").as_deref(),
        Some("https://example.com/arm")
    );
    assert_eq!(asset_url(BODY, "wifl-riscv"), None);
}

#[test]
fn update_plans() {
    match plan_update("v1.0.0", "x86_64-unknown-linux-musl", BODY) {
        UpdatePlan::Download { tag, url } => {
            assert_eq!(tag, "v1.2.3");
            assert_eq!(url, "https://example.com/x86");
        }
        other => panic!("unexpected {:?}", other),
    }
    match plan_update("v1.2.3", "x86_64-unknown-linux-musl", BODY) {
        UpdatePlan::UpToDate(t) => assert_eq!(t, "v1.2.3"),
        other => panic!("unexpected {:?}", other),
    }
    match plan_update("v1.0.0", "riscv64", BODY) {
        UpdatePlan::MissingAsset { asset, tag } => {
            assert_eq!(asset, "wifl-riscv64");
            assert_eq!(tag, "v1.2.3");
        }
        other => panic!("unexpected {:?}", other),
    }
    assert!(matches!(plan_update("v1", "t", "{}"), UpdatePlan::MissingTag));
}
