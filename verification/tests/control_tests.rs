use flowgate::config::{Config, IpForwarding, SiteConfig};
use flowgate::websocket::{apply_message, on_message, on_text, Flow};

fn control_config() -> Config {
    Config {
        sites: vec![SiteConfig {
            domain: "a.test".to_string(),
            host: "127.0.0.1:9001".to_string(),
            ssl: None,
            enable_keep_alive: true,
            support_keep_alive: true,
            ip_forwarding: IpForwarding::Off,
            replace_host: Some("inner".to_string()),
        }],
        http_host: "0.0.0.0:80".to_string(),
        https_host: "0.0.0.0:443".to_string(),
        threadpool_size: 10,
        connection_timeout: 10,
        incoming_ip_forwarding: IpForwarding::Off,
        websocket_host: Some("127.0.0.1:9999".to_string()),
    }
}

fn some_text(s: &str) -> Option<String> {
    Some(s.to_string())
}

#[test]
fn set_site_message_replaces_a_site() {
    let mut c = control_config();
    let doc: serde_json::Value = serde_json::from_str(
        r#"{"type":"set_site","domain":"a.test","host":"10.0.0.1:80",
            "enable_keep_alive":false,"support_keep_alive":true,"ip_forwarding":"simple"}"#,
    )
    .unwrap();
    assert_eq!(on_message(&mut c, &doc), Some(()));
    assert_eq!(c.sites.len(), 1);
    assert_eq!(c.sites[0].host, "10.0.0.1:80");
    assert!(!c.sites[0].enable_keep_alive);
    assert!(c.sites[0].support_keep_alive);
    assert!(matches!(c.sites[0].ip_forwarding, IpForwarding::Simple));
    assert_eq!(c.sites[0].replace_host.as_deref(), Some("inner"));
}

#[test]
fn set_site_message_adds_a_site() {
    let mut c = control_config();
    let doc: serde_json::Value = serde_json::from_str(
        r#"{"type":"set_site","domain":"b.test","host":"10.0.0.2:80",
            "enable_keep_alive":true,"support_keep_alive":false,"ip_forwarding":"header:X-Client"}"#,
    )
    .unwrap();
    assert_eq!(on_message(&mut c, &doc), Some(()));
    assert_eq!(c.sites.len(), 2);
    assert_eq!(c.sites[0].host, "127.0.0.1:9001");
    assert_eq!(c.sites[1].domain, "b.test");
    assert_eq!(c.sites[1].host, "10.0.0.2:80");
    assert!(!c.sites[1].support_keep_alive);
    assert!(matches!(c.sites[1].ip_forwarding, IpForwarding::Header(ref n) if n == "X-Client"));
    assert!(c.sites[1].ssl.is_none());
    assert!(c.sites[1].replace_host.is_none());
}

#[test]
fn message_of_another_type_is_ignored() {
    let mut c = control_config();
    let doc: serde_json::Value =
        serde_json::from_str(r#"{"type":"ping","domain":"a.test","host":"x"}"#).unwrap();
    assert_eq!(on_message(&mut c, &doc), Some(()));
    assert_eq!(c.sites.len(), 1);
    assert_eq!(c.sites[0].host, "127.0.0.1:9001");
}

#[test]
fn message_that_lacks_something_is_refused() {
    let whole = [
        ("type", "\"set_site\""),
        ("domain", "\"a.test\""),
        ("host", "\"10.0.0.1:80\""),
        ("enable_keep_alive", "false"),
        ("support_keep_alive", "false"),
        ("ip_forwarding", "\"modern\""),
    ];
    for skip in 0..whole.len() {
        let members: Vec<String> = whole
            .iter()
            .enumerate()
            .filter(|(i, _)| *i != skip)
            .map(|(_, (k, v))| format!("\"{}\":{}", k, v))
            .collect();
        let doc: serde_json::Value =
            serde_json::from_str(&format!("{{{}}}", members.join(","))).unwrap();
        let mut c = control_config();
        assert_eq!(on_message(&mut c, &doc), None, "without {}", whole[skip].0);
        assert_eq!(c.sites.len(), 1);
        assert_eq!(c.sites[0].host, "127.0.0.1:9001");
        assert!(c.sites[0].enable_keep_alive);
    }
}

#[test]
fn message_with_members_of_a_wrong_kind_is_refused() {
    for doc in [
        r#"{"type":"set_site","domain":"a.test","host":7,"enable_keep_alive":false,"support_keep_alive":false,"ip_forwarding":"modern"}"#,
        r#"{"type":"set_site","domain":"a.test","host":"h","enable_keep_alive":"no","support_keep_alive":false,"ip_forwarding":"modern"}"#,
        r#"{"type":"set_site","domain":"a.test","host":"h","enable_keep_alive":false,"support_keep_alive":false,"ip_forwarding":"postal"}"#,
        r#"{"type":7}"#,
        r#"["set_site"]"#,
        r#""set_site""#,
        r#"null"#,
    ] {
        let value: serde_json::Value = serde_json::from_str(doc).unwrap();
        let mut c = control_config();
        assert_eq!(on_message(&mut c, &value), None, "{}", doc);
        assert_eq!(c.sites[0].host, "127.0.0.1:9001");
    }
}

#[test]
fn members_that_were_read_are_applied() {
    let mut c = control_config();
    let r = apply_message(
        &mut c,
        some_text("set_site"),
        some_text("a.test"),
        some_text("h:1"),
        Some(true),
        Some(false),
        some_text("none"),
    );
    assert_eq!(r, Some(()));
    assert_eq!(c.sites[0].host, "h:1");
    let r = apply_message(&mut c, None, some_text("a.test"), some_text("h:2"), Some(true), Some(true), some_text("none"));
    assert_eq!(r, None);
    assert_eq!(c.sites[0].host, "h:1");
    let r = apply_message(&mut c, some_text("other"), None, None, None, None, None);
    assert_eq!(r, Some(()));
    let r = apply_message(&mut c, some_text("set_site"), some_text("a.test"), some_text("h:3"), Some(true), None, some_text("none"));
    assert_eq!(r, None);
    assert_eq!(c.sites[0].host, "h:1");
}

#[test]
fn text_messages() {
    let mut c = control_config();
    assert_eq!(on_text(&mut c, "this is no json"), Flow::Continue);
    assert_eq!(on_text(&mut c, r#"{"type":"noop"}"#), Flow::Continue);
    assert_eq!(on_text(&mut c, r#"{"no":"type"}"#), Flow::Stop);
    assert_eq!(on_text(&mut c, r#"{"type":"set_site"}"#), Flow::Stop);
    assert_eq!(c.sites.len(), 1);
    let set = r#"{"type":"set_site","domain":"c.test","host":"h","enable_keep_alive":true,"support_keep_alive":true,"ip_forwarding":"none"}"#;
    assert_eq!(on_text(&mut c, set), Flow::Continue);
    assert_eq!(c.sites.len(), 2);
    assert_eq!(c.sites[1].domain, "c.test");
}
