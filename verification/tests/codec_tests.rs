use mdns_responder::config::{ServiceConfig, ShareConfig};
use mdns_responder::config_text::{parse_config, render_config, resolve_config};
use mdns_responder::errors::MdnsError;

fn sample() -> ServiceConfig {
    ServiceConfig {
        service_name: "_smb._tcp.local.".to_string(),
        instance_name: "Round \"Trip\"".to_string(),
        port: 445,
        hostname: "round-trip".to_string(),
        workgroup: "WG".to_string(),
        description: "backslash \\ and\nnewline".to_string(),
        shares: vec![
            ShareConfig {
                name: "Public".to_string(),
                path: "C:\\Users\\Public\\Documents".to_string(),
                comment: "first".to_string(),
            },
            ShareConfig {
                name: "Media".to_string(),
                path: "D:\\Media".to_string(),
                comment: String::new(),
            },
        ],
        bind_address: Some("10.0.0.5".to_string()),
    }
}

fn assert_configs_equal(a: &ServiceConfig, b: &ServiceConfig) {
    assert_eq!(a.service_name, b.service_name);
    assert_eq!(a.instance_name, b.instance_name);
    assert_eq!(a.port, b.port);
    assert_eq!(a.hostname, b.hostname);
    assert_eq!(a.workgroup, b.workgroup);
    assert_eq!(a.description, b.description);
    assert_eq!(a.shares.len(), b.shares.len());
    for (x, y) in a.shares.iter().zip(b.shares.iter()) {
        assert_eq!(x.name, y.name);
        assert_eq!(x.path, y.path);
        assert_eq!(x.comment, y.comment);
    }
    assert_eq!(a.bind_address, b.bind_address);
}

#[test]
fn save_then_load_round_trips() {
    let c = sample();
    let text = render_config(&c).unwrap();
    let back = parse_config(&text).unwrap();
    assert_configs_equal(&c, &back);
}

#[test]
fn round_trip_without_bind_address() {
    let mut c = sample();
    c.bind_address = None;
    let text = render_config(&c).unwrap();
    assert!(!text.contains("bind_address"));
    let back = parse_config(&text).unwrap();
    assert_configs_equal(&c, &back);
}

#[test]
fn rendered_document_is_well_formed_json() {
    let c = sample();
    let text = render_config(&c).unwrap();
    let v: serde_json::Value = serde_json::from_str(&text).unwrap();
    assert_eq!(v.get("service_name").unwrap().as_str().unwrap(), "_smb._tcp.local.");
    assert_eq!(v.get("instance_name").unwrap().as_str().unwrap(), "Round \"Trip\"");
    assert_eq!(v.get("port").unwrap().as_u64().unwrap(), 445);
    assert_eq!(v.get("description").unwrap().as_str().unwrap(), "backslash \\ and\nnewline");
    let shares = v.get("shares").unwrap().as_array().unwrap();
    assert_eq!(shares.len(), 2);
    assert_eq!(
        shares[0].get("path").unwrap().as_str().unwrap(),
        "C:\\Users\\Public\\Documents"
    );
    assert_eq!(v.get("bind_address").unwrap().as_str().unwrap(), "10.0.0.5");
}

#[test]
fn render_rejects_invalid_config() {
    let mut c = sample();
    c.port = 0;
    assert!(matches!(render_config(&c), Err(MdnsError::ConfigValidation(_))));
}

#[test]
fn parse_accepts_extra_whitespace() {
    let c = sample();
    let text = render_config(&c).unwrap();
    let spaced = text.replace("\n", "\n \t\n");
    let back = parse_config(&spaced).unwrap();
    assert_configs_equal(&c, &back);
}

#[test]
fn parse_rejects_malformed_documents() {
    let c = sample();
    let text = render_config(&c).unwrap();
    // truncated
    assert!(matches!(
        parse_config(&text[..text.len() - 2]),
        Err(MdnsError::Json(_))
    ));
    // trailing garbage
    let trailing = format!("{} x", text);
    assert!(matches!(parse_config(&trailing), Err(MdnsError::Json(_))));
    // a reordered or unknown field breaks the strict schema
    let renamed = text.replace("\"workgroup\":", "\"realm\":");
    assert!(matches!(parse_config(&renamed), Err(MdnsError::Json(_))));
    // an out-of-range port is not a port
    let big_port = text.replace("\"port\": 445", "\"port\": 70000");
    assert!(matches!(parse_config(&big_port), Err(MdnsError::Json(_))));
    // leading zeros are not accepted
    let padded = text.replace("\"port\": 445", "\"port\": 0445");
    assert!(matches!(parse_config(&padded), Err(MdnsError::Json(_))));
    assert!(matches!(parse_config(""), Err(MdnsError::Json(_))));
}

#[test]
fn parse_validates_the_parsed_value() {
    let c = sample();
    let text = render_config(&c).unwrap();
    let zero_port = text.replace("\"port\": 445", "\"port\": 0");
    assert!(matches!(
        parse_config(&zero_port),
        Err(MdnsError::ConfigValidation(_))
    ));
}

#[test]
fn resolve_prefers_explicit_override() {
    let over = sample();
    let r = resolve_config(Some(over.clone()), None).unwrap();
    assert_configs_equal(&over, &r);
}

#[test]
fn resolve_surfaces_invalid_override() {
    let mut over = sample();
    over.port = 0;
    assert!(matches!(
        resolve_config(Some(over), None),
        Err(MdnsError::ConfigValidation(_))
    ));
}

#[test]
fn resolve_falls_back_to_default_on_bad_text() {
    let broken = "{ not a document".to_string();
    let r = resolve_config(None, Some(&broken)).unwrap();
    assert_eq!(r.instance_name, "Windows-Share");
    let r2 = resolve_config(None, None).unwrap();
    assert_eq!(r2.instance_name, "Windows-Share");
}

#[test]
fn resolve_uses_valid_stored_text() {
    let c = sample();
    let text = render_config(&c).unwrap();
    let r = resolve_config(None, Some(&text)).unwrap();
    assert_configs_equal(&c, &r);
}

#[test]
fn ports_of_every_width_round_trip() {
    for port in [1u16, 80, 445, 8080, 65535] {
        let mut c = sample();
        c.port = port;
        let text = render_config(&c).unwrap();
        assert!(text.contains(&format!("\"port\": {}", port)));
        assert_eq!(parse_config(&text).unwrap().port, port);
    }
}

#[test]
fn named_control_escapes_round_trip() {
    let mut c = sample();
    c.description = "tab\there bs\u{0008} ff\u{000C} cr\r end".to_string();
    let text = render_config(&c).unwrap();
    assert!(text.contains("\\t"));
    assert!(text.contains("\\b"));
    assert!(text.contains("\\f"));
    assert!(text.contains("\\r"));
    let back = parse_config(&text).unwrap();
    assert_eq!(back.description, c.description);
    // and a real JSON parser reads the same value
    let v: serde_json::Value = serde_json::from_str(&text).unwrap();
    assert_eq!(v.get("description").unwrap().as_str().unwrap(), c.description);
}
