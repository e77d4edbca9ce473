use mdns_responder::advert::{build_record, build_txt_records, join_share_paths, normalize_hostname, normalize_separators};
use mdns_responder::config::{ServiceConfig, ShareConfig};

fn config_with_shares(shares: Vec<ShareConfig>) -> ServiceConfig {
    ServiceConfig {
        service_name: "_smb._tcp.local.".to_string(),
        instance_name: "Inst".to_string(),
        port: 445,
        hostname: "host".to_string(),
        workgroup: "WG".to_string(),
        description: "desc".to_string(),
        shares,
        bind_address: None,
    }
}

#[test]
fn hostname_normalization_cases() {
    assert_eq!(normalize_hostname("host"), "host.local.");
    assert_eq!(normalize_hostname("host.local"), "host.local.");
    assert_eq!(normalize_hostname("host.local."), "host.local.");
}

#[test]
fn separators_become_forward_slashes() {
    assert_eq!(normalize_separators("C:\\Users\\Public"), "C:/Users/Public");
    assert_eq!(normalize_separators("already/forward"), "already/forward");
    assert_eq!(normalize_separators(""), "");
}

#[test]
fn share_paths_join_with_commas() {
    let c = config_with_shares(vec![
        ShareConfig { name: "A".into(), path: "C:\\A".into(), comment: String::new() },
        ShareConfig { name: "B".into(), path: "D:\\B\\C".into(), comment: String::new() },
    ]);
    assert_eq!(join_share_paths(&c), "C:/A,D:/B/C");
}

#[test]
fn txt_records_have_fixed_keys_in_order() {
    let c = config_with_shares(vec![ShareConfig {
        name: "A".into(),
        path: "C:\\A".into(),
        comment: String::new(),
    }]);
    let txt = build_txt_records(&c);
    let keys: Vec<&str> = txt.iter().map(|p| p.0.as_str()).collect();
    assert_eq!(keys, vec!["vers", "nt", "flags", "workgroup", "description", "path"]);
    assert_eq!(txt[0].1, "3.0");
    assert_eq!(txt[1].1, "hardware");
    assert_eq!(txt[2].1, "1");
    assert_eq!(txt[3].1, "WG");
    assert_eq!(txt[4].1, "desc");
    assert_eq!(txt[5].1, "C:/A");
}

#[test]
fn record_reflects_config_and_address() {
    let c = config_with_shares(vec![ShareConfig {
        name: "A".into(),
        path: "C:\\A".into(),
        comment: String::new(),
    }]);
    let r = build_record(&c, "192.168.1.9".to_string());
    assert_eq!(r.service_name, "_smb._tcp.local.");
    assert_eq!(r.instance_name, "Inst");
    assert_eq!(r.hostname_fqdn, "host.local.");
    assert_eq!(r.address, "192.168.1.9");
    assert_eq!(r.port, 445);
    assert_eq!(r.txt.len(), 6);
}
