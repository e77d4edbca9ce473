use mdns_responder::config::{ServiceConfig, ShareConfig};
use mdns_responder::errors::{MdnsError, ValidationError};

fn valid_config() -> ServiceConfig {
    ServiceConfig {
        service_name: "_smb._tcp.local.".to_string(),
        instance_name: "Test-Share".to_string(),
        port: 10445,
        hostname: "test-host".to_string(),
        workgroup: "WORKGROUP".to_string(),
        description: "a test share".to_string(),
        shares: vec![ShareConfig {
            name: "Public".to_string(),
            path: "C:\\Users\\Public".to_string(),
            comment: "shared".to_string(),
        }],
        bind_address: None,
    }
}

#[test]
fn default_config_fields() {
    let c = ServiceConfig::default();
    assert_eq!(c.service_name, "_smb._tcp.local.");
    assert_eq!(c.instance_name, "Windows-Share");
    assert_eq!(c.port, 445);
    assert_eq!(c.hostname, "windows-pc");
    assert_eq!(c.workgroup, "WORKGROUP");
    assert_eq!(c.description, "Windows SMB Share via mDNS");
    assert_eq!(c.shares.len(), 1);
    assert_eq!(c.shares[0].name, "Public");
    assert_eq!(c.shares[0].path, "C:\\Users\\Public\\Documents");
    assert!(c.bind_address.is_none());
}

#[test]
fn valid_config_validates() {
    assert!(valid_config().validate().is_ok());
}

#[test]
fn service_name_must_end_with_suffix() {
    let mut c = valid_config();
    c.service_name = "_smb._tcp".to_string();
    assert!(matches!(
        c.validate(),
        Err(MdnsError::ConfigValidation(ValidationError::ServiceNameSuffix))
    ));
}

#[test]
fn instance_name_cannot_be_empty() {
    let mut c = valid_config();
    c.instance_name = String::new();
    assert!(matches!(
        c.validate(),
        Err(MdnsError::ConfigValidation(ValidationError::InstanceNameEmpty))
    ));
}

#[test]
fn instance_name_length_boundary() {
    let mut c = valid_config();
    c.instance_name = "a".repeat(63);
    assert!(c.validate().is_ok());
    c.instance_name = "a".repeat(64);
    assert!(matches!(
        c.validate(),
        Err(MdnsError::ConfigValidation(ValidationError::InstanceNameTooLong))
    ));
}

#[test]
fn port_cannot_be_zero() {
    let mut c = valid_config();
    c.port = 0;
    assert!(matches!(
        c.validate(),
        Err(MdnsError::ConfigValidation(ValidationError::PortZero))
    ));
}

#[test]
fn high_ports_are_permitted() {
    let mut c = valid_config();
    c.port = 65535;
    assert!(c.validate().is_ok());
    c.port = 1;
    assert!(c.validate().is_ok());
}

#[test]
fn hostname_cannot_be_empty() {
    let mut c = valid_config();
    c.hostname = String::new();
    assert!(matches!(
        c.validate(),
        Err(MdnsError::ConfigValidation(ValidationError::HostnameEmpty))
    ));
}

#[test]
fn hostname_character_rules() {
    let mut c = valid_config();
    c.hostname = "host.name".to_string();
    assert!(matches!(
        c.validate(),
        Err(MdnsError::ConfigValidation(ValidationError::HostnameChars))
    ));
    c.hostname = "-host".to_string();
    assert!(matches!(
        c.validate(),
        Err(MdnsError::ConfigValidation(ValidationError::HostnameChars))
    ));
    c.hostname = "host-".to_string();
    assert!(matches!(
        c.validate(),
        Err(MdnsError::ConfigValidation(ValidationError::HostnameChars))
    ));
    c.hostname = "host-2-name".to_string();
    assert!(c.validate().is_ok());
}

#[test]
fn at_least_one_share_required() {
    let mut c = valid_config();
    c.shares = Vec::new();
    assert!(matches!(
        c.validate(),
        Err(MdnsError::ConfigValidation(ValidationError::NoShares))
    ));
}

#[test]
fn share_fields_must_be_non_empty() {
    let mut c = valid_config();
    c.shares.push(ShareConfig {
        name: String::new(),
        path: "C:\\x".to_string(),
        comment: String::new(),
    });
    assert!(matches!(
        c.validate(),
        Err(MdnsError::ConfigValidation(ValidationError::ShareNameEmpty(1)))
    ));
    c.shares[1].name = "X".to_string();
    c.shares[1].path = String::new();
    assert!(matches!(
        c.validate(),
        Err(MdnsError::ConfigValidation(ValidationError::SharePathEmpty(1)))
    ));
}

#[test]
fn first_failing_rule_wins() {
    let mut c = valid_config();
    c.service_name = "bad".to_string();
    c.port = 0;
    assert!(matches!(
        c.validate(),
        Err(MdnsError::ConfigValidation(ValidationError::ServiceNameSuffix))
    ));
}

#[test]
fn default_config_validates() {
    assert!(ServiceConfig::default().validate().is_ok());
}

#[test]
fn config_path_per_platform() {
    assert_eq!(
        ServiceConfig::config_path(true),
        "C:\\ProgramData\\MDNSResponder\\config.json"
    );
    assert_eq!(ServiceConfig::config_path(false), "/etc/mdns-responder/config.json");
}

#[test]
fn validation_error_messages() {
    assert_eq!(
        ValidationError::ServiceNameSuffix.message(),
        "service_name must end with '.local.'"
    );
    assert_eq!(ValidationError::PortZero.message(), "port cannot be 0");
    assert_eq!(
        ValidationError::ShareNameEmpty(3).message(),
        "share[3]: name cannot be empty"
    );
    assert_eq!(
        ValidationError::SharePathEmpty(12).message(),
        "share[12]: path cannot be empty"
    );
}

#[test]
fn validation_errors_are_the_recoverable_kind() {
    let mut c = valid_config();
    c.port = 0;
    let e = c.validate().unwrap_err();
    assert!(e.is_validation());
    assert!(!MdnsError::Json("x".to_string()).is_validation());
}
