use mdns_responder::controller::{
    advance, conclude_shutdown, shutdown_poll, ControllerEvent, ControllerState, ShutdownPoll,
    SHUTDOWN_POLL_INTERVAL_MS, SHUTDOWN_TIMEOUT_MS,
};
use mdns_responder::config::{ServiceConfig, ShareConfig};
use mdns_responder::controller::{advertisement_registrable, start_advertisement};
use mdns_responder::errors::{MdnsError, ValidationError};
use mdns_responder::controller::ControllerEvent as E;
use mdns_responder::controller::ControllerState as S;
use mdns_responder::service_ctl::{
    handle_control, phase_after_worker, service_path, status_for_phase, HandlerAck,
    ServiceControl, ServicePhase, WorkerOutcome,
};

#[test]
fn lifecycle_transitions() {
    assert_eq!(advance(S::Initializing, E::RegistrationDone), S::Registered);
    assert_eq!(advance(S::Initializing, E::SetupFailed), S::Failed);
    assert_eq!(advance(S::Registered, E::TerminationObserved), S::ShuttingDown);
    assert_eq!(advance(S::ShuttingDown, E::ShutdownFinished), S::Stopped);
    // stuttering
    assert_eq!(advance(S::Registered, E::RegistrationDone), S::Registered);
    assert_eq!(advance(S::Initializing, E::TerminationObserved), S::Initializing);
}

#[test]
fn terminal_states_stay_terminal() {
    for e in [E::SetupFailed, E::RegistrationDone, E::TerminationObserved, E::ShutdownFinished] {
        assert_eq!(advance(S::Stopped, e), S::Stopped);
        assert_eq!(advance(S::Failed, e), S::Failed);
    }
}

#[test]
fn shutdown_poll_decisions() {
    assert_eq!(shutdown_poll(true, false, 0), ShutdownPoll::CompletedOk);
    assert_eq!(shutdown_poll(true, true, 9999), ShutdownPoll::CompletedWithError);
    assert_eq!(shutdown_poll(false, false, 0), ShutdownPoll::KeepWaiting);
    assert_eq!(shutdown_poll(false, false, SHUTDOWN_TIMEOUT_MS), ShutdownPoll::KeepWaiting);
    assert_eq!(shutdown_poll(false, false, SHUTDOWN_TIMEOUT_MS + 1), ShutdownPoll::TimedOut);
    // a finished worker wins over the clock
    assert_eq!(shutdown_poll(true, false, SHUTDOWN_TIMEOUT_MS + 1), ShutdownPoll::CompletedOk);
}

#[test]
fn shutdown_never_fails_the_run() {
    assert!(conclude_shutdown(ShutdownPoll::CompletedOk).is_ok());
    assert!(conclude_shutdown(ShutdownPoll::CompletedWithError).is_ok());
    assert!(conclude_shutdown(ShutdownPoll::TimedOut).is_ok());
}

#[test]
fn shutdown_constants() {
    assert_eq!(SHUTDOWN_TIMEOUT_MS, 5000);
    assert_eq!(SHUTDOWN_POLL_INTERVAL_MS, 100);
}

#[test]
fn control_requests_map_to_decisions() {
    let stop = handle_control(ServiceControl::Stop);
    assert_eq!(stop.ack, HandlerAck::NoError);
    assert!(stop.signal_termination);
    let interrogate = handle_control(ServiceControl::Interrogate);
    assert_eq!(interrogate.ack, HandlerAck::NoError);
    assert!(!interrogate.signal_termination);
    let other = handle_control(ServiceControl::Other);
    assert_eq!(other.ack, HandlerAck::NotImplemented);
    assert!(!other.signal_termination);
}

#[test]
fn status_reports_per_phase() {
    let start = status_for_phase(ServicePhase::StartPending);
    assert_eq!(start.checkpoint, 1);
    assert_eq!(start.wait_hint_ms, 5000);
    assert!(!start.accepts_stop);
    let running = status_for_phase(ServicePhase::Running);
    assert!(running.accepts_stop);
    assert_eq!(running.checkpoint, 0);
    assert_eq!(running.wait_hint_ms, 0);
    let stopped = status_for_phase(ServicePhase::Stopped);
    assert!(!stopped.accepts_stop);
    assert_eq!(stopped.exit_code, 0);
}

#[test]
fn worker_end_always_reports_stopped() {
    assert_eq!(phase_after_worker(WorkerOutcome::Completed), ServicePhase::Stopped);
    assert_eq!(phase_after_worker(WorkerOutcome::Failed), ServicePhase::Stopped);
    assert_eq!(phase_after_worker(WorkerOutcome::Panicked), ServicePhase::Stopped);
}

#[test]
fn service_path_per_platform() {
    assert_eq!(service_path(true), "C:\\ProgramData\\MDNSResponder");
    assert_eq!(service_path(false), "/opt/mdns-responder");
}

#[test]
fn unsliceable_advertisements_are_detected() {
    // the collaborator's name check slices the first byte of the label
    // before the registration domain of the fullname it builds from
    // the escaped instance name and the service name's type domain;
    // these advertisements would make that slice panic
    assert!(!advertisement_registrable("Inst", "._tcp.local."));
    assert!(!advertisement_registrable("Inst", "\u{00f1}._tcp.local."));
    assert!(!advertisement_registrable("Inst", "x.._udp.local."));
    // the fullname gains a registration domain from the instance alone
    assert!(!advertisement_registrable("\u{00e9}", "_tcp.local."));
    // the sub-type separator moves the examined domain
    assert!(!advertisement_registrable("a.", "x._sub._tcp.local."));
    // ordinary names, and names whose fullname has no registration
    // domain (the collaborator rejects those with an error of its own)
    assert!(advertisement_registrable("Inst", "_smb._tcp.local."));
    assert!(advertisement_registrable("Inst", "a.b._udp.local."));
    assert!(advertisement_registrable("Inst", "x._sub._smb._tcp.local."));
    assert!(advertisement_registrable("Inst", "_smb.local."));
    assert!(advertisement_registrable("a.b", "_smb.local."));
}

#[test]
fn registration_errors_instead_of_panicking_on_empty_label() {
    let config = ServiceConfig {
        service_name: "._tcp.local.".to_string(),
        instance_name: "Inst".to_string(),
        port: 445,
        hostname: "host".to_string(),
        workgroup: "WG".to_string(),
        description: String::new(),
        shares: vec![ShareConfig {
            name: "A".to_string(),
            path: "C:\\A".to_string(),
            comment: String::new(),
        }],
        bind_address: None,
    };
    assert!(matches!(
        start_advertisement(&config, "127.0.0.1".to_string()),
        Err(MdnsError::ConfigValidation(ValidationError::RegistrationLabel))
    ));
    // an instance name that alone completes a registration domain
    let mut with_accent = config;
    with_accent.service_name = "_tcp.local.".to_string();
    with_accent.instance_name = "\u{00e9}".to_string();
    assert!(matches!(
        start_advertisement(&with_accent, "127.0.0.1".to_string()),
        Err(MdnsError::ConfigValidation(ValidationError::RegistrationLabel))
    ));
}
