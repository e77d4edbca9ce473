use std::sync::mpsc;
use std::time::{Instant, SystemTime, UNIX_EPOCH};

use mdns_responder::address::select_address;
use mdns_responder::config::{ServiceConfig, ShareConfig};
use mdns_responder::controller::{
    await_termination, conclude_shutdown, shutdown_poll, start_advertisement, ControllerState,
};

fn synthetic_config(instance: String) -> ServiceConfig {
    ServiceConfig {
        service_name: "_test._tcp.local.".to_string(),
        instance_name: instance,
        port: 18445,
        hostname: "test-host".to_string(),
        workgroup: "WG".to_string(),
        description: "synthetic".to_string(),
        shares: vec![ShareConfig {
            name: "Public".to_string(),
            path: "C:\\Public".to_string(),
            comment: String::new(),
        }],
        bind_address: Some("127.0.0.1".to_string()),
    }
}

#[test]
fn register_terminate_and_shut_down_within_bound() {
    let ts = SystemTime::now().duration_since(UNIX_EPOCH).unwrap().as_nanos();
    let unique = format!("Test-Instance-{}", ts & 0xFFFF);
    let config = synthetic_config(unique);
    assert!(config.validate().is_ok());

    let address = select_address(&config.bind_address, &Vec::new()).unwrap();
    assert_eq!(address, "127.0.0.1");

    let (tx, rx) = mpsc::channel();
    // the termination signal is queued before the controller waits, and a
    // second send is neither observed nor blocking (single-shot channel use)
    tx.send(()).unwrap();
    tx.send(()).unwrap();

    let started = Instant::now();
    match start_advertisement(&config, address) {
        Ok(session) => {
            assert_eq!(session.state, ControllerState::Registered);

            let session = await_termination(session, &rx);
            assert_eq!(session.state, ControllerState::ShuttingDown);

            // a third send after the observed one is still accepted and ignored
            tx.send(()).unwrap();

            // the collaborator teardown, observed by the poll decision
            let teardown_ok = session.daemon.shutdown().is_ok();
            let elapsed_ms = started.elapsed().as_millis() as u64;
            let verdict = shutdown_poll(true, !teardown_ok, elapsed_ms);
            assert!(conclude_shutdown(verdict).is_ok());
        }
        Err(e) => {
            // on a host without any usable network the collaborator cannot
            // register; the run must then fail with its error kind, and the
            // queued termination values stay unconsumed and non-blocking
            assert!(matches!(e, mdns_responder::errors::MdnsError::Service(_)));
            assert!(rx.recv().is_ok());
            tx.send(()).unwrap();
        }
    }

    // well within the five-second bound plus scheduling slack
    assert!(started.elapsed().as_secs() < 6);
}
