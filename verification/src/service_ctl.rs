use vstd::prelude::*;
use vstd::string::*;

verus! {

/// The OS service-control requests the bridge distinguishes.
#[derive(Clone, Copy, Debug, PartialEq, Eq, Structural)]
pub enum ServiceControl {
    Stop,
    Interrogate,
    Other,
}

/// The answer handed back to the OS control dispatcher.
#[derive(Clone, Copy, Debug, PartialEq, Eq, Structural)]
pub enum HandlerAck {
    NoError,
    NotImplemented,
}

/// What the control handler does for one request: the acknowledgement,
/// and whether the termination signal is to be sent.
#[derive(Clone, Copy, Debug, PartialEq, Eq, Structural)]
pub struct ControlDecision {
    pub ack: HandlerAck,
    pub signal_termination: bool,
}

/// Maps an OS control request to the bridge's decision: stop is
/// acknowledged and triggers the termination signal, interrogate is
/// acknowledged without any state change, everything else is reported
/// as not implemented.
pub fn handle_control(control: ServiceControl) -> (r: ControlDecision)
    ensures
        control == ServiceControl::Stop ==> r == (ControlDecision {
            ack: HandlerAck::NoError,
            signal_termination: true,
        }),
        control == ServiceControl::Interrogate ==> r == (ControlDecision {
            ack: HandlerAck::NoError,
            signal_termination: false,
        }),
        control == ServiceControl::Other ==> r == (ControlDecision {
            ack: HandlerAck::NotImplemented,
            signal_termination: false,
        }),
{
    match control {
        ServiceControl::Stop => ControlDecision { ack: HandlerAck::NoError, signal_termination: true },
        ServiceControl::Interrogate => ControlDecision {
            ack: HandlerAck::NoError,
            signal_termination: false,
        },
        ServiceControl::Other => ControlDecision {
            ack: HandlerAck::NotImplemented,
            signal_termination: false,
        },
    }
}

/// The coarse states reported to the OS service manager.
#[derive(Clone, Copy, Debug, PartialEq, Eq, Structural)]
pub enum ServicePhase {
    StartPending,
    Running,
    Stopped,
}

/// One status record pushed to the OS service manager.
#[derive(Clone, Copy, Debug, PartialEq, Eq, Structural)]
pub struct StatusReport {
    pub phase: ServicePhase,
    pub accepts_stop: bool,
    pub exit_code: u32,
    pub checkpoint: u32,
    pub wait_hint_ms: u64,
}

/// The status record for each transition point: start-pending with a
/// checkpoint and a wait hint before any registration work, running
/// with stop accepted, and stopped with nothing accepted.
pub fn status_for_phase(phase: ServicePhase) -> (r: StatusReport)
    ensures
        r.phase == phase,
        r.exit_code == 0,
        phase == ServicePhase::StartPending ==> r == (StatusReport {
            phase,
            accepts_stop: false,
            exit_code: 0,
            checkpoint: 1,
            wait_hint_ms: 5000,
        }),
        phase == ServicePhase::Running ==> r == (StatusReport {
            phase,
            accepts_stop: true,
            exit_code: 0,
            checkpoint: 0,
            wait_hint_ms: 0,
        }),
        phase == ServicePhase::Stopped ==> r == (StatusReport {
            phase,
            accepts_stop: false,
            exit_code: 0,
            checkpoint: 0,
            wait_hint_ms: 0,
        }),
{
    match phase {
        ServicePhase::StartPending => StatusReport {
            phase,
            accepts_stop: false,
            exit_code: 0,
            checkpoint: 1,
            wait_hint_ms: 5000,
        },
        ServicePhase::Running => StatusReport {
            phase,
            accepts_stop: true,
            exit_code: 0,
            checkpoint: 0,
            wait_hint_ms: 0,
        },
        ServicePhase::Stopped => StatusReport {
            phase,
            accepts_stop: false,
            exit_code: 0,
            checkpoint: 0,
            wait_hint_ms: 0,
        },
    }
}

/// How the hosted worker thread ended, as seen at the join point.
#[derive(Clone, Copy, Debug, PartialEq, Eq, Structural)]
pub enum WorkerOutcome {
    Completed,
    Failed,
    Panicked,
}

/// Whatever the worker's outcome — success, error or panic — the
/// bridge must still settle to the stopped status so the OS never
/// considers the service hung.
pub fn phase_after_worker(outcome: WorkerOutcome) -> (r: ServicePhase)
    ensures
        r == ServicePhase::Stopped,
{
    match outcome {
        WorkerOutcome::Completed => ServicePhase::Stopped,
        WorkerOutcome::Failed => ServicePhase::Stopped,
        WorkerOutcome::Panicked => ServicePhase::Stopped,
    }
}

/// The platform-default directory of the installed service.
pub fn service_path(on_windows: bool) -> (r: String)
    ensures
        on_windows ==> r@ == "C:\\ProgramData\\MDNSResponder"@,
        !on_windows ==> r@ == "/opt/mdns-responder"@,
{
    if on_windows {
        "C:\\ProgramData\\MDNSResponder".to_owned()
    } else {
        "/opt/mdns-responder".to_owned()
    }
}

} // verus!
