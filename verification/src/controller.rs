use vstd::prelude::*;
use vstd::string::*;

use crate::advert::{build_record, AdvertisementRecord};
use crate::config::{suffix_of, ServiceConfig};
use crate::errors::{MdnsError, ValidationError};

verus! {

/// The registration lifecycle of one run.
#[derive(Clone, Copy, Debug, PartialEq, Eq, Structural)]
pub enum ControllerState {
    Initializing,
    Registered,
    ShuttingDown,
    Stopped,
    Failed,
}

/// The events that drive the lifecycle.
#[derive(Clone, Copy, Debug, PartialEq, Eq, Structural)]
pub enum ControllerEvent {
    SetupFailed,
    RegistrationDone,
    TerminationObserved,
    ShutdownFinished,
}

/// The lifecycle transition relation: setup either registers or fails,
/// a registered run shuts down on the termination event, and shutdown
/// ends in the stopped state.  Any other pairing leaves the state
/// unchanged; in particular the stopped and failed states are terminal.
pub open spec fn spec_advance(s: ControllerState, e: ControllerEvent) -> ControllerState {
    match (s, e) {
        (ControllerState::Initializing, ControllerEvent::SetupFailed) => ControllerState::Failed,
        (ControllerState::Initializing, ControllerEvent::RegistrationDone)
            => ControllerState::Registered,
        (ControllerState::Registered, ControllerEvent::TerminationObserved)
            => ControllerState::ShuttingDown,
        (ControllerState::ShuttingDown, ControllerEvent::ShutdownFinished)
            => ControllerState::Stopped,
        _ => s,
    }
}

/// Applies one lifecycle event.
pub fn advance(s: ControllerState, e: ControllerEvent) -> (r: ControllerState)
    ensures
        r == spec_advance(s, e),
{
    match (s, e) {
        (ControllerState::Initializing, ControllerEvent::SetupFailed) => ControllerState::Failed,
        (ControllerState::Initializing, ControllerEvent::RegistrationDone)
            => ControllerState::Registered,
        (ControllerState::Registered, ControllerEvent::TerminationObserved)
            => ControllerState::ShuttingDown,
        (ControllerState::ShuttingDown, ControllerEvent::ShutdownFinished)
            => ControllerState::Stopped,
        (_, _) => s,
    }
}

/// Once a run has stopped or failed, no event moves it anywhere else.
pub proof fn lemma_terminal_states(e: ControllerEvent)
    ensures
        spec_advance(ControllerState::Stopped, e) == ControllerState::Stopped,
        spec_advance(ControllerState::Failed, e) == ControllerState::Failed,
{
}

/// Wall-clock bound on the graceful shutdown wait.
pub const SHUTDOWN_TIMEOUT_MS: u64 = 5000;

/// Interval at which the completion flag is polled during shutdown.
pub const SHUTDOWN_POLL_INTERVAL_MS: u64 = 100;

/// The verdict of one poll of the shutdown worker.
#[derive(Clone, Copy, Debug, PartialEq, Eq, Structural)]
pub enum ShutdownPoll {
    CompletedOk,
    CompletedWithError,
    TimedOut,
    KeepWaiting,
}

/// One step of the bounded shutdown wait: a finished worker ends the
/// wait with its outcome; past the bound the wait is abandoned;
/// otherwise polling continues.
pub open spec fn spec_shutdown_poll(finished: bool, failed: bool, elapsed_ms: u64) -> ShutdownPoll {
    if finished {
        if failed {
            ShutdownPoll::CompletedWithError
        } else {
            ShutdownPoll::CompletedOk
        }
    } else if elapsed_ms > SHUTDOWN_TIMEOUT_MS {
        ShutdownPoll::TimedOut
    } else {
        ShutdownPoll::KeepWaiting
    }
}

/// Decides one iteration of the shutdown polling loop.
pub fn shutdown_poll(finished: bool, failed: bool, elapsed_ms: u64) -> (r: ShutdownPoll)
    ensures
        r == spec_shutdown_poll(finished, failed, elapsed_ms),
{
    if finished {
        if failed {
            ShutdownPoll::CompletedWithError
        } else {
            ShutdownPoll::CompletedOk
        }
    } else if elapsed_ms > SHUTDOWN_TIMEOUT_MS {
        ShutdownPoll::TimedOut
    } else {
        ShutdownPoll::KeepWaiting
    }
}

/// Once the elapsed time exceeds the bound, no poll ever answers
/// "keep waiting": the shutdown wait cannot extend past the bound by
/// more than one polling interval.
pub proof fn lemma_shutdown_wait_bounded(finished: bool, failed: bool, elapsed_ms: u64)
    ensures
        elapsed_ms > SHUTDOWN_TIMEOUT_MS ==> spec_shutdown_poll(finished, failed, elapsed_ms)
            != ShutdownPoll::KeepWaiting,
{
}

/// A shutdown-phase outcome never fails the run: collaborator errors
/// and an exceeded bound are swallowed after logging.
pub fn conclude_shutdown(verdict: ShutdownPoll) -> (r: Result<(), MdnsError>)
    requires
        verdict != ShutdownPoll::KeepWaiting,
    ensures
        r is Ok,
{
    match verdict {
        ShutdownPoll::CompletedOk => Ok(()),
        ShutdownPoll::CompletedWithError => Ok(()),
        ShutdownPoll::TimedOut => Ok(()),
        ShutdownPoll::KeepWaiting => Ok(()),
    }
}

#[verifier::external_type_specification]
#[verifier::external_body]
pub struct ExServiceDaemon(mdns_sd::ServiceDaemon);

#[verifier::external_type_specification]
#[verifier::external_body]
pub struct ExMdnsSdError(mdns_sd::Error);

#[verifier::external_type_specification]
#[verifier::external_body]
#[verifier::reject_recursive_types(T)]
pub struct ExReceiver<T>(std::sync::mpsc::Receiver<T>);

/// Relies on mdns_sd::ServiceDaemon::new: creates the daemon handle and
/// spawns its thread; errors wrap an OS-level setup failure.
#[verifier::external_body]
fn daemon_new() -> (r: Result<mdns_sd::ServiceDaemon, mdns_sd::Error>) {
    mdns_sd::ServiceDaemon::new()
}

/// Relies on the Display impl of mdns_sd::Error to render the
/// collaborator's error as text.
#[verifier::external_body]
fn mdns_error_text(e: &mdns_sd::Error) -> (r: String) {
    e.to_string()
}

/// The service name carries one of the two registration domains the
/// collaborator accepts.
pub open spec fn has_registration_domain(sn: Seq<char>) -> bool {
    suffix_of(sn, "._tcp.local."@) || suffix_of(sn, "._udp.local."@)
}

/// The part of `s` after its last dot (all of `s` when it has none).
pub open spec fn after_last_dot(s: Seq<char>) -> Seq<char>
    decreases s.len(),
{
    if s.len() == 0 {
        Seq::empty()
    } else if s.last() == '.' {
        Seq::empty()
    } else {
        after_last_dot(s.drop_last()).push(s.last())
    }
}

/// A fullname the collaborator's registration check can examine
/// without panicking: either it lacks a registration domain (the check
/// then reports an error), or the label right before that domain is
/// non-empty and starts with an ASCII character, since the check
/// slices that label's first byte.
pub open spec fn sliceable_fullname(name: Seq<char>) -> bool {
    has_registration_domain(name) ==> {
        let lbl = after_last_dot(name.subrange(0, name.len() - 12));
        lbl.len() > 0 && (lbl[0] as u32) < 128
    }
}

/// How the collaborator writes one instance-name character into the
/// advertised fullname: dots and backslashes gain a backslash escape.
pub open spec fn esc_instance_char(c: char) -> Seq<char> {
    if c == '.' {
        seq!['\\', '.']
    } else if c == '\\' {
        seq!['\\', '\\']
    } else {
        seq![c]
    }
}

/// The instance name as it stands inside the advertised fullname.
pub open spec fn escaped_instance(s: Seq<char>) -> Seq<char>
    decreases s.len(),
{
    if s.len() == 0 {
        Seq::empty()
    } else {
        esc_instance_char(s[0]) + escaped_instance(s.skip(1))
    }
}

/// The service name after the last sub-type separator, scanning the
/// candidate start positions from `j` down.
pub open spec fn type_domain_from(sn: Seq<char>, j: int) -> Seq<char>
    decreases j + 1,
{
    if j < 0 {
        sn
    } else if j + 6 <= sn.len() && sn.subrange(j, j + 6) == "._sub."@ {
        sn.skip(j + 6)
    } else {
        type_domain_from(sn, j - 1)
    }
}

/// The type domain of a service name: the part after the last
/// "._sub." separator, or the whole name when it has none.
pub open spec fn type_domain(sn: Seq<char>) -> Seq<char> {
    type_domain_from(sn, sn.len() - 6)
}

/// The fullname the collaborator builds for an advertisement and then
/// hands to its name check: the escaped instance name, a separator
/// dot, and the service name's type domain.
pub open spec fn fullname_of(instance: Seq<char>, sn: Seq<char>) -> Seq<char> {
    escaped_instance(instance) + seq!['.'] + type_domain(sn)
}

/// The collaborator's registration check can examine this
/// advertisement's fullname without panicking.
pub open spec fn registrable_advertisement(instance: Seq<char>, sn: Seq<char>) -> bool {
    sliceable_fullname(fullname_of(instance, sn))
}

/// When nothing at or after `k` is a dot and `k` sits right after one
/// (or at the start), the after-last-dot suffix starts at `k`.
proof fn lemma_after_last_dot_at(p: Seq<char>, k: int)
    requires
        0 <= k <= p.len(),
        forall|m: int| k <= m < p.len() ==> p[m] != '.',
        k > 0 ==> p[k - 1] == '.',
    ensures
        after_last_dot(p) == p.subrange(k, p.len() as int),
    decreases p.len(),
{
    if k == p.len() {
        assert(p.subrange(k, p.len() as int) =~= Seq::<char>::empty());
        if p.len() > 0 {
            assert(p.last() == '.');
        }
    } else {
        assert(p.last() != '.');
        lemma_after_last_dot_at(p.drop_last(), k);
        assert(p.drop_last().subrange(k, p.len() - 1).push(p.last()) =~= p.subrange(
            k,
            p.len() as int,
        ));
    }
}

/// Decides whether a fullname can pass the collaborator's registration
/// check without panicking.
fn fullname_sliceable(sn: &str) -> (r: bool)
    ensures
        r == sliceable_fullname(sn@),
{
    if !crate::config::str_ends_with(sn, "._tcp.local.") && !crate::config::str_ends_with(
        sn,
        "._udp.local.",
    ) {
        return true;
    }
    proof {
        reveal_strlit("._tcp.local.");
        reveal_strlit("._udp.local.");
    }
    let n: usize = sn.unicode_len();
    let plen: usize = n - 12;
    let ghost p = sn@.subrange(0, plen as int);
    let mut j: usize = plen;
    while j > 0
        invariant
            n == sn@.len(),
            plen == n - 12,
            p == sn@.subrange(0, plen as int),
            j <= plen,
            forall|m: int| j <= m < plen ==> p[m] != '.',
        ensures
            j <= plen,
            forall|m: int| j <= m < plen ==> p[m] != '.',
            j > 0 ==> p[j - 1] == '.',
        decreases j,
    {
        if sn.get_char(j - 1) == '.' {
            assert(p[j - 1] == '.');
            break;
        }
        assert(p[j - 1] != '.');
        j -= 1;
    }
    proof {
        lemma_after_last_dot_at(p, j as int);
    }
    if j >= plen {
        assert(after_last_dot(p).len() == 0);
        return false;
    }
    let first = sn.get_char(j);
    assert(after_last_dot(p)[0] == p[j as int]);
    (first as u32) < 128
}

/// Escaping distributes over appending one character.
proof fn lemma_escaped_instance_snoc(s: Seq<char>, c: char)
    ensures
        escaped_instance(s.push(c)) == escaped_instance(s) + esc_instance_char(c),
    decreases s.len(),
{
    if s.len() == 0 {
        assert(s.push(c)[0] == c);
        assert(s.push(c).skip(1) =~= Seq::<char>::empty());
        assert(escaped_instance(s.push(c)) =~= esc_instance_char(c) + escaped_instance(
            s.push(c).skip(1),
        ));
        assert(esc_instance_char(c) + Seq::<char>::empty() =~= esc_instance_char(c));
    } else {
        lemma_escaped_instance_snoc(s.skip(1), c);
        assert(s.push(c).skip(1) =~= s.skip(1).push(c));
        assert(escaped_instance(s.push(c)) =~= esc_instance_char(s[0]) + (escaped_instance(
            s.skip(1),
        ) + esc_instance_char(c)));
        assert(esc_instance_char(s[0]) + (escaped_instance(s.skip(1)) + esc_instance_char(c))
            =~= (esc_instance_char(s[0]) + escaped_instance(s.skip(1))) + esc_instance_char(c));
    }
}

/// Writes the instance name as the collaborator writes it into the
/// fullname.
fn escape_instance_x(s: &str) -> (r: String)
    ensures
        r@ == escaped_instance(s@),
{
    let n: usize = s.unicode_len();
    let mut out = String::new();
    let mut i: usize = 0;
    assert(s@.subrange(0, 0) =~= Seq::<char>::empty());
    while i < n
        invariant
            n == s@.len(),
            i <= n,
            out@ == escaped_instance(s@.subrange(0, i as int)),
        decreases n - i,
    {
        let c = s.get_char(i);
        if c == '.' {
            out.append("\\.");
            proof {
                reveal_strlit("\\.");
                assert("\\."@ =~= esc_instance_char('.'));
            }
        } else if c == '\\' {
            out.append("\\\\");
            proof {
                reveal_strlit("\\\\");
                assert("\\\\"@ =~= esc_instance_char('\\'));
            }
        } else {
            let piece = s.substring_char(i, i + 1);
            out.append(piece);
            proof {
                assert(piece@ =~= esc_instance_char(s@[i as int]));
            }
        }
        proof {
            assert(s@.subrange(0, i + 1) =~= s@.subrange(0, i as int).push(s@[i as int]));
            lemma_escaped_instance_snoc(s@.subrange(0, i as int), s@[i as int]);
        }
        i += 1;
    }
    assert(s@.subrange(0, n as int) =~= s@);
    out
}

/// Compares the characters at `i` against `lit`.
fn matches_at(s: &str, n: usize, i: usize, lit: &str) -> (r: bool)
    requires
        n == s@.len(),
        i <= n,
    ensures
        r == (i + lit@.len() <= n && s@.subrange(i as int, i + lit@.len()) == lit@),
{
    let m: usize = lit.unicode_len();
    if m > n - i {
        return false;
    }
    let mut k: usize = 0;
    while k < m
        invariant
            n == s@.len(),
            m == lit@.len(),
            i + m <= n,
            k <= m,
            forall|q: int| 0 <= q < k ==> s@[i + q] == lit@[q],
        decreases m - k,
    {
        if s.get_char(i + k) != lit.get_char(k) {
            assert(s@.subrange(i as int, i + m)[k as int] != lit@[k as int]);
            return false;
        }
        k += 1;
    }
    assert(s@.subrange(i as int, i + m) =~= lit@);
    true
}

fn type_domain_from_x<'a>(sn: &'a str, n: usize, j: usize) -> (r: &'a str)
    requires
        n == sn@.len(),
        j + 6 <= n,
    ensures
        r@ == type_domain_from(sn@, j as int),
    decreases j,
{
    proof {
        reveal_strlit("._sub.");
    }
    if matches_at(sn, n, j, "._sub.") {
        let r = sn.substring_char(j + 6, n);
        assert(r@ =~= sn@.skip(j + 6));
        r
    } else if j == 0 {
        assert(type_domain_from(sn@, 0) == type_domain_from(sn@, -1));
        assert(type_domain_from(sn@, -1) == sn@);
        sn
    } else {
        type_domain_from_x(sn, n, j - 1)
    }
}

/// Takes the part of the service name after its last sub-type
/// separator, as the collaborator does.
fn type_domain_x<'a>(sn: &'a str) -> (r: &'a str)
    ensures
        r@ == type_domain(sn@),
{
    let n: usize = sn.unicode_len();
    if n < 6 {
        sn
    } else {
        type_domain_from_x(sn, n, n - 6)
    }
}

/// Builds the fullname the collaborator will examine and decides
/// whether its registration check can slice it without panicking.
pub fn advertisement_registrable(instance: &str, service_name: &str) -> (r: bool)
    ensures
        r == registrable_advertisement(instance@, service_name@),
{
    proof {
        reveal_strlit(".");
        assert("."@ =~= seq!['.']);
    }
    let esc = escape_instance_x(instance);
    let domain = type_domain_x(service_name);
    let fullname = esc.concat(".").concat(domain);
    assert(fullname@ =~= fullname_of(instance@, service_name@));
    fullname_sliceable(fullname.as_str())
}

/// Relies on mdns_sd::ServiceDaemon::register, with ServiceInfo::new
/// shaping the record into the collaborator's argument type.  Failures
/// of either step — unparseable address text, an unusable metadata
/// key, names the collaborator's checks reject, a daemon that is gone —
/// come back as the collaborator's error.  The registration check
/// slices the first byte of the label before the registration domain
/// of the fullname it builds — the escaped instance name, a dot, and
/// the service name's type domain — so advertisements on which that
/// slice would panic are excluded.
#[verifier::external_body]
fn daemon_register(daemon: &mdns_sd::ServiceDaemon, record: &AdvertisementRecord) -> (r: Result<
    (),
    mdns_sd::Error,
>)
    requires
        registrable_advertisement(record.instance_name@, record.service_name@),
{
    let mut props: std::collections::HashMap<String, String> = std::collections::HashMap::new();
    for (k, v) in record.txt.iter() {
        props.insert(k.clone(), v.clone());
    }
    let info = mdns_sd::ServiceInfo::new(
        record.service_name.as_str(),
        record.instance_name.as_str(),
        record.hostname_fqdn.as_str(),
        record.address.as_str(),
        record.port,
        props,
    )?;
    daemon.register(info)
}

/// Relies on std's mpsc Receiver::recv: blocks until a value is sent or
/// every sender is dropped; receipt and closure are both treated as the
/// termination event.
#[verifier::external_body]
fn receive_termination(rx: &std::sync::mpsc::Receiver<()>) -> (r: bool) {
    rx.recv().is_ok()
}

/// One registered advertisement: the collaborator handle and where the
/// run stands in its lifecycle.
pub struct AdvertisementSession {
    pub daemon: mdns_sd::ServiceDaemon,
    pub state: ControllerState,
}

/// Creates the daemon and registers the record with it.  A record
/// whose fullname the collaborator's name check could not examine is
/// rejected first, exactly as the registration-label validation error;
/// on success the run is in the registered state; any collaborator
/// failure is fatal for the run and reported as a service error.
pub fn register_advertisement(record: &AdvertisementRecord) -> (r: Result<
    AdvertisementSession,
    MdnsError,
>)
    ensures
        r matches Ok(s) ==> s.state == ControllerState::Registered,
        r matches Err(e) ==> e is Service || e == MdnsError::ConfigValidation(
            ValidationError::RegistrationLabel,
        ),
        !registrable_advertisement(record.instance_name@, record.service_name@) <==> r
            == Err::<AdvertisementSession, MdnsError>(MdnsError::ConfigValidation(
            ValidationError::RegistrationLabel,
        )),
{
    if !advertisement_registrable(record.instance_name.as_str(), record.service_name.as_str()) {
        return Err(MdnsError::ConfigValidation(ValidationError::RegistrationLabel));
    }
    let daemon = match daemon_new() {
        Ok(d) => d,
        Err(e) => {
            return Err(MdnsError::Service(mdns_error_text(&e)));
        },
    };
    match daemon_register(&daemon, record) {
        Ok(()) => {},
        Err(e) => {
            return Err(MdnsError::Service(mdns_error_text(&e)));
        },
    }
    let state = advance(ControllerState::Initializing, ControllerEvent::RegistrationDone);
    Ok(AdvertisementSession { daemon, state })
}

/// Builds the advertisement record for the configuration and the chosen
/// address, and registers it.
pub fn start_advertisement(config: &ServiceConfig, address: String) -> (r: Result<
    AdvertisementSession,
    MdnsError,
>)
    ensures
        r matches Ok(s) ==> s.state == ControllerState::Registered,
        r matches Err(e) ==> e is Service || e == MdnsError::ConfigValidation(
            ValidationError::RegistrationLabel,
        ),
        !registrable_advertisement(config@.instance_name, config@.service_name) <==> r
            == Err::<AdvertisementSession, MdnsError>(MdnsError::ConfigValidation(
            ValidationError::RegistrationLabel,
        )),
{
    let record = build_record(config, address);
    register_advertisement(&record)
}

/// Blocks until the termination signal fires or its channel closes,
/// consuming exactly one termination event, then moves the run into
/// the shutting-down state.
pub fn await_termination(session: AdvertisementSession, rx: &std::sync::mpsc::Receiver<()>) -> (r:
    AdvertisementSession)
    requires
        session.state == ControllerState::Registered,
    ensures
        r.state == ControllerState::ShuttingDown,
        r.daemon == session.daemon,
{
    let _fired: bool = receive_termination(rx);
    let state = advance(session.state, ControllerEvent::TerminationObserved);
    AdvertisementSession { daemon: session.daemon, state }
}

} // verus!
