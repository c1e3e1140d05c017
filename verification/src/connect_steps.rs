//! The decisions taken while waiting for the QR scan and while connecting to
//! the freshly paired phone: what to report, what to try next, when to stop.
use vstd::prelude::*;

use crate::text::{chars_of, string_of, concat, join, join_exec, seqs, lemma_seqs_push, decimal, decimal_exec, lines};
use crate::adb::{AdbDevice, DeviceView, device_views, display_name_spec, is_ready, MdnsService, ServiceView, service_views, strs, candidates_spec, connect_service_candidates, first_picked, Sel, matching_ready_device_for_connect_service, opt_device_view};
use crate::pairing_flow::{snapshot_match, matching_ready_device_from_snapshot, endpoint_summary_spec, endpoint_summary};
use crate::adb_client::{first_connected_serial, connect_serial_from_output};
use crate::pairing::PairingEndpointDiscovery;
use crate::pairing_flow::{ConnectedPhone, PairingProgress, PairingProgressKind, AlreadyConnectedChoice, poll_delay, should_check_bonjour};
use crate::pairing_steps::{PairingEvent, EventView, ProgressView, event_view, event_views, progress, min_nat};
use crate::command_path::{strings, lemma_strings_push};
use crate::qr::{PairingQr, qr_payload};

verus! {

fn cat(a: &str, b: &str) -> (r: String)
    ensures
        r@ == a@ + b@,
{
    string_of(&concat(&chars_of(a), &chars_of(b)))
}

fn cat3(a: &str, b: &str, c: &str) -> (r: String)
    ensures
        r@ == a@ + b@ + c@,
{
    let ab = concat(&chars_of(a), &chars_of(b));
    string_of(&concat(&ab, &chars_of(c)))
}

fn contains_str(v: &Vec<String>, s: &str) -> (r: bool)
    ensures
        r == strings(v@).contains(s@),
{
    let mut i: usize = 0;
    while i < v.len()
        invariant
            i <= v@.len(),
            forall|k: int| 0 <= k < i ==> v@[k]@ != s@,
        decreases v.len() - i,
    {
        if crate::text::chars_eq(&chars_of(v[i].as_str()), &chars_of(s)) {
            proof {
                assert(strings(v@)[i as int] == s@);
            }
            return true;
        }
        i += 1;
    }
    proof {
        if strings(v@).contains(s@) {
            let k = choose|k: int| 0 <= k < strings(v@).len() && strings(v@)[k] == s@;
            assert(v@[k]@ == s@);
        }
    }
    false
}

fn clone_strings(v: &Vec<String>) -> (r: Vec<String>)
    ensures
        r@ == v@,
{
    let mut out: Vec<String> = Vec::new();
    let mut i: usize = 0;
    while i < v.len()
        invariant
            i <= v@.len(),
            out@ == v@.take(i as int),
        decreases v.len() - i,
    {
        out.push(v[i].clone());
        proof {
            assert(out@ =~= v@.take(i + 1));
        }
        i += 1;
    }
    proof {
        assert(v@.take(v@.len() as int) =~= v@);
    }
    out
}

/// Adds `s` to the set `v` (kept as a list without repeats); whether it was new.
fn insert_str(v: &mut Vec<String>, s: &str) -> (r: bool)
    ensures
        r == !strings(old(v)@).contains(s@),
        strings(final(v)@) == if r { strings(old(v)@).push(s@) } else { strings(old(v)@) },
        !r ==> *final(v) == *old(v),
{
    if contains_str(v, s) {
        return false;
    }
    let t = s.to_string();
    proof {
        lemma_strings_push(v@, t);
    }
    v.push(t);
    true
}

// ---------------------------------------------------------------------------
// Waiting for the QR scan
// ---------------------------------------------------------------------------

/// The wait for the phone to advertise the pairing service: what was reported once already.
#[derive(Debug, Clone, PartialEq, Eq)]
pub struct PairingWait {
    pub instance: String,
    pub deadline: u64,
    pub reported_direct_check: bool,
    pub reported_device_check_error: bool,
    pub reported_adb_error: bool,
    pub reported_bonjour_error: bool,
}

/// How a round of the wait ends.
#[derive(Debug, PartialEq, Eq)]
pub enum WaitCommand {
    /// The phone advertised these pairing endpoints.
    Found(Vec<String>),
    /// The deadline passed: the error to report.
    TimedOut(String),
    /// Poll again after this many milliseconds.
    Sleep(u64),
}

impl PairingWait {
    /// A wait for `instance` lasting `timeout` milliseconds from `now`.
    pub fn new(instance: String, now: u64, timeout: u64) -> (r: PairingWait)
        requires
            now + timeout <= u64::MAX,
        ensures
            r.instance == instance,
            r.deadline == now + timeout,
            !r.reported_direct_check && !r.reported_device_check_error,
            !r.reported_adb_error && !r.reported_bonjour_error,
    {
        PairingWait {
            instance,
            deadline: now + timeout,
            reported_direct_check: false,
            reported_device_check_error: false,
            reported_adb_error: false,
            reported_bonjour_error: false,
        }
    }

    /// The progress report that opens each round.
    pub fn round_progress(&self) -> (r: PairingEvent)
        ensures
            event_view(r) == EventView::Progress(
                ProgressView {
                    kind: PairingProgressKind::WaitingForQrScan,
                    title: "Waiting for QR scan"@,
                    detail: "Listening for pairing service `"@ + self.instance@
                        + "` via ADB mDNS and Bonjour."@,
                    deadline: Some(self.deadline),
                    attempt: None,
                    endpoint: None,
                },
            ),
    {
        PairingEvent::Progress(
            PairingProgress::new(
                PairingProgressKind::WaitingForQrScan,
                "Waiting for QR scan".to_string(),
                cat3("Listening for pairing service `", self.instance.as_str(), "` via ADB mDNS and Bonjour."),
            ).deadline(self.deadline),
        )
    }

    /// A failed device check is reported the first time only.
    pub fn on_devices_error(&mut self, error: &str) -> (r: Option<PairingEvent>)
        ensures
            !old(self).reported_device_check_error ==> r is Some && event_view(r->0) == EventView::Warning(
                "could not check existing ADB devices: "@ + error@,
            ),
            old(self).reported_device_check_error ==> r is None,
            *final(self) == (PairingWait { reported_device_check_error: true, ..*old(self) }),
    {
        if self.reported_device_check_error {
            return None;
        }
        self.reported_device_check_error = true;
        Some(PairingEvent::Warning(cat("could not check existing ADB devices: ", error)))
    }

    /// The note that Bonjour is checked directly, the first time only.
    pub fn direct_check_notice(&mut self) -> (r: Option<PairingEvent>)
        ensures
            !old(self).reported_direct_check ==> r is Some && event_view(r->0) == EventView::Status(
                "Also checking macOS Bonjour directly for the QR pairing service..."@,
            ),
            old(self).reported_direct_check ==> r is None,
            *final(self) == (PairingWait { reported_direct_check: true, ..*old(self) }),
    {
        if self.reported_direct_check {
            return None;
        }
        self.reported_direct_check = true;
        Some(PairingEvent::Status("Also checking macOS Bonjour directly for the QR pairing service...".to_string()))
    }

    /// The end of a round: the endpoints found; otherwise each lookup error
    /// reported once, then a timeout error at the deadline or a pause.
    pub fn on_discovery(&mut self, discovery: &PairingEndpointDiscovery, now: u64) -> (r: (Vec<PairingEvent>, WaitCommand))
        ensures
            discovery.endpoints@.len() == 1 ==> event_views(r.0@) == seq![EventView::Success(
                "Phone found at "@ + discovery.endpoints@[0]@ + "."@,
            )] && (r.1 matches WaitCommand::Found(v) && v@ == discovery.endpoints@)
                && *final(self) == *old(self),
            discovery.endpoints@.len() > 1 ==> event_views(r.0@) == seq![EventView::Success(
                "Phone found at candidate endpoint(s): "@ + join(strings(discovery.endpoints@), ", "@) + "."@,
            )] && (r.1 matches WaitCommand::Found(v) && v@ == discovery.endpoints@)
                && *final(self) == *old(self),
            discovery.endpoints@.len() == 0 ==> {
                let adb_warn = match discovery.adb_error {
                    Some(e) => if old(self).reported_adb_error {
                        Seq::<EventView>::empty()
                    } else {
                        seq![EventView::Warning("adb mDNS lookup failed: "@ + e@)]
                    },
                    None => Seq::<EventView>::empty(),
                };
                let bonjour_warn = match discovery.bonjour_error {
                    Some(e) => if old(self).reported_bonjour_error {
                        Seq::<EventView>::empty()
                    } else {
                        seq![EventView::Warning("Bonjour pairing lookup failed: "@ + e@)]
                    },
                    None => Seq::<EventView>::empty(),
                };
                &&& event_views(r.0@) == adb_warn + bonjour_warn
                &&& final(self).reported_adb_error == (old(self).reported_adb_error || discovery.adb_error is Some)
                &&& final(self).reported_bonjour_error == (old(self).reported_bonjour_error || discovery.bonjour_error is Some)
                &&& final(self).instance == old(self).instance && final(self).deadline == old(self).deadline
                &&& final(self).reported_direct_check == old(self).reported_direct_check
                &&& final(self).reported_device_check_error == old(self).reported_device_check_error
                &&& if now >= old(self).deadline {
                    r.1 matches WaitCommand::TimedOut(m) && m@
                        == "timed out waiting for the phone to advertise the QR pairing service `"@ + old(self).instance@ + "`"@
                } else {
                    r.1 == WaitCommand::Sleep(min_nat((old(self).deadline - now) as nat, 500) as u64)
                }
            },
    {
        let mut events: Vec<PairingEvent> = Vec::new();
        proof {
            assert(event_views(events@) =~= Seq::<EventView>::empty());
        }
        let n = discovery.endpoints.len();
        if n == 1 {
            let e = PairingEvent::Success(cat3("Phone found at ", discovery.endpoints[0].as_str(), "."));
            proof {
                assert(event_views(events@.push(e)) =~= seq![event_view(e)]);
            }
            events.push(e);
            return (events, WaitCommand::Found(clone_strings(&discovery.endpoints)));
        }
        if n > 1 {
            let mut parts: Vec<Vec<char>> = Vec::new();
            let mut i: usize = 0;
            while i < n
                invariant
                    i <= n,
                    n == discovery.endpoints@.len(),
                    seqs(parts@) == strings(discovery.endpoints@).take(i as int),
                decreases n - i,
            {
                let a = chars_of(discovery.endpoints[i].as_str());
                proof {
                    lemma_seqs_push(parts@, a);
                    assert(strings(discovery.endpoints@).take(i + 1) =~= strings(discovery.endpoints@).take(i as int).push(discovery.endpoints@[i as int]@));
                }
                parts.push(a);
                i += 1;
            }
            proof {
                assert(strings(discovery.endpoints@).take(n as int) =~= strings(discovery.endpoints@));
            }
            let joined = join_exec(&parts, &chars_of(", "));
            let e = PairingEvent::Success(cat3("Phone found at candidate endpoint(s): ", string_of(&joined).as_str(), "."));
            proof {
                assert(event_views(events@.push(e)) =~= seq![event_view(e)]);
            }
            events.push(e);
            return (events, WaitCommand::Found(clone_strings(&discovery.endpoints)));
        }
        match &discovery.adb_error {
            Some(err) => {
                if !self.reported_adb_error {
                    let e = PairingEvent::Warning(cat("adb mDNS lookup failed: ", err.as_str()));
                    proof {
                        assert(event_views(events@.push(e)) =~= seq![event_view(e)]);
                    }
                    events.push(e);
                    self.reported_adb_error = true;
                }
            },
            None => {},
        }
        let ghost first = event_views(events@);
        match &discovery.bonjour_error {
            Some(err) => {
                if !self.reported_bonjour_error {
                    let e = PairingEvent::Warning(cat("Bonjour pairing lookup failed: ", err.as_str()));
                    proof {
                        assert(event_views(events@.push(e)) =~= first + seq![event_view(e)]);
                    }
                    events.push(e);
                    self.reported_bonjour_error = true;
                } else {
                    proof {
                        assert(first + Seq::<EventView>::empty() =~= first);
                    }
                }
            },
            None => {
                proof {
                    assert(first + Seq::<EventView>::empty() =~= first);
                }
            },
        }
        if now >= self.deadline {
            let m = cat3("timed out waiting for the phone to advertise the QR pairing service `", self.instance.as_str(), "`");
            return (events, WaitCommand::TimedOut(m));
        }
        (events, WaitCommand::Sleep(poll_delay(self.deadline, now, 500)))
    }
}

/// The phone the user picked among those ADB already sees, with its
/// announcement; `None` to keep waiting for the scan.
pub fn already_connected(phones: &[ConnectedPhone], choice: AlreadyConnectedChoice) -> (r: Option<(ConnectedPhone, PairingEvent)>)
    ensures
        match choice {
            AlreadyConnectedChoice::Use(i) => if i < phones@.len() {
                r matches Some((p, e)) && p == phones@[i as int] && event_view(e) == EventView::Success(
                    "ADB already sees "@ + phones@[i as int].display_name@ + "; skipping QR scan."@,
                )
            } else {
                r is None
            },
            AlreadyConnectedChoice::KeepWaiting => r is None,
        },
{
    match choice {
        AlreadyConnectedChoice::Use(i) => {
            if i < phones.len() {
                let p = ConnectedPhone {
                    serial: phones[i].serial.clone(),
                    display_name: phones[i].display_name.clone(),
                };
                let e = PairingEvent::Success(cat3("ADB already sees ", phones[i].display_name.as_str(), "; skipping QR scan."));
                Some((p, e))
            } else {
                None
            }
        },
        AlreadyConnectedChoice::KeepWaiting => None,
    }
}

// ---------------------------------------------------------------------------
// Duplicate transports
// ---------------------------------------------------------------------------

/// The note before disconnecting a duplicate transport.
pub fn alias_removal_notice(alias: &str) -> (r: PairingEvent)
    ensures
        event_view(r) == EventView::Status("Removing duplicate ADB transport "@ + alias@ + "..."@),
{
    PairingEvent::Status(cat3("Removing duplicate ADB transport ", alias, "..."))
}

/// What disconnecting a duplicate transport gave.
pub fn alias_removal_result(alias: &str, result: Result<(), String>) -> (r: PairingEvent)
    ensures
        match result {
            Ok(_) => event_view(r) == EventView::Success("Removed duplicate ADB transport "@ + alias@ + "."@),
            Err(e) => event_view(r) == EventView::Warning(
                "could not remove duplicate ADB transport "@ + alias@ + ": "@ + e@,
            ),
        },
{
    match result {
        Ok(()) => PairingEvent::Success(cat3("Removed duplicate ADB transport ", alias, ".")),
        Err(e) => {
            let a = cat3("could not remove duplicate ADB transport ", alias, ": ");
            PairingEvent::Warning(cat(a.as_str(), e.as_str()))
        },
    }
}

// ---------------------------------------------------------------------------
// Connecting to the paired phone
// ---------------------------------------------------------------------------

/// The device that turned out to be the paired phone, announced.
pub fn device_ready_event(device: &AdbDevice, through_mdns: bool) -> (r: PairingEvent)
    ensures
        event_view(r) == EventView::Success(
            (if through_mdns { "ADB device is ready through mDNS: "@ } else { "ADB device is ready: "@ })
                + display_name_spec(device@),
        ),
{
    let name = device.display_name();
    if through_mdns {
        PairingEvent::Success(cat("ADB device is ready through mDNS: ", name.as_str()))
    } else {
        PairingEvent::Success(cat("ADB device is ready: ", name.as_str()))
    }
}

/// How many rows are ready.
pub open spec fn ready_count(ds: Seq<DeviceView>) -> nat
    decreases ds.len(),
{
    if ds.len() == 0 {
        0
    } else {
        ready_count(ds.drop_last()) + if is_ready(ds.last()) { 1nat } else { 0nat }
    }
}

/// When ready devices exist but none is the paired phone, a note saying how many.
pub fn ready_devices_notice(devices: &[AdbDevice]) -> (r: Option<PairingEvent>)
    ensures
        ready_count(device_views(devices@)) == 0 ==> r is None,
        ready_count(device_views(devices@)) > 0 ==> r is Some && event_view(r->0) == EventView::Status(
            "ADB sees "@ + decimal(ready_count(device_views(devices@))) + " ready device(s), but not the just-paired phone yet."@,
        ),
{
    let ghost dv = device_views(devices@);
    let mut count: u64 = 0;
    let mut i: usize = 0;
    proof {
        assert(dv.take(0) =~= Seq::<DeviceView>::empty());
    }
    while i < devices.len()
        invariant
            i <= devices@.len(),
            dv == device_views(devices@),
            count as nat == ready_count(dv.take(i as int)),
            count <= i,
        decreases devices.len() - i,
    {
        proof {
            let p = dv.take(i + 1);
            assert(p.drop_last() =~= dv.take(i as int));
            assert(p.last() == devices@[i as int]@);
        }
        if devices[i].state.is_ready() {
            count = count + 1;
        }
        i += 1;
    }
    proof {
        assert(dv.take(devices@.len() as int) =~= dv);
    }
    if count == 0 {
        return None;
    }
    let a = concat(&chars_of("ADB sees "), &decimal_exec(count));
    let b = concat(&a, &chars_of(" ready device(s), but not the just-paired phone yet."));
    Some(PairingEvent::Status(string_of(&b)))
}

/// The wait for the paired phone's connect endpoint: what was tried and
/// reported so far, what was there before pairing, and where the wait stands.
#[derive(Debug, Clone, PartialEq, Eq)]
pub struct ConnectWait {
    pub pairing_address: String,
    pub expected_serial: String,
    pub deadline: u64,
    pub attempt: u32,
    pub announced_endpoints: Vec<String>,
    pub reported_failed_connects: Vec<String>,
    pub reported_waiting_for_endpoint: bool,
    pub reported_connect_mdns_error: bool,
    pub last_candidate_summary: String,
    pub last_bonjour_check: Option<u64>,
    pub baseline_services: Vec<MdnsService>,
    pub baseline_devices: Vec<String>,
    pub stage: ConnectStage,
}

/// Where the wait stands: which answer it waits for.
#[derive(Debug, Clone, PartialEq, Eq)]
pub enum ConnectStage {
    /// A new round is due.
    Pending,
    /// The round's snapshot of devices and services is awaited.
    Snapshot,
    /// Bonjour is checked directly because no candidate was advertised.
    EarlyBonjour,
    /// `adb connect` runs on `candidates[next]`; `services` are the round's.
    Connecting { candidates: Vec<MdnsService>, next: usize, services: Vec<MdnsService> },
    /// Bonjour is checked directly after a connect failed.
    LateBonjour,
    /// The phone's screen is read after a connect failed.
    LateScreen,
    /// The phone's screen is read once the deadline has passed.
    DeadlineScreen,
    /// The endpoint is asked of the user.
    Manual,
    /// The endpoint the user gave is connected.
    ManualConnect,
    /// The wait is over.
    Finished,
}

impl ConnectWait {
    /// A wait of `timeout` milliseconds from `now`, expecting the pairing
    /// address as serial, with the connect services and ready serials seen
    /// before pairing; the first round is due.
    pub fn new(
        pairing_address: String,
        baseline_services: Vec<MdnsService>,
        baseline_devices: Vec<String>,
        now: u64,
        timeout: u64,
    ) -> (r: ConnectWait)
        requires
            now + timeout <= u64::MAX,
        ensures
            r.pairing_address == pairing_address,
            r.expected_serial@ == pairing_address@,
            r.deadline == now + timeout,
            r.attempt == 0,
            r.announced_endpoints@.len() == 0 && r.reported_failed_connects@.len() == 0,
            !r.reported_waiting_for_endpoint && !r.reported_connect_mdns_error,
            r.last_candidate_summary@ == Seq::<char>::empty(),
            r.last_bonjour_check is None,
            r.baseline_services == baseline_services,
            r.baseline_devices == baseline_devices,
            r.stage == ConnectStage::Pending,
    {
        let expected_serial = pairing_address.clone();
        ConnectWait {
            pairing_address,
            expected_serial,
            deadline: now + timeout,
            attempt: 0,
            announced_endpoints: Vec::new(),
            reported_failed_connects: Vec::new(),
            reported_waiting_for_endpoint: false,
            reported_connect_mdns_error: false,
            last_candidate_summary: String::new(),
            last_bonjour_check: None,
            baseline_services,
            baseline_devices,
            stage: ConnectStage::Pending,
        }
    }

    /// The progress report that opens each round.
    pub fn round_progress(&self) -> (r: PairingEvent)
        ensures
            event_view(r) == EventView::Progress(
                ProgressView {
                    kind: PairingProgressKind::WaitingForConnectionEndpoint,
                    title: "Connection endpoint wait"@,
                    detail: "Checking `adb devices` and wireless debugging connect services."@,
                    deadline: Some(self.deadline),
                    attempt: None,
                    endpoint: Some(self.pairing_address@),
                },
            ),
    {
        PairingEvent::Progress(
            PairingProgress::new(
                PairingProgressKind::WaitingForConnectionEndpoint,
                "Connection endpoint wait".to_string(),
                "Checking `adb devices` and wireless debugging connect services.".to_string(),
            ).deadline(self.deadline).endpoint(self.pairing_address.clone()),
        )
    }

    /// A failed connect-service lookup is reported the first time only.
    pub fn on_services_error(&mut self, error: &str) -> (r: Option<PairingEvent>)
        ensures
            !old(self).reported_connect_mdns_error ==> r is Some && event_view(r->0) == EventView::Warning(
                "adb mDNS connect lookup failed: "@ + error@,
            ),
            old(self).reported_connect_mdns_error ==> r is None,
            *final(self) == (ConnectWait { reported_connect_mdns_error: true, ..*old(self) }),
    {
        if self.reported_connect_mdns_error {
            return None;
        }
        self.reported_connect_mdns_error = true;
        Some(PairingEvent::Warning(cat("adb mDNS connect lookup failed: ", error)))
    }

    /// Without candidates, a note (once) that the endpoint is awaited; with
    /// candidates, their summary whenever it changes.
    pub fn candidates_notice(&mut self, summary: &str, no_candidates: bool) -> (r: Option<PairingEvent>)
        ensures
            no_candidates && !old(self).reported_waiting_for_endpoint ==> r is Some && event_view(r->0)
                == EventView::Status("Waiting for the phone to advertise its connection endpoint..."@)
                && *final(self) == (ConnectWait { reported_waiting_for_endpoint: true, ..*old(self) }),
            no_candidates && old(self).reported_waiting_for_endpoint ==> r is None && *final(self) == *old(self),
            !no_candidates && summary@ != old(self).last_candidate_summary@ ==> r is Some && event_view(r->0)
                == EventView::Status("Connect endpoint candidate(s): "@ + summary@)
                && final(self).last_candidate_summary@ == summary@
                && *final(self) == (ConnectWait { last_candidate_summary: final(self).last_candidate_summary, ..*old(self) }),
            !no_candidates && summary@ == old(self).last_candidate_summary@ ==> r is None && *final(self) == *old(self),
    {
        if no_candidates {
            if !self.reported_waiting_for_endpoint {
                self.reported_waiting_for_endpoint = true;
                return Some(PairingEvent::Status("Waiting for the phone to advertise its connection endpoint...".to_string()));
            }
            return None;
        }
        if crate::text::chars_eq(&chars_of(summary), &chars_of(self.last_candidate_summary.as_str())) {
            return None;
        }
        self.last_candidate_summary = summary.to_string();
        Some(PairingEvent::Status(cat("Connect endpoint candidate(s): ", summary)))
    }

    /// Without candidates, Bonjour is checked directly at most every ten
    /// seconds; a check is recorded at `now`.
    pub fn take_bonjour_check(&mut self, no_candidates: bool, now: u64) -> (r: bool)
        ensures
            r == (no_candidates && match old(self).last_bonjour_check {
                Some(t) => now >= t && now - t >= 10_000,
                None => true,
            }),
            r ==> *final(self) == (ConnectWait { last_bonjour_check: Some(now), ..*old(self) }),
            !r ==> *final(self) == *old(self),
    {
        let elapsed: Option<u64> = match self.last_bonjour_check {
            Some(t) => if now >= t { Some(now - t) } else { Some(0) },
            None => None,
        };
        let due = no_candidates && should_check_bonjour(elapsed);
        if due {
            self.last_bonjour_check = Some(now);
        }
        due
    }

    /// Before `adb connect` on `address`: announce it the first time, and
    /// report the attempt.
    pub fn begin_connect(&mut self, address: &str) -> (r: Vec<PairingEvent>)
        requires
            old(self).attempt < u32::MAX,
        ensures
            final(self).attempt == old(self).attempt + 1,
            strings(final(self).announced_endpoints@) == if strings(old(self).announced_endpoints@).contains(address@) {
                strings(old(self).announced_endpoints@)
            } else {
                strings(old(self).announced_endpoints@).push(address@)
            },
            final(self).expected_serial == old(self).expected_serial,
            final(self).reported_failed_connects == old(self).reported_failed_connects,
            final(self).deadline == old(self).deadline,
            *final(self) == (ConnectWait {
                attempt: final(self).attempt,
                announced_endpoints: final(self).announced_endpoints,
                ..*old(self)
            }),
            event_views(r@) == (if strings(old(self).announced_endpoints@).contains(address@) {
                Seq::<EventView>::empty()
            } else {
                seq![EventView::Status("Connecting to "@ + address@ + "..."@)]
            }) + seq![
                progress(PairingProgressKind::Connecting, "Connecting to phone"@, "Running `adb connect` and verifying the new device."@, old(self).deadline as nat, Some((old(self).attempt + 1) as nat), Some(address@)),
                EventView::Status("Attempt "@ + decimal((old(self).attempt + 1) as nat) + ": adb connect "@ + address@),
            ],
    {
        let mut events: Vec<PairingEvent> = Vec::new();
        proof {
            assert(event_views(events@) =~= Seq::<EventView>::empty());
        }
        if insert_str(&mut self.announced_endpoints, address) {
            let e = PairingEvent::Status(cat3("Connecting to ", address, "..."));
            proof {
                assert(event_views(events@.push(e)) =~= seq![event_view(e)]);
            }
            events.push(e);
        }
        let ghost first = event_views(events@);
        self.attempt = self.attempt + 1;
        let p = PairingProgress::new(
            PairingProgressKind::Connecting,
            "Connecting to phone".to_string(),
            "Running `adb connect` and verifying the new device.".to_string(),
        ).deadline(self.deadline).attempt(self.attempt).endpoint(address.to_string());
        let e1 = PairingEvent::Progress(p);
        let a = concat(&chars_of("Attempt "), &decimal_exec(self.attempt as u64));
        let b = concat(&a, &chars_of(": adb connect "));
        let e2 = PairingEvent::Status(string_of(&concat(&b, &chars_of(address))));
        proof {
            assert(event_views(events@.push(e1).push(e2)) =~= first + seq![event_view(e1), event_view(e2)]);
        }
        events.push(e1);
        events.push(e2);
        events
    }

    /// After `adb connect` on `address` succeeded with `output`: the serial it
    /// reported (or the address) is expected from now on.
    pub fn on_connect_ok(&mut self, address: &str, output: &str) -> (r: PairingEvent)
        ensures
            final(self).expected_serial@ == match first_connected_serial(lines(output@)) {
                Some(s) => s,
                None => address@,
            },
            *final(self) == (ConnectWait { expected_serial: final(self).expected_serial, ..*old(self) }),
            event_view(r) == progress(
                PairingProgressKind::Verifying,
                "Verifying ADB device"@,
                "ADB connected; waiting for the device to become ready."@,
                old(self).deadline as nat,
                Some(old(self).attempt as nat),
                Some(final(self).expected_serial@),
            ),
    {
        let serial = match connect_serial_from_output(output) {
            Some(s) => s,
            None => address.to_string(),
        };
        self.expected_serial = serial.clone();
        PairingEvent::Progress(
            PairingProgress::new(
                PairingProgressKind::Verifying,
                "Verifying ADB device".to_string(),
                "ADB connected; waiting for the device to become ready.".to_string(),
            ).deadline(self.deadline).attempt(self.attempt).endpoint(serial),
        )
    }

    /// A failed `adb connect` on `address` is reported the first time only.
    pub fn on_connect_err(&mut self, address: &str, error: &str) -> (r: Option<PairingEvent>)
        ensures
            strings(old(self).reported_failed_connects@).contains(address@) ==> r is None && *final(self)
                == *old(self),
            !strings(old(self).reported_failed_connects@).contains(address@) ==> r is Some && event_view(r->0)
                == EventView::Warning("ADB mDNS endpoint "@ + address@ + " failed: "@ + error@)
                && strings(final(self).reported_failed_connects@) == strings(old(self).reported_failed_connects@).push(address@)
                && final(self).expected_serial == old(self).expected_serial
                && final(self).attempt == old(self).attempt,
            *final(self) == (ConnectWait { reported_failed_connects: final(self).reported_failed_connects, ..*old(self) }),
    {
        if insert_str(&mut self.reported_failed_connects, address) {
            let a = cat3("ADB mDNS endpoint ", address, " failed: ");
            Some(PairingEvent::Warning(cat(a.as_str(), error)))
        } else {
            None
        }
    }

    /// After some connect failed, Bonjour and the phone's screen are tried too.
    pub fn needs_fallbacks(&self) -> (r: bool)
        ensures
            r == (self.reported_failed_connects@.len() > 0),
    {
        self.reported_failed_connects.len() > 0
    }
}

/// The warning before asking for the endpoint by hand.
pub fn discovery_timed_out_warning() -> (r: PairingEvent)
    ensures
        event_view(r) == EventView::Warning(
            "Automatic discovery timed out before finding a connectable wireless debugging endpoint."@,
        ),
{
    PairingEvent::Warning(
        "Automatic discovery timed out before finding a connectable wireless debugging endpoint.".to_string(),
    )
}

/// How long a fallback endpoint may take to show up: at least one second, at most eight.
pub fn verify_timeout(timeout: u64) -> (r: u64)
    ensures
        r == if timeout < 1000 { 1000 } else if timeout <= 8000 { timeout } else { 8000 },
{
    if timeout < 1000 {
        1000
    } else if timeout <= 8000 {
        timeout
    } else {
        8000
    }
}

/// The list of fallback endpoints, announced.
pub fn endpoints_notice(prefix: &str, endpoints: &Vec<String>) -> (r: PairingEvent)
    ensures
        event_view(r) == EventView::Status(prefix@ + join(strings(endpoints@), ", "@)),
{
    let mut parts: Vec<Vec<char>> = Vec::new();
    let mut i: usize = 0;
    while i < endpoints.len()
        invariant
            i <= endpoints@.len(),
            seqs(parts@) == strings(endpoints@).take(i as int),
        decreases endpoints.len() - i,
    {
        let a = chars_of(endpoints[i].as_str());
        proof {
            lemma_seqs_push(parts@, a);
            assert(strings(endpoints@).take(i + 1) =~= strings(endpoints@).take(i as int).push(endpoints@[i as int]@));
        }
        parts.push(a);
        i += 1;
    }
    proof {
        assert(strings(endpoints@).take(endpoints@.len() as int) =~= strings(endpoints@));
    }
    let joined = join_exec(&parts, &chars_of(", "));
    PairingEvent::Status(string_of(&concat(&chars_of(prefix), &joined)))
}

// ---------------------------------------------------------------------------
// The flow's frame, and its fallbacks
// ---------------------------------------------------------------------------

pub open spec fn intro_lines() -> Seq<Seq<char>> {
    seq![
        "On your Android phone, go to Developer options -> Wireless debugging."@,
        "Tap \"Pair device with QR code\"."@,
        "Scan the QR code below."@,
    ]
}

/// Of the endpoints read off one screen, those not tried on an earlier
/// screen, in order; `seen` ends with them all.
pub open spec fn screen_fresh(seen: Seq<Seq<char>>, found: Seq<Seq<char>>) -> (Seq<Seq<char>>, Seq<Seq<char>>)
    decreases found.len(),
{
    if found.len() == 0 {
        (seen, seq![])
    } else {
        let (s0, fresh) = screen_fresh(seen, found.drop_last());
        let e = found.last();
        if s0.contains(e) {
            (s0, fresh)
        } else {
            (s0.push(e), fresh.push(e))
        }
    }
}

/// The endpoints of one screen to try with `adb connect`: each endpoint is
/// tried once across all the screens read in one fallback.
pub fn screen_endpoints_to_try(seen: &mut Vec<String>, found: Vec<String>) -> (r: Vec<String>)
    ensures
        ({
            let (s, fresh) = screen_fresh(strings(old(seen)@), strings(found@));
            strings(final(seen)@) == s && strings(r@) == fresh
        }),
{
    let ghost fs = strings(found@);
    let ghost s0 = strings(seen@);
    let mut out: Vec<String> = Vec::new();
    let mut i: usize = 0;
    proof {
        assert(fs.take(0) =~= Seq::<Seq<char>>::empty());
        assert(strings(out@) =~= Seq::<Seq<char>>::empty());
    }
    while i < found.len()
        invariant
            i <= found@.len(),
            fs == strings(found@),
            (strings(seen@), strings(out@)) == screen_fresh(s0, fs.take(i as int)),
        decreases found.len() - i,
    {
        proof {
            assert(fs.take(i + 1).drop_last() =~= fs.take(i as int));
            assert(fs.take(i + 1).last() == found@[i as int]@);
        }
        if insert_str(seen, found[i].as_str()) {
            let e = found[i].clone();
            proof {
                lemma_strings_push(out@, e);
            }
            out.push(e);
        }
        i += 1;
    }
    proof {
        assert(fs.take(found@.len() as int) =~= fs);
    }
    out
}

/// What QR pairing does before it shows the code.
#[derive(Debug, Clone, PartialEq, Eq)]
pub enum OpeningAction {
    /// Check that this Mac is on Wi-Fi; no `adb` command runs before.
    CheckWifi,
    /// Wi-Fi is not ready: pairing stops with this error and runs nothing else.
    Stop(String),
    /// Read the services and devices seen before pairing and the machine
    /// names, then show the code.
    ReadBaselines,
}

/// The opening of QR pairing: first the Wi-Fi check, whose result decides
/// whether anything else runs.
pub fn opening_step(wifi_ready: Option<Result<(), String>>) -> (r: OpeningAction)
    ensures
        match wifi_ready {
            None => r == OpeningAction::CheckWifi,
            Some(Err(e)) => r == OpeningAction::Stop(e),
            Some(Ok(_)) => r == OpeningAction::ReadBaselines,
        },
{
    match wifi_ready {
        None => OpeningAction::CheckWifi,
        Some(Err(e)) => OpeningAction::Stop(e),
        Some(Ok(())) => OpeningAction::ReadBaselines,
    }
}

/// How QR pairing opens: it needs Wi-Fi, then shows the instructions and the code.
pub fn pair_and_connect(wifi_ready: Result<(), String>, qr: PairingQr) -> (r: Result<Vec<PairingEvent>, String>)
    requires
        qr.payload@ == qr_payload(qr.instance@, qr.secret@),
    ensures
        match wifi_ready {
            Err(e) => r == Err::<Vec<PairingEvent>, String>(e),
            Ok(_) => r is Ok && event_views(r->Ok_0@) == seq![
                EventView::Section("Pair with QR code"@, intro_lines()),
                EventView::QrReady(qr.instance@, qr.secret@, qr.payload@),
            ],
        },
{
    match wifi_ready {
        Err(e) => Err(e),
        Ok(()) => {
            let mut lines: Vec<String> = Vec::new();
            let l1 = "On your Android phone, go to Developer options -> Wireless debugging.".to_string();
            let l2 = "Tap \"Pair device with QR code\".".to_string();
            let l3 = "Scan the QR code below.".to_string();
            proof {
                lemma_strings_push(lines@, l1);
            }
            lines.push(l1);
            proof {
                lemma_strings_push(lines@, l2);
            }
            lines.push(l2);
            proof {
                lemma_strings_push(lines@, l3);
            }
            lines.push(l3);
            proof {
                assert(strings(lines@) =~= intro_lines());
            }
            let mut events: Vec<PairingEvent> = Vec::new();
            let e1 = PairingEvent::Section { title: "Pair with QR code".to_string(), lines };
            let e2 = PairingEvent::QrReady(qr);
            proof {
                assert(event_views(events@.push(e1).push(e2)) =~= seq![event_view(e1), event_view(e2)]);
            }
            events.push(e1);
            events.push(e2);
            Ok(events)
        },
    }
}

/// The phone that the flow ends with.
pub fn connected_phone(device: &AdbDevice) -> (r: ConnectedPhone)
    ensures
        r.serial@ == device.serial@,
        r.display_name@ == display_name_spec(device@),
{
    ConnectedPhone { serial: device.serial.clone(), display_name: device.display_name() }
}

/// A status line for the user.
pub fn status(message: &str) -> (r: PairingEvent)
    ensures
        event_view(r) == EventView::Status(message@),
{
    PairingEvent::Status(message.to_string())
}

/// `{what} {endpoint} failed: {error}`, as a warning.
pub fn endpoint_failed(what: &str, endpoint: &str, error: &str) -> (r: PairingEvent)
    ensures
        event_view(r) == EventView::Warning(what@ + " "@ + endpoint@ + " failed: "@ + error@),
{
    let a = cat3(what, " ", endpoint);
    PairingEvent::Warning(cat3(a.as_str(), " failed: ", error))
}

/// The serial to wait for after `adb connect` on `endpoint` printed `output`.
pub fn expected_serial_after_connect(endpoint: &str, output: &str) -> (r: String)
    ensures
        r@ == match first_connected_serial(lines(output@)) {
            Some(s) => s,
            None => endpoint@,
        },
{
    match connect_serial_from_output(output) {
        Some(s) => s,
        None => endpoint.to_string(),
    }
}

/// Waiting for a just-connected device to appear ready.
#[derive(Debug, Clone, PartialEq, Eq)]
pub struct ReadyWait {
    pub expected_serial: String,
    pub deadline: u64,
}

impl ReadyWait {
    pub fn new(expected_serial: String, now: u64, timeout: u64) -> (r: ReadyWait)
        requires
            now + timeout <= u64::MAX,
        ensures
            r.expected_serial == expected_serial,
            r.deadline == now + timeout,
    {
        ReadyWait { expected_serial, deadline: now + timeout }
    }

    /// The progress report that opens each round.
    pub fn round_progress(&self) -> (r: PairingEvent)
        ensures
            event_view(r) == EventView::Progress(
                ProgressView {
                    kind: PairingProgressKind::Verifying,
                    title: "ADB device wait"@,
                    detail: "Waiting for the connected device to appear in `adb devices`."@,
                    deadline: Some(self.deadline),
                    attempt: None,
                    endpoint: Some(self.expected_serial@),
                },
            ),
    {
        PairingEvent::Progress(
            PairingProgress::new(
                PairingProgressKind::Verifying,
                "ADB device wait".to_string(),
                "Waiting for the connected device to appear in `adb devices`.".to_string(),
            ).deadline(self.deadline).endpoint(self.expected_serial.clone()),
        )
    }

    /// A round without the device: give up at the deadline, else pause up to two seconds.
    pub fn on_missing(&self, now: u64) -> (r: Result<u64, String>)
        ensures
            now >= self.deadline ==> r is Err && r->Err_0@ == "timed out waiting for "@ + self.expected_serial@
                + " to appear in adb devices"@,
            now < self.deadline ==> r == Ok::<u64, String>(min_nat((self.deadline - now) as nat, 2000) as u64),
    {
        if now >= self.deadline {
            return Err(cat3("timed out waiting for ", self.expected_serial.as_str(), " to appear in adb devices"));
        }
        Ok(poll_delay(self.deadline, now, 2000))
    }
}

/// The progress report while reading a device's screen.
pub fn reading_screen_progress(device: &AdbDevice) -> (r: PairingEvent)
    ensures
        event_view(r) == EventView::Progress(
            ProgressView {
                kind: PairingProgressKind::ReadingScreen,
                title: "Reading phone screen"@,
                detail: "Looking for the visible Wireless debugging IP:port on "@ + display_name_spec(device@) + "."@,
                deadline: None,
                attempt: None,
                endpoint: Some(device.serial@),
            },
        ),
{
    let name = device.display_name();
    PairingEvent::Progress(
        PairingProgress::new(
            PairingProgressKind::ReadingScreen,
            "Reading phone screen".to_string(),
            cat3("Looking for the visible Wireless debugging IP:port on ", name.as_str(), "."),
        ).endpoint(device.serial.clone()),
    )
}

/// The note that a device's screen dump could not be read, or held no endpoint.
pub fn screen_notice(device: &AdbDevice, dump_error: Option<&str>) -> (r: PairingEvent)
    ensures
        match dump_error {
            Some(e) => event_view(r) == EventView::Warning(
                "Could not read UI hierarchy from "@ + display_name_spec(device@) + ": "@ + e@,
            ),
            None => event_view(r) == EventView::Status(
                "No IP:port text found on "@ + display_name_spec(device@) + "."@,
            ),
        },
{
    let name = device.display_name();
    match dump_error {
        Some(e) => {
            let a = cat3("Could not read UI hierarchy from ", name.as_str(), ": ");
            PairingEvent::Warning(cat(a.as_str(), e))
        },
        None => PairingEvent::Status(cat3("No IP:port text found on ", name.as_str(), ".")),
    }
}


// ---------------------------------------------------------------------------
// The connect wait as steps
// ---------------------------------------------------------------------------

/// What the wait hears back from its caller.
#[derive(Debug, PartialEq, Eq)]
pub enum ConnectInput {
    /// The pause is over: a new round may start.
    NextRound,
    /// The round's snapshot: the devices (duplicate aliases already removed)
    /// and the services, or why they could not be listed, at `now`.
    Round { devices: Vec<AdbDevice>, services: Result<Vec<MdnsService>, String>, now: u64 },
    /// `adb connect` gave its output or its error; the devices listed after it.
    ConnectResult { result: Result<String, String>, devices: Vec<AdbDevice>, now: u64 },
    /// What a Bonjour check or a reading of the screen found, at `now`.
    Fallback { device: Option<AdbDevice>, now: u64 },
    /// What the user typed as endpoint, if anything.
    Manual(Option<String>),
    /// What connecting to the user's endpoint gave.
    ManualResult(Result<AdbDevice, String>),
}

/// What the caller is to do next.
#[derive(Debug, PartialEq, Eq)]
pub enum ConnectAction {
    /// List the devices and the services.
    Snapshot,
    /// `adb connect` on this endpoint.
    Connect(String),
    /// Check Bonjour directly for connect endpoints on the pairing host.
    TryBonjour,
    /// Read the endpoint off the phone's screen.
    TryScreen,
    /// Ask the user for the endpoint.
    AskManual,
    /// Connect to the endpoint the user gave and wait for the device.
    ConnectManual(String),
    /// Wait this many milliseconds.
    Sleep(u64),
    /// The paired phone, ready.
    Done(AdbDevice),
    /// The wait failed with this error.
    Fail(String),
}

pub enum StageView {
    Pending,
    Snapshot,
    EarlyBonjour,
    Connecting(Seq<ServiceView>, nat, Seq<ServiceView>),
    LateBonjour,
    LateScreen,
    DeadlineScreen,
    Manual,
    ManualConnect,
    Finished,
}

pub struct ConnectView {
    pub pairing: Seq<char>,
    pub expected: Seq<char>,
    pub deadline: nat,
    pub attempt: nat,
    pub announced: Seq<Seq<char>>,
    pub failed: Seq<Seq<char>>,
    pub waiting_reported: bool,
    pub mdns_error_reported: bool,
    pub last_summary: Seq<char>,
    pub last_bonjour: Option<nat>,
    pub base_services: Seq<ServiceView>,
    pub base_devices: Seq<Seq<char>>,
    pub stage: StageView,
}

pub enum InputView {
    NextRound,
    Round(Seq<DeviceView>, Result<Seq<ServiceView>, Seq<char>>, nat),
    ConnectResult(Result<Seq<char>, Seq<char>>, Seq<DeviceView>, nat),
    Fallback(Option<DeviceView>, nat),
    Manual(Option<Seq<char>>),
    ManualResult(Result<DeviceView, Seq<char>>),
}

pub enum ActionView {
    Snapshot,
    Connect(Seq<char>),
    TryBonjour,
    TryScreen,
    AskManual,
    ConnectManual(Seq<char>),
    Sleep(nat),
    Done(DeviceView),
    Fail(Seq<char>),
}

pub open spec fn stage_view(s: ConnectStage) -> StageView {
    match s {
        ConnectStage::Pending => StageView::Pending,
        ConnectStage::Snapshot => StageView::Snapshot,
        ConnectStage::EarlyBonjour => StageView::EarlyBonjour,
        ConnectStage::Connecting { candidates, next, services } => StageView::Connecting(
            service_views(candidates@),
            next as nat,
            service_views(services@),
        ),
        ConnectStage::LateBonjour => StageView::LateBonjour,
        ConnectStage::LateScreen => StageView::LateScreen,
        ConnectStage::DeadlineScreen => StageView::DeadlineScreen,
        ConnectStage::Manual => StageView::Manual,
        ConnectStage::ManualConnect => StageView::ManualConnect,
        ConnectStage::Finished => StageView::Finished,
    }
}

impl ConnectWait {
    pub open spec fn view(self) -> ConnectView {
        ConnectView {
            pairing: self.pairing_address@,
            expected: self.expected_serial@,
            deadline: self.deadline as nat,
            attempt: self.attempt as nat,
            announced: strings(self.announced_endpoints@),
            failed: strings(self.reported_failed_connects@),
            waiting_reported: self.reported_waiting_for_endpoint,
            mdns_error_reported: self.reported_connect_mdns_error,
            last_summary: self.last_candidate_summary@,
            last_bonjour: match self.last_bonjour_check {
                Some(t) => Some(t as nat),
                None => None,
            },
            base_services: service_views(self.baseline_services@),
            base_devices: strs(self.baseline_devices@),
            stage: stage_view(self.stage),
        }
    }
}

pub open spec fn input_view(i: ConnectInput) -> InputView {
    match i {
        ConnectInput::NextRound => InputView::NextRound,
        ConnectInput::Round { devices, services, now } => InputView::Round(
            device_views(devices@),
            match services {
                Ok(s) => Ok(service_views(s@)),
                Err(e) => Err(e@),
            },
            now as nat,
        ),
        ConnectInput::ConnectResult { result, devices, now } => InputView::ConnectResult(
            match result {
                Ok(o) => Ok(o@),
                Err(e) => Err(e@),
            },
            device_views(devices@),
            now as nat,
        ),
        ConnectInput::Fallback { device, now } => InputView::Fallback(opt_device_view(device), now as nat),
        ConnectInput::Manual(e) => InputView::Manual(match e {
            Some(x) => Some(x@),
            None => None,
        }),
        ConnectInput::ManualResult(r) => InputView::ManualResult(match r {
            Ok(d) => Ok(d@),
            Err(e) => Err(e@),
        }),
    }
}

pub open spec fn action_view(a: ConnectAction) -> ActionView {
    match a {
        ConnectAction::Snapshot => ActionView::Snapshot,
        ConnectAction::Connect(e) => ActionView::Connect(e@),
        ConnectAction::TryBonjour => ActionView::TryBonjour,
        ConnectAction::TryScreen => ActionView::TryScreen,
        ConnectAction::AskManual => ActionView::AskManual,
        ConnectAction::ConnectManual(e) => ActionView::ConnectManual(e@),
        ConnectAction::Sleep(ms) => ActionView::Sleep(ms as nat),
        ConnectAction::Done(d) => ActionView::Done(d@),
        ConnectAction::Fail(m) => ActionView::Fail(m@),
    }
}

/// The answer that each stage waits for.
pub open spec fn fits(stage: StageView, input: InputView) -> bool {
    match input {
        InputView::NextRound => stage is Pending,
        InputView::Round(..) => stage is Snapshot,
        InputView::ConnectResult(..) => stage matches StageView::Connecting(c, n, _) && n < c.len(),
        InputView::Fallback(..) => stage is EarlyBonjour || stage is LateBonjour || stage is LateScreen
            || stage is DeadlineScreen,
        InputView::Manual(_) => stage is Manual,
        InputView::ManualResult(_) => stage is ManualConnect,
    }
}

pub open spec fn no_endpoint_found() -> Seq<char> {
    "paired, but no connectable endpoint was found"@
}

pub open spec fn timed_out_warning() -> EventView {
    EventView::Warning("Automatic discovery timed out before finding a connectable wireless debugging endpoint."@)
}

pub open spec fn round_event(v: ConnectView) -> EventView {
    EventView::Progress(
        ProgressView {
            kind: PairingProgressKind::WaitingForConnectionEndpoint,
            title: "Connection endpoint wait"@,
            detail: "Checking `adb devices` and wireless debugging connect services."@,
            deadline: Some(v.deadline as u64),
            attempt: None,
            endpoint: Some(v.pairing),
        },
    )
}

pub open spec fn with_stage(v: ConnectView, stage: StageView) -> ConnectView {
    ConnectView { stage, ..v }
}

/// At the end of a round: past the deadline, the screen is read; before it,
/// a pause of at most two seconds.
pub open spec fn deadline_check(v: ConnectView, evs: Seq<EventView>, now: nat) -> (ConnectView, Seq<EventView>, ActionView) {
    if now >= v.deadline {
        (with_stage(v, StageView::DeadlineScreen), evs, ActionView::TryScreen)
    } else {
        (with_stage(v, StageView::Pending), evs, ActionView::Sleep(min_nat((v.deadline - now) as nat, 2000)))
    }
}

/// After the connects of a round: once a connect failed, Bonjour and the
/// screen are tried first.
pub open spec fn end_of_round(v: ConnectView, evs: Seq<EventView>, now: nat) -> (ConnectView, Seq<EventView>, ActionView) {
    if v.failed.len() > 0 {
        (with_stage(v, StageView::LateBonjour), evs, ActionView::TryBonjour)
    } else {
        deadline_check(v, evs, now)
    }
}

/// `adb connect` on candidate `i`: announced the first time, and counted.
pub open spec fn connect_begin(v: ConnectView, cands: Seq<ServiceView>, i: nat, ss: Seq<ServiceView>, evs: Seq<EventView>) -> (ConnectView, Seq<EventView>, ActionView) {
    let a = cands[i as int].address;
    let known = v.announced.contains(a);
    let att = v.attempt + 1;
    (
        ConnectView {
            attempt: att,
            announced: if known { v.announced } else { v.announced.push(a) },
            stage: StageView::Connecting(cands, i, ss),
            ..v
        },
        evs + (if known { Seq::<EventView>::empty() } else { seq![EventView::Status("Connecting to "@ + a + "..."@)] })
            + seq![
            progress(PairingProgressKind::Connecting, "Connecting to phone"@, "Running `adb connect` and verifying the new device."@, v.deadline, Some(att), Some(a)),
            EventView::Status("Attempt "@ + decimal(att) + ": adb connect "@ + a),
        ],
        ActionView::Connect(a),
    )
}

pub open spec fn continue_connects(v: ConnectView, cands: Seq<ServiceView>, i: nat, ss: Seq<ServiceView>, evs: Seq<EventView>, now: nat) -> (ConnectView, Seq<EventView>, ActionView) {
    if i + 1 < cands.len() {
        connect_begin(v, cands, i + 1, ss, evs)
    } else {
        end_of_round(v, evs, now)
    }
}

/// The first candidate through which a new ready device is found.
pub open spec fn cand_match(ds: Seq<DeviceView>, cands: Seq<ServiceView>, base: Seq<Seq<char>>) -> Option<DeviceView>
    decreases cands.len(),
{
    if cands.len() == 0 {
        None
    } else {
        match first_picked(ds, Sel::NewFor(base, cands[0])) {
            Some(d) => Some(d),
            None => cand_match(ds, cands.drop_first(), base),
        }
    }
}

/// The note on how many ready devices ADB sees, when it sees some.
pub open spec fn ready_notice(ds: Seq<DeviceView>) -> Seq<EventView> {
    if ready_count(ds) > 0 {
        seq![EventView::Status("ADB sees "@ + decimal(ready_count(ds)) + " ready device(s), but not the just-paired phone yet."@)]
    } else {
        seq![]
    }
}

/// A round's snapshot: the phone by its expected serial, else through a
/// connect candidate; else the candidates are reported, Bonjour is checked
/// when none is advertised (at most every ten seconds), and each candidate
/// is connected in turn.
pub open spec fn on_round(v: ConnectView, ds: Seq<DeviceView>, svc: Result<Seq<ServiceView>, Seq<char>>, now: nat) -> (ConnectView, Seq<EventView>, ActionView) {
    let (v1, e1, ss) = match svc {
        Ok(s) => (v, Seq::<EventView>::empty(), s),
        Err(e) => if v.mdns_error_reported {
            (v, Seq::<EventView>::empty(), Seq::<ServiceView>::empty())
        } else {
            (
                ConnectView { mdns_error_reported: true, ..v },
                seq![EventView::Warning("adb mDNS connect lookup failed: "@ + e)],
                Seq::<ServiceView>::empty(),
            )
        },
    };
    let cands = candidates_spec(ss, v.pairing, v.base_services);
    match snapshot_match(ds, v.expected, v.base_devices, ss) {
        Some(d) => (
            with_stage(v1, StageView::Finished),
            e1.push(EventView::Success("ADB device is ready: "@ + display_name_spec(d))),
            ActionView::Done(d),
        ),
        None => {
            let e2 = e1 + ready_notice(ds);
            match cand_match(ds, cands, v.base_devices) {
                Some(d) => (
                    with_stage(v1, StageView::Finished),
                    e2.push(EventView::Success("ADB device is ready through mDNS: "@ + display_name_spec(d))),
                    ActionView::Done(d),
                ),
                None => {
                    let summary = endpoint_summary_spec(cands);
                    let none = cands.len() == 0;
                    let (v2, e3) = if none {
                        if v1.waiting_reported {
                            (v1, e2)
                        } else {
                            (
                                ConnectView { waiting_reported: true, ..v1 },
                                e2.push(EventView::Status("Waiting for the phone to advertise its connection endpoint..."@)),
                            )
                        }
                    } else if summary != v1.last_summary {
                        (
                            ConnectView { last_summary: summary, ..v1 },
                            e2.push(EventView::Status("Connect endpoint candidate(s): "@ + summary)),
                        )
                    } else {
                        (v1, e2)
                    };
                    let due = none && match v2.last_bonjour {
                        Some(t) => now >= t && now - t >= 10_000,
                        None => true,
                    };
                    if due {
                        (
                            ConnectView { last_bonjour: Some(now), stage: StageView::EarlyBonjour, ..v2 },
                            e3,
                            ActionView::TryBonjour,
                        )
                    } else if !none {
                        connect_begin(v2, cands, 0, ss, e3)
                    } else {
                        end_of_round(v2, e3, now)
                    }
                },
            }
        },
    }
}

/// `adb connect` on candidate `i` ended: after success, the serial it names
/// (or the endpoint) is looked for; after failure, the endpoint is reported
/// once; then the next candidate.
pub open spec fn on_connect_result(v: ConnectView, cands: Seq<ServiceView>, i: nat, ss: Seq<ServiceView>, res: Result<Seq<char>, Seq<char>>, ds: Seq<DeviceView>, now: nat) -> (ConnectView, Seq<EventView>, ActionView) {
    let a = cands[i as int].address;
    match res {
        Ok(out) => {
            let exp = match first_connected_serial(lines(out)) {
                Some(x) => x,
                None => a,
            };
            let v1 = ConnectView { expected: exp, ..v };
            let e = seq![progress(PairingProgressKind::Verifying, "Verifying ADB device"@, "ADB connected; waiting for the device to become ready."@, v.deadline, Some(v.attempt), Some(exp))];
            match snapshot_match(ds, exp, v.base_devices, ss) {
                Some(d) => (with_stage(v1, StageView::Finished), e, ActionView::Done(d)),
                None => continue_connects(v1, cands, i, ss, e, now),
            }
        },
        Err(m) => if v.failed.contains(a) {
            continue_connects(v, cands, i, ss, Seq::<EventView>::empty(), now)
        } else {
            continue_connects(
                ConnectView { failed: v.failed.push(a), ..v },
                cands,
                i,
                ss,
                seq![EventView::Warning("ADB mDNS endpoint "@ + a + " failed: "@ + m)],
                now,
            )
        },
    }
}

/// A fallback found nothing: Bonjour before the connects leads to the end of
/// the round; after failed connects, the screen is read, then the deadline
/// is checked; at the deadline, the timed-out warning and the question.
pub open spec fn fallback_none(v: ConnectView, now: nat) -> (ConnectView, Seq<EventView>, ActionView) {
    match v.stage {
        StageView::EarlyBonjour => end_of_round(v, Seq::<EventView>::empty(), now),
        StageView::LateBonjour => (with_stage(v, StageView::LateScreen), Seq::<EventView>::empty(), ActionView::TryScreen),
        StageView::LateScreen => deadline_check(v, Seq::<EventView>::empty(), now),
        _ => (with_stage(v, StageView::Manual), seq![timed_out_warning()], ActionView::AskManual),
    }
}

/// One step of the wait.
pub open spec fn connect_step(v: ConnectView, input: InputView) -> (ConnectView, Seq<EventView>, ActionView) {
    match input {
        InputView::NextRound => (with_stage(v, StageView::Snapshot), seq![round_event(v)], ActionView::Snapshot),
        InputView::Round(ds, svc, now) => on_round(v, ds, svc, now),
        InputView::ConnectResult(res, ds, now) => match v.stage {
            StageView::Connecting(cands, i, ss) => on_connect_result(v, cands, i, ss, res, ds, now),
            _ => (v, Seq::<EventView>::empty(), ActionView::Fail(Seq::<char>::empty())),
        },
        InputView::Fallback(dev, now) => match dev {
            Some(d) => if is_ready(d) {
                (with_stage(v, StageView::Finished), Seq::<EventView>::empty(), ActionView::Done(d))
            } else {
                fallback_none(v, now)
            },
            None => fallback_none(v, now),
        },
        InputView::Manual(Some(e)) => (with_stage(v, StageView::ManualConnect), Seq::<EventView>::empty(), ActionView::ConnectManual(e)),
        InputView::Manual(None) => (with_stage(v, StageView::Finished), Seq::<EventView>::empty(), ActionView::Fail(no_endpoint_found())),
        InputView::ManualResult(Ok(d)) => if is_ready(d) {
            (with_stage(v, StageView::Finished), Seq::<EventView>::empty(), ActionView::Done(d))
        } else {
            (with_stage(v, StageView::Finished), Seq::<EventView>::empty(), ActionView::Fail(no_endpoint_found()))
        },
        InputView::ManualResult(Err(m)) => (with_stage(v, StageView::Finished), Seq::<EventView>::empty(), ActionView::Fail(m)),
    }
}

fn emit_event(events: &mut Vec<PairingEvent>, e: PairingEvent)
    ensures
        event_views(final(events)@) == event_views(old(events)@).push(event_view(e)),
{
    proof {
        assert(event_views(events@.push(e)) =~= event_views(events@).push(event_view(e)));
    }
    events.push(e);
}

fn extend_events(events: &mut Vec<PairingEvent>, more: Vec<PairingEvent>)
    ensures
        event_views(final(events)@) == event_views(old(events)@) + event_views(more@),
{
    let ghost m0 = more@;
    let ghost e0 = events@;
    let mut more = more;
    events.append(&mut more);
    proof {
        assert(event_views(e0 + m0) =~= event_views(e0) + event_views(m0));
    }
}

fn copy_services(v: &Vec<MdnsService>) -> (r: Vec<MdnsService>)
    ensures
        r@ == v@,
{
    let mut out: Vec<MdnsService> = Vec::new();
    let mut i: usize = 0;
    while i < v.len()
        invariant
            i <= v@.len(),
            out@ == v@.take(i as int),
        decreases v.len() - i,
    {
        out.push(v[i].copy());
        proof {
            assert(out@ =~= v@.take(i + 1));
        }
        i += 1;
    }
    proof {
        assert(v@.take(v@.len() as int) =~= v@);
    }
    out
}

fn first_candidate_match(devices: &[AdbDevice], cands: &[MdnsService], base: &[String]) -> (r: Option<AdbDevice>)
    ensures
        opt_device_view(r) == cand_match(device_views(devices@), service_views(cands@), strs(base@)),
{
    let ghost dv = device_views(devices@);
    let ghost cv = service_views(cands@);
    let mut i: usize = 0;
    proof {
        assert(cv.skip(0) =~= cv);
    }
    while i < cands.len()
        invariant
            i <= cands@.len(),
            dv == device_views(devices@),
            cv == service_views(cands@),
            cand_match(dv, cv, strs(base@)) == cand_match(dv, cv.skip(i as int), strs(base@)),
        decreases cands.len() - i,
    {
        proof {
            assert(cv.skip(i as int)[0] == cands@[i as int]@);
            assert(cv.skip(i as int).drop_first() =~= cv.skip(i + 1));
        }
        let d = matching_ready_device_for_connect_service(devices, &cands[i], base);
        if d.is_some() {
            return d;
        }
        i += 1;
    }
    None
}

impl ConnectWait {
    fn deadline_check_exec(&mut self, events: Vec<PairingEvent>, now: u64) -> (r: (Vec<PairingEvent>, ConnectAction))
        ensures
            ({
                let (v, evs, a) = deadline_check(old(self).view(), event_views(events@), now as nat);
                final(self).view() == v && event_views(r.0@) == evs && action_view(r.1) == a
            }),
    {
        if now >= self.deadline {
            self.stage = ConnectStage::DeadlineScreen;
            (events, ConnectAction::TryScreen)
        } else {
            self.stage = ConnectStage::Pending;
            (events, ConnectAction::Sleep(poll_delay(self.deadline, now, 2000)))
        }
    }

    fn end_of_round_exec(&mut self, events: Vec<PairingEvent>, now: u64) -> (r: (Vec<PairingEvent>, ConnectAction))
        ensures
            ({
                let (v, evs, a) = end_of_round(old(self).view(), event_views(events@), now as nat);
                final(self).view() == v && event_views(r.0@) == evs && action_view(r.1) == a
            }),
    {
        if self.needs_fallbacks() {
            self.stage = ConnectStage::LateBonjour;
            (events, ConnectAction::TryBonjour)
        } else {
            self.deadline_check_exec(events, now)
        }
    }

    fn connect_begin_exec(&mut self, cands: Vec<MdnsService>, i: usize, ss: Vec<MdnsService>, events: Vec<PairingEvent>) -> (r: (Vec<PairingEvent>, ConnectAction))
        requires
            i < cands@.len(),
            old(self).attempt < u32::MAX,
        ensures
            ({
                let (v, evs, a) = connect_begin(old(self).view(), service_views(cands@), i as nat, service_views(ss@), event_views(events@));
                final(self).view() == v && event_views(r.0@) == evs && action_view(r.1) == a
            }),
    {
        let a = cands[i].address.clone();
        proof {
            assert(service_views(cands@)[i as int].address == a@);
        }
        let more = self.begin_connect(a.as_str());
        let mut events = events;
        extend_events(&mut events, more);
        self.stage = ConnectStage::Connecting { candidates: cands, next: i, services: ss };
        (events, ConnectAction::Connect(a))
    }

    fn continue_connects_exec(&mut self, cands: Vec<MdnsService>, i: usize, ss: Vec<MdnsService>, events: Vec<PairingEvent>, now: u64) -> (r: (Vec<PairingEvent>, ConnectAction))
        requires
            i < cands@.len(),
            old(self).attempt < u32::MAX,
        ensures
            ({
                let (v, evs, a) = continue_connects(old(self).view(), service_views(cands@), i as nat, service_views(ss@), event_views(events@), now as nat);
                final(self).view() == v && event_views(r.0@) == evs && action_view(r.1) == a
            }),
    {
        if i < cands.len() - 1 {
            self.connect_begin_exec(cands, i + 1, ss, events)
        } else {
            self.end_of_round_exec(events, now)
        }
    }

    fn on_round_exec(&mut self, devices: Vec<AdbDevice>, services: Result<Vec<MdnsService>, String>, now: u64) -> (r: (Vec<PairingEvent>, ConnectAction))
        requires
            old(self).attempt < u32::MAX,
        ensures
            ({
                let (v, evs, a) = on_round(
                    old(self).view(),
                    device_views(devices@),
                    match services {
                        Ok(s) => Ok(service_views(s@)),
                        Err(e) => Err(e@),
                    },
                    now as nat,
                );
                final(self).view() == v && event_views(r.0@) == evs && action_view(r.1) == a
            }),
    {
        let mut events: Vec<PairingEvent> = Vec::new();
        proof {
            assert(event_views(events@) =~= Seq::<EventView>::empty());
        }
        let ss: Vec<MdnsService> = match services {
            Ok(s) => s,
            Err(e) => {
                match self.on_services_error(e.as_str()) {
                    Some(w) => {
                        emit_event(&mut events, w);
                    },
                    None => {},
                }
                Vec::new()
            },
        };
        proof {
            assert(service_views(Seq::<MdnsService>::empty()) =~= Seq::<ServiceView>::empty());
        }
        let cands = connect_service_candidates(ss.as_slice(), self.pairing_address.as_str(), self.baseline_services.as_slice());
        let m = matching_ready_device_from_snapshot(
            devices.as_slice(),
            self.expected_serial.as_str(),
            self.baseline_devices.as_slice(),
            ss.as_slice(),
        );
        match m {
            Some(d) => {
                emit_event(&mut events, device_ready_event(&d, false));
                self.stage = ConnectStage::Finished;
                return (events, ConnectAction::Done(d));
            },
            None => {},
        }
        match ready_devices_notice(devices.as_slice()) {
            Some(e) => {
                emit_event(&mut events, e);
            },
            None => {},
        }
        let cm = first_candidate_match(devices.as_slice(), cands.as_slice(), self.baseline_devices.as_slice());
        match cm {
            Some(d) => {
                emit_event(&mut events, device_ready_event(&d, true));
                self.stage = ConnectStage::Finished;
                return (events, ConnectAction::Done(d));
            },
            None => {},
        }
        let summary = endpoint_summary(cands.as_slice());
        let none = cands.len() == 0;
        match self.candidates_notice(summary.as_str(), none) {
            Some(e) => {
                emit_event(&mut events, e);
            },
            None => {},
        }
        if self.take_bonjour_check(none, now) {
            self.stage = ConnectStage::EarlyBonjour;
            return (events, ConnectAction::TryBonjour);
        }
        if !none {
            return self.connect_begin_exec(cands, 0, ss, events);
        }
        self.end_of_round_exec(events, now)
    }

    fn on_connect_result_exec(
        &mut self,
        cands: Vec<MdnsService>,
        i: usize,
        ss: Vec<MdnsService>,
        result: Result<String, String>,
        devices: Vec<AdbDevice>,
        now: u64,
    ) -> (r: (Vec<PairingEvent>, ConnectAction))
        requires
            i < cands@.len(),
            old(self).attempt < u32::MAX,
        ensures
            ({
                let (v, evs, a) = on_connect_result(
                    old(self).view(),
                    service_views(cands@),
                    i as nat,
                    service_views(ss@),
                    match result {
                        Ok(o) => Ok(o@),
                        Err(e) => Err(e@),
                    },
                    device_views(devices@),
                    now as nat,
                );
                final(self).view() == v && event_views(r.0@) == evs && action_view(r.1) == a
            }),
    {
        let a = cands[i].address.clone();
        proof {
            assert(service_views(cands@)[i as int].address == a@);
        }
        let mut events: Vec<PairingEvent> = Vec::new();
        proof {
            assert(event_views(events@) =~= Seq::<EventView>::empty());
        }
        match result {
            Ok(out) => {
                let e = self.on_connect_ok(a.as_str(), out.as_str());
                emit_event(&mut events, e);
                let m = matching_ready_device_from_snapshot(
                    devices.as_slice(),
                    self.expected_serial.as_str(),
                    self.baseline_devices.as_slice(),
                    ss.as_slice(),
                );
                match m {
                    Some(d) => {
                        self.stage = ConnectStage::Finished;
                        return (events, ConnectAction::Done(d));
                    },
                    None => {},
                }
                self.continue_connects_exec(cands, i, ss, events, now)
            },
            Err(m) => {
                match self.on_connect_err(a.as_str(), m.as_str()) {
                    Some(e) => {
                        emit_event(&mut events, e);
                    },
                    None => {},
                }
                self.continue_connects_exec(cands, i, ss, events, now)
            },
        }
    }

    fn fallback_none_exec(&mut self, now: u64) -> (r: (Vec<PairingEvent>, ConnectAction))
        ensures
            ({
                let (v, evs, a) = fallback_none(old(self).view(), now as nat);
                final(self).view() == v && event_views(r.0@) == evs && action_view(r.1) == a
            }),
    {
        let mut events: Vec<PairingEvent> = Vec::new();
        proof {
            assert(event_views(events@) =~= Seq::<EventView>::empty());
        }
        match self.stage {
            ConnectStage::EarlyBonjour => self.end_of_round_exec(events, now),
            ConnectStage::LateBonjour => {
                self.stage = ConnectStage::LateScreen;
                (events, ConnectAction::TryScreen)
            },
            ConnectStage::LateScreen => self.deadline_check_exec(events, now),
            _ => {
                self.stage = ConnectStage::Manual;
                emit_event(&mut events, discovery_timed_out_warning());
                (events, ConnectAction::AskManual)
            },
        }
    }

    /// One step of the wait: takes what the last action produced, and gives
    /// the events to report and the next action.
    pub fn step(&mut self, input: ConnectInput) -> (r: (Vec<PairingEvent>, ConnectAction))
        requires
            fits(old(self).view().stage, input_view(input)),
            old(self).attempt < u32::MAX,
        ensures
            ({
                let (v, evs, a) = connect_step(old(self).view(), input_view(input));
                final(self).view() == v && event_views(r.0@) == evs && action_view(r.1) == a
            }),
    {
        let mut events: Vec<PairingEvent> = Vec::new();
        proof {
            assert(event_views(events@) =~= Seq::<EventView>::empty());
        }
        match input {
            ConnectInput::NextRound => {
                let e = self.round_progress();
                self.stage = ConnectStage::Snapshot;
                emit_event(&mut events, e);
                (events, ConnectAction::Snapshot)
            },
            ConnectInput::Round { devices, services, now } => self.on_round_exec(devices, services, now),
            ConnectInput::ConnectResult { result, devices, now } => {
                let (cands, i, ss) = match &self.stage {
                    ConnectStage::Connecting { candidates, next, services } => (
                        copy_services(candidates),
                        *next,
                        copy_services(services),
                    ),
                    _ => {
                        return (events, ConnectAction::Fail(String::new()));
                    },
                };
                self.on_connect_result_exec(cands, i, ss, result, devices, now)
            },
            ConnectInput::Fallback { device, now } => match device {
                Some(d) => {
                    if d.state.is_ready() {
                        self.stage = ConnectStage::Finished;
                        (events, ConnectAction::Done(d))
                    } else {
                        self.fallback_none_exec(now)
                    }
                },
                None => self.fallback_none_exec(now),
            },
            ConnectInput::Manual(Some(e)) => {
                self.stage = ConnectStage::ManualConnect;
                (events, ConnectAction::ConnectManual(e))
            },
            ConnectInput::Manual(None) => {
                self.stage = ConnectStage::Finished;
                (events, ConnectAction::Fail("paired, but no connectable endpoint was found".to_string()))
            },
            ConnectInput::ManualResult(Ok(d)) => {
                self.stage = ConnectStage::Finished;
                if d.state.is_ready() {
                    (events, ConnectAction::Done(d))
                } else {
                    (events, ConnectAction::Fail("paired, but no connectable endpoint was found".to_string()))
                }
            },
            ConnectInput::ManualResult(Err(m)) => {
                self.stage = ConnectStage::Finished;
                (events, ConnectAction::Fail(m))
            },
        }
    }
}

} // verus!
