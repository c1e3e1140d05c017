//! The steps of QR pairing as transitions: each takes what the last command
//! produced and gives the events to report and the next command to run.
use vstd::prelude::*;

use crate::text::{lower, lowercase, chars_of, string_of, concat, contains, contains_exec};
use crate::qr::PairingQr;
use crate::pairing_flow::{
    PairingProgress,
    PairingProgressKind,
    needs_adb_reset,
    pairing_error_needs_adb_reset,
    compact_error_spec,
    compact_error,
    poll_delay,
};
use crate::command_path::{strings};

verus! {

/// Something for the user to see while pairing.
#[derive(Debug, Clone, PartialEq, Eq)]
pub enum PairingEvent {
    Section { title: String, lines: Vec<String> },
    QrReady(PairingQr),
    Progress(PairingProgress),
    Status(String),
    Success(String),
    Warning(String),
}

pub struct ProgressView {
    pub kind: PairingProgressKind,
    pub title: Seq<char>,
    pub detail: Seq<char>,
    pub deadline: Option<u64>,
    pub attempt: Option<u32>,
    pub endpoint: Option<Seq<char>>,
}

pub enum EventView {
    Section(Seq<char>, Seq<Seq<char>>),
    QrReady(Seq<char>, Seq<char>, Seq<char>),
    Progress(ProgressView),
    Status(Seq<char>),
    Success(Seq<char>),
    Warning(Seq<char>),
}

pub open spec fn progress_view(p: PairingProgress) -> ProgressView {
    ProgressView {
        kind: p.kind,
        title: p.title@,
        detail: p.detail@,
        deadline: p.deadline,
        attempt: p.attempt,
        endpoint: match p.endpoint {
            Some(e) => Some(e@),
            None => None,
        },
    }
}

pub open spec fn event_view(e: PairingEvent) -> EventView {
    match e {
        PairingEvent::Section { title, lines } => EventView::Section(title@, strings(lines@)),
        PairingEvent::QrReady(q) => EventView::QrReady(q.instance@, q.secret@, q.payload@),
        PairingEvent::Progress(p) => EventView::Progress(progress_view(p)),
        PairingEvent::Status(s) => EventView::Status(s@),
        PairingEvent::Success(s) => EventView::Success(s@),
        PairingEvent::Warning(s) => EventView::Warning(s@),
    }
}

pub open spec fn event_views(v: Seq<PairingEvent>) -> Seq<EventView> {
    v.map_values(|e: PairingEvent| event_view(e))
}

fn emit(events: &mut Vec<PairingEvent>, e: PairingEvent)
    ensures
        event_views(final(events)@) == event_views(old(events)@).push(event_view(e)),
{
    proof {
        assert(event_views(events@.push(e)) =~= event_views(events@).push(event_view(e)));
    }
    events.push(e);
}

fn cat(a: &str, b: &str) -> (r: String)
    ensures
        r@ == a@ + b@,
{
    string_of(&concat(&chars_of(a), &chars_of(b)))
}

fn cat3(a: &str, b: &str, c: &str) -> (r: String)
    ensures
        r@ == a@ + b@ + c@,
{
    let ab = concat(&chars_of(a), &chars_of(b));
    string_of(&concat(&ab, &chars_of(c)))
}

// ---------------------------------------------------------------------------
// Completing the pairing
// ---------------------------------------------------------------------------

/// A failure that says the pairing socket was not ready yet, so another pass may succeed.
pub open spec fn retryable(message: Seq<char>) -> bool {
    let m = lower(message);
    contains(m, "connection refused"@) || contains(m, "timed out"@) || contains(m, "failed to connect"@)
}

pub fn pairing_error_is_retryable(message: &str) -> (r: bool)
    ensures
        r == retryable(message@),
{
    let m = lowercase(&chars_of(message));
    contains_exec(&m, &chars_of("connection refused")) || contains_exec(&m, &chars_of("timed out"))
        || contains_exec(&m, &chars_of("failed to connect"))
}

/// Trying `adb pair` on each endpoint in turn, in passes, until one pairs,
/// a protocol fault persists after one ADB restart, or no failure of a pass
/// was retryable, or the deadline (milliseconds) has passed.
#[derive(Debug, Clone, PartialEq, Eq)]
pub struct PairAttempts {
    pub endpoints: Vec<String>,
    pub next: usize,
    pub attempt: u32,
    pub reset_done: bool,
    pub retryable: bool,
    pub last_error: Option<String>,
    pub deadline: u64,
}

/// What to run next.
#[derive(Debug, PartialEq, Eq)]
pub enum PairCommand {
    /// `adb pair` with this endpoint and the QR secret.
    Pair(String),
    /// Restart the local ADB server.
    ResetServer,
    /// Wait this many milliseconds.
    Sleep(u64),
    /// Pairing is over: the endpoint that paired, or why none did.
    Finish(Result<String, String>),
}

pub struct AttemptsView {
    pub endpoints: Seq<Seq<char>>,
    pub next: nat,
    pub attempt: nat,
    pub reset_done: bool,
    pub retryable: bool,
    pub last_error: Option<Seq<char>>,
    pub deadline: nat,
}

pub enum CommandView {
    Pair(Seq<char>),
    ResetServer,
    Sleep(nat),
    Finish(Result<Seq<char>, Seq<char>>),
}

pub open spec fn opt_str_view(o: Option<String>) -> Option<Seq<char>> {
    match o {
        Some(s) => Some(s@),
        None => None,
    }
}

impl PairAttempts {
    pub open spec fn view(self) -> AttemptsView {
        AttemptsView {
            endpoints: strings(self.endpoints@),
            next: self.next as nat,
            attempt: self.attempt as nat,
            reset_done: self.reset_done,
            retryable: self.retryable,
            last_error: opt_str_view(self.last_error),
            deadline: self.deadline as nat,
        }
    }
}

pub open spec fn command_view(c: PairCommand) -> CommandView {
    match c {
        PairCommand::Pair(e) => CommandView::Pair(e@),
        PairCommand::ResetServer => CommandView::ResetServer,
        PairCommand::Sleep(ms) => CommandView::Sleep(ms as nat),
        PairCommand::Finish(Ok(e)) => CommandView::Finish(Ok(e@)),
        PairCommand::Finish(Err(e)) => CommandView::Finish(Err(e@)),
    }
}

pub open spec fn progress(
    kind: PairingProgressKind,
    title: Seq<char>,
    detail: Seq<char>,
    deadline: nat,
    attempt: Option<nat>,
    endpoint: Option<Seq<char>>,
) -> EventView {
    EventView::Progress(
        ProgressView {
            kind,
            title,
            detail,
            deadline: Some(deadline as u64),
            attempt: match attempt {
                Some(a) => Some(a as u32),
                None => None,
            },
            endpoint,
        },
    )
}

/// `failed to pair with any discovered endpoint`, with the last error when there is one.
pub open spec fn pairing_failed(last_error: Option<Seq<char>>) -> Seq<char> {
    match last_error {
        Some(e) => "failed to pair with any discovered endpoint; last error: "@ + e,
        None => "failed to pair with any discovered endpoint"@,
    }
}

pub open spec fn min_nat(a: nat, b: nat) -> nat {
    if a <= b {
        a
    } else {
        b
    }
}

/// The next step from `s`: try the next endpoint of the pass, or, after the
/// last one, retry after a pause when a retryable failure came before the
/// deadline, else give up.
pub open spec fn begin(s: AttemptsView, now: nat) -> (AttemptsView, Seq<EventView>, CommandView) {
    if s.next < s.endpoints.len() {
        let e = s.endpoints[s.next as int];
        let a = s.attempt + 1;
        (
            AttemptsView { attempt: a, ..s },
            seq![
                progress(PairingProgressKind::CompletingPairing, "Completing ADB pairing"@, "QR scan detected; running `adb pair`."@, s.deadline, Some(a), Some(e)),
                EventView::Status("Pairing with "@ + e + "..."@),
            ],
            CommandView::Pair(e),
        )
    } else if !s.retryable || now >= s.deadline {
        (s, seq![], CommandView::Finish(Err(pairing_failed(s.last_error))))
    } else {
        (
            s,
            seq![
                EventView::Status("Pairing endpoint is visible but not ready yet; retrying..."@),
                progress(PairingProgressKind::CompletingPairing, "Pairing with your phone... retrying"@, "ADB saw the phone, but the pairing socket was not ready yet."@, s.deadline, Some(s.attempt), None),
            ],
            CommandView::Sleep(min_nat((s.deadline - now) as nat, 800)),
        )
    }
}

/// What `adb pair` on the current endpoint leads to.
pub open spec fn after_pair(s: AttemptsView, result: Result<(), Seq<char>>, now: nat) -> (AttemptsView, Seq<EventView>, CommandView) {
    let e = s.endpoints[s.next as int];
    match result {
        Ok(_) => (s, seq![EventView::Success("Pairing succeeded with "@ + e + "."@)], CommandView::Finish(Ok(e))),
        Err(m) => {
            let warned = seq![EventView::Warning("Pairing endpoint "@ + e + " failed: "@ + m)];
            if needs_adb_reset(m) {
                if s.reset_done {
                    let last = m + ". ADB was restarted once and the pairing protocol still failed; start a new QR scan, or toggle Wireless debugging off and on before retrying."@;
                    (
                        AttemptsView { last_error: Some(last), ..s },
                        warned,
                        CommandView::Finish(Err(pairing_failed(Some(last)))),
                    )
                } else {
                    (
                        AttemptsView { last_error: Some(m), reset_done: true, ..s },
                        warned + seq![
                            progress(PairingProgressKind::RestartingAdb, "Restarting ADB server"@, "ADB reported a pairing protocol fault; resetting the local ADB server before retrying."@, s.deadline, Some(s.attempt), Some(e)),
                            EventView::Status("Restarting ADB server after pairing protocol fault..."@),
                        ],
                        CommandView::ResetServer,
                    )
                }
            } else {
                let t = AttemptsView {
                    last_error: Some(m),
                    retryable: s.retryable || retryable(m),
                    next: s.next + 1,
                    ..s
                };
                let (u, more, c) = begin(t, now);
                (
                    u,
                    warned + seq![
                        progress(PairingProgressKind::CompletingPairing, "Pairing endpoint not ready"@, "Retrying after: "@ + compact_error_spec(m), s.deadline, Some(s.attempt), Some(e)),
                    ] + more,
                    c,
                )
            }
        },
    }
}

pub open spec fn result_view(r: Result<(), String>) -> Result<(), Seq<char>> {
    match r {
        Ok(_) => Ok(()),
        Err(e) => Err(e@),
    }
}

impl PairAttempts {
    fn begin_step(&mut self, events: &mut Vec<PairingEvent>, now: u64) -> (c: PairCommand)
        requires
            old(self).next <= old(self).endpoints@.len(),
            old(self).attempt < u32::MAX,
        ensures
            ({
                let (s, evs, cmd) = begin(old(self).view(), now as nat);
                &&& final(self).view() == s
                &&& event_views(final(events)@) == event_views(old(events)@) + evs
                &&& command_view(c) == cmd
            }),
            final(self).next <= final(self).endpoints@.len(),
    {
        let ghost ev0 = event_views(events@);
        if self.next < self.endpoints.len() {
            let e = self.endpoints[self.next].clone();
            proof {
                assert(strings(self.endpoints@)[self.next as int] == e@);
            }
            self.attempt = self.attempt + 1;
            let p = PairingProgress::new(
                PairingProgressKind::CompletingPairing,
                "Completing ADB pairing".to_string(),
                "QR scan detected; running `adb pair`.".to_string(),
            ).deadline(self.deadline).attempt(self.attempt).endpoint(e.clone());
            emit(events, PairingEvent::Progress(p));
            emit(events, PairingEvent::Status(cat3("Pairing with ", e.as_str(), "...")));
            proof {
                let (s, evs, cmd) = begin(old(self).view(), now as nat);
                assert(event_views(events@) =~= ev0 + evs);
            }
            return PairCommand::Pair(e);
        }
        if !self.retryable || now >= self.deadline {
            let msg = match &self.last_error {
                Some(err) => cat("failed to pair with any discovered endpoint; last error: ", err.as_str()),
                None => "failed to pair with any discovered endpoint".to_string(),
            };
            proof {
                assert(event_views(events@) =~= ev0 + Seq::<EventView>::empty());
            }
            return PairCommand::Finish(Err(msg));
        }
        emit(events, PairingEvent::Status("Pairing endpoint is visible but not ready yet; retrying...".to_string()));
        let p = PairingProgress::new(
            PairingProgressKind::CompletingPairing,
            "Pairing with your phone... retrying".to_string(),
            "ADB saw the phone, but the pairing socket was not ready yet.".to_string(),
        ).deadline(self.deadline).attempt(self.attempt);
        emit(events, PairingEvent::Progress(p));
        proof {
            let (s, evs, cmd) = begin(old(self).view(), now as nat);
            assert(event_views(events@) =~= ev0 + evs);
        }
        PairCommand::Sleep(poll_delay(self.deadline, now, 800))
    }

    /// Starts trying `endpoints`, with thirty seconds from `now` (milliseconds)
    /// to succeed.
    pub fn start(endpoints: Vec<String>, now: u64) -> (r: (PairAttempts, Vec<PairingEvent>, PairCommand))
        requires
            now <= u64::MAX - 30_000,
        ensures
            ({
                let s0 = AttemptsView {
                    endpoints: strings(endpoints@),
                    next: 0,
                    attempt: 0,
                    reset_done: false,
                    retryable: false,
                    last_error: None,
                    deadline: (now + 30_000) as nat,
                };
                let (s, evs, cmd) = begin(s0, now as nat);
                &&& r.0.view() == s
                &&& event_views(r.1@) == seq![EventView::Success("Phone found. Completing ADB pairing..."@)] + evs
                &&& command_view(r.2) == cmd
                &&& r.0.next <= r.0.endpoints@.len()
            }),
    {
        let mut s = PairAttempts {
            endpoints,
            next: 0,
            attempt: 0,
            reset_done: false,
            retryable: false,
            last_error: None,
            deadline: now + 30_000,
        };
        let mut events: Vec<PairingEvent> = Vec::new();
        proof {
            assert(event_views(events@) =~= Seq::<EventView>::empty());
        }
        emit(&mut events, PairingEvent::Success("Phone found. Completing ADB pairing...".to_string()));
        let c = s.begin_step(&mut events, now);
        (s, events, c)
    }

    /// After `adb pair` on the current endpoint gave `result` at `now`.
    pub fn on_pair_result(&mut self, result: Result<(), String>, now: u64) -> (r: (Vec<PairingEvent>, PairCommand))
        requires
            old(self).next < old(self).endpoints@.len(),
            old(self).attempt < u32::MAX,
        ensures
            ({
                let (s, evs, cmd) = after_pair(old(self).view(), result_view(result), now as nat);
                &&& final(self).view() == s
                &&& event_views(r.0@) == evs
                &&& command_view(r.1) == cmd
            }),
            final(self).next <= final(self).endpoints@.len(),
    {
        let e = self.endpoints[self.next].clone();
        proof {
            assert(strings(self.endpoints@)[self.next as int] == e@);
        }
        let mut events: Vec<PairingEvent> = Vec::new();
        proof {
            assert(event_views(events@) =~= Seq::<EventView>::empty());
        }
        match result {
            Ok(()) => {
                emit(&mut events, PairingEvent::Success(cat3("Pairing succeeded with ", e.as_str(), ".")));
                proof {
                    assert(event_views(events@) =~= seq![EventView::Success("Pairing succeeded with "@ + e@ + "."@)]);
                }
                (events, PairCommand::Finish(Ok(e)))
            },
            Err(m) => {
                let a = concat(&chars_of("Pairing endpoint "), &chars_of(e.as_str()));
                let b = concat(&a, &chars_of(" failed: "));
                emit(&mut events, PairingEvent::Warning(string_of(&concat(&b, &chars_of(m.as_str())))));
                let ghost warned = event_views(events@);
                proof {
                    assert(warned =~= seq![EventView::Warning("Pairing endpoint "@ + e@ + " failed: "@ + m@)]);
                }
                if pairing_error_needs_adb_reset(m.as_str()) {
                    if self.reset_done {
                        let last = cat(
                            m.as_str(),
                            ". ADB was restarted once and the pairing protocol still failed; start a new QR scan, or toggle Wireless debugging off and on before retrying.",
                        );
                        let msg = cat("failed to pair with any discovered endpoint; last error: ", last.as_str());
                        self.last_error = Some(last);
                        return (events, PairCommand::Finish(Err(msg)));
                    }
                    self.reset_done = true;
                    self.last_error = Some(m);
                    let p = PairingProgress::new(
                        PairingProgressKind::RestartingAdb,
                        "Restarting ADB server".to_string(),
                        "ADB reported a pairing protocol fault; resetting the local ADB server before retrying.".to_string(),
                    ).deadline(self.deadline).attempt(self.attempt).endpoint(e);
                    emit(&mut events, PairingEvent::Progress(p));
                    emit(&mut events, PairingEvent::Status("Restarting ADB server after pairing protocol fault...".to_string()));
                    proof {
                        let (s, evs, cmd) = after_pair(old(self).view(), result_view(result), now as nat);
                        assert(event_views(events@) =~= evs);
                    }
                    return (events, PairCommand::ResetServer);
                }
                let again = pairing_error_is_retryable(m.as_str());
                let detail = cat("Retrying after: ", compact_error(m.as_str()).as_str());
                let p = PairingProgress::new(
                    PairingProgressKind::CompletingPairing,
                    "Pairing endpoint not ready".to_string(),
                    detail,
                ).deadline(self.deadline).attempt(self.attempt).endpoint(e);
                emit(&mut events, PairingEvent::Progress(p));
                let ghost mid = event_views(events@);
                self.retryable = self.retryable || again;
                self.last_error = Some(m);
                let n = self.endpoints.len();
                proof {
                    assert(self.next < n);
                }
                self.next = self.next + 1;
                let c = self.begin_step(&mut events, now);
                proof {
                    let (s, evs, cmd) = after_pair(old(self).view(), result_view(result), now as nat);
                    let t = AttemptsView {
                        last_error: Some(m@),
                        retryable: old(self).retryable || retryable(m@),
                        next: (old(self).next + 1) as nat,
                        ..old(self).view()
                    };
                    let (u, more, c2) = begin(t, now as nat);
                    assert(event_views(events@) =~= mid + more);
                    assert(mid + more =~= evs);
                }
                (events, c)
            },
        }
    }

    /// After restarting ADB: pause a second, or give up when the restart failed.
    pub fn on_reset_result(&mut self, result: Result<(), String>) -> (r: (Vec<PairingEvent>, PairCommand))
        ensures
            *final(self) == *old(self) || result is Err,
            event_views(r.0@) == Seq::<EventView>::empty(),
            match result {
                Ok(_) => command_view(r.1) == CommandView::Sleep(1000) && *final(self) == *old(self),
                Err(e) => {
                    let last = match old(self).view().last_error {
                        Some(m) => m,
                        None => Seq::<char>::empty(),
                    } + "; additionally failed to restart ADB: "@ + e@;
                    &&& final(self).view() == AttemptsView { last_error: Some(last), ..old(self).view() }
                    &&& command_view(r.1) == CommandView::Finish(Err(pairing_failed(Some(last))))
                },
            },
            final(self).next == old(self).next && final(self).endpoints == old(self).endpoints,
    {
        let events: Vec<PairingEvent> = Vec::new();
        proof {
            assert(event_views(events@) =~= Seq::<EventView>::empty());
        }
        match result {
            Ok(()) => (events, PairCommand::Sleep(1000)),
            Err(e) => {
                let m = match &self.last_error {
                    Some(m) => m.clone(),
                    None => String::new(),
                };
                let last = cat3(m.as_str(), "; additionally failed to restart ADB: ", e.as_str());
                let msg = cat("failed to pair with any discovered endpoint; last error: ", last.as_str());
                self.last_error = Some(last);
                (events, PairCommand::Finish(Err(msg)))
            },
        }
    }

    /// After a pause: a new pass over the endpoints from the first.
    pub fn on_slept(&mut self, now: u64) -> (r: (Vec<PairingEvent>, PairCommand))
        requires
            old(self).attempt < u32::MAX,
        ensures
            ({
                let t = AttemptsView { next: 0, retryable: false, ..old(self).view() };
                let (s, evs, cmd) = begin(t, now as nat);
                &&& final(self).view() == s
                &&& event_views(r.0@) == evs
                &&& command_view(r.1) == cmd
            }),
            final(self).next <= final(self).endpoints@.len(),
    {
        self.next = 0;
        self.retryable = false;
        let mut events: Vec<PairingEvent> = Vec::new();
        proof {
            assert(event_views(events@) =~= Seq::<EventView>::empty());
        }
        let c = self.begin_step(&mut events, now);
        proof {
            assert(Seq::<EventView>::empty() + event_views(events@) =~= event_views(events@));
        }
        (events, c)
    }
}

} // verus!
