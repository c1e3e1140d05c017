//! The QR pairing flow: its progress reports, and the decisions taken on what
//! `adb`, Bonjour and the phone's screen report along the way.
use vstd::prelude::*;

use crate::text::{
    trim,
    trimmed,
    lower,
    lowercase,
    chars_of,
    string_of,
    concat,
    contains,
    contains_exec,
    lines,
    split_lines,
    seqs,
    lemma_seqs_push,
    is_digit,
    rsplit_once,
    rsplit_once_exec,
    parse_unsigned,
    parse_unsigned_exec,
    trim_char,
    trim_char_exec,
    slice_range,
    join,
    join_exec,
    push_unique,
};
use crate::adb::{
    AdbDevice,
    DeviceView,
    MdnsService,
    ServiceView,
    device_views,
    service_views,
    strs,
    is_ready,
    is_connect_view,
    endpoint_host_spec,
    endpoint_host_chars,
    matching_ready,
    matching_ready_device,
    matching_ready_device_for_connect_service,
    opt_device_view,
    first_picked,
    picked,
    Sel,
    Pick,
    pick_devices,
    dedupe,
    dedupe_ready_devices,
    display_name_spec,
};
use crate::dnssd::is_ipv4;

verus! {

/// A phone that ADB can talk to.
#[derive(Debug, Clone, PartialEq, Eq)]
pub struct ConnectedPhone {
    pub serial: String,
    pub display_name: String,
}

/// The stage of the pairing flow that a progress report describes.
#[derive(Debug, Clone, Copy, PartialEq, Eq)]
pub enum PairingProgressKind {
    WaitingForQrScan,
    CompletingPairing,
    RestartingAdb,
    WaitingForConnectionEndpoint,
    Connecting,
    Verifying,
    ReadingScreen,
}

/// A progress report: what is happening, until when, on which attempt and
/// endpoint. The deadline is in milliseconds on the caller's monotonic clock.
#[derive(Debug, Clone, PartialEq, Eq)]
pub struct PairingProgress {
    pub kind: PairingProgressKind,
    pub title: String,
    pub detail: String,
    pub deadline: Option<u64>,
    pub attempt: Option<u32>,
    pub endpoint: Option<String>,
}

impl PairingProgress {
    pub fn new(kind: PairingProgressKind, title: String, detail: String) -> (r: Self)
        ensures
            r.kind == kind && r.title == title && r.detail == detail,
            r.deadline is None && r.attempt is None && r.endpoint is None,
    {
        PairingProgress { kind, title, detail, deadline: None, attempt: None, endpoint: None }
    }

    pub fn deadline(self, deadline: u64) -> (r: Self)
        ensures
            r == (PairingProgress { deadline: Some(deadline), ..self }),
    {
        PairingProgress { deadline: Some(deadline), ..self }
    }

    pub fn attempt(self, attempt: u32) -> (r: Self)
        ensures
            r == (PairingProgress { attempt: Some(attempt), ..self }),
    {
        PairingProgress { attempt: Some(attempt), ..self }
    }

    pub fn endpoint(self, endpoint: String) -> (r: Self)
        ensures
            r == (PairingProgress { endpoint: Some(endpoint), ..self }),
    {
        PairingProgress { endpoint: Some(endpoint), ..self }
    }
}

/// What the user chose when ADB already sees connected phones.
#[derive(Debug, Clone, Copy, PartialEq, Eq)]
pub enum AlreadyConnectedChoice {
    Use(usize),
    KeepWaiting,
}

// ---------------------------------------------------------------------------
// Endpoints on the phone's screen
// ---------------------------------------------------------------------------

/// Digits, dots and colons make up an endpoint token.
pub open spec fn is_endpoint_char(c: char) -> bool {
    is_digit(c) || c == '.' || c == ':'
}

/// The pieces between characters that cannot be part of an endpoint, empty
/// pieces included, as `str::split` with that predicate gives them.
pub open spec fn endpoint_tokens(s: Seq<char>) -> Seq<Seq<char>>
    decreases s.len(),
{
    if s.len() == 0 {
        seq![seq![]]
    } else {
        let rest = endpoint_tokens(s.drop_last());
        if is_endpoint_char(s.last()) {
            rest.update(rest.len() - 1, rest.last().push(s.last()))
        } else {
            rest.push(seq![])
        }
    }
}

proof fn lemma_endpoint_tokens_nonempty(s: Seq<char>)
    ensures
        endpoint_tokens(s).len() >= 1,
    decreases s.len(),
{
    if s.len() > 0 {
        lemma_endpoint_tokens_nonempty(s.drop_last());
    }
}

/// `a.b.c.d:port`: four byte-sized parts and a non-zero 16-bit port.
pub open spec fn is_ipv4_endpoint_spec(endpoint: Seq<char>) -> bool {
    match rsplit_once(endpoint, ':') {
        Some((host, port)) => (parse_unsigned(port, 65535) matches Some(p) && p > 0) && is_ipv4(host),
        None => false,
    }
}

pub fn is_ipv4_endpoint(endpoint: &str) -> (r: bool)
    ensures
        r == is_ipv4_endpoint_spec(endpoint@),
{
    is_ipv4_endpoint_chars(&chars_of(endpoint))
}

fn is_ipv4_endpoint_chars(endpoint: &[char]) -> (r: bool)
    ensures
        r == is_ipv4_endpoint_spec(endpoint@),
{
    match rsplit_once_exec(endpoint, ':') {
        Some((host, port)) => {
            let p = parse_unsigned_exec(&port, 65535);
            let ok = match p {
                Some(n) => n > 0,
                None => false,
            };
            ok && crate::dnssd::is_ipv4_address(&host)
        },
        None => false,
    }
}

/// The distinct tokens, trimmed of dots, that are IPv4 endpoints, in order.
pub open spec fn screen_endpoints(tokens: Seq<Seq<char>>) -> Seq<Seq<char>>
    decreases tokens.len(),
{
    if tokens.len() == 0 {
        seq![]
    } else {
        let r = screen_endpoints(tokens.drop_last());
        let t = trim_char(tokens.last(), '.');
        if is_ipv4_endpoint_spec(t) && !r.contains(t) {
            r.push(t)
        } else {
            r
        }
    }
}

fn take_token(out: &mut Vec<Vec<char>>, token: &[char], Ghost(done): Ghost<Seq<Seq<char>>>)
    requires
        seqs(old(out)@) == screen_endpoints(done),
    ensures
        seqs(final(out)@) == screen_endpoints(done.push(token@)),
{
    let t = trim_char_exec(token, '.');
    proof {
        assert(done.push(token@).drop_last() =~= done);
    }
    if is_ipv4_endpoint_chars(&t) {
        push_unique(out, t);
    }
}

/// The IPv4 endpoints written in a screen dump, each once, in order.
pub fn extract_ipv4_endpoints(input: &str) -> (r: Vec<String>)
    ensures
        strs(r@) == screen_endpoints(endpoint_tokens(input@)),
{
    let s = chars_of(input);
    let mut out: Vec<Vec<char>> = Vec::new();
    let mut cur: Vec<char> = Vec::new();
    let ghost mut done: Seq<Seq<char>> = seq![];
    let mut i: usize = 0;
    proof {
        assert(s@.take(0) =~= Seq::<char>::empty());
        assert(seqs(out@) =~= Seq::<Seq<char>>::empty());
        assert(endpoint_tokens(s@.take(0)) =~= done.push(cur@));
    }
    while i < s.len()
        invariant
            i <= s@.len(),
            s@ == input@,
            endpoint_tokens(s@.take(i as int)) == done.push(cur@),
            seqs(out@) == screen_endpoints(done),
        decreases s.len() - i,
    {
        let c = s[i];
        proof {
            assert(s@.take(i + 1).drop_last() =~= s@.take(i as int));
            assert(s@.take(i + 1).last() == c);
        }
        if ('0' <= c && c <= '9') || c == '.' || c == ':' {
            proof {
                let e = done.push(cur@);
                assert(e.update(e.len() - 1, e.last().push(c)) =~= done.push(cur@.push(c)));
            }
            cur.push(c);
        } else {
            take_token(&mut out, &cur, Ghost(done));
            proof {
                done = done.push(cur@);
                assert(done.push(Seq::<char>::empty()) =~= done.push(Seq::<char>::empty()));
            }
            cur = Vec::new();
            proof {
                assert(cur@ =~= Seq::<char>::empty());
            }
        }
        i += 1;
    }
    take_token(&mut out, &cur, Ghost(done));
    proof {
        assert(s@.take(s@.len() as int) =~= s@);
    }
    to_strings(out)
}

fn to_strings(v: Vec<Vec<char>>) -> (r: Vec<String>)
    ensures
        strs(r@) == seqs(v@),
{
    let mut out: Vec<String> = Vec::new();
    let mut i: usize = 0;
    while i < v.len()
        invariant
            i <= v@.len(),
            strs(out@) == seqs(v@).take(i as int),
        decreases v.len() - i,
    {
        let s = string_of(v[i].as_slice());
        proof {
            assert(strs(out@.push(s)) =~= strs(out@).push(s@));
            assert(seqs(v@).take(i + 1) =~= seqs(v@).take(i as int).push(v@[i as int]@));
        }
        out.push(s);
        i += 1;
    }
    proof {
        assert(seqs(v@).take(v@.len() as int) =~= seqs(v@));
    }
    out
}

/// Ready devices that were not already connected before pairing.
pub fn ui_hierarchy_candidate_devices(devices: &[AdbDevice], baseline_devices: &[String]) -> (r: Vec<AdbDevice>)
    ensures
        device_views(r@) == picked(device_views(devices@), Sel::New(strs(baseline_devices@))),
{
    pick_devices(devices, &Pick::New(baseline_devices))
}

// ---------------------------------------------------------------------------
// Matching the paired phone
// ---------------------------------------------------------------------------

/// The first connect service on the expected host whose transport is a new ready device.
pub open spec fn match_through_services(
    ds: Seq<DeviceView>,
    expected: Seq<char>,
    base: Seq<Seq<char>>,
    ss: Seq<ServiceView>,
) -> Option<DeviceView>
    decreases ss.len(),
{
    if ss.len() == 0 {
        None
    } else {
        let s = ss[0];
        let found = if is_connect_view(s) && endpoint_host_spec(s.address) == endpoint_host_spec(expected) {
            first_picked(ds, Sel::NewFor(base, s))
        } else {
            None
        };
        match found {
            Some(d) => Some(d),
            None => match_through_services(ds, expected, base, ss.skip(1)),
        }
    }
}

/// The expected device by serial, host or as the sole new one; failing that,
/// the transport of a connect service on the expected host.
pub open spec fn snapshot_match(
    ds: Seq<DeviceView>,
    expected: Seq<char>,
    base: Seq<Seq<char>>,
    ss: Seq<ServiceView>,
) -> Option<DeviceView> {
    match matching_ready(ds, expected, base) {
        Some(d) => Some(d),
        None => match_through_services(ds, expected, base, ss),
    }
}

pub fn matching_ready_device_from_snapshot(
    devices: &[AdbDevice],
    expected_serial: &str,
    baseline_devices: &[String],
    services: &[MdnsService],
) -> (r: Option<AdbDevice>)
    ensures
        opt_device_view(r) == snapshot_match(
            device_views(devices@),
            expected_serial@,
            strs(baseline_devices@),
            service_views(services@),
        ),
{
    let m = matching_ready_device(devices, expected_serial, baseline_devices);
    if m.is_some() {
        return m;
    }
    let ghost dv = device_views(devices@);
    let ghost sv = service_views(services@);
    let host = endpoint_host_chars(&chars_of(expected_serial));
    let mut i: usize = 0;
    proof {
        assert(sv.skip(0) =~= sv);
    }
    while i < services.len()
        invariant
            i <= services@.len(),
            dv == device_views(devices@),
            sv == service_views(services@),
            host@ == endpoint_host_spec(expected_serial@),
            matching_ready(dv, expected_serial@, strs(baseline_devices@)) is None,
            snapshot_match(dv, expected_serial@, strs(baseline_devices@), sv)
                == match_through_services(dv, expected_serial@, strs(baseline_devices@), sv.skip(i as int)),
        decreases services.len() - i,
    {
        proof {
            assert(sv.skip(i as int)[0] == services@[i as int]@);
            assert(sv.skip(i as int).skip(1) =~= sv.skip(i + 1));
        }
        let s = &services[i];
        if s.is_connect_service() && crate::text::chars_eq(
            &endpoint_host_chars(&chars_of(s.address.as_str())),
            &host,
        ) {
            let d = matching_ready_device_for_connect_service(devices, s, baseline_devices);
            if d.is_some() {
                return d;
            }
        }
        i += 1;
    }
    None
}

/// Ready devices as phones: serial and display name, in order.
pub open spec fn phones_of(ds: Seq<DeviceView>) -> Seq<(Seq<char>, Seq<char>)>
    decreases ds.len(),
{
    if ds.len() == 0 {
        seq![]
    } else if is_ready(ds.last()) {
        phones_of(ds.drop_last()).push((ds.last().serial, display_name_spec(ds.last())))
    } else {
        phones_of(ds.drop_last())
    }
}

pub open spec fn phone_views(v: Seq<ConnectedPhone>) -> Seq<(Seq<char>, Seq<char>)> {
    v.map_values(|p: ConnectedPhone| (p.serial@, p.display_name@))
}

/// The phones ADB already sees, one per wireless transport.
pub fn connected_phones_from_devices(devices: Vec<AdbDevice>, services: &[MdnsService]) -> (r: Vec<ConnectedPhone>)
    ensures
        phone_views(r@) == phones_of(dedupe(device_views(devices@), service_views(services@))),
{
    let deduped = dedupe_ready_devices(devices, services);
    let ghost dv = device_views(deduped@);
    let mut out: Vec<ConnectedPhone> = Vec::new();
    let mut i: usize = 0;
    proof {
        assert(dv.take(0) =~= Seq::<DeviceView>::empty());
        assert(phone_views(out@) =~= Seq::<(Seq<char>, Seq<char>)>::empty());
    }
    while i < deduped.len()
        invariant
            i <= deduped@.len(),
            dv == device_views(deduped@),
            phone_views(out@) == phones_of(dv.take(i as int)),
        decreases deduped.len() - i,
    {
        proof {
            let p = dv.take(i + 1);
            assert(p.drop_last() =~= dv.take(i as int));
            assert(p.last() == deduped@[i as int]@);
        }
        if deduped[i].state.is_ready() {
            let phone = ConnectedPhone {
                serial: deduped[i].serial.clone(),
                display_name: deduped[i].display_name(),
            };
            proof {
                assert(phone_views(out@.push(phone)) =~= phone_views(out@).push(
                    (phone.serial@, phone.display_name@),
                ));
            }
            out.push(phone);
        }
        i += 1;
    }
    proof {
        assert(dv.take(deduped@.len() as int) =~= dv);
    }
    out
}

// ---------------------------------------------------------------------------
// Messages and timing
// ---------------------------------------------------------------------------

/// The service addresses joined by `", "`, or `none`.
pub open spec fn endpoint_summary_spec(ss: Seq<ServiceView>) -> Seq<char> {
    if ss.len() == 0 {
        "none"@
    } else {
        join(ss.map_values(|s: ServiceView| s.address), ", "@)
    }
}

pub fn endpoint_summary(services: &[MdnsService]) -> (r: String)
    ensures
        r@ == endpoint_summary_spec(service_views(services@)),
{
    if services.len() == 0 {
        return "none".to_string();
    }
    let mut parts: Vec<Vec<char>> = Vec::new();
    let mut i: usize = 0;
    while i < services.len()
        invariant
            i <= services@.len(),
            seqs(parts@) == service_views(services@).map_values(|s: ServiceView| s.address).take(i as int),
        decreases services.len() - i,
    {
        let a = chars_of(services[i].address.as_str());
        proof {
            lemma_seqs_push(parts@, a);
            let m = service_views(services@).map_values(|s: ServiceView| s.address);
            assert(m.take(i + 1) =~= m.take(i as int).push(services@[i as int]@.address));
        }
        parts.push(a);
        i += 1;
    }
    proof {
        let m = service_views(services@).map_values(|s: ServiceView| s.address);
        assert(m.take(services@.len() as int) =~= m);
    }
    string_of(&join_exec(&parts, &chars_of(", ")))
}

/// A pairing protocol fault that leaves ADB unable to read the status reply.
pub open spec fn needs_adb_reset(message: Seq<char>) -> bool {
    let m = lower(message);
    contains(m, "protocol fault"@) && (contains(m, "couldn't read status"@) || contains(
        m,
        "could not read status"@,
    ) || contains(m, "no status"@))
}

pub fn pairing_error_needs_adb_reset(message: &str) -> (r: bool)
    ensures
        r == needs_adb_reset(message@),
{
    let m = lowercase(&chars_of(message));
    contains_exec(&m, &chars_of("protocol fault")) && (contains_exec(
        &m,
        &chars_of("couldn't read status"),
    ) || contains_exec(&m, &chars_of("could not read status")) || contains_exec(
        &m,
        &chars_of("no status"),
    ))
}

/// The first non-blank line, trimmed.
pub open spec fn first_nonblank_line(ls: Seq<Seq<char>>) -> Option<Seq<char>>
    decreases ls.len(),
{
    if ls.len() == 0 {
        None
    } else if trim(ls[0]).len() > 0 {
        Some(trim(ls[0]))
    } else {
        first_nonblank_line(ls.skip(1))
    }
}

/// The first non-blank line (or `unknown error`), cut to 96 characters with
/// `...` appended when longer.
pub open spec fn compact_error_spec(message: Seq<char>) -> Seq<char> {
    let m = match first_nonblank_line(lines(message)) {
        Some(l) => l,
        None => "unknown error"@,
    };
    if m.len() <= 96 {
        m
    } else {
        m.take(96) + "..."@
    }
}

pub fn compact_error(message: &str) -> (r: String)
    ensures
        r@ == compact_error_spec(message@),
{
    let ls = split_lines(&chars_of(message));
    let ghost all = seqs(ls@);
    let mut found: Option<Vec<char>> = None;
    let mut i: usize = 0;
    proof {
        assert(all.skip(0) =~= all);
    }
    while i < ls.len()
        invariant_except_break
            i <= ls@.len(),
            all == seqs(ls@),
            all == lines(message@),
            found is None,
            first_nonblank_line(all) == first_nonblank_line(all.skip(i as int)),
        ensures
            all == lines(message@),
            match first_nonblank_line(all) {
                Some(l) => found is Some && found->0@ == l,
                None => found is None,
            },
        decreases ls.len() - i,
    {
        proof {
            assert(all.skip(i as int)[0] == ls@[i as int]@);
            assert(all.skip(i as int).skip(1) =~= all.skip(i + 1));
        }
        let t = trimmed(ls[i].as_slice());
        if t.len() > 0 {
            found = Some(t);
            break;
        }
        i += 1;
    }
    let m = match found {
        Some(l) => l,
        None => chars_of("unknown error"),
    };
    if m.len() <= 96 {
        string_of(&m)
    } else {
        let head = slice_range(&m, 0, 96);
        proof {
            assert(head@ =~= m@.take(96));
        }
        string_of(&concat(&head, &chars_of("...")))
    }
}

/// Bonjour is checked when it never was, or ten seconds have passed since.
pub fn should_check_bonjour(millis_since_last_check: Option<u64>) -> (r: bool)
    ensures
        r == match millis_since_last_check {
            Some(ms) => ms >= 10_000,
            None => true,
        },
{
    match millis_since_last_check {
        Some(ms) => ms >= 10_000,
        None => true,
    }
}

/// How long to sleep before polling again: what is left until the deadline,
/// at most `max_delay` (all in milliseconds).
pub fn poll_delay(deadline: u64, now: u64, max_delay: u64) -> (r: u64)
    ensures
        r == if now >= deadline {
            0
        } else if deadline - now <= max_delay {
            (deadline - now) as u64
        } else {
            max_delay
        },
{
    let remaining = if now >= deadline {
        0
    } else {
        deadline - now
    };
    if remaining <= max_delay {
        remaining
    } else {
        max_delay
    }
}

} // verus!
