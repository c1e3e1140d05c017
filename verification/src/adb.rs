//! ADB device and mDNS service records: parsing `adb devices -l` and
//! `adb mdns services` output, and matching devices to wireless transports.
use vstd::prelude::*;

use crate::text::{
    chars_of,
    string_of,
    concat,
    chars_eq,
    trim,
    trimmed,
    rsplit_once,
    rsplit_once_exec,
    starts_with,
    ends_with,
    contains,
    starts_with_exec,
    ends_with_exec,
    strip_prefix,
    strip_prefix_exec,
    trim_end_char,
    trim_start_char,
    trim_end_char_exec,
    trim_start_char_exec,
    trim_end_str,
    trim_end_str_exec,
    seqs,
    lines,
    split_lines,
    words,
    split_words,
    parse_unsigned,
    parse_unsigned_exec,
    replace_char,
    replace_char_exec,
};

verus! {

// ---------------------------------------------------------------------------
// Records and their views
// ---------------------------------------------------------------------------

/// Connection state of an ADB transport.
#[derive(Debug, Clone, PartialEq, Eq)]
pub enum DeviceState {
    Device,
    Offline,
    Unauthorized,
    Other(String),
}

pub enum StateView {
    Device,
    Offline,
    Unauthorized,
    Other(Seq<char>),
}

impl View for DeviceState {
    type V = StateView;

    open spec fn view(&self) -> StateView {
        match self {
            DeviceState::Device => StateView::Device,
            DeviceState::Offline => StateView::Offline,
            DeviceState::Unauthorized => StateView::Unauthorized,
            DeviceState::Other(s) => StateView::Other(s@),
        }
    }
}

/// One row of `adb devices -l`.
#[derive(Debug, Clone, PartialEq, Eq)]
pub struct AdbDevice {
    pub serial: String,
    pub state: DeviceState,
    pub product: Option<String>,
    pub model: Option<String>,
    pub device: Option<String>,
    pub transport_id: Option<String>,
}

pub struct DeviceView {
    pub serial: Seq<char>,
    pub state: StateView,
    pub product: Option<Seq<char>>,
    pub model: Option<Seq<char>>,
    pub device: Option<Seq<char>>,
    pub transport_id: Option<Seq<char>>,
}

pub open spec fn opt_view(o: Option<String>) -> Option<Seq<char>> {
    match o {
        Some(s) => Some(s@),
        None => None,
    }
}

impl View for AdbDevice {
    type V = DeviceView;

    open spec fn view(&self) -> DeviceView {
        DeviceView {
            serial: self.serial@,
            state: self.state@,
            product: opt_view(self.product),
            model: opt_view(self.model),
            device: opt_view(self.device),
            transport_id: opt_view(self.transport_id),
        }
    }
}

/// One row of `adb mdns services`.
#[derive(Debug, Clone, PartialEq, Eq, Hash)]
pub struct MdnsService {
    pub instance: String,
    pub service_type: String,
    pub address: String,
}

pub struct ServiceView {
    pub instance: Seq<char>,
    pub service_type: Seq<char>,
    pub address: Seq<char>,
}

impl View for MdnsService {
    type V = ServiceView;

    open spec fn view(&self) -> ServiceView {
        ServiceView {
            instance: self.instance@,
            service_type: self.service_type@,
            address: self.address@,
        }
    }
}

pub open spec fn device_views(v: Seq<AdbDevice>) -> Seq<DeviceView> {
    v.map_values(|d: AdbDevice| d@)
}

pub open spec fn service_views(v: Seq<MdnsService>) -> Seq<ServiceView> {
    v.map_values(|s: MdnsService| s@)
}

pub proof fn lemma_device_views_push(v: Seq<AdbDevice>, d: AdbDevice)
    ensures
        device_views(v.push(d)) == device_views(v).push(d@),
{
    assert(device_views(v.push(d)) =~= device_views(v).push(d@));
}

pub proof fn lemma_service_views_push(v: Seq<MdnsService>, s: MdnsService)
    ensures
        service_views(v.push(s)) == service_views(v).push(s@),
{
    assert(service_views(v.push(s)) =~= service_views(v).push(s@));
}

pub fn copy_opt(o: &Option<String>) -> (r: Option<String>)
    ensures
        r == *o,
{
    match o {
        Some(s) => Some(s.clone()),
        None => None,
    }
}

impl DeviceState {
    /// A duplicate of this state.
    pub fn copy(&self) -> (r: Self)
        ensures
            r == *self,
    {
        match self {
            DeviceState::Device => DeviceState::Device,
            DeviceState::Offline => DeviceState::Offline,
            DeviceState::Unauthorized => DeviceState::Unauthorized,
            DeviceState::Other(s) => DeviceState::Other(s.clone()),
        }
    }

    /// The transport is ready for commands.
    pub fn is_ready(&self) -> (r: bool)
        ensures
            r == (self@ is Device),
    {
        match self {
            DeviceState::Device => true,
            _ => false,
        }
    }
}

impl AdbDevice {
    /// A duplicate of this record.
    pub fn copy(&self) -> (r: Self)
        ensures
            r == *self,
    {
        AdbDevice {
            serial: self.serial.clone(),
            state: self.state.copy(),
            product: copy_opt(&self.product),
            model: copy_opt(&self.model),
            device: copy_opt(&self.device),
            transport_id: copy_opt(&self.transport_id),
        }
    }
}

impl MdnsService {
    /// A duplicate of this record.
    pub fn copy(&self) -> (r: Self)
        ensures
            r == *self,
    {
        MdnsService {
            instance: self.instance.clone(),
            service_type: self.service_type.clone(),
            address: self.address.clone(),
        }
    }
}

// ---------------------------------------------------------------------------
// Names of the wireless debugging services
// ---------------------------------------------------------------------------

pub open spec fn pairing_type() -> Seq<char> {
    "_adb-tls-pairing._tcp"@
}

pub open spec fn connect_type() -> Seq<char> {
    "_adb-tls-connect._tcp"@
}

pub fn pairing_type_chars() -> (r: Vec<char>)
    ensures
        r@ == pairing_type(),
{
    chars_of("_adb-tls-pairing._tcp")
}

pub fn connect_type_chars() -> (r: Vec<char>)
    ensures
        r@ == connect_type(),
{
    chars_of("_adb-tls-connect._tcp")
}

/// A service type without its trailing dots.
pub open spec fn normalize_service_type(t: Seq<char>) -> Seq<char> {
    trim_end_char(t, '.')
}

pub open spec fn is_pairing_view(s: ServiceView) -> bool {
    normalize_service_type(s.service_type) == pairing_type()
}

pub open spec fn is_connect_view(s: ServiceView) -> bool {
    normalize_service_type(s.service_type) == connect_type()
}

impl MdnsService {
    pub fn is_pairing_service(&self) -> (r: bool)
        ensures
            r == is_pairing_view(self@),
    {
        let t = trim_end_char_exec(&chars_of(self.service_type.as_str()), '.');
        chars_eq(&t, &pairing_type_chars())
    }

    pub fn is_connect_service(&self) -> (r: bool)
        ensures
            r == is_connect_view(self@),
    {
        let t = trim_end_char_exec(&chars_of(self.service_type.as_str()), '.');
        chars_eq(&t, &connect_type_chars())
    }
}

// ---------------------------------------------------------------------------
// `adb devices -l`
// ---------------------------------------------------------------------------

pub open spec fn state_from_adb(v: Seq<char>) -> StateView {
    if v == "device"@ {
        StateView::Device
    } else if v == "offline"@ {
        StateView::Offline
    } else if v == "unauthorized"@ {
        StateView::Unauthorized
    } else {
        StateView::Other(v)
    }
}

pub fn device_state_from(v: &[char]) -> (r: DeviceState)
    ensures
        r@ == state_from_adb(v@),
{
    if chars_eq(v, &chars_of("device")) {
        DeviceState::Device
    } else if chars_eq(v, &chars_of("offline")) {
        DeviceState::Offline
    } else if chars_eq(v, &chars_of("unauthorized")) {
        DeviceState::Unauthorized
    } else {
        DeviceState::Other(string_of(v))
    }
}

/// The value of the last token that starts with `tag`, if any.
pub open spec fn tag_value(tokens: Seq<Seq<char>>, tag: Seq<char>) -> Option<Seq<char>>
    decreases tokens.len(),
{
    if tokens.len() == 0 {
        None
    } else {
        match strip_prefix(tokens.last(), tag) {
            Some(v) => Some(v),
            None => tag_value(tokens.drop_last(), tag),
        }
    }
}

/// The device row that a line of `adb devices -l` describes, if any.
pub open spec fn parse_device_line(line: Seq<char>) -> Option<DeviceView> {
    let t = trim(line);
    let w = words(t);
    if t.len() == 0 || starts_with(t, "List of devices"@) || w.len() < 2 {
        None
    } else {
        let rest = w.skip(2);
        Some(
            DeviceView {
                serial: w[0],
                state: state_from_adb(w[1]),
                product: tag_value(rest, "product:"@),
                model: tag_value(rest, "model:"@),
                device: tag_value(rest, "device:"@),
                transport_id: tag_value(rest, "transport_id:"@),
            },
        )
    }
}

/// Device rows of the given lines, in order.
pub open spec fn parse_device_lines(ls: Seq<Seq<char>>) -> Seq<DeviceView>
    decreases ls.len(),
{
    if ls.len() == 0 {
        seq![]
    } else {
        let prev = parse_device_lines(ls.drop_last());
        match parse_device_line(ls.last()) {
            Some(d) => prev.push(d),
            None => prev,
        }
    }
}

/// `adb devices -l` output, parsed.
pub open spec fn parse_devices_spec(output: Seq<char>) -> Seq<DeviceView> {
    parse_device_lines(lines(output))
}

fn tag_value_exec(tokens: &Vec<Vec<char>>, from: usize, tag: &[char]) -> (r: Option<String>)
    requires
        from <= tokens@.len(),
    ensures
        opt_view(r) == tag_value(seqs(tokens@).skip(from as int), tag@),
{
    let mut i = tokens.len();
    let ghost all = seqs(tokens@).skip(from as int);
    proof {
        assert(all.take(i - from) =~= all);
    }
    while i > from
        invariant
            from <= i <= tokens@.len(),
            all == seqs(tokens@).skip(from as int),
            tag_value(all, tag@) == tag_value(all.take(i - from), tag@),
        decreases i,
    {
        let ghost pre = all.take(i - from);
        proof {
            assert(pre.last() == tokens@[i - 1]@);
            assert(pre.drop_last() =~= all.take(i - 1 - from));
        }
        match strip_prefix_exec(&tokens[i - 1], tag) {
            Some(v) => {
                return Some(string_of(&v));
            },
            None => {},
        }
        i -= 1;
    }
    proof {
        assert(all.take(0) =~= Seq::<Seq<char>>::empty());
    }
    None
}

fn parse_device_line_exec(line: &[char]) -> (r: Option<AdbDevice>)
    ensures
        r is None ==> parse_device_line(line@) is None,
        r is Some ==> parse_device_line(line@) == Some(r->0@),
{
    let t = trimmed(line);
    let w = split_words(&t);
    if t.len() == 0 || starts_with_exec(&t, &chars_of("List of devices")) || w.len() < 2 {
        return None;
    }
    let serial = string_of(&w[0]);
    let state = device_state_from(&w[1]);
    let product = tag_value_exec(&w, 2, &chars_of("product:"));
    let model = tag_value_exec(&w, 2, &chars_of("model:"));
    let device = tag_value_exec(&w, 2, &chars_of("device:"));
    let transport_id = tag_value_exec(&w, 2, &chars_of("transport_id:"));
    proof {
        assert(seqs(w@)[0] == w@[0]@);
        assert(seqs(w@)[1] == w@[1]@);
    }
    Some(AdbDevice { serial, state, product, model, device, transport_id })
}

/// Parses the output of `adb devices -l` into device rows.
pub fn parse_devices(output: &str) -> (r: Vec<AdbDevice>)
    ensures
        device_views(r@) == parse_devices_spec(output@),
{
    let text = chars_of(output);
    let ls = split_lines(&text);
    let mut out: Vec<AdbDevice> = Vec::new();
    let mut i: usize = 0;
    proof {
        assert(seqs(ls@).take(0) =~= Seq::<Seq<char>>::empty());
        assert(device_views(out@) =~= Seq::<DeviceView>::empty());
    }
    while i < ls.len()
        invariant
            i <= ls@.len(),
            seqs(ls@) == lines(output@),
            device_views(out@) == parse_device_lines(seqs(ls@).take(i as int)),
        decreases ls.len() - i,
    {
        proof {
            let pre = seqs(ls@).take(i + 1);
            assert(pre.drop_last() =~= seqs(ls@).take(i as int));
            assert(pre.last() == ls@[i as int]@);
        }
        match parse_device_line_exec(&ls[i]) {
            Some(d) => {
                proof {
                    lemma_device_views_push(out@, d);
                }
                out.push(d);
            },
            None => {},
        }
        i += 1;
    }
    proof {
        assert(seqs(ls@).take(ls@.len() as int) =~= seqs(ls@));
    }
    out
}

// ---------------------------------------------------------------------------
// `adb mdns services`
// ---------------------------------------------------------------------------

/// The service row that a line of `adb mdns services` describes, if any.
pub open spec fn parse_service_line(line: Seq<char>) -> Option<ServiceView> {
    let t = trim(line);
    let w = words(t);
    if t.len() == 0 || starts_with(t, "List of discovered"@) || w.len() < 3 {
        None
    } else {
        Some(
            ServiceView {
                instance: w[0],
                service_type: normalize_service_type(w[1]),
                address: w[2],
            },
        )
    }
}

pub open spec fn parse_service_lines(ls: Seq<Seq<char>>) -> Seq<ServiceView>
    decreases ls.len(),
{
    if ls.len() == 0 {
        seq![]
    } else {
        let prev = parse_service_lines(ls.drop_last());
        match parse_service_line(ls.last()) {
            Some(s) => prev.push(s),
            None => prev,
        }
    }
}

/// `adb mdns services` output, parsed.
pub open spec fn parse_services_spec(output: Seq<char>) -> Seq<ServiceView> {
    parse_service_lines(lines(output))
}

fn parse_service_line_exec(line: &[char]) -> (r: Option<MdnsService>)
    ensures
        r is None ==> parse_service_line(line@) is None,
        r is Some ==> parse_service_line(line@) == Some(r->0@),
{
    let t = trimmed(line);
    let w = split_words(&t);
    if t.len() == 0 || starts_with_exec(&t, &chars_of("List of discovered")) || w.len() < 3 {
        return None;
    }
    proof {
        assert(seqs(w@)[0] == w@[0]@);
        assert(seqs(w@)[1] == w@[1]@);
        assert(seqs(w@)[2] == w@[2]@);
    }
    Some(
        MdnsService {
            instance: string_of(&w[0]),
            service_type: string_of(&trim_end_char_exec(&w[1], '.')),
            address: string_of(&w[2]),
        },
    )
}

/// Parses the output of `adb mdns services` into service rows.
pub fn parse_mdns_services(output: &str) -> (r: Vec<MdnsService>)
    ensures
        service_views(r@) == parse_services_spec(output@),
{
    let text = chars_of(output);
    let ls = split_lines(&text);
    let mut out: Vec<MdnsService> = Vec::new();
    let mut i: usize = 0;
    proof {
        assert(seqs(ls@).take(0) =~= Seq::<Seq<char>>::empty());
        assert(service_views(out@) =~= Seq::<ServiceView>::empty());
    }
    while i < ls.len()
        invariant
            i <= ls@.len(),
            seqs(ls@) == lines(output@),
            service_views(out@) == parse_service_lines(seqs(ls@).take(i as int)),
        decreases ls.len() - i,
    {
        proof {
            let pre = seqs(ls@).take(i + 1);
            assert(pre.drop_last() =~= seqs(ls@).take(i as int));
            assert(pre.last() == ls@[i as int]@);
        }
        match parse_service_line_exec(&ls[i]) {
            Some(s) => {
                proof {
                    lemma_service_views_push(out@, s);
                }
                out.push(s);
            },
            None => {},
        }
        i += 1;
    }
    proof {
        assert(seqs(ls@).take(ls@.len() as int) =~= seqs(ls@));
    }
    out
}


// ---------------------------------------------------------------------------
// Serials, endpoints and wireless transports
// ---------------------------------------------------------------------------

/// `serial.trim().trim_end_matches(".local").trim_end_matches('.')`.
pub open spec fn normalize_mdns_serial(serial: Seq<char>) -> Seq<char> {
    trim_end_char(trim_end_str(trim(serial), ".local"@), '.')
}

pub fn normalize_mdns_serial_exec(serial: &[char]) -> (r: Vec<char>)
    ensures
        r@ == normalize_mdns_serial(serial@),
{
    let t = trimmed(serial);
    let u = trim_end_str_exec(&t, &chars_of(".local"));
    trim_end_char_exec(&u, '.')
}

/// The serial names an ADB transport opened through an mDNS connect service.
pub open spec fn is_mdns_wireless(serial: Seq<char>) -> bool {
    ends_with(normalize_mdns_serial(serial), connect_type())
}

pub fn is_mdns_wireless_serial(serial: &str) -> (r: bool)
    ensures
        r == is_mdns_wireless(serial@),
{
    let n = normalize_mdns_serial_exec(&chars_of(serial));
    ends_with_exec(&n, &connect_type_chars())
}

/// The transport serial ADB uses for a connect service: `instance.type`.
pub open spec fn service_serial(s: ServiceView) -> Seq<char> {
    trim_end_char(s.instance, '.') + "."@ + normalize_service_type(s.service_type)
}

pub fn connect_service_serial(service: &MdnsService) -> (r: String)
    ensures
        r@ == service_serial(service@),
{
    string_of(&connect_service_serial_chars(service))
}

fn connect_service_serial_chars(service: &MdnsService) -> (r: Vec<char>)
    ensures
        r@ == service_serial(service@),
{
    let inst = trim_end_char_exec(&chars_of(service.instance.as_str()), '.');
    let t = trim_end_char_exec(&chars_of(service.service_type.as_str()), '.');
    let a = concat(&inst, &chars_of("."));
    concat(&a, &t)
}

pub open spec fn serial_matches(serial: Seq<char>, s: ServiceView) -> bool {
    normalize_mdns_serial(serial) == service_serial(s)
}

/// The serial is the mDNS transport name of the connect service.
pub fn serial_matches_connect_service(serial: &str, service: &MdnsService) -> (r: bool)
    ensures
        r == serial_matches(serial@, service@),
{
    let n = normalize_mdns_serial_exec(&chars_of(serial));
    chars_eq(&n, &connect_service_serial_chars(service))
}

pub open spec fn device_matches(d: DeviceView, s: ServiceView) -> bool {
    d.serial == s.address || serial_matches(d.serial, s)
}

/// The device is the transport of the connect service, by endpoint or by mDNS name.
pub fn device_matches_connect_service(device: &AdbDevice, service: &MdnsService) -> (r: bool)
    ensures
        r == device_matches(device@, service@),
{
    device.serial == service.address || serial_matches_connect_service(
        device.serial.as_str(),
        service,
    )
}

/// Host part of `host:port`, without IPv6 brackets; the whole input without a colon.
pub open spec fn endpoint_host_spec(endpoint: Seq<char>) -> Seq<char> {
    let t = trim(endpoint);
    match rsplit_once(t, ':') {
        Some((h, _)) => trim_end_char(trim_start_char(h, '['), ']'),
        None => t,
    }
}

pub fn endpoint_host_chars(endpoint: &[char]) -> (r: Vec<char>)
    ensures
        r@ == endpoint_host_spec(endpoint@),
{
    let t = trimmed(endpoint);
    match rsplit_once_exec(&t, ':') {
        Some((h, _)) => {
            let a = trim_start_char_exec(&h, '[');
            trim_end_char_exec(&a, ']')
        },
        None => t,
    }
}

pub fn endpoint_host(endpoint: &str) -> (r: String)
    ensures
        r@ == endpoint_host_spec(endpoint@),
{
    string_of(&endpoint_host_chars(&chars_of(endpoint)))
}

/// `serial` is `host:port` with a valid port number.
pub open spec fn is_endpoint_serial(serial: Seq<char>) -> bool {
    match rsplit_once(serial, ':') {
        Some((_, port)) => parse_unsigned(port, 65535) is Some,
        None => false,
    }
}

pub fn is_endpoint_serial_exec(serial: &[char]) -> (r: bool)
    ensures
        r == is_endpoint_serial(serial@),
{
    match rsplit_once_exec(serial, ':') {
        Some((_, port)) => parse_unsigned_exec(&port, 65535).is_some(),
        None => false,
    }
}

pub open spec fn is_ready(d: DeviceView) -> bool {
    d.state is Device
}

/// The address of the first connect service that `d` is a transport of, for a ready `d`.
pub open spec fn transport_key(d: DeviceView, services: Seq<ServiceView>) -> Option<Seq<char>>
    decreases services.len(),
{
    if !is_ready(d) || services.len() == 0 {
        None
    } else if is_connect_view(services[0]) && device_matches(d, services[0]) {
        Some(services[0].address)
    } else {
        transport_key(d, services.drop_first())
    }
}

pub fn wireless_transport_key(device: &AdbDevice, services: &[MdnsService]) -> (r: Option<String>)
    ensures
        opt_view(r) == transport_key(device@, service_views(services@)),
{
    let ghost sv = service_views(services@);
    if !device.state.is_ready() {
        return None;
    }
    let mut i: usize = 0;
    proof {
        assert(sv.skip(0) =~= sv);
    }
    while i < services.len()
        invariant
            i <= services@.len(),
            sv == service_views(services@),
            device.state@ is Device,
            transport_key(device@, sv) == transport_key(device@, sv.skip(i as int)),
        decreases services.len() - i,
    {
        proof {
            assert(sv.skip(i as int)[0] == services@[i as int]@);
            assert(sv.skip(i as int).drop_first() =~= sv.skip(i + 1));
        }
        if services[i].is_connect_service() && device_matches_connect_service(device, &services[i]) {
            return Some(services[i].address.clone());
        }
        i += 1;
    }
    None
}

/// `candidate` should stand for a transport currently listed as `current`:
/// the mDNS name is preferred over the `host:port` alias.
pub open spec fn preferred_alias(candidate: DeviceView, current: DeviceView) -> bool {
    is_mdns_wireless(candidate.serial) && is_endpoint_serial(current.serial)
}

fn preferred_wireless_alias(candidate: &AdbDevice, current: &AdbDevice) -> (r: bool)
    ensures
        r == preferred_alias(candidate@, current@),
{
    is_mdns_wireless_serial(candidate.serial.as_str()) && is_endpoint_serial_exec(
        &chars_of(current.serial.as_str()),
    )
}


// ---------------------------------------------------------------------------
// One row per wireless transport
// ---------------------------------------------------------------------------

/// Position of the first device in `ds` whose transport key is `k`, or `ds.len()`.
pub open spec fn first_with_key(ds: Seq<DeviceView>, k: Seq<char>, svcs: Seq<ServiceView>) -> int
    decreases ds.len(),
{
    if ds.len() == 0 {
        0
    } else if transport_key(ds[0], svcs) == Some(k) {
        0
    } else {
        1 + first_with_key(ds.drop_first(), k, svcs)
    }
}

pub proof fn lemma_first_with_key_at(ds: Seq<DeviceView>, k: Seq<char>, svcs: Seq<ServiceView>, m: int)
    requires
        0 <= m <= ds.len(),
        forall|j: int| 0 <= j < m ==> transport_key(ds[j], svcs) != Some(k),
        m < ds.len() ==> transport_key(ds[m], svcs) == Some(k),
    ensures
        first_with_key(ds, k, svcs) == m,
    decreases ds.len(),
{
    if ds.len() > 0 && transport_key(ds[0], svcs) != Some(k) {
        assert forall|j: int| 0 <= j < m - 1 implies transport_key(ds.drop_first()[j], svcs) != Some(
            k,
        ) by {
            assert(ds.drop_first()[j] == ds[j + 1]);
        }
        lemma_first_with_key_at(ds.drop_first(), k, svcs, m - 1);
    }
}

/// `adb devices` rows with the `host:port` and mDNS aliases of one wireless
/// transport collapsed into a single row (the mDNS name is kept).
pub open spec fn dedupe(ds: Seq<DeviceView>, svcs: Seq<ServiceView>) -> Seq<DeviceView>
    decreases ds.len(),
{
    if ds.len() == 0 {
        seq![]
    } else {
        let prev = dedupe(ds.drop_last(), svcs);
        let d = ds.last();
        match transport_key(d, svcs) {
            None => prev.push(d),
            Some(k) => {
                let i = first_with_key(prev, k, svcs);
                if 0 <= i < prev.len() {
                    if preferred_alias(d, prev[i]) {
                        prev.update(i, d)
                    } else {
                        prev
                    }
                } else {
                    prev.push(d)
                }
            },
        }
    }
}

pub fn dedupe_ready_devices(devices: Vec<AdbDevice>, services: &[MdnsService]) -> (r: Vec<
    AdbDevice,
>)
    ensures
        device_views(r@) == dedupe(device_views(devices@), service_views(services@)),
{
    let ghost dv = device_views(devices@);
    let ghost sv = service_views(services@);
    let mut deduped: Vec<AdbDevice> = Vec::new();
    let mut keys: Vec<Option<String>> = Vec::new();
    let mut i: usize = 0;
    proof {
        assert(dv.take(0) =~= Seq::<DeviceView>::empty());
        assert(device_views(deduped@) =~= Seq::<DeviceView>::empty());
    }
    while i < devices.len()
        invariant
            i <= devices@.len(),
            dv == device_views(devices@),
            sv == service_views(services@),
            device_views(deduped@) == dedupe(dv.take(i as int), sv),
            keys@.len() == deduped@.len(),
            forall|j: int|
                0 <= j < keys@.len() ==> #[trigger] opt_view(keys@[j]) == transport_key(
                    deduped@[j]@,
                    sv,
                ),
        decreases devices.len() - i,
    {
        let device = devices[i].copy();
        let ghost prev = device_views(deduped@);
        proof {
            let pre = dv.take(i + 1);
            assert(pre.drop_last() =~= dv.take(i as int));
            assert(pre.last() == device@);
        }
        let key = wireless_transport_key(&device, services);
        match key {
            None => {
                proof {
                    lemma_device_views_push(deduped@, device);
                }
                deduped.push(device);
                keys.push(None);
            },
            Some(k) => {
                let mut j: usize = 0;
                while j < keys.len()
                    invariant
                        j <= keys@.len() == deduped@.len(),
                        forall|m: int|
                            0 <= m < j ==> opt_view(#[trigger] keys@[m]) != Some(k@),
                    ensures
                        j <= keys@.len() == deduped@.len(),
                        forall|m: int|
                            0 <= m < j ==> opt_view(#[trigger] keys@[m]) != Some(k@),
                        j < keys@.len() ==> opt_view(keys@[j as int]) == Some(k@),
                    decreases keys.len() - j,
                {
                    let same = match &keys[j] {
                        Some(existing) => *existing == k,
                        None => false,
                    };
                    if same {
                        break;
                    }
                    j += 1;
                }
                proof {
                    assert forall|m: int| 0 <= m < j implies transport_key(prev[m], sv) != Some(k@) by {
                        assert(opt_view(keys@[m]) == transport_key(deduped@[m]@, sv));
                    }
                    if j < keys@.len() {
                        assert(opt_view(keys@[j as int]) == Some(k@));
                        assert(opt_view(keys@[j as int]) == transport_key(deduped@[j as int]@, sv));
                    }
                    lemma_first_with_key_at(prev, k@, sv, j as int);
                }
                if j < deduped.len() {
                    if preferred_wireless_alias(&device, &deduped[j]) {
                        proof {
                            assert(device_views(deduped@.update(j as int, device)) =~= prev.update(
                                j as int,
                                device@,
                            ));
                        }
                        deduped.set(j, device);
                    }
                } else {
                    proof {
                        lemma_device_views_push(deduped@, device);
                    }
                    deduped.push(device);
                    keys.push(Some(k));
                }
            },
        }
        i += 1;
    }
    proof {
        assert(dv.take(devices@.len() as int) =~= dv);
    }
    deduped
}


// ---------------------------------------------------------------------------
// Choosing devices and services
// ---------------------------------------------------------------------------

pub open spec fn strs(v: Seq<String>) -> Seq<Seq<char>> {
    v.map_values(|s: String| s@)
}

/// Whether one of `set` has the same text as `s`.
pub fn contains_string(set: &[String], s: &String) -> (r: bool)
    ensures
        r == strs(set@).contains(s@),
{
    let mut i: usize = 0;
    while i < set.len()
        invariant
            i <= set@.len(),
            forall|k: int| 0 <= k < i ==> set@[k]@ != s@,
        decreases set.len() - i,
    {
        if set[i] == *s {
            proof {
                assert(strs(set@)[i as int] == s@);
            }
            return true;
        }
        i += 1;
    }
    proof {
        if strs(set@).contains(s@) {
            let k = choose|k: int| 0 <= k < strs(set@).len() && strs(set@)[k] == s@;
            assert(set@[k]@ == s@);
        }
    }
    false
}

/// A criterion for choosing among `adb devices` rows; every choice needs a ready row.
pub enum Pick<'a> {
    /// any ready row
    Ready,
    /// the serial is exactly this one
    Serial(&'a [char]),
    /// the serial's host is this one
    Host(&'a [char]),
    /// the serial is not one of these
    New(&'a [String]),
    /// not one of these, and a transport of this connect service
    NewFor(&'a [String], &'a MdnsService),
}

/// The mathematical form of a [`Pick`].
pub enum Sel {
    Ready,
    Serial(Seq<char>),
    Host(Seq<char>),
    New(Seq<Seq<char>>),
    NewFor(Seq<Seq<char>>, ServiceView),
}

impl<'a> Pick<'a> {
    pub open spec fn sel(self) -> Sel {
        match self {
            Pick::Ready => Sel::Ready,
            Pick::Serial(s) => Sel::Serial(s@),
            Pick::Host(h) => Sel::Host(h@),
            Pick::New(base) => Sel::New(strs(base@)),
            Pick::NewFor(base, svc) => Sel::NewFor(strs(base@), svc@),
        }
    }
}

pub open spec fn picks(p: Sel, d: DeviceView) -> bool {
    is_ready(d) && match p {
        Sel::Ready => true,
        Sel::Serial(s) => d.serial == s,
        Sel::Host(h) => endpoint_host_spec(d.serial) == h,
        Sel::New(base) => !base.contains(d.serial),
        Sel::NewFor(base, svc) => !base.contains(d.serial) && device_matches(d, svc),
    }
}

/// The rows of `ds` that `p` picks, in order.
pub open spec fn picked(ds: Seq<DeviceView>, p: Sel) -> Seq<DeviceView>
    decreases ds.len(),
{
    if ds.len() == 0 {
        seq![]
    } else if picks(p, ds.last()) {
        picked(ds.drop_last(), p).push(ds.last())
    } else {
        picked(ds.drop_last(), p)
    }
}

pub open spec fn first_picked(ds: Seq<DeviceView>, p: Sel) -> Option<DeviceView> {
    let s = picked(ds, p);
    if s.len() > 0 {
        Some(s[0])
    } else {
        None
    }
}

fn picks_exec(p: &Pick, d: &AdbDevice) -> (r: bool)
    ensures
        r == picks(p.sel(), d@),
{
    if !d.state.is_ready() {
        return false;
    }
    match p {
        Pick::Ready => true,
        Pick::Serial(s) => chars_eq(&chars_of(d.serial.as_str()), s),
        Pick::Host(h) => chars_eq(&endpoint_host_chars(&chars_of(d.serial.as_str())), h),
        Pick::New(base) => !contains_string(base, &d.serial),
        Pick::NewFor(base, svc) => !contains_string(base, &d.serial)
            && device_matches_connect_service(d, svc),
    }
}

/// Copies of the rows that `p` picks.
pub fn pick_devices(devices: &[AdbDevice], p: &Pick) -> (r: Vec<AdbDevice>)
    ensures
        device_views(r@) == picked(device_views(devices@), p.sel()),
{
    let ghost dv = device_views(devices@);
    let mut out: Vec<AdbDevice> = Vec::new();
    let mut i: usize = 0;
    proof {
        assert(dv.take(0) =~= Seq::<DeviceView>::empty());
        assert(device_views(out@) =~= Seq::<DeviceView>::empty());
    }
    while i < devices.len()
        invariant
            i <= devices@.len(),
            dv == device_views(devices@),
            device_views(out@) == picked(dv.take(i as int), p.sel()),
        decreases devices.len() - i,
    {
        proof {
            let pre = dv.take(i + 1);
            assert(pre.drop_last() =~= dv.take(i as int));
            assert(pre.last() == devices@[i as int]@);
        }
        if picks_exec(p, &devices[i]) {
            let d = devices[i].copy();
            proof {
                lemma_device_views_push(out@, d);
            }
            out.push(d);
        }
        i += 1;
    }
    proof {
        assert(dv.take(devices@.len() as int) =~= dv);
    }
    out
}

fn first_of(v: Vec<AdbDevice>) -> (r: Option<AdbDevice>)
    ensures
        r is None ==> v@.len() == 0,
        r is Some ==> v@.len() > 0 && r->0 == v@[0],
{
    if v.len() > 0 {
        Some(v[0].copy())
    } else {
        None
    }
}

pub open spec fn opt_device_view(o: Option<AdbDevice>) -> Option<DeviceView> {
    match o {
        Some(d) => Some(d@),
        None => None,
    }
}

/// The device that a connection to `expected` most likely produced: the ready row
/// with that serial, else one on the same host, else the only new ready row.
pub open spec fn matching_ready(ds: Seq<DeviceView>, expected: Seq<char>, base: Seq<Seq<char>>) -> Option<DeviceView> {
    let by_serial = ds.filter(|d: DeviceView| is_ready(d) && d.serial == expected);
    let by_host = ds.filter(
        |d: DeviceView| is_ready(d) && endpoint_host_spec(d.serial) == endpoint_host_spec(expected),
    );
    let fresh = ds.filter(|d: DeviceView| is_ready(d) && !base.contains(d.serial));
    if by_serial.len() > 0 {
        Some(by_serial[0])
    } else if by_host.len() > 0 {
        Some(by_host[0])
    } else if fresh.len() == 1 {
        Some(fresh[0])
    } else {
        None
    }
}

proof fn lemma_picked_filter(ds: Seq<DeviceView>, p: Sel, f: spec_fn(DeviceView) -> bool)
    requires
        forall|d: DeviceView| #[trigger] f(d) == picks(p, d),
    ensures
        picked(ds, p) == ds.filter(f),
    decreases ds.len(),
{
    reveal(Seq::filter);
    if ds.len() > 0 {
        lemma_picked_filter(ds.drop_last(), p, f);
    }
}

pub fn matching_ready_device(devices: &[AdbDevice], expected_serial: &str, baseline_serials: &[String]) -> (r: Option<AdbDevice>)
    ensures
        opt_device_view(r) == matching_ready(
            device_views(devices@),
            expected_serial@,
            strs(baseline_serials@),
        ),
{
    let ghost dv = device_views(devices@);
    let expected = chars_of(expected_serial);
    let host = endpoint_host_chars(&expected);
    let p_serial = Pick::Serial(expected.as_slice());
    let p_host = Pick::Host(host.as_slice());
    let p_new = Pick::New(baseline_serials);
    let by_serial = pick_devices(devices, &p_serial);
    let by_host = pick_devices(devices, &p_host);
    let fresh = pick_devices(devices, &p_new);
    proof {
        let e = expected_serial@;
        let base = strs(baseline_serials@);
        lemma_picked_filter(dv, p_serial.sel(), |d: DeviceView| is_ready(d) && d.serial == e);
        lemma_picked_filter(
            dv,
            p_host.sel(),
            |d: DeviceView| is_ready(d) && endpoint_host_spec(d.serial) == endpoint_host_spec(e),
        );
        lemma_picked_filter(dv, p_new.sel(), |d: DeviceView| is_ready(d) && !base.contains(d.serial));
    }
    if by_serial.len() > 0 {
        proof {
            assert(device_views(by_serial@)[0] == by_serial@[0]@);
        }
        return first_of(by_serial);
    }
    if by_host.len() > 0 {
        proof {
            assert(device_views(by_host@)[0] == by_host@[0]@);
        }
        return first_of(by_host);
    }
    if fresh.len() == 1 {
        proof {
            assert(device_views(fresh@)[0] == fresh@[0]@);
        }
        return first_of(fresh);
    }
    None
}

/// The first new ready row that is a transport of `service`.
pub fn matching_ready_device_for_connect_service(devices: &[AdbDevice], service: &MdnsService, baseline_serials: &[String]) -> (r: Option<AdbDevice>)
    ensures
        opt_device_view(r) == first_picked(
            device_views(devices@),
            Sel::NewFor(strs(baseline_serials@), service@),
        ),
{
    let p = Pick::NewFor(baseline_serials, service);
    let v = pick_devices(devices, &p);
    proof {
        if v@.len() > 0 {
            assert(device_views(v@)[0] == v@[0]@);
        }
    }
    first_of(v)
}


/// A criterion for choosing among connect-service rows; every choice needs a connect service.
pub enum SvcPick<'a> {
    Connect,
    /// on this host and not one of these
    NewOnHost(&'a [char], &'a [MdnsService]),
    /// on this host
    OnHost(&'a [char]),
    /// not one of these
    New(&'a [MdnsService]),
}

/// The mathematical form of a [`SvcPick`].
pub enum SvcSel {
    Connect,
    NewOnHost(Seq<char>, Seq<ServiceView>),
    OnHost(Seq<char>),
    New(Seq<ServiceView>),
}

impl<'a> SvcPick<'a> {
    pub open spec fn sel(self) -> SvcSel {
        match self {
            SvcPick::Connect => SvcSel::Connect,
            SvcPick::NewOnHost(h, base) => SvcSel::NewOnHost(h@, service_views(base@)),
            SvcPick::OnHost(h) => SvcSel::OnHost(h@),
            SvcPick::New(base) => SvcSel::New(service_views(base@)),
        }
    }
}

pub open spec fn svc_picks(p: SvcSel, s: ServiceView) -> bool {
    is_connect_view(s) && match p {
        SvcSel::Connect => true,
        SvcSel::NewOnHost(h, base) => endpoint_host_spec(s.address) == h && !base.contains(s),
        SvcSel::OnHost(h) => endpoint_host_spec(s.address) == h,
        SvcSel::New(base) => !base.contains(s),
    }
}

pub open spec fn svc_picked(ss: Seq<ServiceView>, p: SvcSel) -> Seq<ServiceView>
    decreases ss.len(),
{
    if ss.len() == 0 {
        seq![]
    } else if svc_picks(p, ss.last()) {
        svc_picked(ss.drop_last(), p).push(ss.last())
    } else {
        svc_picked(ss.drop_last(), p)
    }
}

/// Whether `set` holds a service equal to `s`, field by field.
pub fn contains_service(set: &[MdnsService], s: &MdnsService) -> (r: bool)
    ensures
        r == service_views(set@).contains(s@),
{
    let mut i: usize = 0;
    while i < set.len()
        invariant
            i <= set@.len(),
            forall|k: int| 0 <= k < i ==> set@[k]@ != s@,
        decreases set.len() - i,
    {
        if set[i].instance == s.instance && set[i].service_type == s.service_type
            && set[i].address == s.address {
            proof {
                assert(service_views(set@)[i as int] == s@);
            }
            return true;
        }
        i += 1;
    }
    proof {
        if service_views(set@).contains(s@) {
            let k = choose|k: int|
                0 <= k < service_views(set@).len() && service_views(set@)[k] == s@;
            assert(set@[k]@ == s@);
        }
    }
    false
}

fn svc_picks_exec(p: &SvcPick, s: &MdnsService) -> (r: bool)
    ensures
        r == svc_picks(p.sel(), s@),
{
    if !s.is_connect_service() {
        return false;
    }
    match p {
        SvcPick::Connect => true,
        SvcPick::NewOnHost(h, base) => chars_eq(&endpoint_host_chars(&chars_of(s.address.as_str())), h)
            && !contains_service(base, s),
        SvcPick::OnHost(h) => chars_eq(&endpoint_host_chars(&chars_of(s.address.as_str())), h),
        SvcPick::New(base) => !contains_service(base, s),
    }
}

/// Copies of the service rows that `p` picks.
pub fn pick_services(services: &[MdnsService], p: &SvcPick) -> (r: Vec<MdnsService>)
    ensures
        service_views(r@) == svc_picked(service_views(services@), p.sel()),
{
    let ghost sv = service_views(services@);
    let mut out: Vec<MdnsService> = Vec::new();
    let mut i: usize = 0;
    proof {
        assert(sv.take(0) =~= Seq::<ServiceView>::empty());
        assert(service_views(out@) =~= Seq::<ServiceView>::empty());
    }
    while i < services.len()
        invariant
            i <= services@.len(),
            sv == service_views(services@),
            service_views(out@) == svc_picked(sv.take(i as int), p.sel()),
        decreases services.len() - i,
    {
        proof {
            let pre = sv.take(i + 1);
            assert(pre.drop_last() =~= sv.take(i as int));
            assert(pre.last() == services@[i as int]@);
        }
        if svc_picks_exec(p, &services[i]) {
            let s = services[i].copy();
            proof {
                lemma_service_views_push(out@, s);
            }
            out.push(s);
        }
        i += 1;
    }
    proof {
        assert(sv.take(services@.len() as int) =~= sv);
    }
    out
}

/// Connect services that may belong to the phone just paired at `pairing_address`:
/// new ones on its host, else any on its host, else new ones, else all.
pub open spec fn candidates_spec(ss: Seq<ServiceView>, pairing_address: Seq<char>, base: Seq<ServiceView>) -> Seq<ServiceView> {
    let h = endpoint_host_spec(pairing_address);
    let tier0 = svc_picked(ss, SvcSel::NewOnHost(h, base));
    let tier1 = svc_picked(ss, SvcSel::OnHost(h));
    let tier2 = svc_picked(ss, SvcSel::New(base));
    if tier0.len() > 0 {
        tier0
    } else if tier1.len() > 0 {
        tier1
    } else if tier2.len() > 0 {
        tier2
    } else {
        svc_picked(ss, SvcSel::Connect)
    }
}

pub fn connect_service_candidates(services: &[MdnsService], pairing_address: &str, baseline_services: &[MdnsService]) -> (r: Vec<MdnsService>)
    ensures
        service_views(r@) == candidates_spec(
            service_views(services@),
            pairing_address@,
            service_views(baseline_services@),
        ),
{
    let host = endpoint_host_chars(&chars_of(pairing_address));
    let h = host.as_slice();
    let tier0 = pick_services(services, &SvcPick::NewOnHost(h, baseline_services));
    if tier0.len() > 0 {
        return tier0;
    }
    let tier1 = pick_services(services, &SvcPick::OnHost(h));
    if tier1.len() > 0 {
        return tier1;
    }
    let tier2 = pick_services(services, &SvcPick::New(baseline_services));
    if tier2.len() > 0 {
        return tier2;
    }
    pick_services(services, &SvcPick::Connect)
}


pub proof fn lemma_push_contains<A>(s: Seq<A>, a: A)
    ensures
        forall|x: A| #[trigger] s.push(a).contains(x) <==> (s.contains(x) || x == a),
{
    assert forall|x: A| #[trigger] s.push(a).contains(x) <==> (s.contains(x) || x == a) by {
        if s.contains(x) {
            let k = choose|k: int| 0 <= k < s.len() && s[k] == x;
            assert(s.push(a)[k] == x);
        }
        if x == a {
            assert(s.push(a)[s.len() as int] == x);
        }
        if s.push(a).contains(x) {
            let k = choose|k: int| 0 <= k < s.push(a).len() && s.push(a)[k] == x;
            if k < s.len() {
                assert(s[k] == x);
            }
        }
    }
}

pub proof fn lemma_push_no_duplicates<A>(s: Seq<A>, a: A)
    requires
        s.no_duplicates(),
        !s.contains(a),
    ensures
        s.push(a).no_duplicates(),
{
    assert forall|i: int, j: int|
        0 <= i < s.push(a).len() && 0 <= j < s.push(a).len() && i != j implies s.push(a)[i]
        != s.push(a)[j] by {
        if i < s.len() && j < s.len() {
            assert(s[i] != s[j]);
        } else if i < s.len() {
            assert(s[i] != a);
        } else if j < s.len() {
            assert(s[j] != a);
        }
    }
}

/// The distinct connect services among `services`.
pub fn connect_services(services: &[MdnsService]) -> (r: Vec<MdnsService>)
    ensures
        service_views(r@).no_duplicates(),
        forall|s: ServiceView|
            service_views(r@).contains(s) <==> (service_views(services@).contains(s)
                && is_connect_view(s)),
{
    let ghost sv = service_views(services@);
    let mut out: Vec<MdnsService> = Vec::new();
    let mut i: usize = 0;
    proof {
        assert(service_views(out@) =~= Seq::<ServiceView>::empty());
        assert(sv.take(0) =~= Seq::<ServiceView>::empty());
    }
    while i < services.len()
        invariant
            i <= services@.len(),
            sv == service_views(services@),
            service_views(out@).no_duplicates(),
            forall|s: ServiceView|
                #![trigger service_views(out@).contains(s)]
                #![trigger sv.take(i as int).contains(s)]
                service_views(out@).contains(s) <==> (sv.take(i as int).contains(s)
                    && is_connect_view(s)),
        decreases services.len() - i,
    {
        let ghost old_out = service_views(out@);
        let ghost cur = services@[i as int]@;
        proof {
            assert(sv.take(i + 1) =~= sv.take(i as int).push(cur));
            lemma_push_contains(sv.take(i as int), cur);
        }
        let c = services[i].is_connect_service();
        let seen = contains_service(&out, &services[i]);
        if c && !seen {
            let s = services[i].copy();
            proof {
                lemma_service_views_push(out@, s);
                lemma_push_no_duplicates(old_out, cur);
            }
            out.push(s);
        }
        proof {
            assert forall|s: ServiceView|
                service_views(out@).contains(s) <==> (sv.take(i + 1).contains(s)
                    && is_connect_view(s)) by {
                lemma_push_contains(sv.take(i as int), cur);
                lemma_push_contains(old_out, cur);
                assert(old_out.contains(s) <==> (sv.take(i as int).contains(s)
                    && is_connect_view(s)));
            }
        }
        i += 1;
    }
    proof {
        assert(sv.take(services@.len() as int) =~= sv);
    }
    out
}

/// The distinct serials of the ready rows.
pub fn ready_device_serials(devices: &[AdbDevice]) -> (r: Vec<String>)
    ensures
        strs(r@).no_duplicates(),
        forall|x: Seq<char>|
            strs(r@).contains(x) <==> ready_serials(device_views(devices@)).contains(x),
{
    let ghost dv = device_views(devices@);
    let mut out: Vec<String> = Vec::new();
    let mut i: usize = 0;
    proof {
        assert(strs(out@) =~= Seq::<Seq<char>>::empty());
        assert(dv.take(0) =~= Seq::<DeviceView>::empty());
    }
    while i < devices.len()
        invariant
            i <= devices@.len(),
            dv == device_views(devices@),
            strs(out@).no_duplicates(),
            forall|x: Seq<char>|
                strs(out@).contains(x) <==> ready_serials(dv.take(i as int)).contains(x),
        decreases devices.len() - i,
    {
        let ghost old_out = strs(out@);
        proof {
            let pre = dv.take(i + 1);
            assert(pre.drop_last() =~= dv.take(i as int));
            assert(pre.last() == devices@[i as int]@);
            lemma_push_contains(ready_serials(dv.take(i as int)), devices@[i as int].serial@);
        }
        if devices[i].state.is_ready() && !contains_string(&out, &devices[i].serial) {
            let s = devices[i].serial.clone();
            proof {
                assert(strs(out@.push(s)) =~= old_out.push(s@));
                lemma_push_contains(old_out, s@);
                lemma_push_no_duplicates(old_out, s@);
            }
            out.push(s);
        }
        i += 1;
    }
    proof {
        assert(dv.take(devices@.len() as int) =~= dv);
    }
    out
}

/// Serials of the ready rows, in order, repeats included.
pub open spec fn ready_serials(ds: Seq<DeviceView>) -> Seq<Seq<char>>
    decreases ds.len(),
{
    if ds.len() == 0 {
        seq![]
    } else if is_ready(ds.last()) {
        ready_serials(ds.drop_last()).push(ds.last().serial)
    } else {
        ready_serials(ds.drop_last())
    }
}

/// `s` is a connect service that ADB lists twice: under its `host:port` and its mDNS name.
pub open spec fn has_duplicate_alias(s: ServiceView, ds: Seq<DeviceView>) -> bool {
    &&& is_connect_view(s)
    &&& exists|i: int| 0 <= i < ds.len() && is_ready(ds[i]) && ds[i].serial == s.address
    &&& exists|i: int| 0 <= i < ds.len() && is_ready(ds[i]) && serial_matches(ds[i].serial, s)
}

pub open spec fn duplicate_aliases(ss: Seq<ServiceView>, ds: Seq<DeviceView>) -> Seq<Seq<char>>
    decreases ss.len(),
{
    if ss.len() == 0 {
        seq![]
    } else if has_duplicate_alias(ss.last(), ds) {
        duplicate_aliases(ss.drop_last(), ds).push(ss.last().address)
    } else {
        duplicate_aliases(ss.drop_last(), ds)
    }
}

fn has_endpoint_alias(devices: &[AdbDevice], s: &MdnsService) -> (r: bool)
    ensures
        r == exists|i: int|
            0 <= i < device_views(devices@).len() && is_ready(device_views(devices@)[i])
                && device_views(devices@)[i].serial == s@.address,
{
    let ghost dv = device_views(devices@);
    let mut i: usize = 0;
    while i < devices.len()
        invariant
            i <= devices@.len(),
            dv == device_views(devices@),
            forall|k: int| 0 <= k < i ==> !(is_ready(dv[k]) && dv[k].serial == s@.address),
        decreases devices.len() - i,
    {
        proof {
            assert(dv[i as int] == devices@[i as int]@);
        }
        if devices[i].state.is_ready() && devices[i].serial == s.address {
            return true;
        }
        i += 1;
    }
    false
}

fn has_mdns_alias(devices: &[AdbDevice], s: &MdnsService) -> (r: bool)
    ensures
        r == exists|i: int|
            0 <= i < device_views(devices@).len() && is_ready(device_views(devices@)[i])
                && serial_matches(device_views(devices@)[i].serial, s@),
{
    let ghost dv = device_views(devices@);
    let mut i: usize = 0;
    while i < devices.len()
        invariant
            i <= devices@.len(),
            dv == device_views(devices@),
            forall|k: int| 0 <= k < i ==> !(is_ready(dv[k]) && serial_matches(dv[k].serial, s@)),
        decreases devices.len() - i,
    {
        proof {
            assert(dv[i as int] == devices@[i as int]@);
        }
        if devices[i].state.is_ready() && serial_matches_connect_service(
            devices[i].serial.as_str(),
            s,
        ) {
            return true;
        }
        i += 1;
    }
    false
}

/// Endpoint aliases to disconnect: connect services listed both by `host:port` and by mDNS name.
pub fn duplicate_wireless_endpoint_aliases(devices: &[AdbDevice], services: &[MdnsService]) -> (r: Vec<String>)
    ensures
        strs(r@) == duplicate_aliases(service_views(services@), device_views(devices@)),
{
    let ghost sv = service_views(services@);
    let ghost dv = device_views(devices@);
    let mut out: Vec<String> = Vec::new();
    let mut i: usize = 0;
    proof {
        assert(sv.take(0) =~= Seq::<ServiceView>::empty());
        assert(strs(out@) =~= Seq::<Seq<char>>::empty());
    }
    while i < services.len()
        invariant
            i <= services@.len(),
            sv == service_views(services@),
            dv == device_views(devices@),
            strs(out@) == duplicate_aliases(sv.take(i as int), dv),
        decreases services.len() - i,
    {
        let s = &services[i];
        proof {
            let pre = sv.take(i + 1);
            assert(pre.drop_last() =~= sv.take(i as int));
            assert(pre.last() == s@);
        }
        let dup = s.is_connect_service() && has_endpoint_alias(devices, s) && has_mdns_alias(
            devices,
            s,
        );
        if dup {
            let a = s.address.clone();
            proof {
                assert(strs(out@.push(a)) =~= strs(out@).push(a@));
            }
            out.push(a);
        }
        i += 1;
    }
    proof {
        assert(sv.take(services@.len() as int) =~= sv);
    }
    out
}

// ---------------------------------------------------------------------------
// Display names
// ---------------------------------------------------------------------------

/// The model with underscores shown as spaces; for an mDNS transport the model
/// alone (or a generic name), otherwise the serial followed by the model.
pub open spec fn display_name_spec(d: DeviceView) -> Seq<char> {
    let model = match d.model {
        Some(m) => Some(replace_char(m, '_', ' ')),
        None => None,
    };
    if is_mdns_wireless(d.serial) {
        match model {
            Some(m) => m,
            None => "Wireless ADB device"@,
        }
    } else {
        match model {
            Some(m) => d.serial + " "@ + m,
            None => d.serial,
        }
    }
}

impl AdbDevice {
    pub fn display_name(&self) -> (r: String)
        ensures
            r@ == display_name_spec(self@),
    {
        let model: Option<Vec<char>> = match &self.model {
            Some(m) => Some(replace_char_exec(&chars_of(m.as_str()), '_', ' ')),
            None => None,
        };
        if is_mdns_wireless_serial(self.serial.as_str()) {
            return match model {
                Some(m) => string_of(&m),
                None => "Wireless ADB device".to_string(),
            };
        }
        match model {
            Some(m) => {
                let a = concat(&chars_of(self.serial.as_str()), &chars_of(" "));
                string_of(&concat(&a, &m))
            },
            None => self.serial.clone(),
        }
    }
}

} // verus!
