//! The command line's decisions: what its options mean, which action follows
//! a connection, and how a watched phone is found again.
use vstd::prelude::*;

use crate::text::{
    trim,
    trimmed,
    chars_of,
    string_of,
    concat,
    is_ws,
    lines,
    split_lines,
    seqs,
    rsplit_once,
    rsplit_once_exec,
    parse_unsigned,
    parse_unsigned_exec,
};
use crate::adb::{
    AdbDevice,
    DeviceView,
    DeviceState,
    StateView,
    MdnsService,
    ServiceView,
    device_views,
    service_views,
    strs,
    is_ready,
    is_connect_view,
    is_mdns_wireless,
    is_mdns_wireless_serial,
    serial_matches,
    serial_matches_connect_service,
    endpoint_host_spec,
    endpoint_host_chars,
    opt_device_view,
    first_picked,
    Sel,
    matching_ready_device_for_connect_service,
    Pick,
    pick_devices,
};
use crate::pairing_flow::ConnectedPhone;
use crate::scrcpy::{ScrcpyOptions, DEFAULT_WINDOW_WIDTH, DEFAULT_WINDOW_HEIGHT};

verus! {

/// The command line's options.
#[derive(Debug, Clone, PartialEq, Eq)]
pub struct Args {
    pub adb: Option<String>,
    pub scrcpy: Option<String>,
    pub timeout: u64,
    pub no_scrcpy_check: bool,
    pub reset_adb: bool,
    pub connect_only: bool,
    pub background: bool,
    pub foreground: bool,
    pub plain_window: bool,
    pub always_on_top: bool,
    pub window_title: String,
    pub window_width: u32,
    pub window_height: u32,
    pub watch: bool,
    pub stable: bool,
    pub keepalive_interval: u64,
    pub keepalive_failures: u8,
    pub keep_screen_awake: bool,
    pub device_serial: Option<String>,
    pub wifi_doctor: bool,
}

impl Default for Args {
    /// The options with nothing given on the command line.
    fn default() -> (r: Self)
        ensures
            r.adb is None && r.scrcpy is None && r.device_serial is None,
            r.timeout == 60,
            !r.no_scrcpy_check && !r.reset_adb && !r.connect_only && !r.background && !r.foreground,
            !r.plain_window && !r.always_on_top && !r.watch && !r.stable,
            !r.keep_screen_awake && !r.wifi_doctor,
            r.window_title@ == "Pixel 10 Pro"@,
            r.window_width == DEFAULT_WINDOW_WIDTH,
            r.window_height == DEFAULT_WINDOW_HEIGHT,
            r.keepalive_interval == 5,
            r.keepalive_failures == 2,
    {
        Args {
            adb: None,
            scrcpy: None,
            timeout: 60,
            no_scrcpy_check: false,
            reset_adb: false,
            connect_only: false,
            background: false,
            foreground: false,
            plain_window: false,
            always_on_top: false,
            window_title: "Pixel 10 Pro".to_string(),
            window_width: DEFAULT_WINDOW_WIDTH,
            window_height: DEFAULT_WINDOW_HEIGHT,
            watch: false,
            stable: false,
            keepalive_interval: 5,
            keepalive_failures: 2,
            keep_screen_awake: false,
            device_serial: None,
            wifi_doctor: false,
        }
    }
}

/// How scrcpy is started once a phone is connected.
#[derive(Debug, Clone, Copy, PartialEq, Eq)]
pub enum ScrcpyLaunchMode {
    Menu,
    Background,
    Foreground,
}

/// What to do with a connected phone.
#[derive(Debug, Clone, Copy, PartialEq, Eq)]
pub enum ConnectedAction {
    StartBackground,
    StartForeground,
    Close,
}

impl ConnectedAction {
    pub fn starts_scrcpy(self) -> (r: bool)
        ensures
            r == !(self is Close),
    {
        match self {
            ConnectedAction::StartBackground => true,
            ConnectedAction::StartForeground => true,
            ConnectedAction::Close => false,
        }
    }
}

impl Args {
    /// `--background`, else `--foreground`, else `--stable` (background), else the menu.
    pub open spec fn launch_mode(self) -> ScrcpyLaunchMode {
        if self.background {
            ScrcpyLaunchMode::Background
        } else if self.foreground {
            ScrcpyLaunchMode::Foreground
        } else if self.stable {
            ScrcpyLaunchMode::Background
        } else {
            ScrcpyLaunchMode::Menu
        }
    }

    pub fn scrcpy_launch_mode(&self) -> (r: ScrcpyLaunchMode)
        ensures
            r == self.launch_mode(),
    {
        if self.background {
            ScrcpyLaunchMode::Background
        } else if self.foreground {
            ScrcpyLaunchMode::Foreground
        } else if self.stable {
            ScrcpyLaunchMode::Background
        } else {
            ScrcpyLaunchMode::Menu
        }
    }

    /// The window options from the command line, the rest as by default.
    pub fn scrcpy_options(&self) -> (r: ScrcpyOptions)
        ensures
            r.no_audio && r.stay_awake,
            r.borderless == !self.plain_window,
            r.always_on_top == self.always_on_top,
            r.window_title@ == self.window_title@,
            r.window_width == self.window_width,
            r.window_height == self.window_height,
    {
        ScrcpyOptions {
            no_audio: true,
            stay_awake: true,
            borderless: !self.plain_window,
            always_on_top: self.always_on_top,
            window_title: self.window_title.clone(),
            window_width: self.window_width,
            window_height: self.window_height,
        }
    }

    /// Options that cannot be given together: `--connect-only` with
    /// `--background`, `--foreground` or `--stable`, and `--background` with
    /// `--foreground`.
    pub fn has_conflicting_flags(&self) -> (r: bool)
        ensures
            r == ((self.connect_only && (self.background || self.foreground || self.stable)) || (
            self.background && self.foreground)),
    {
        (self.connect_only && (self.background || self.foreground || self.stable)) || (self.background
            && self.foreground)
    }

    pub fn watch_enabled(&self) -> (r: bool)
        ensures
            r == (self.watch || self.stable),
    {
        self.watch || self.stable
    }

    pub fn keep_screen_awake_enabled(&self) -> (r: bool)
        ensures
            r == (self.keep_screen_awake || self.stable),
    {
        self.keep_screen_awake || self.stable
    }

    pub fn wifi_doctor_enabled(&self) -> (r: bool)
        ensures
            r == (self.wifi_doctor || self.stable),
    {
        self.wifi_doctor || self.stable
    }

    /// Seconds between keepalives, at least one.
    pub fn keepalive_interval(&self) -> (r: u64)
        ensures
            r == if self.keepalive_interval >= 1 { self.keepalive_interval } else { 1 },
    {
        if self.keepalive_interval >= 1 {
            self.keepalive_interval
        } else {
            1
        }
    }

    /// Failed keepalives before reconnecting, at least one.
    pub fn keepalive_failures(&self) -> (r: u8)
        ensures
            r == if self.keepalive_failures >= 1 { self.keepalive_failures } else { 1 },
    {
        if self.keepalive_failures >= 1 {
            self.keepalive_failures
        } else {
            1
        }
    }
}

/// Stay-awake is requested when asked for, or when scrcpy is started.
pub fn should_request_stay_awake(args: &Args, action: ConnectedAction) -> (r: bool)
    ensures
        r == (args.keep_screen_awake || args.stable || !(action is Close)),
{
    args.keep_screen_awake_enabled() || action.starts_scrcpy()
}

/// The action the options decide; `None` when the user is asked with a menu.
pub fn connected_phone_action(args: &Args) -> (r: Option<ConnectedAction>)
    ensures
        args.connect_only ==> r == Some(ConnectedAction::Close),
        !args.connect_only ==> r == match args.launch_mode() {
            ScrcpyLaunchMode::Background => Some(ConnectedAction::StartBackground),
            ScrcpyLaunchMode::Foreground => Some(ConnectedAction::StartForeground),
            ScrcpyLaunchMode::Menu => None,
        },
{
    if args.connect_only {
        return Some(ConnectedAction::Close);
    }
    match args.scrcpy_launch_mode() {
        ScrcpyLaunchMode::Background => Some(ConnectedAction::StartBackground),
        ScrcpyLaunchMode::Foreground => Some(ConnectedAction::StartForeground),
        ScrcpyLaunchMode::Menu => None,
    }
}

/// The options of the connected-phone menu; the first is its default.
pub fn connected_action_menu(args: &Args) -> (r: Vec<String>)
    ensures
        r@.len() == 3,
        r@[0]@ == if args.watch || args.stable {
            "Start scrcpy and keep watching ADB"@
        } else {
            "Start scrcpy and close awb"@
        },
        r@[1]@ == "Start scrcpy and wait"@,
        r@[2]@ == "Close"@,
{
    let first = if args.watch_enabled() {
        "Start scrcpy and keep watching ADB".to_string()
    } else {
        "Start scrcpy and close awb".to_string()
    };
    let mut v: Vec<String> = Vec::new();
    v.push(first);
    v.push("Start scrcpy and wait".to_string());
    v.push("Close".to_string());
    v
}

/// The action that a choice in the connected-phone menu stands for.
pub fn connected_action_from_menu(selection: usize) -> (r: ConnectedAction)
    requires
        1 <= selection <= 3,
    ensures
        selection == 1 ==> r == ConnectedAction::StartBackground,
        selection == 2 ==> r == ConnectedAction::StartForeground,
        selection == 3 ==> r == ConnectedAction::Close,
{
    if selection == 1 {
        ConnectedAction::StartBackground
    } else if selection == 2 {
        ConnectedAction::StartForeground
    } else {
        ConnectedAction::Close
    }
}

// ---------------------------------------------------------------------------
// Endpoints typed by the user
// ---------------------------------------------------------------------------

/// A non-empty value without blanks inside, ending in `:port` with a valid port.
pub open spec fn plausible_endpoint(endpoint: Seq<char>) -> bool {
    let e = trim(endpoint);
    &&& e.len() > 0
    &&& !(exists|i: int| 0 <= i < e.len() && is_ws(#[trigger] e[i]))
    &&& match rsplit_once(e, ':') {
        Some((_, port)) => parse_unsigned(port, 65535) is Some,
        None => false,
    }
}

pub fn is_plausible_endpoint(endpoint: &str) -> (r: bool)
    ensures
        r == plausible_endpoint(endpoint@),
{
    let e = trimmed(&chars_of(endpoint));
    if e.len() == 0 {
        return false;
    }
    let mut i: usize = 0;
    while i < e.len()
        invariant
            i <= e@.len(),
            e@ == trim(endpoint@),
            forall|k: int| 0 <= k < i ==> !is_ws(#[trigger] e@[k]),
        decreases e.len() - i,
    {
        if crate::text::is_whitespace(e[i]) {
            proof {
                assert(is_ws(e@[i as int]));
            }
            return false;
        }
        i += 1;
    }
    match rsplit_once_exec(&e, ':') {
        Some((_, port)) => parse_unsigned_exec(&port, 65535).is_some(),
        None => false,
    }
}

/// The first line that is not blank, trimmed.
pub open spec fn first_line(ls: Seq<Seq<char>>) -> Option<Seq<char>>
    decreases ls.len(),
{
    if ls.len() == 0 {
        None
    } else if trim(ls[0]).len() > 0 {
        Some(trim(ls[0]))
    } else {
        first_line(ls.skip(1))
    }
}

pub fn first_non_empty_line(value: &str) -> (r: Option<String>)
    ensures
        r is None ==> first_line(lines(value@)) is None,
        r is Some ==> first_line(lines(value@)) == Some(r->0@),
{
    let ls = split_lines(&chars_of(value));
    let ghost all = seqs(ls@);
    let mut i: usize = 0;
    proof {
        assert(all.skip(0) =~= all);
    }
    while i < ls.len()
        invariant
            i <= ls@.len(),
            all == seqs(ls@),
            all == lines(value@),
            first_line(all) == first_line(all.skip(i as int)),
        decreases ls.len() - i,
    {
        proof {
            assert(all.skip(i as int)[0] == ls@[i as int]@);
            assert(all.skip(i as int).skip(1) =~= all.skip(i + 1));
        }
        let t = trimmed(ls[i].as_slice());
        if t.len() > 0 {
            return Some(string_of(&t));
        }
        i += 1;
    }
    None
}

/// The trimmed output, or a note that there was none.
pub fn fallback_status_message(output: &str) -> (r: String)
    ensures
        r@ == crate::adb_client::fallback(output@),
{
    let t = trimmed(&chars_of(output));
    if t.len() == 0 {
        "command exited without output".to_string()
    } else {
        string_of(&t)
    }
}

/// The state as `adb devices` writes it.
pub open spec fn state_label_spec(s: StateView) -> Seq<char> {
    match s {
        StateView::Device => "device"@,
        StateView::Offline => "offline"@,
        StateView::Unauthorized => "unauthorized"@,
        StateView::Other(v) => v,
    }
}

pub fn state_label(state: &DeviceState) -> (r: String)
    ensures
        r@ == state_label_spec(state@),
{
    match state {
        DeviceState::Device => "device".to_string(),
        DeviceState::Offline => "offline".to_string(),
        DeviceState::Unauthorized => "unauthorized".to_string(),
        DeviceState::Other(v) => v.clone(),
    }
}

// ---------------------------------------------------------------------------
// Finding a watched phone again
// ---------------------------------------------------------------------------

/// Addresses of the connect services that `pred` keeps, in order.
pub open spec fn addresses_where(ss: Seq<ServiceView>, serial: Seq<char>, by_name: bool) -> Seq<Seq<char>>
    decreases ss.len(),
{
    if ss.len() == 0 {
        seq![]
    } else {
        let s = ss.last();
        let rest = addresses_where(ss.drop_last(), serial, by_name);
        let keep = is_connect_view(s) && if by_name {
            serial_matches(serial, s)
        } else {
            endpoint_host_spec(s.address) == endpoint_host_spec(serial)
        };
        if keep {
            rest.push(s.address)
        } else {
            rest
        }
    }
}

/// Where a dropped phone may be reconnected: the connect services whose mDNS
/// name is the serial; none for another mDNS serial; otherwise those on the
/// serial's host.
pub open spec fn reconnect_endpoints_spec(serial: Seq<char>, ss: Seq<ServiceView>) -> Seq<Seq<char>> {
    let by_name = addresses_where(ss, serial, true);
    if by_name.len() > 0 {
        by_name
    } else if is_mdns_wireless(serial) {
        seq![]
    } else {
        addresses_where(ss, serial, false)
    }
}

fn addresses_where_exec(services: &[MdnsService], serial: &str, by_name: bool) -> (r: Vec<String>)
    ensures
        strs(r@) == addresses_where(service_views(services@), serial@, by_name),
{
    let ghost sv = service_views(services@);
    let host = endpoint_host_chars(&chars_of(serial));
    let mut out: Vec<String> = Vec::new();
    let mut i: usize = 0;
    proof {
        assert(sv.take(0) =~= Seq::<ServiceView>::empty());
        assert(strs(out@) =~= Seq::<Seq<char>>::empty());
    }
    while i < services.len()
        invariant
            i <= services@.len(),
            sv == service_views(services@),
            host@ == endpoint_host_spec(serial@),
            strs(out@) == addresses_where(sv.take(i as int), serial@, by_name),
        decreases services.len() - i,
    {
        proof {
            let p = sv.take(i + 1);
            assert(p.drop_last() =~= sv.take(i as int));
            assert(p.last() == services@[i as int]@);
        }
        let s = &services[i];
        let keep = s.is_connect_service() && if by_name {
            serial_matches_connect_service(serial, s)
        } else {
            crate::text::chars_eq(&endpoint_host_chars(&chars_of(s.address.as_str())), &host)
        };
        if keep {
            let a = s.address.clone();
            proof {
                assert(strs(out@.push(a)) =~= strs(out@).push(a@));
            }
            out.push(a);
        }
        i += 1;
    }
    proof {
        assert(sv.take(services@.len() as int) =~= sv);
    }
    out
}

pub fn reconnect_endpoints_from_services(current_serial: &str, services: &[MdnsService]) -> (r: Vec<String>)
    ensures
        strs(r@) == reconnect_endpoints_spec(current_serial@, service_views(services@)),
{
    let by_name = addresses_where_exec(services, current_serial, true);
    if by_name.len() > 0 {
        return by_name;
    }
    if is_mdns_wireless_serial(current_serial) {
        return Vec::new();
    }
    addresses_where_exec(services, current_serial, false)
}

/// The first ready device whose serial is the tracked one or on its host.
pub open spec fn first_tracked(ds: Seq<DeviceView>, serial: Seq<char>) -> Option<DeviceView>
    decreases ds.len(),
{
    if ds.len() == 0 {
        None
    } else if is_ready(ds[0]) && (ds[0].serial == serial || endpoint_host_spec(ds[0].serial)
        == endpoint_host_spec(serial)) {
        Some(ds[0])
    } else {
        first_tracked(ds.skip(1), serial)
    }
}

/// The transport of the first connect service named by, or on the host of,
/// the tracked serial.
pub open spec fn tracked_through_services(ds: Seq<DeviceView>, serial: Seq<char>, ss: Seq<ServiceView>) -> Option<DeviceView>
    decreases ss.len(),
{
    if ss.len() == 0 {
        None
    } else {
        let s = ss[0];
        let found = if is_connect_view(s) && (serial_matches(serial, s) || endpoint_host_spec(s.address)
            == endpoint_host_spec(serial)) {
            first_picked(ds, Sel::NewFor(seq![], s))
        } else {
            None
        };
        match found {
            Some(d) => Some(d),
            None => tracked_through_services(ds, serial, ss.skip(1)),
        }
    }
}

/// The ready device that is the tracked phone: by serial or host, else
/// through its connect service; never an unrelated device.
pub open spec fn strict_tracked(ds: Seq<DeviceView>, serial: Seq<char>, ss: Seq<ServiceView>) -> Option<DeviceView> {
    match first_tracked(ds, serial) {
        Some(d) => Some(d),
        None => tracked_through_services(ds, serial, ss),
    }
}

pub fn strict_ready_device_for_tracked_serial(
    devices: &[AdbDevice],
    expected_serial: &str,
    services: &[MdnsService],
) -> (r: Option<AdbDevice>)
    ensures
        opt_device_view(r) == strict_tracked(device_views(devices@), expected_serial@, service_views(services@)),
{
    let ghost dv = device_views(devices@);
    let ghost sv = service_views(services@);
    let expected = chars_of(expected_serial);
    let host = endpoint_host_chars(&expected);
    let mut i: usize = 0;
    proof {
        assert(dv.skip(0) =~= dv);
    }
    while i < devices.len()
        invariant
            i <= devices@.len(),
            dv == device_views(devices@),
            expected@ == expected_serial@,
            host@ == endpoint_host_spec(expected_serial@),
            first_tracked(dv, expected_serial@) == first_tracked(dv.skip(i as int), expected_serial@),
        decreases devices.len() - i,
    {
        proof {
            assert(dv.skip(i as int)[0] == devices@[i as int]@);
            assert(dv.skip(i as int).skip(1) =~= dv.skip(i + 1));
        }
        let d = &devices[i];
        if d.state.is_ready() && (crate::text::chars_eq(&chars_of(d.serial.as_str()), &expected)
            || crate::text::chars_eq(&endpoint_host_chars(&chars_of(d.serial.as_str())), &host)) {
            return Some(d.copy());
        }
        i += 1;
    }
    proof {
        assert(dv.skip(devices@.len() as int) =~= Seq::<DeviceView>::empty());
    }
    let none: Vec<String> = Vec::new();
    proof {
        assert(strs(none@) =~= Seq::<Seq<char>>::empty());
    }
    let mut j: usize = 0;
    proof {
        assert(sv.skip(0) =~= sv);
    }
    while j < services.len()
        invariant
            j <= services@.len(),
            dv == device_views(devices@),
            sv == service_views(services@),
            host@ == endpoint_host_spec(expected_serial@),
            strs(none@) == Seq::<Seq<char>>::empty(),
            first_tracked(dv, expected_serial@) is None,
            strict_tracked(dv, expected_serial@, sv) == tracked_through_services(dv, expected_serial@, sv.skip(j as int)),
        decreases services.len() - j,
    {
        proof {
            assert(sv.skip(j as int)[0] == services@[j as int]@);
            assert(sv.skip(j as int).skip(1) =~= sv.skip(j + 1));
        }
        let s = &services[j];
        if s.is_connect_service() && (serial_matches_connect_service(expected_serial, s)
            || crate::text::chars_eq(&endpoint_host_chars(&chars_of(s.address.as_str())), &host)) {
            let d = matching_ready_device_for_connect_service(devices, s, &none);
            if d.is_some() {
                return d;
            }
        }
        j += 1;
    }
    None
}

// ---------------------------------------------------------------------------
// Choosing a phone at startup
// ---------------------------------------------------------------------------

/// What to do at startup.
#[derive(Debug, Clone, PartialEq, Eq)]
pub enum StartupDeviceChoice {
    Connected(ConnectedPhone),
    PairNew,
    Close,
}

/// The startup menu: `Use NAME` for each phone, then pairing and closing.
pub fn startup_menu_options(phones: &[ConnectedPhone]) -> (r: Vec<String>)
    ensures
        r@.len() == phones@.len() + 2,
        forall|i: int| 0 <= i < phones@.len() ==> #[trigger] r@[i]@ == "Use "@ + phones@[i].display_name@,
        r@[phones@.len() as int]@ == "Pair a new phone"@,
        r@[phones@.len() + 1int]@ == "Close"@,
{
    let mut out: Vec<String> = Vec::new();
    let mut i: usize = 0;
    while i < phones.len()
        invariant
            i <= phones@.len(),
            out@.len() == i,
            forall|k: int| 0 <= k < i ==> #[trigger] out@[k]@ == "Use "@ + phones@[k].display_name@,
        decreases phones.len() - i,
    {
        out.push(string_of(&concat(&chars_of("Use "), &chars_of(phones[i].display_name.as_str()))));
        i += 1;
    }
    out.push("Pair a new phone".to_string());
    out.push("Close".to_string());
    out
}

/// No phone: pair one; one phone: use it; several: what the menu choice says.
pub fn startup_device_choice(phones: &[ConnectedPhone], menu_selection: Option<usize>) -> (r: StartupDeviceChoice)
    requires
        phones@.len() > 1 ==> (menu_selection matches Some(s) && 1 <= s),
    ensures
        phones@.len() == 0 ==> r is PairNew,
        phones@.len() == 1 ==> (r matches StartupDeviceChoice::Connected(p) && p.serial@
            == phones@[0].serial@ && p.display_name@ == phones@[0].display_name@),
        phones@.len() > 1 ==> match menu_selection {
            Some(s) => if s <= phones@.len() {
                (r matches StartupDeviceChoice::Connected(p) && p.serial@ == phones@[s - 1].serial@
                    && p.display_name@ == phones@[s - 1].display_name@)
            } else if s == phones@.len() + 1 {
                r is PairNew
            } else {
                r is Close
            },
            None => false,
        },
{
    if phones.len() == 0 {
        return StartupDeviceChoice::PairNew;
    }
    if phones.len() == 1 {
        return StartupDeviceChoice::Connected(
            ConnectedPhone {
                serial: phones[0].serial.clone(),
                display_name: phones[0].display_name.clone(),
            },
        );
    }
    let s = match menu_selection {
        Some(s) => s,
        None => 0,
    };
    if s <= phones.len() {
        StartupDeviceChoice::Connected(
            ConnectedPhone {
                serial: phones[s - 1].serial.clone(),
                display_name: phones[s - 1].display_name.clone(),
            },
        )
    } else if s - 1 == phones.len() {
        StartupDeviceChoice::PairNew
    } else {
        StartupDeviceChoice::Close
    }
}

// ---------------------------------------------------------------------------
// Watch mode
// ---------------------------------------------------------------------------

/// What the watch loop does after a keepalive.
#[derive(Debug, Clone, Copy, PartialEq, Eq)]
pub enum WatchStep {
    /// The transport answered; `recovered` when failures came before.
    Alive { recovered: bool },
    /// The keepalive failed, and this many have failed in a row.
    Failed { count: u8 },
    /// Enough keepalives failed in a row: reconnect.
    Reconnect { count: u8 },
}

/// Counts consecutive failed keepalives and decides when to reconnect.
pub fn watch_keepalive_step(failed_keepalives: u8, keepalive_ok: bool, max_failures: u8) -> (r: (u8, WatchStep))
    requires
        keepalive_ok || failed_keepalives < u8::MAX,
    ensures
        keepalive_ok ==> r == (0u8, WatchStep::Alive { recovered: failed_keepalives > 0 }),
        !keepalive_ok && failed_keepalives + 1 >= max_failures ==> r == (
            (failed_keepalives + 1) as u8,
            WatchStep::Reconnect { count: (failed_keepalives + 1) as u8 },
        ),
        !keepalive_ok && failed_keepalives + 1 < max_failures ==> r == (
            (failed_keepalives + 1) as u8,
            WatchStep::Failed { count: (failed_keepalives + 1) as u8 },
        ),
{
    if keepalive_ok {
        return (0, WatchStep::Alive { recovered: failed_keepalives > 0 });
    }
    let count = failed_keepalives + 1;
    if count >= max_failures {
        (count, WatchStep::Reconnect { count })
    } else {
        (count, WatchStep::Failed { count })
    }
}

/// A phone found again resets the count; a failed reconnect keeps it.
pub fn watch_after_reconnect(failed_keepalives: u8, reconnected: bool) -> (r: u8)
    ensures
        r == if reconnected { 0 } else { failed_keepalives },
{
    if reconnected {
        0
    } else {
        failed_keepalives
    }
}


// ---------------------------------------------------------------------------
// A phone named on the command line
// ---------------------------------------------------------------------------

/// The first ready row whose serial is exactly `serial`; no other row stands in
/// for it.
pub fn ready_device_with_serial(devices: &[AdbDevice], serial: &str) -> (r: Option<AdbDevice>)
    ensures
        opt_device_view(r) == first_picked(device_views(devices@), Sel::Serial(serial@)),
        r matches Some(d) ==> d@.serial == serial@ && is_ready(d@),
{
    let wanted = chars_of(serial);
    let p = Pick::Serial(wanted.as_slice());
    let v = pick_devices(devices, &p);
    if v.len() > 0 {
        proof {
            lemma_picked_serial(device_views(devices@), serial@);
            assert(device_views(v@)[0] == v@[0]@);
        }
        Some(v[0].copy())
    } else {
        None
    }
}

proof fn lemma_picked_serial(ds: Seq<DeviceView>, serial: Seq<char>)
    ensures
        forall|i: int| 0 <= i < crate::adb::picked(ds, Sel::Serial(serial)).len() ==> {
            let d = #[trigger] crate::adb::picked(ds, Sel::Serial(serial))[i];
            d.serial == serial && is_ready(d)
        },
    decreases ds.len(),
{
    if ds.len() > 0 {
        lemma_picked_serial(ds.drop_last(), serial);
    }
}

/// Wi-Fi status is reported when it differs from the last one reported.
pub fn wifi_status_changed(last: &Option<String>, status: &str) -> (r: bool)
    ensures
        r == match last {
            Some(l) => l@ != status@,
            None => true,
        },
{
    match last {
        Some(l) => !crate::text::chars_eq(&chars_of(l.as_str()), &chars_of(status)),
        None => true,
    }
}

} // verus!
