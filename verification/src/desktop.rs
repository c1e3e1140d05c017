//! The menu bar app's logic: its settings, the device list it shows, and the
//! login item it registers; windows and workers are the caller's part.
use vstd::prelude::*;

use crate::text::{
    lower,
    lowercase,
    chars_of,
    string_of,
    concat,
    contains,
    contains_exec,
    starts_with,
    starts_with_exec,
    find_from,
    occurs_at,
    slice_range,
    lines,
    replace_char,
    replace_char_exec,
};
use crate::adb::{
    AdbDevice,
    DeviceView,
    MdnsService,
    ServiceView,
    device_views,
    service_views,
    strs,
    is_ready,
    is_connect_view,
    device_matches,
    device_matches_connect_service,
    service_serial,
    connect_service_serial,
    is_mdns_wireless,
    is_mdns_wireless_serial,
    normalize_mdns_serial,
    normalize_mdns_serial_exec,
    endpoint_host_spec,
    endpoint_host_chars,
    dedupe,
    dedupe_ready_devices,
};
use crate::adb_client::{CommandResult, result_output};
use crate::cli::{state_label, state_label_spec, first_line};
use crate::command_path::{join_path, join_path_exec};
use crate::scrcpy::{ScrcpyOptions, DEFAULT_WINDOW_WIDTH, DEFAULT_WINDOW_HEIGHT};

verus! {

// ---------------------------------------------------------------------------
// Settings
// ---------------------------------------------------------------------------

/// Follow the system appearance, or force the light or dark palette.
#[derive(Debug, Clone, Copy, PartialEq, Eq)]
pub enum ThemeMode {
    Auto,
    Day,
    Night,
}

impl Default for ThemeMode {
    fn default() -> (r: Self)
        ensures
            r == ThemeMode::Auto,
    {
        ThemeMode::Auto
    }
}

impl ThemeMode {
    /// The value stored in the settings file.
    pub fn name(&self) -> (r: String)
        ensures
            r@ == match *self {
                ThemeMode::Auto => "auto"@,
                ThemeMode::Day => "day"@,
                ThemeMode::Night => "night"@,
            },
    {
        match self {
            ThemeMode::Auto => "auto".to_string(),
            ThemeMode::Day => "day".to_string(),
            ThemeMode::Night => "night".to_string(),
        }
    }
}

/// The palette the menu is drawn with.
#[derive(Debug, Clone, Copy, PartialEq, Eq)]
pub enum Appearance {
    Day,
    Night,
}

/// The palette for a theme setting: `Auto` follows the system, and is dark
/// unless the system is known to be light.
pub fn resolved_appearance(mode: ThemeMode, system_is_light: Option<bool>) -> (r: Appearance)
    ensures
        r == match mode {
            ThemeMode::Day => Appearance::Day,
            ThemeMode::Night => Appearance::Night,
            ThemeMode::Auto => if system_is_light == Some(true) {
                Appearance::Day
            } else {
                Appearance::Night
            },
        },
{
    match mode {
        ThemeMode::Day => Appearance::Day,
        ThemeMode::Night => Appearance::Night,
        ThemeMode::Auto => match system_is_light {
            Some(true) => Appearance::Day,
            _ => Appearance::Night,
        },
    }
}

/// The menu bar app's settings.
#[derive(Debug, Clone, PartialEq, Eq)]
pub struct Settings {
    pub window_title: String,
    pub window_width: u32,
    pub window_height: u32,
    pub always_on_top: bool,
    /// Launch scrcpy as a borderless window with no title bar.
    pub borderless: bool,
    /// Start mirroring when a physical phone connects (never emulators).
    pub auto_mirror: bool,
    pub theme: ThemeMode,
}

impl Default for Settings {
    fn default() -> (r: Self)
        ensures
            r.window_title@ == "Pixel 10 Pro"@,
            r.window_width == DEFAULT_WINDOW_WIDTH,
            r.window_height == DEFAULT_WINDOW_HEIGHT,
            r.always_on_top,
            r.borderless,
            !r.auto_mirror,
            r.theme == ThemeMode::Auto,
    {
        let defaults = ScrcpyOptions::default();
        Settings {
            window_title: defaults.window_title,
            window_width: defaults.window_width,
            window_height: defaults.window_height,
            always_on_top: true,
            borderless: true,
            auto_mirror: false,
            theme: ThemeMode::Auto,
        }
    }
}

impl Settings {
    /// The window settings applied to scrcpy's defaults.
    pub fn scrcpy_options(&self) -> (r: ScrcpyOptions)
        ensures
            r.no_audio && r.stay_awake,
            r.borderless == self.borderless,
            r.always_on_top == self.always_on_top,
            r.window_title@ == self.window_title@,
            r.window_width == self.window_width,
            r.window_height == self.window_height,
    {
        ScrcpyOptions {
            no_audio: true,
            stay_awake: true,
            borderless: self.borderless,
            always_on_top: self.always_on_top,
            window_title: self.window_title.clone(),
            window_width: self.window_width,
            window_height: self.window_height,
        }
    }
}

// ---------------------------------------------------------------------------
// Status snapshot
// ---------------------------------------------------------------------------

/// Whether a tool is usable, and what to show about it.
#[derive(Debug, Clone, PartialEq, Eq)]
pub struct ToolInfo {
    pub available: bool,
    pub detail: String,
}

/// A device row in the menu.
#[derive(Debug, Clone, PartialEq, Eq)]
pub struct DeviceInfo {
    pub serial: String,
    pub mirror_key: String,
    pub name: String,
    pub ready: bool,
    pub state: String,
    pub is_emulator: bool,
}

impl DeviceInfo {
    /// A duplicate of this row.
    pub fn copy(&self) -> (r: Self)
        ensures
            r == *self,
    {
        DeviceInfo {
            serial: self.serial.clone(),
            mirror_key: self.mirror_key.clone(),
            name: self.name.clone(),
            ready: self.ready,
            state: self.state.clone(),
            is_emulator: self.is_emulator,
        }
    }
}

/// What the menu shows: the tools and the devices.
#[derive(Debug, Clone, PartialEq, Eq)]
pub struct Snapshot {
    pub adb: ToolInfo,
    pub scrcpy: ToolInfo,
    pub devices: Vec<DeviceInfo>,
}

/// `adb version`'s first non-blank line (or `available`), else the error.
pub fn adb_tool_info(version: Result<CommandResult, String>) -> (r: ToolInfo)
    ensures
        match version {
            Ok(o) => r.available && r.detail@ == match first_line(lines(result_output(o))) {
                Some(l) => l,
                None => "available"@,
            },
            Err(e) => !r.available && r.detail@ == e@,
        },
{
    match version {
        Ok(o) => {
            let detail = match crate::cli::first_non_empty_line(o.combined_output().as_str()) {
                Some(l) => l,
                None => "available".to_string(),
            };
            ToolInfo { available: true, detail }
        },
        Err(e) => ToolInfo { available: false, detail: e },
    }
}

/// The scrcpy path when it resolved, else `Not found`.
pub fn scrcpy_tool_info(path: Option<String>) -> (r: ToolInfo)
    ensures
        match path {
            Some(p) => r.available && r.detail == p,
            None => !r.available && r.detail@ == "Not found"@,
        },
{
    match path {
        Some(p) => ToolInfo { available: true, detail: p },
        None => ToolInfo { available: false, detail: "Not found".to_string() },
    }
}

/// An emulator: its serial starts with `emulator-`, or its model names the SDK phone.
pub open spec fn is_emulator_spec(d: DeviceView) -> bool {
    starts_with(d.serial, "emulator-"@) || match d.model {
        Some(m) => contains(m, "sdk_gphone"@),
        None => false,
    }
}

pub fn is_emulator(device: &AdbDevice) -> (r: bool)
    ensures
        r == is_emulator_spec(device@),
{
    starts_with_exec(&chars_of(device.serial.as_str()), &chars_of("emulator-")) || match &device.model {
        Some(m) => contains_exec(&chars_of(m.as_str()), &chars_of("sdk_gphone")),
        None => false,
    }
}

/// The first connect service that `d` is a transport of.
pub open spec fn first_matching_service(d: DeviceView, ss: Seq<ServiceView>) -> Option<ServiceView>
    decreases ss.len(),
{
    if ss.len() == 0 {
        None
    } else if is_connect_view(ss[0]) && device_matches(d, ss[0]) {
        Some(ss[0])
    } else {
        first_matching_service(d, ss.skip(1))
    }
}

/// One key per phone however ADB names its transport: the connect service's
/// mDNS name, the normalized mDNS serial, or the serial.
pub open spec fn mirror_key_spec(d: DeviceView, ss: Seq<ServiceView>) -> Seq<char> {
    match first_matching_service(d, ss) {
        Some(s) => service_serial(s),
        None => if is_mdns_wireless(d.serial) {
            normalize_mdns_serial(d.serial)
        } else {
            d.serial
        },
    }
}

pub fn mirror_key_for_device(device: &AdbDevice, services: &[MdnsService]) -> (r: String)
    ensures
        r@ == mirror_key_spec(device@, service_views(services@)),
{
    let ghost sv = service_views(services@);
    let mut i: usize = 0;
    proof {
        assert(sv.skip(0) =~= sv);
    }
    while i < services.len()
        invariant
            i <= services@.len(),
            sv == service_views(services@),
            first_matching_service(device@, sv) == first_matching_service(device@, sv.skip(i as int)),
        decreases services.len() - i,
    {
        proof {
            assert(sv.skip(i as int)[0] == services@[i as int]@);
            assert(sv.skip(i as int).skip(1) =~= sv.skip(i + 1));
        }
        if services[i].is_connect_service() && device_matches_connect_service(device, &services[i]) {
            return connect_service_serial(&services[i]);
        }
        i += 1;
    }
    proof {
        assert(sv.skip(services@.len() as int) =~= Seq::<ServiceView>::empty());
    }
    if is_mdns_wireless_serial(device.serial.as_str()) {
        string_of(&normalize_mdns_serial_exec(&chars_of(device.serial.as_str())))
    } else {
        device.serial.clone()
    }
}

/// The model with underscores shown as spaces, or the serial.
pub open spec fn device_name_spec(d: DeviceView) -> Seq<char> {
    match d.model {
        Some(m) => replace_char(m, '_', ' '),
        None => d.serial,
    }
}

pub open spec fn device_info_matches(i: DeviceInfo, d: DeviceView, ss: Seq<ServiceView>) -> bool {
    &&& i.serial@ == d.serial
    &&& i.mirror_key@ == mirror_key_spec(d, ss)
    &&& i.name@ == device_name_spec(d)
    &&& i.ready == is_ready(d)
    &&& i.state@ == state_label_spec(d.state)
    &&& i.is_emulator == is_emulator_spec(d)
}

pub fn device_info(device: &AdbDevice, services: &[MdnsService]) -> (r: DeviceInfo)
    ensures
        device_info_matches(r, device@, service_views(services@)),
{
    let name = match &device.model {
        Some(m) => string_of(&replace_char_exec(&chars_of(m.as_str()), '_', ' ')),
        None => device.serial.clone(),
    };
    DeviceInfo {
        serial: device.serial.clone(),
        mirror_key: mirror_key_for_device(device, services),
        name,
        ready: device.state.is_ready(),
        state: state_label(&device.state),
        is_emulator: is_emulator(device),
    }
}

/// The device rows: one per wireless transport, in order.
pub fn snapshot_devices(devices: Vec<AdbDevice>, services: &[MdnsService]) -> (r: Vec<DeviceInfo>)
    ensures
        r@.len() == dedupe(device_views(devices@), service_views(services@)).len(),
        forall|i: int| 0 <= i < r@.len() ==> device_info_matches(
            #[trigger] r@[i],
            dedupe(device_views(devices@), service_views(services@))[i],
            service_views(services@),
        ),
{
    let deduped = dedupe_ready_devices(devices, services);
    let ghost dv = device_views(deduped@);
    let mut out: Vec<DeviceInfo> = Vec::new();
    let mut i: usize = 0;
    while i < deduped.len()
        invariant
            i <= deduped@.len(),
            dv == device_views(deduped@),
            out@.len() == i,
            forall|k: int| 0 <= k < i ==> device_info_matches(#[trigger] out@[k], dv[k], service_views(services@)),
        decreases deduped.len() - i,
    {
        proof {
            assert(dv[i as int] == deduped@[i as int]@);
        }
        out.push(device_info(&deduped[i], services));
        i += 1;
    }
    out
}

/// The Bonjour endpoints on the pairing endpoint's host, in order.
pub open spec fn same_host(endpoints: Seq<Seq<char>>, pairing: Seq<char>) -> Seq<Seq<char>>
    decreases endpoints.len(),
{
    if endpoints.len() == 0 {
        seq![]
    } else if endpoint_host_spec(endpoints.last()) == endpoint_host_spec(pairing) {
        same_host(endpoints.drop_last(), pairing).push(endpoints.last())
    } else {
        same_host(endpoints.drop_last(), pairing)
    }
}

pub fn bonjour_connect_candidates_for_pairing(endpoints: Vec<String>, pairing_endpoint: &str) -> (r: Vec<String>)
    ensures
        strs(r@) == same_host(strs(endpoints@), pairing_endpoint@),
{
    let ghost ev = strs(endpoints@);
    let host = endpoint_host_chars(&chars_of(pairing_endpoint));
    let mut out: Vec<String> = Vec::new();
    let mut i: usize = 0;
    proof {
        assert(ev.take(0) =~= Seq::<Seq<char>>::empty());
        assert(strs(out@) =~= Seq::<Seq<char>>::empty());
    }
    while i < endpoints.len()
        invariant
            i <= endpoints@.len(),
            ev == strs(endpoints@),
            host@ == endpoint_host_spec(pairing_endpoint@),
            strs(out@) == same_host(ev.take(i as int), pairing_endpoint@),
        decreases endpoints.len() - i,
    {
        proof {
            let p = ev.take(i + 1);
            assert(p.drop_last() =~= ev.take(i as int));
            assert(p.last() == endpoints@[i as int]@);
        }
        if crate::text::chars_eq(&endpoint_host_chars(&chars_of(endpoints[i].as_str())), &host) {
            let e = endpoints[i].clone();
            proof {
                assert(strs(out@.push(e)) =~= strs(out@).push(e@));
            }
            out.push(e);
        }
        i += 1;
    }
    proof {
        assert(ev.take(endpoints@.len() as int) =~= ev);
    }
    out
}

/// Keeps the most recent 600 log lines after appending `line`.
pub fn append_log(logs: &mut Vec<String>, line: String)
    ensures
        ({
            let all = old(logs)@.push(line);
            if all.len() > 600 {
                final(logs)@ == all.skip(all.len() - 600)
            } else {
                final(logs)@ == all
            }
        }),
{
    logs.push(line);
    if logs.len() > 600 {
        let ghost all = logs@;
        let drop = logs.len() - 600;
        let mut kept: Vec<String> = Vec::new();
        let mut i: usize = drop;
        while i < logs.len()
            invariant
                drop <= i <= logs@.len(),
                logs@ == all,
                kept@ == all.subrange(drop as int, i as int),
            decreases logs.len() - i,
        {
            kept.push(logs[i].clone());
            proof {
                assert(kept@ =~= all.subrange(drop as int, i + 1));
            }
            i += 1;
        }
        proof {
            assert(all.subrange(drop as int, all.len() as int) =~= all.skip(drop as int));
        }
        *logs = kept;
    }
}

/// Where the settings are kept: `awb/config.toml` under `$XDG_CONFIG_HOME`,
/// else under `$HOME/.config`; nowhere without either.
pub open spec fn config_path_spec(xdg_config_home: Option<Seq<char>>, home: Option<Seq<char>>) -> Option<Seq<char>> {
    let base = match xdg_config_home {
        Some(x) => Some(x),
        None => match home {
            Some(h) => Some(join_path(h, ".config"@)),
            None => None,
        },
    };
    match base {
        Some(b) => Some(join_path(join_path(b, "awb"@), "config.toml"@)),
        None => None,
    }
}

pub fn config_path(xdg_config_home: Option<&str>, home: Option<&str>) -> (r: Option<String>)
    ensures
        match r {
            Some(p) => config_path_spec(
                match xdg_config_home { Some(x) => Some(x@), None => None },
                match home { Some(h) => Some(h@), None => None },
            ) == Some(p@),
            None => config_path_spec(
                match xdg_config_home { Some(x) => Some(x@), None => None },
                match home { Some(h) => Some(h@), None => None },
            ) is None,
        },
{
    let base = match xdg_config_home {
        Some(x) => x.to_string(),
        None => match home {
            Some(h) => join_path_exec(h, ".config"),
            None => {
                return None;
            },
        },
    };
    let dir = join_path_exec(base.as_str(), "awb");
    Some(join_path_exec(dir.as_str(), "config.toml"))
}

// ---------------------------------------------------------------------------
// Open at Login
// ---------------------------------------------------------------------------

/// The name matched, in any case, against login item names.
pub open spec fn login_match() -> Seq<char> {
    "awb"@
}

/// The login items, as `osascript` listed them, include this app.
pub fn login_items_include_app(names: Option<&str>) -> (r: bool)
    ensures
        r == match names {
            Some(n) => contains(lower(n@), lower("awb"@)),
            None => false,
        },
{
    match names {
        Some(n) => contains_exec(&lowercase(&chars_of(n)), &lowercase(&chars_of("awb"))),
        None => false,
    }
}

/// The enclosing `.app` bundle of an executable path (up to the first
/// `.app/Contents/MacOS/`), or the path itself.
pub fn app_bundle_path(exe: &str) -> (r: String)
    ensures
        (exists|i: int| occurs_at(exe@, ".app/Contents/MacOS/"@, i)) ==> ({
            &&& r@.len() >= 4
            &&& occurs_at(exe@, ".app/Contents/MacOS/"@, r@.len() - 4)
            &&& forall|j: int| 0 <= j < r@.len() - 4 ==> !occurs_at(exe@, ".app/Contents/MacOS/"@, j)
            &&& r@ == exe@.take(r@.len() as int)
        }),
        !(exists|i: int| occurs_at(exe@, ".app/Contents/MacOS/"@, i)) ==> r@ == exe@,
{
    let e = chars_of(exe);
    let marker = chars_of(".app/Contents/MacOS/");
    proof {
        reveal_strlit(".app/Contents/MacOS/");
    }
    match find_from(&e, 0, &marker) {
        Some(i) => {
            proof {
                reveal_strlit(".app/Contents/MacOS/");
                assert(marker@.len() == 20);
                assert(i + 20 <= e@.len());
            }
            let len: usize = e.len();
            proof {
                assert(i + 4 <= len);
            }
            let head = slice_range(&e, 0, i + 4);
            proof {
                assert(head@ =~= exe@.take(i + 4));
            }
            string_of(&head)
        },
        None => exe.to_string(),
    }
}

/// The AppleScript that removes every login item whose name contains the match.
pub fn delete_login_items_script() -> (r: String)
    ensures
        r@ == "tell application \"System Events\" to delete (every login item whose name contains \"awb\")"@,
{
    "tell application \"System Events\" to delete (every login item whose name contains \"awb\")".to_string()
}

/// The AppleScript that registers `path` as a hidden login item.
pub fn add_login_item_script(path: &str) -> (r: String)
    ensures
        r@ == "tell application \"System Events\" to make login item at end with properties {name:\"awb\", path:\""@
            + path@ + "\", hidden:true}"@,
{
    let a = concat(
        &chars_of("tell application \"System Events\" to make login item at end with properties {name:\"awb\", path:\""),
        &chars_of(path),
    );
    string_of(&concat(&a, &chars_of("\", hidden:true}")))
}

} // verus!
