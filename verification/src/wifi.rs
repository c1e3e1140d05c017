//! Whether this Mac is on Wi-Fi for QR pairing: reading `networksetup`,
//! `ifconfig` and `ipconfig` output, and the verdict drawn from it.
use vstd::prelude::*;

use crate::text::{
    trim,
    trimmed,
    lower,
    lowercase,
    chars_of,
    string_of,
    chars_eq,
    concat,
    lines,
    split_lines,
    seqs,
    words,
    split_words,
    strip_prefix,
    strip_prefix_exec,
    rsplit_once,
    rsplit_once_exec,
    split_char,
    split_char_exec,
    parse_unsigned,
    parse_unsigned_exec,
};

verus! {

// ---------------------------------------------------------------------------
// `networksetup -listallhardwareports`
// ---------------------------------------------------------------------------

/// The first non-empty `Device:` after a `Hardware Port:` line naming Wi-Fi
/// (or AirPort), `saw_wifi` telling whether the last port line did.
pub open spec fn wifi_device_from(ls: Seq<Seq<char>>, saw_wifi: bool) -> Option<Seq<char>>
    decreases ls.len(),
{
    if ls.len() == 0 {
        None
    } else {
        let t = trim(ls[0]);
        match strip_prefix(t, "Hardware Port: "@) {
            Some(port) => wifi_device_from(ls.skip(1), port == "Wi-Fi"@ || port == "AirPort"@),
            None => {
                let found = if saw_wifi {
                    match strip_prefix(t, "Device: "@) {
                        Some(d) => if trim(d).len() > 0 {
                            Some(trim(d))
                        } else {
                            None
                        },
                        None => None,
                    }
                } else {
                    None
                };
                match found {
                    Some(d) => Some(d),
                    None => wifi_device_from(ls.skip(1), saw_wifi),
                }
            },
        }
    }
}

pub fn parse_wifi_device(output: &str) -> (r: Option<String>)
    ensures
        r is None ==> wifi_device_from(lines(output@), false) is None,
        r is Some ==> wifi_device_from(lines(output@), false) == Some(r->0@),
{
    let ls = split_lines(&chars_of(output));
    let ghost all = seqs(ls@);
    let port_prefix = chars_of("Hardware Port: ");
    let device_prefix = chars_of("Device: ");
    let wifi = chars_of("Wi-Fi");
    let airport = chars_of("AirPort");
    let mut saw: bool = false;
    let mut i: usize = 0;
    proof {
        assert(all.skip(0) =~= all);
    }
    while i < ls.len()
        invariant
            i <= ls@.len(),
            all == seqs(ls@),
            all == lines(output@),
            port_prefix@ == "Hardware Port: "@,
            device_prefix@ == "Device: "@,
            wifi@ == "Wi-Fi"@,
            airport@ == "AirPort"@,
            wifi_device_from(all, false) == wifi_device_from(all.skip(i as int), saw),
        decreases ls.len() - i,
    {
        proof {
            assert(all.skip(i as int)[0] == ls@[i as int]@);
            assert(all.skip(i as int).skip(1) =~= all.skip(i + 1));
        }
        let t = trimmed(ls[i].as_slice());
        match strip_prefix_exec(&t, &port_prefix) {
            Some(port) => {
                saw = chars_eq(&port, &wifi) || chars_eq(&port, &airport);
            },
            None => {
                if saw {
                    match strip_prefix_exec(&t, &device_prefix) {
                        Some(d) => {
                            let d = trimmed(&d);
                            if d.len() > 0 {
                                return Some(string_of(&d));
                            }
                        },
                        None => {},
                    }
                }
            },
        }
        i += 1;
    }
    None
}

// ---------------------------------------------------------------------------
// `networksetup -getairportpower` and `-getairportnetwork`
// ---------------------------------------------------------------------------

/// The value after the last colon reads `on`, in any case.
pub open spec fn airport_power(output: Seq<char>) -> bool {
    match rsplit_once(output, ':') {
        Some((_, v)) => lower(trim(v)) == lower("on"@),
        None => false,
    }
}

pub fn parse_airport_power(output: &str) -> (r: bool)
    ensures
        r == airport_power(output@),
{
    match rsplit_once_exec(&chars_of(output), ':') {
        Some((_, v)) => chars_eq(&lowercase(&trimmed(&v)), &lowercase(&chars_of("on"))),
        None => false,
    }
}

/// The network named after `Current Wi-Fi Network: `, when there is one.
pub open spec fn airport_network(output: Seq<char>) -> Option<Seq<char>> {
    match strip_prefix(output, "Current Wi-Fi Network: "@) {
        Some(n) => if trim(n).len() == 0 {
            None
        } else {
            Some(trim(n))
        },
        None => None,
    }
}

pub fn parse_airport_network(output: &str) -> (r: Option<String>)
    ensures
        r is None ==> airport_network(output@) is None,
        r is Some ==> airport_network(output@) == Some(r->0@),
{
    match strip_prefix_exec(&chars_of(output), &chars_of("Current Wi-Fi Network: ")) {
        Some(n) => {
            let t = trimmed(&n);
            if t.len() == 0 {
                None
            } else {
                Some(string_of(&t))
            }
        },
        None => None,
    }
}

// ---------------------------------------------------------------------------
// IPv4 addresses
// ---------------------------------------------------------------------------

/// Four byte-sized dotted parts, not `0.x`, not loopback, not multicast or
/// above, and not link-local `169.254.x.x`.
pub open spec fn is_usable_ipv4(address: Seq<char>) -> bool {
    let parts = split_char(address, '.');
    &&& parts.len() == 4
    &&& forall|i: int| 0 <= i < 4 ==> #[trigger] parse_unsigned(parts[i], 255) is Some
    &&& {
        let first = parse_unsigned(parts[0], 255)->0;
        let second = parse_unsigned(parts[1], 255)->0;
        first != 0 && first != 127 && first < 224 && !(first == 169 && second == 254)
    }
}

pub fn is_usable_ipv4_address(address: &str) -> (r: bool)
    ensures
        r == is_usable_ipv4(address@),
{
    is_usable_ipv4_chars(&chars_of(address))
}

fn is_usable_ipv4_chars(address: &[char]) -> (r: bool)
    ensures
        r == is_usable_ipv4(address@),
{
    let parts = split_char_exec(address, '.');
    let ghost ps = seqs(parts@);
    if parts.len() != 4 {
        return false;
    }
    let a = parse_unsigned_exec(parts[0].as_slice(), 255);
    let b = parse_unsigned_exec(parts[1].as_slice(), 255);
    let c = parse_unsigned_exec(parts[2].as_slice(), 255);
    let d = parse_unsigned_exec(parts[3].as_slice(), 255);
    proof {
        assert(ps[0] == parts@[0]@ && ps[1] == parts@[1]@);
        assert(ps[2] == parts@[2]@ && ps[3] == parts@[3]@);
    }
    if a.is_none() || b.is_none() || c.is_none() || d.is_none() {
        return false;
    }
    proof {
        assert(forall|i: int| 0 <= i < 4 ==> #[trigger] parse_unsigned(ps[i], 255) is Some);
    }
    let first = a.unwrap();
    let second = b.unwrap();
    first != 0 && first != 127 && first < 224 && !(first == 169 && second == 254)
}

/// The trimmed address when it is usable.
pub open spec fn usable_ipv4(address: Seq<char>) -> Option<Seq<char>> {
    if is_usable_ipv4(trim(address)) {
        Some(trim(address))
    } else {
        None
    }
}

pub fn usable_ipv4_address(address: &str) -> (r: Option<String>)
    ensures
        r is None ==> usable_ipv4(address@) is None,
        r is Some ==> usable_ipv4(address@) == Some(r->0@),
{
    let t = trimmed(&chars_of(address));
    if is_usable_ipv4_chars(&t) {
        Some(string_of(&t))
    } else {
        None
    }
}

// ---------------------------------------------------------------------------
// `ifconfig` and `ipconfig getifaddr`
// ---------------------------------------------------------------------------

/// Some line reads `status: active`, in any case.
pub open spec fn link_active(output: Seq<char>) -> bool {
    exists|i: int| 0 <= i < lines(output).len() && lower(trim(#[trigger] lines(output)[i])) == lower("status: active"@)
}

pub fn parse_ifconfig_link_active(output: &str) -> (r: bool)
    ensures
        r == link_active(output@),
{
    let ls = split_lines(&chars_of(output));
    let want = lowercase(&chars_of("status: active"));
    let mut i: usize = 0;
    while i < ls.len()
        invariant
            i <= ls@.len(),
            seqs(ls@) == lines(output@),
            want@ == lower("status: active"@),
            forall|k: int| 0 <= k < i ==> lower(trim(#[trigger] lines(output@)[k])) != lower("status: active"@),
        decreases ls.len() - i,
    {
        proof {
            assert(lines(output@)[i as int] == ls@[i as int]@);
        }
        if chars_eq(&lowercase(&trimmed(ls[i].as_slice())), &want) {
            return true;
        }
        i += 1;
    }
    false
}

/// The usable address that an `inet ADDRESS ...` line names.
pub open spec fn inet_address(line: Seq<char>) -> Option<Seq<char>> {
    match strip_prefix(trim(line), "inet "@) {
        Some(rest) => if words(rest).len() > 0 {
            usable_ipv4(words(rest)[0])
        } else {
            None
        },
        None => None,
    }
}

/// The first line for which `inet_address` gives an address.
pub open spec fn first_inet_address(ls: Seq<Seq<char>>) -> Option<Seq<char>>
    decreases ls.len(),
{
    if ls.len() == 0 {
        None
    } else {
        match inet_address(ls[0]) {
            Some(a) => Some(a),
            None => first_inet_address(ls.skip(1)),
        }
    }
}

fn inet_address_exec(line: &[char]) -> (r: Option<String>)
    ensures
        r is None ==> inet_address(line@) is None,
        r is Some ==> inet_address(line@) == Some(r->0@),
{
    match strip_prefix_exec(&trimmed(line), &chars_of("inet ")) {
        Some(rest) => {
            let ws = split_words(&rest);
            if ws.len() > 0 {
                proof {
                    assert(seqs(ws@)[0] == ws@[0]@);
                }
                usable_ipv4_address(string_of(ws[0].as_slice()).as_str())
            } else {
                None
            }
        },
        None => None,
    }
}

pub fn parse_ifconfig_ipv4_address(output: &str) -> (r: Option<String>)
    ensures
        r is None ==> first_inet_address(lines(output@)) is None,
        r is Some ==> first_inet_address(lines(output@)) == Some(r->0@),
{
    let ls = split_lines(&chars_of(output));
    let ghost all = seqs(ls@);
    let mut i: usize = 0;
    proof {
        assert(all.skip(0) =~= all);
    }
    while i < ls.len()
        invariant
            i <= ls@.len(),
            all == seqs(ls@),
            all == lines(output@),
            first_inet_address(all) == first_inet_address(all.skip(i as int)),
        decreases ls.len() - i,
    {
        proof {
            assert(all.skip(i as int)[0] == ls@[i as int]@);
            assert(all.skip(i as int).skip(1) =~= all.skip(i + 1));
        }
        let a = inet_address_exec(ls[i].as_slice());
        if a.is_some() {
            return a;
        }
        i += 1;
    }
    None
}

/// The first line that is a usable address.
pub open spec fn first_usable_line(ls: Seq<Seq<char>>) -> Option<Seq<char>>
    decreases ls.len(),
{
    if ls.len() == 0 {
        None
    } else {
        match usable_ipv4(trim(ls[0])) {
            Some(a) => Some(a),
            None => first_usable_line(ls.skip(1)),
        }
    }
}

pub fn parse_ipconfig_ipv4_address(output: &str) -> (r: Option<String>)
    ensures
        r is None ==> first_usable_line(lines(output@)) is None,
        r is Some ==> first_usable_line(lines(output@)) == Some(r->0@),
{
    let ls = split_lines(&chars_of(output));
    let ghost all = seqs(ls@);
    let mut i: usize = 0;
    proof {
        assert(all.skip(0) =~= all);
    }
    while i < ls.len()
        invariant
            i <= ls@.len(),
            all == seqs(ls@),
            all == lines(output@),
            first_usable_line(all) == first_usable_line(all.skip(i as int)),
        decreases ls.len() - i,
    {
        proof {
            assert(all.skip(i as int)[0] == ls@[i as int]@);
            assert(all.skip(i as int).skip(1) =~= all.skip(i + 1));
        }
        let t = trimmed(ls[i].as_slice());
        let a = usable_ipv4_address(string_of(&t).as_str());
        if a.is_some() {
            return a;
        }
        i += 1;
    }
    None
}

// ---------------------------------------------------------------------------
// The verdict
// ---------------------------------------------------------------------------

/// Joined to a named network, or an active link with a usable IPv4 address.
pub open spec fn connected(network: Option<Seq<char>>, link: bool, ipv4: Option<Seq<char>>) -> bool {
    network is Some || (link && match ipv4 {
        Some(a) => is_usable_ipv4(a),
        None => false,
    })
}

pub open spec fn opt_str(o: Option<&str>) -> Option<Seq<char>> {
    match o {
        Some(s) => Some(s@),
        None => None,
    }
}

pub fn wifi_connected(network: Option<&str>, link_active: bool, ipv4_address: Option<&str>) -> (r:
    bool)
    ensures
        r == connected(opt_str(network), link_active, opt_str(ipv4_address)),
{
    network.is_some() || (link_active && match ipv4_address {
        Some(a) => is_usable_ipv4_address(a),
        None => false,
    })
}

/// The Wi-Fi state of this Mac, as the pairing check sees it.
#[derive(Debug, Clone, PartialEq, Eq)]
pub struct MacWifiState {
    pub device: String,
    pub power_on: bool,
    pub network: Option<String>,
    pub link_active: bool,
    pub ipv4_address: Option<String>,
}

pub open spec fn opt_string(o: Option<String>) -> Option<Seq<char>> {
    match o {
        Some(s) => Some(s@),
        None => None,
    }
}

/// The state read from the interface's `ifconfig` output (empty when it
/// failed), its `ipconfig getifaddr` output, and the `networksetup` power and
/// network outputs (`None` when a command failed): the link is active when
/// `ifconfig` says so, the address comes from `ifconfig` or else `ipconfig`,
/// and power counts as on when `networksetup` says so or the link is active.
pub fn wifi_state(
    device: String,
    ifconfig: &str,
    ipconfig: Option<&str>,
    power: Option<&str>,
    network: Option<&str>,
) -> (r: MacWifiState)
    ensures
        r.device == device,
        r.link_active == link_active(ifconfig@),
        opt_string(r.ipv4_address) == match first_inet_address(lines(ifconfig@)) {
            Some(a) => Some(a),
            None => match ipconfig {
                Some(o) => first_usable_line(lines(o@)),
                None => None,
            },
        },
        r.power_on == (match power {
            Some(p) => airport_power(p@),
            None => link_active(ifconfig@),
        } || link_active(ifconfig@)),
        opt_string(r.network) == match network {
            Some(n) => airport_network(n@),
            None => None,
        },
{
    let link = parse_ifconfig_link_active(ifconfig);
    let ipv4_address = match parse_ifconfig_ipv4_address(ifconfig) {
        Some(a) => Some(a),
        None => match ipconfig {
            Some(o) => parse_ipconfig_ipv4_address(o),
            None => None,
        },
    };
    let power_on = match power {
        Some(p) => parse_airport_power(p),
        None => link,
    } || link;
    let network = match network {
        Some(n) => parse_airport_network(n),
        None => None,
    };
    MacWifiState { device, power_on, network, link_active: link, ipv4_address }
}

pub open spec fn wifi_off_message() -> Seq<char> {
    "Wi-Fi is off on this Mac. QR pairing needs the Mac and phone on the same Wi-Fi network. Turn Wi-Fi on, join the phone's network, then try again."@
}

pub open spec fn not_connected_message(device: Seq<char>) -> Seq<char> {
    "Wi-Fi is not connected on this Mac ("@ + device
        + "). QR pairing needs the Mac and phone on the same Wi-Fi network. Join the phone's Wi-Fi network, then try again."@
}

/// QR pairing needs Wi-Fi powered on and connected.
pub fn ensure_pairing_wifi_ready(state: &MacWifiState) -> (r: Result<(), String>)
    ensures
        !state.power_on ==> r is Err && r->Err_0@ == wifi_off_message(),
        state.power_on && !connected(opt_string(state.network), state.link_active, opt_string(state.ipv4_address))
            ==> r is Err && r->Err_0@ == not_connected_message(state.device@),
        state.power_on && connected(opt_string(state.network), state.link_active, opt_string(state.ipv4_address))
            ==> r is Ok,
{
    if !state.power_on {
        return Err(
            "Wi-Fi is off on this Mac. QR pairing needs the Mac and phone on the same Wi-Fi network. Turn Wi-Fi on, join the phone's network, then try again.".to_string(),
        );
    }
    let network: Option<&str> = match &state.network {
        Some(n) => Some(n.as_str()),
        None => None,
    };
    let ipv4: Option<&str> = match &state.ipv4_address {
        Some(a) => Some(a.as_str()),
        None => None,
    };
    if !wifi_connected(network, state.link_active, ipv4) {
        let a = concat(&chars_of("Wi-Fi is not connected on this Mac ("), &chars_of(state.device.as_str()));
        let b = concat(
            &a,
            &chars_of("). QR pairing needs the Mac and phone on the same Wi-Fi network. Join the phone's Wi-Fi network, then try again."),
        );
        return Err(string_of(&b));
    }
    Ok(())
}

/// A helper command's stdout when it succeeded, else `"{program} failed: "`
/// followed by its stderr, or its stdout when stderr is empty (both trimmed).
pub fn command_stdout(program: &str, success: bool, stdout: &str, stderr: &str) -> (r: Result<String, String>)
    ensures
        success ==> r is Ok && r->Ok_0@ == trim(stdout@),
        !success ==> r is Err && r->Err_0@ == program@ + " failed: "@ + (if trim(stderr@).len() == 0 {
            trim(stdout@)
        } else {
            trim(stderr@)
        }),
{
    let out = trimmed(&chars_of(stdout));
    let err = trimmed(&chars_of(stderr));
    if success {
        return Ok(string_of(&out));
    }
    let detail = if err.len() == 0 {
        out
    } else {
        err
    };
    let a = concat(&chars_of(program), &chars_of(" failed: "));
    Err(string_of(&concat(&a, &detail)))
}

} // verus!
