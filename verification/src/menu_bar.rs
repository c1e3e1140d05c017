//! The menu bar app's bookkeeping: the clock on its log lines, the progress
//! line under a pairing, which phones it mirrors by itself, and which mirrors
//! run or are starting. Threads, windows and processes are the caller's part.
use vstd::prelude::*;

use crate::text::{
    trim,
    trimmed,
    is_digit,
    digit_value,
    chars_of,
    string_of,
    concat,
    append_chars,
    join,
    join_exec,
    seqs,
    decimal,
    decimal_exec,
};
use crate::pairing_flow::PairingProgress;
use crate::adb::{strs, contains_string, lemma_push_no_duplicates};
use crate::desktop::{DeviceInfo, Snapshot, same_host};
use crate::pairing_steps::{retryable, pairing_error_is_retryable, pairing_failed, opt_str_view};
use crate::connect_steps::WaitCommand;
use crate::adb::{MdnsService, service_views, ServiceView};
use crate::command_path::{strings, lemma_strings_push};

verus! {

// ---------------------------------------------------------------------------
// The clock on log lines
// ---------------------------------------------------------------------------

/// `n` with at least two digits, as `format!("{n:02}")`.
pub open spec fn pad2(n: nat) -> Seq<char> {
    if n < 10 {
        "0"@ + decimal(n)
    } else {
        decimal(n)
    }
}

/// `HH:MM:SS` for a second of the day.
pub open spec fn clock_spec(day_second: nat) -> Seq<char> {
    pad2(day_second / 3600) + ":"@ + pad2((day_second / 60) % 60) + ":"@ + pad2(day_second % 60)
}

/// The second of the local day: Unix time plus the UTC offset, modulo a day.
pub open spec fn day_second(now: int, offset: int) -> nat {
    ((now + offset) % 86400) as nat
}

fn pad2_exec(n: u64) -> (r: Vec<char>)
    ensures
        r@ == pad2(n as nat),
{
    let digits = decimal_exec(n);
    if n < 10 {
        let mut r: Vec<char> = Vec::new();
        r.push('0');
        append_chars(&mut r, &digits);
        proof {
            reveal_strlit("0");
            assert(r@ =~= "0"@ + decimal(n as nat));
        }
        r
    } else {
        digits
    }
}

proof fn lemma_negative_mod_day(k: int)
    requires
        k > 0,
    ensures
        (-k) % 86400 == if k % 86400 == 0 { 0 } else { 86400 - k % 86400 },
{
    let q = k / 86400;
    let r = k % 86400;
    vstd::arithmetic::div_mod::lemma_fundamental_div_mod(k, 86400);
    if r == 0 {
        vstd::arithmetic::div_mod::lemma_fundamental_div_mod_converse(-k, 86400, -q, 0);
    } else {
        vstd::arithmetic::div_mod::lemma_fundamental_div_mod_converse(-k, 86400, -q - 1, 86400 - r);
    }
}

/// The log clock: `HH:MM:SS` of the local day at Unix time `now` (seconds)
/// with `local_offset` seconds east of UTC.
pub fn clock_text(now: u64, local_offset: i64) -> (r: String)
    requires
        now <= i64::MAX,
        i64::MIN <= now + local_offset <= i64::MAX,
    ensures
        r@ == clock_spec(day_second(now as int, local_offset as int)),
{
    let total: i64 = now as i64 + local_offset;
    let day: u64 = if total >= 0 {
        (total as u64) % 86400
    } else {
        let k: u64 = (-(total as i128)) as u64;
        let m: u64 = k % 86400;
        proof {
            lemma_negative_mod_day(k as int);
        }
        if m == 0 {
            0
        } else {
            86400 - m
        }
    };
    proof {
        assert(day as nat == day_second(now as int, local_offset as int));
    }
    let mut out = pad2_exec(day / 3600);
    out.push(':');
    append_chars(&mut out, &pad2_exec((day / 60) % 60));
    out.push(':');
    append_chars(&mut out, &pad2_exec(day % 60));
    proof {
        reveal_strlit(":");
        assert(out@ =~= clock_spec(day as nat));
    }
    string_of(&out)
}

/// A two-character field as `str::parse::<i64>` reads it: two digits, or a
/// sign and one digit.
pub open spec fn two_char_integer(s: Seq<char>) -> Option<int> {
    if s.len() != 2 {
        None
    } else if is_digit(s[0]) && is_digit(s[1]) {
        Some((10 * digit_value(s[0]) + digit_value(s[1])) as int)
    } else if s[0] == '+' && is_digit(s[1]) {
        Some(digit_value(s[1]) as int)
    } else if s[0] == '-' && is_digit(s[1]) {
        Some(-(digit_value(s[1]) as int))
    } else {
        None
    }
}

/// What `date +%z` printed, read as seconds east of UTC: a sign character,
/// then hours and minutes of two characters each. Any sign but `-` counts as
/// east.
pub open spec fn utc_offset(raw: Seq<char>) -> Option<int> {
    let t = trim(raw);
    let digits = t.subrange(1, t.len() as int);
    if digits.len() < 4 {
        None
    } else {
        match (two_char_integer(digits.subrange(0, 2)), two_char_integer(digits.subrange(2, 4))) {
            (Some(h), Some(m)) => {
                let offset = h * 3600 + m * 60;
                Some(if t[0] == '-' { -offset } else { offset })
            },
            _ => None,
        }
    }
}

fn two_char_integer_exec(a: char, b: char) -> (r: Option<i64>)
    ensures
        match two_char_integer(seq![a, b]) {
            Some(v) => r == Some(v as i64),
            None => r is None,
        },
{
    let a_digit = '0' <= a && a <= '9';
    let b_digit = '0' <= b && b <= '9';
    proof {
        assert(seq![a, b].len() == 2);
        assert(seq![a, b][0] == a && seq![a, b][1] == b);
    }
    if !b_digit {
        return None;
    }
    let bv: i64 = (b as u32 - '0' as u32) as i64;
    if a_digit {
        let av: i64 = (a as u32 - '0' as u32) as i64;
        Some(10 * av + bv)
    } else if a == '+' {
        Some(bv)
    } else if a == '-' {
        Some(-bv)
    } else {
        None
    }
}

/// The UTC offset in `date +%z` output. The first character of the trimmed
/// output is split off as the sign, so the output must not be blank and must
/// start with a one-byte character.
pub fn parse_utc_offset(raw: &str) -> (r: Option<i64>)
    requires
        trim(raw@).len() > 0,
        (trim(raw@)[0] as u32) < 0x80,
    ensures
        match utc_offset(raw@) {
            Some(v) => r == Some(v as i64),
            None => r is None,
        },
{
    let t = trimmed(&chars_of(raw));
    if t.len() < 5 {
        return None;
    }
    proof {
        let digits = t@.subrange(1, t@.len() as int);
        assert(digits.subrange(0, 2) =~= seq![t@[1], t@[2]]);
        assert(digits.subrange(2, 4) =~= seq![t@[3], t@[4]]);
    }
    let hours = two_char_integer_exec(t[1], t[2]);
    let minutes = two_char_integer_exec(t[3], t[4]);
    match (hours, minutes) {
        (Some(h), Some(m)) => {
            let offset: i64 = h * 3600 + m * 60;
            if t[0] == '-' {
                Some(-offset)
            } else {
                Some(offset)
            }
        },
        _ => None,
    }
}

// ---------------------------------------------------------------------------
// The line under a pairing's progress
// ---------------------------------------------------------------------------

/// Whole seconds left until `deadline` (milliseconds), a started second counting whole.
pub open spec fn remaining_seconds(deadline: nat, now: nat) -> nat {
    if deadline <= now {
        0
    } else {
        let left = (deadline - now) as nat;
        left / 1000 + if left % 1000 > 0 { 1nat } else { 0nat }
    }
}

/// `Ns remaining` and `attempt N`, those that apply, joined with ` · `.
pub open spec fn progress_meta(deadline: Option<u64>, attempt: Option<u32>, now: nat) -> Seq<char> {
    let time: Seq<Seq<char>> = match deadline {
        Some(d) => seq![decimal(remaining_seconds(d as nat, now)) + "s remaining"@],
        None => seq![],
    };
    let tries: Seq<Seq<char>> = match attempt {
        Some(a) => seq!["attempt "@ + decimal(a as nat)],
        None => seq![],
    };
    join(time + tries, " · "@)
}

/// The line shown under a pairing's progress at `now` (milliseconds).
pub fn pairing_progress_meta(progress: &PairingProgress, now: u64) -> (r: String)
    ensures
        r@ == progress_meta(progress.deadline, progress.attempt, now as nat),
{
    let mut parts: Vec<Vec<char>> = Vec::new();
    match progress.deadline {
        Some(d) => {
            let left: u64 = if d <= now { 0 } else { d - now };
            let secs: u64 = if left == 0 {
                0
            } else {
                left / 1000 + if left % 1000 > 0 { 1u64 } else { 0u64 }
            };
            parts.push(concat(&decimal_exec(secs), &chars_of("s remaining")));
        },
        None => {},
    }
    match progress.attempt {
        Some(a) => {
            parts.push(concat(&chars_of("attempt "), &decimal_exec(a as u64)));
        },
        None => {},
    }
    proof {
        let time: Seq<Seq<char>> = match progress.deadline {
            Some(d) => seq![decimal(remaining_seconds(d as nat, now as nat)) + "s remaining"@],
            None => seq![],
        };
        let tries: Seq<Seq<char>> = match progress.attempt {
            Some(a) => seq!["attempt "@ + decimal(a as nat)],
            None => seq![],
        };
        assert(seqs(parts@) =~= time + tries);
    }
    string_of(&join_exec(&parts, &chars_of(" · ")))
}


// ---------------------------------------------------------------------------
// Mirroring phones by themselves
// ---------------------------------------------------------------------------

/// The mirror keys of the ready rows, in order.
pub open spec fn ready_keys(devices: Seq<DeviceInfo>) -> Seq<Seq<char>>
    decreases devices.len(),
{
    if devices.len() == 0 {
        seq![]
    } else if devices.last().ready {
        ready_keys(devices.drop_last()).push(devices.last().mirror_key@)
    } else {
        ready_keys(devices.drop_last())
    }
}

/// The keys of `keys` that are also in `present`, in order.
pub open spec fn keep_present(keys: Seq<Seq<char>>, present: Seq<Seq<char>>) -> Seq<Seq<char>>
    decreases keys.len(),
{
    if keys.len() == 0 {
        seq![]
    } else if present.contains(keys.last()) {
        keep_present(keys.drop_last(), present).push(keys.last())
    } else {
        keep_present(keys.drop_last(), present)
    }
}

/// A row that is mirrored by itself: ready, not an emulator, not mirrored
/// or starting already, and not mirrored by itself before.
pub open spec fn wants_auto_mirror(d: DeviceInfo, mirroring: Seq<Seq<char>>, known: Seq<Seq<char>>) -> bool {
    d.ready && !d.is_emulator && !mirroring.contains(d.mirror_key@) && !known.contains(d.mirror_key@)
}

/// Walking the rows in order: the keys mirrored by themselves so far, and
/// the rows to start.
pub open spec fn auto_fold(devices: Seq<DeviceInfo>, mirroring: Seq<Seq<char>>, known: Seq<Seq<char>>) -> (Seq<Seq<char>>, Seq<DeviceInfo>)
    decreases devices.len(),
{
    if devices.len() == 0 {
        (known, seq![])
    } else {
        let (k, starts) = auto_fold(devices.drop_last(), mirroring, known);
        let d = devices.last();
        if wants_auto_mirror(d, mirroring, k) {
            (k.push(d.mirror_key@), starts.push(d))
        } else {
            (k, starts)
        }
    }
}

/// With the setting off, nothing is remembered; without a snapshot or
/// without scrcpy, nothing changes; otherwise keys of phones that left are
/// forgotten, and each wanted row is started and remembered.
pub open spec fn auto_mirror_plan(
    auto_mirror: bool,
    snapshot: Option<Snapshot>,
    mirroring: Seq<Seq<char>>,
    known: Seq<Seq<char>>,
) -> (Seq<Seq<char>>, Seq<DeviceInfo>) {
    if !auto_mirror {
        (seq![], seq![])
    } else {
        match snapshot {
            None => (known, seq![]),
            Some(s) => if !s.scrcpy.available {
                (known, seq![])
            } else {
                auto_fold(s.devices@, mirroring, keep_present(known, ready_keys(s.devices@)))
            },
        }
    }
}

/// The mirror keys of the ready rows.
pub fn ready_device_mirror_keys(devices: &[DeviceInfo]) -> (r: Vec<String>)
    ensures
        strs(r@) == ready_keys(devices@),
{
    let mut out: Vec<String> = Vec::new();
    let mut i: usize = 0;
    proof {
        assert(devices@.take(0) =~= Seq::<DeviceInfo>::empty());
        assert(strs(out@) =~= Seq::<Seq<char>>::empty());
    }
    while i < devices.len()
        invariant
            i <= devices@.len(),
            strs(out@) == ready_keys(devices@.take(i as int)),
        decreases devices.len() - i,
    {
        proof {
            assert(devices@.take(i + 1).drop_last() =~= devices@.take(i as int));
        }
        if devices[i].ready {
            let k = devices[i].mirror_key.clone();
            proof {
                assert(strs(out@.push(k)) =~= strs(out@).push(k@));
            }
            out.push(k);
        }
        i += 1;
    }
    proof {
        assert(devices@.take(devices@.len() as int) =~= devices@);
    }
    out
}

fn keep_present_exec(keys: &Vec<String>, present: &Vec<String>) -> (r: Vec<String>)
    ensures
        strs(r@) == keep_present(strs(keys@), strs(present@)),
{
    let ghost ks = strs(keys@);
    let mut out: Vec<String> = Vec::new();
    let mut i: usize = 0;
    proof {
        assert(ks.take(0) =~= Seq::<Seq<char>>::empty());
        assert(strs(out@) =~= Seq::<Seq<char>>::empty());
    }
    while i < keys.len()
        invariant
            i <= keys@.len(),
            ks == strs(keys@),
            strs(out@) == keep_present(ks.take(i as int), strs(present@)),
        decreases keys.len() - i,
    {
        proof {
            assert(ks.take(i + 1).drop_last() =~= ks.take(i as int));
            assert(ks.take(i + 1).last() == keys@[i as int]@);
        }
        if contains_string(present.as_slice(), &keys[i]) {
            let k = keys[i].clone();
            proof {
                assert(strs(out@.push(k)) =~= strs(out@).push(k@));
            }
            out.push(k);
        }
        i += 1;
    }
    proof {
        assert(ks.take(keys@.len() as int) =~= ks);
    }
    out
}

/// The rows to start mirroring by themselves now; `auto_mirrored` keeps the
/// keys of phones mirrored by themselves while they stay connected.
/// `mirroring` holds the keys of mirrors running or starting.
pub fn auto_mirror_starts(
    auto_mirror: bool,
    snapshot: &Option<Snapshot>,
    mirroring: &[String],
    auto_mirrored: &mut Vec<String>,
) -> (r: Vec<DeviceInfo>)
    ensures
        ({
            let (known, starts) = auto_mirror_plan(auto_mirror, *snapshot, strs(mirroring@), strs(old(auto_mirrored)@));
            strs(final(auto_mirrored)@) == known && r@ == starts
        }),
{
    if !auto_mirror {
        *auto_mirrored = Vec::new();
        proof {
            assert(strs(auto_mirrored@) =~= Seq::<Seq<char>>::empty());
        }
        return Vec::new();
    }
    let s = match snapshot {
        Some(s) => s,
        None => {
            return Vec::new();
        },
    };
    if !s.scrcpy.available {
        return Vec::new();
    }
    let present = ready_device_mirror_keys(s.devices.as_slice());
    let mut known = keep_present_exec(auto_mirrored, &present);
    let ghost k0 = strs(known@);
    let mut starts: Vec<DeviceInfo> = Vec::new();
    let mut i: usize = 0;
    proof {
        assert(s.devices@.take(0) =~= Seq::<DeviceInfo>::empty());
    }
    while i < s.devices.len()
        invariant
            i <= s.devices@.len(),
            (strs(known@), starts@) == auto_fold(s.devices@.take(i as int), strs(mirroring@), k0),
        decreases s.devices.len() - i,
    {
        proof {
            assert(s.devices@.take(i + 1).drop_last() =~= s.devices@.take(i as int));
            assert(s.devices@.take(i + 1).last() == s.devices@[i as int]);
        }
        let d = &s.devices[i];
        if d.ready && !d.is_emulator && !contains_string(mirroring, &d.mirror_key) && !contains_string(
            known.as_slice(),
            &d.mirror_key,
        ) {
            let k = d.mirror_key.clone();
            proof {
                assert(strs(known@.push(k)) =~= strs(known@).push(k@));
            }
            known.push(k);
            starts.push(d.copy());
        }
        i += 1;
    }
    proof {
        assert(s.devices@.take(s.devices@.len() as int) =~= s.devices@);
    }
    *auto_mirrored = known;
    starts
}


// ---------------------------------------------------------------------------
// Running and starting mirrors
// ---------------------------------------------------------------------------

/// `keys` without `key`.
pub open spec fn without(keys: Seq<Seq<char>>, key: Seq<char>) -> Seq<Seq<char>>
    decreases keys.len(),
{
    if keys.len() == 0 {
        seq![]
    } else if keys.last() == key {
        without(keys.drop_last(), key)
    } else {
        without(keys.drop_last(), key).push(keys.last())
    }
}

pub proof fn lemma_without(keys: Seq<Seq<char>>, key: Seq<char>)
    ensures
        forall|x: Seq<char>| #[trigger] without(keys, key).contains(x) <==> keys.contains(x) && x != key,
        keys.no_duplicates() ==> without(keys, key).no_duplicates(),
        !keys.contains(key) ==> without(keys, key) == keys,
    decreases keys.len(),
{
    if keys.len() > 0 {
        let rest = keys.drop_last();
        lemma_without(rest, key);
        let w0 = without(rest, key);
        let w = without(keys, key);
        assert forall|x: Seq<char>| #[trigger] w.contains(x) <==> keys.contains(x) && x != key by {
            if w.contains(x) {
                let j = choose|j: int| 0 <= j < w.len() && w[j] == x;
                if keys.last() != key && j == w.len() - 1 {
                    assert(keys[keys.len() - 1] == x);
                } else {
                    assert(w0[j] == x);
                    assert(w0.contains(x));
                    let i = choose|i: int| 0 <= i < rest.len() && rest[i] == x;
                    assert(keys[i] == x);
                }
            }
            if keys.contains(x) && x != key {
                let i = choose|i: int| 0 <= i < keys.len() && keys[i] == x;
                if i == keys.len() - 1 {
                    assert(keys.last() == x);
                    assert(w[w.len() - 1] == x);
                } else {
                    assert(rest[i] == x);
                    assert(rest.contains(x));
                    assert(w0.contains(x));
                    let j = choose|j: int| 0 <= j < w0.len() && w0[j] == x;
                    if keys.last() != key {
                        assert(w[j] == x);
                    }
                }
            }
        }
        if keys.no_duplicates() {
            assert(rest.no_duplicates());
            if keys.last() != key {
                assert(!rest.contains(keys.last()));
                lemma_push_no_duplicates(w0, keys.last());
            }
        }
        if !keys.contains(key) {
            assert(!rest.contains(key));
            assert(keys.last() != key);
            assert(rest.push(keys.last()) =~= keys);
        }
    }
}

fn remove_key(keys: &mut Vec<String>, key: &str) -> (found: bool)
    ensures
        found == strs(old(keys)@).contains(key@),
        strs(final(keys)@) == without(strs(old(keys)@), key@),
{
    let ghost ks = strs(keys@);
    let wanted = key.to_string();
    let mut kept: Vec<String> = Vec::new();
    let mut found = false;
    let mut i: usize = 0;
    proof {
        assert(ks.take(0) =~= Seq::<Seq<char>>::empty());
        assert(strs(kept@) =~= Seq::<Seq<char>>::empty());
    }
    while i < keys.len()
        invariant
            i <= keys@.len(),
            ks == strs(keys@),
            wanted@ == key@,
            strs(kept@) == without(ks.take(i as int), key@),
            found == ks.take(i as int).contains(key@),
        decreases keys.len() - i,
    {
        let ghost pre = ks.take(i + 1);
        proof {
            assert(pre.drop_last() =~= ks.take(i as int));
            assert(pre.last() == keys@[i as int]@);
        }
        if keys[i] == wanted {
            found = true;
            proof {
                assert(pre[i as int] == key@);
            }
        } else {
            let k = keys[i].clone();
            proof {
                assert(strs(kept@.push(k)) =~= strs(kept@).push(k@));
                if pre.contains(key@) {
                    let j = choose|j: int| 0 <= j < pre.len() && pre[j] == key@;
                    assert(ks.take(i as int)[j] == key@);
                }
            }
            kept.push(k);
        }
        i += 1;
    }
    proof {
        assert(ks.take(keys@.len() as int) =~= ks);
    }
    *keys = kept;
    found
}

/// The mirrors as the menu bar app keeps them: keys of running mirrors and
/// of mirrors being started.
pub struct BookView {
    pub running: Seq<Seq<char>>,
    pub starting: Seq<Seq<char>>,
}

/// No key is running twice or starting twice, and none is both.
pub open spec fn book_wf(b: BookView) -> bool {
    &&& b.running.no_duplicates()
    &&& b.starting.no_duplicates()
    &&& forall|k: Seq<char>| !(#[trigger] b.running.contains(k) && b.starting.contains(k))
}

/// What follows a started mirror process.
#[derive(Debug, Clone, Copy, PartialEq, Eq)]
pub enum StartAction {
    /// Keep the process: it is the mirror now.
    Track,
    /// Stop the process again: the start was cancelled or another won.
    Stop,
    /// No process was started.
    Nothing,
}

/// Starting a mirror for `key`: refused while one runs or starts for it.
pub open spec fn begin_spec(b: BookView, key: Seq<char>) -> (BookView, bool) {
    if b.running.contains(key) || b.starting.contains(key) {
        (b, false)
    } else {
        (BookView { starting: b.starting.push(key), ..b }, true)
    }
}

/// A start for `key` ended with a process (its pid) or an error. A start
/// that was cancelled meanwhile, or that another start beat, is stopped
/// again; a failed one is reported only while it was still wanted.
pub open spec fn finish_spec(b: BookView, key: Seq<char>, name: Seq<char>, started: Result<u32, Seq<char>>) -> (BookView, StartAction, Option<Seq<char>>) {
    let wanted = b.starting.contains(key);
    let b1 = BookView { starting: without(b.starting, key), ..b };
    match started {
        Ok(pid) => if !wanted {
            (b1, StartAction::Stop, Some("Cancelled mirror start for "@ + name))
        } else if b.running.contains(key) {
            (b1, StartAction::Stop, Some("Already mirroring "@ + name))
        } else {
            (
                BookView { running: b.running.push(key), ..b1 },
                StartAction::Track,
                Some("Mirroring "@ + name + " (pid "@ + decimal(pid as nat) + ")"@),
            )
        },
        Err(e) => (b1, StartAction::Nothing, if wanted { Some("Mirror failed: "@ + e) } else { None }),
    }
}

/// Stopping the mirror of `key`: its process when it runs, else its start.
pub open spec fn stop_spec(b: BookView, key: Seq<char>) -> (BookView, bool, Option<Seq<char>>) {
    if b.running.contains(key) {
        (BookView { running: without(b.running, key), ..b }, true, Some("Stopped mirror of "@ + key))
    } else if b.starting.contains(key) {
        (BookView { starting: without(b.starting, key), ..b }, false, Some("Cancelled mirror start for "@ + key))
    } else {
        (b, false, None)
    }
}

/// Forgetting the mirrors whose processes ended, with a log line for each.
pub open spec fn reap_spec(b: BookView, finished: Seq<Seq<char>>) -> (BookView, Seq<Seq<char>>)
    decreases finished.len(),
{
    if finished.len() == 0 {
        (b, seq![])
    } else {
        let (b0, logs) = reap_spec(b, finished.drop_last());
        let k = finished.last();
        if b0.running.contains(k) {
            (BookView { running: without(b0.running, k), ..b0 }, logs.push("Mirror of "@ + k + " ended"@))
        } else {
            (b0, logs)
        }
    }
}

/// The running and starting mirrors of the menu bar app, by mirror key.
#[derive(Debug, Clone, PartialEq, Eq)]
pub struct MirrorBook {
    running: Vec<String>,
    starting: Vec<String>,
}

impl View for MirrorBook {
    type V = BookView;

    closed spec fn view(&self) -> BookView {
        BookView { running: strs(self.running@), starting: strs(self.starting@) }
    }
}

fn cat(a: &str, b: &str) -> (r: String)
    ensures
        r@ == a@ + b@,
{
    string_of(&concat(&chars_of(a), &chars_of(b)))
}

impl MirrorBook {
    pub fn new() -> (r: MirrorBook)
        ensures
            r@.running == Seq::<Seq<char>>::empty(),
            r@.starting == Seq::<Seq<char>>::empty(),
            book_wf(r@),
    {
        let r = MirrorBook { running: Vec::new(), starting: Vec::new() };
        proof {
            assert(r@.running =~= Seq::<Seq<char>>::empty());
            assert(r@.starting =~= Seq::<Seq<char>>::empty());
        }
        r
    }

    /// The keys of the running mirrors.
    pub fn running(&self) -> (r: Vec<String>)
        ensures
            strs(r@) == self@.running,
    {
        let r = self.running.clone();
        proof {
            assert(strs(r@) =~= strs(self.running@));
        }
        r
    }

    /// Whether a mirror of `key` runs or is starting.
    pub fn is_mirroring(&self, key: &str) -> (r: bool)
        ensures
            r == (self@.running.contains(key@) || self@.starting.contains(key@)),
    {
        let k = key.to_string();
        contains_string(self.running.as_slice(), &k) || contains_string(self.starting.as_slice(), &k)
    }

    /// Claims the start of a mirror of `key`; `false` (and nothing changes)
    /// when one runs or is starting already.
    pub fn begin_start(&mut self, key: &str) -> (r: bool)
        requires
            book_wf(old(self)@),
        ensures
            (final(self)@, r) == begin_spec(old(self)@, key@),
            book_wf(final(self)@),
    {
        if self.is_mirroring(key) {
            return false;
        }
        let k = key.to_string();
        proof {
            assert(strs(self.starting@.push(k)) =~= strs(self.starting@).push(k@));
            lemma_push_no_duplicates(self@.starting, key@);
        }
        self.starting.push(k);
        proof {
            assert(self@.starting == old(self)@.starting.push(key@));
            assert forall|x: Seq<char>| !(#[trigger] self@.running.contains(x) && self@.starting.contains(x)) by {
                if self@.starting.contains(x) && x != key@ {
                    let j = choose|j: int| 0 <= j < self@.starting.len() && self@.starting[j] == x;
                    assert(old(self)@.starting[j] == x);
                }
            }
        }
        true
    }

    /// Settles the start of the mirror of `key` (shown as `name`): `Ok` with
    /// the pid of the process that started, or the error.
    pub fn finish_start(&mut self, key: &str, name: &str, started: Result<u32, String>) -> (r: (StartAction, Option<String>))
        requires
            book_wf(old(self)@),
        ensures
            ({
                let (b, action, log) = finish_spec(old(self)@, key@, name@, match started {
                    Ok(pid) => Ok(pid),
                    Err(e) => Err(e@),
                });
                &&& final(self)@ == b
                &&& r.0 == action
                &&& match r.1 {
                    Some(l) => log == Some(l@),
                    None => log is None,
                }
            }),
            book_wf(final(self)@),
    {
        let ghost b = self@;
        let wanted = remove_key(&mut self.starting, key);
        proof {
            lemma_without(b.starting, key@);
        }
        let k = key.to_string();
        let running = contains_string(self.running.as_slice(), &k);
        match started {
            Ok(pid) => {
                if !wanted {
                    (StartAction::Stop, Some(cat("Cancelled mirror start for ", name)))
                } else if running {
                    (StartAction::Stop, Some(cat("Already mirroring ", name)))
                } else {
                    proof {
                        assert(strs(self.running@.push(k)) =~= strs(self.running@).push(k@));
                        lemma_push_no_duplicates(b.running, key@);
                    }
                    self.running.push(k);
                    proof {
                        assert(self@.running == b.running.push(key@));
                        assert forall|x: Seq<char>| !(#[trigger] self@.running.contains(x) && self@.starting.contains(x)) by {
                            if self@.running.contains(x) && self@.starting.contains(x) {
                                assert(without(b.starting, key@).contains(x));
                                assert(x != key@);
                                let j = choose|j: int| 0 <= j < self@.running.len() && self@.running[j] == x;
                                assert(b.running[j] == x);
                                assert(b.running.contains(x));
                                assert(b.starting.contains(x));
                            }
                        }
                    }
                    let m = cat("Mirroring ", name);
                    let m = cat(m.as_str(), " (pid ");
                    let m = cat(m.as_str(), string_of(&decimal_exec(pid as u64)).as_str());
                    (StartAction::Track, Some(cat(m.as_str(), ")")))
                }
            },
            Err(e) => {
                if wanted {
                    (StartAction::Nothing, Some(cat("Mirror failed: ", e.as_str())))
                } else {
                    (StartAction::Nothing, None)
                }
            },
        }
    }

    /// Stops the mirror of `key`: `true` when its process is to be stopped,
    /// with the line to log.
    pub fn stop(&mut self, key: &str) -> (r: (bool, Option<String>))
        requires
            book_wf(old(self)@),
        ensures
            ({
                let (b, kill, log) = stop_spec(old(self)@, key@);
                &&& final(self)@ == b
                &&& r.0 == kill
                &&& match r.1 {
                    Some(l) => log == Some(l@),
                    None => log is None,
                }
            }),
            book_wf(final(self)@),
    {
        let ghost b = self@;
        proof {
            lemma_without(b.running, key@);
            lemma_without(b.starting, key@);
        }
        let k = key.to_string();
        if contains_string(self.running.as_slice(), &k) {
            remove_key(&mut self.running, key);
            return (true, Some(cat("Stopped mirror of ", key)));
        }
        if remove_key(&mut self.starting, key) {
            return (false, Some(cat("Cancelled mirror start for ", key)));
        }
        (false, None)
    }

    /// Stops everything: the keys of the running mirrors, whose processes
    /// are to be stopped; no start is wanted any more.
    pub fn stop_all(&mut self) -> (r: Vec<String>)
        ensures
            strs(r@) == old(self)@.running,
            final(self)@.running == Seq::<Seq<char>>::empty(),
            final(self)@.starting == Seq::<Seq<char>>::empty(),
            book_wf(final(self)@),
    {
        let mut r: Vec<String> = Vec::new();
        std::mem::swap(&mut r, &mut self.running);
        self.starting = Vec::new();
        proof {
            assert(self@.running =~= Seq::<Seq<char>>::empty());
            assert(self@.starting =~= Seq::<Seq<char>>::empty());
        }
        r
    }

    /// Forgets the mirrors of `finished` whose processes ended, and gives the
    /// lines to log.
    pub fn reap(&mut self, finished: &[String]) -> (r: Vec<String>)
        requires
            book_wf(old(self)@),
        ensures
            ({
                let (b, logs) = reap_spec(old(self)@, strs(finished@));
                final(self)@ == b && strs(r@) == logs
            }),
            book_wf(final(self)@),
    {
        let ghost fs = strs(finished@);
        let ghost b0 = self@;
        let mut logs: Vec<String> = Vec::new();
        let mut i: usize = 0;
        proof {
            assert(fs.take(0) =~= Seq::<Seq<char>>::empty());
            assert(strs(logs@) =~= Seq::<Seq<char>>::empty());
        }
        while i < finished.len()
            invariant
                i <= finished@.len(),
                fs == strs(finished@),
                book_wf(self@),
                (self@, strs(logs@)) == reap_spec(b0, fs.take(i as int)),
            decreases finished.len() - i,
        {
            proof {
                assert(fs.take(i + 1).drop_last() =~= fs.take(i as int));
                assert(fs.take(i + 1).last() == finished@[i as int]@);
                lemma_without(self@.running, finished@[i as int]@);
            }
            if contains_string(self.running.as_slice(), &finished[i]) {
                remove_key(&mut self.running, finished[i].as_str());
                let line = cat(cat("Mirror of ", finished[i].as_str()).as_str(), " ended");
                proof {
                    assert(strs(logs@.push(line)) =~= strs(logs@).push(line@));
                }
                logs.push(line);
            }
            i += 1;
        }
        proof {
            assert(fs.take(finished@.len() as int) =~= fs);
        }
        logs
    }
}


// ---------------------------------------------------------------------------
// Pairing from the menu bar
// ---------------------------------------------------------------------------

/// After looking for the phone's pairing endpoints at `now`: pair with those
/// found, give up at `deadline`, or look again in 400 milliseconds.
pub fn pairing_endpoints_step(found: Vec<String>, now: u64, deadline: u64) -> (r: WaitCommand)
    ensures
        found@.len() > 0 ==> r == WaitCommand::Found(found),
        found@.len() == 0 && now >= deadline ==> (r matches WaitCommand::TimedOut(m) && m@ == "no QR scan detected"@),
        found@.len() == 0 && now < deadline ==> r == WaitCommand::Sleep(400),
{
    if found.len() > 0 {
        WaitCommand::Found(found)
    } else if now >= deadline {
        WaitCommand::TimedOut("no QR scan detected".to_string())
    } else {
        WaitCommand::Sleep(400)
    }
}

/// Passes of `adb pair` over the endpoints, as the menu bar app runs them:
/// the first that pairs wins; after a pass whose failures include a
/// retryable one, another pass follows 800 milliseconds later, until the
/// deadline (milliseconds).
#[derive(Debug, Clone, PartialEq, Eq)]
pub struct PairPasses {
    pub endpoints: Vec<String>,
    pub next: usize,
    pub retryable: bool,
    pub last_error: Option<String>,
    pub deadline: u64,
}

/// What to run next.
#[derive(Debug, PartialEq, Eq)]
pub enum PassCommand {
    /// `adb pair` with this endpoint and the QR secret.
    Pair(String),
    /// Wait this many milliseconds.
    Sleep(u64),
    /// Pairing is over: the endpoint that paired, or why none did.
    Finish(Result<String, String>),
}

/// A step: the progress label to show when it changes, the lines to log,
/// and the next command.
#[derive(Debug, PartialEq, Eq)]
pub struct PassStep {
    pub label: Option<String>,
    pub logs: Vec<String>,
    pub command: PassCommand,
}

pub struct PassesView {
    pub endpoints: Seq<Seq<char>>,
    pub next: nat,
    pub retryable: bool,
    pub last_error: Option<Seq<char>>,
    pub deadline: nat,
}

pub enum PassCommandView {
    Pair(Seq<char>),
    Sleep(nat),
    Finish(Result<Seq<char>, Seq<char>>),
}

pub struct PassStepView {
    pub label: Option<Seq<char>>,
    pub logs: Seq<Seq<char>>,
    pub command: PassCommandView,
}

impl PairPasses {
    pub open spec fn view(self) -> PassesView {
        PassesView {
            endpoints: strings(self.endpoints@),
            next: self.next as nat,
            retryable: self.retryable,
            last_error: opt_str_view(self.last_error),
            deadline: self.deadline as nat,
        }
    }
}

pub open spec fn pass_command_view(c: PassCommand) -> PassCommandView {
    match c {
        PassCommand::Pair(e) => PassCommandView::Pair(e@),
        PassCommand::Sleep(ms) => PassCommandView::Sleep(ms as nat),
        PassCommand::Finish(Ok(e)) => PassCommandView::Finish(Ok(e@)),
        PassCommand::Finish(Err(e)) => PassCommandView::Finish(Err(e@)),
    }
}

pub open spec fn pass_step_view(p: PassStep) -> PassStepView {
    PassStepView { label: opt_str_view(p.label), logs: strings(p.logs@), command: pass_command_view(p.command) }
}

pub open spec fn pairing_label() -> Seq<char> {
    "Pairing with your phone..."@
}

/// The next endpoint of the pass; after the last one, another pass after a
/// pause when a retryable failure came before the deadline, else failure.
pub open spec fn pass_next(s: PassesView, now: nat) -> PassStepView {
    if s.next < s.endpoints.len() {
        let e = s.endpoints[s.next as int];
        PassStepView { label: None, logs: seq!["Pairing with endpoint "@ + e], command: PassCommandView::Pair(e) }
    } else if !s.retryable || now >= s.deadline {
        PassStepView { label: None, logs: seq![], command: PassCommandView::Finish(Err(pairing_failed(s.last_error))) }
    } else {
        PassStepView {
            label: Some("Pairing with your phone... retrying"@),
            logs: seq!["Pairing endpoint is visible but not ready yet; retrying..."@],
            command: PassCommandView::Sleep(800),
        }
    }
}

/// A new pass from the first endpoint, under the plain pairing label.
pub open spec fn pass_begin(s: PassesView, now: nat) -> (PassesView, PassStepView) {
    let t = PassesView { next: 0, retryable: false, ..s };
    let step = pass_next(t, now);
    (t, PassStepView { label: Some(pairing_label()), ..step })
}

/// What `adb pair` on the current endpoint leads to.
pub open spec fn pass_after_pair(s: PassesView, result: Result<(), Seq<char>>, now: nat) -> (PassesView, PassStepView) {
    let e = s.endpoints[s.next as int];
    match result {
        Ok(_) => (s, PassStepView { label: None, logs: seq![], command: PassCommandView::Finish(Ok(e)) }),
        Err(m) => {
            let t = PassesView {
                next: s.next + 1,
                retryable: s.retryable || retryable(m),
                last_error: Some(m),
                ..s
            };
            let step = pass_next(t, now);
            (t, PassStepView { logs: seq!["Pairing endpoint "@ + e + " failed: "@ + m] + step.logs, ..step })
        },
    }
}

fn cat3(a: &str, b: &str, c: &str) -> (r: String)
    ensures
        r@ == a@ + b@ + c@,
{
    let ab = concat(&chars_of(a), &chars_of(b));
    string_of(&concat(&ab, &chars_of(c)))
}

impl PairPasses {
    fn next_step(&self, label: Option<String>, logs: Vec<String>, now: u64) -> (r: PassStep)
        requires
            self.next <= self.endpoints@.len(),
        ensures
            ({
                let step = pass_next(self.view(), now as nat);
                &&& opt_str_view(r.label) == match step.label {
                    Some(l) => Some(l),
                    None => opt_str_view(label),
                }
                &&& strings(r.logs@) == strings(logs@) + step.logs
                &&& pass_command_view(r.command) == step.command
            }),
    {
        let mut logs = logs;
        let ghost l0 = strings(logs@);
        if self.next < self.endpoints.len() {
            let e = self.endpoints[self.next].clone();
            proof {
                assert(strings(self.endpoints@)[self.next as int] == e@);
            }
            let line = cat("Pairing with endpoint ", e.as_str());
            proof {
                lemma_strings_push(logs@, line);
            }
            logs.push(line);
            proof {
                assert(strings(logs@) =~= l0 + seq!["Pairing with endpoint "@ + e@]);
            }
            return PassStep { label, logs, command: PassCommand::Pair(e) };
        }
        if !self.retryable || now >= self.deadline {
            let msg = match &self.last_error {
                Some(err) => cat("failed to pair with any discovered endpoint; last error: ", err.as_str()),
                None => "failed to pair with any discovered endpoint".to_string(),
            };
            proof {
                assert(strings(logs@) =~= l0 + Seq::<Seq<char>>::empty());
            }
            return PassStep { label, logs, command: PassCommand::Finish(Err(msg)) };
        }
        let line = "Pairing endpoint is visible but not ready yet; retrying...".to_string();
        proof {
            lemma_strings_push(logs@, line);
        }
        logs.push(line);
        proof {
            assert(strings(logs@) =~= l0 + seq!["Pairing endpoint is visible but not ready yet; retrying..."@]);
        }
        PassStep {
            label: Some("Pairing with your phone... retrying".to_string()),
            logs,
            command: PassCommand::Sleep(800),
        }
    }

    /// Starts the passes over `endpoints`, with thirty seconds from `now`
    /// (milliseconds) to succeed.
    pub fn start(endpoints: Vec<String>, now: u64) -> (r: (PairPasses, PassStep))
        requires
            now <= u64::MAX - 30_000,
        ensures
            ({
                let s0 = PassesView {
                    endpoints: strings(endpoints@),
                    next: 0,
                    retryable: false,
                    last_error: None,
                    deadline: (now + 30_000) as nat,
                };
                let (s, step) = pass_begin(s0, now as nat);
                r.0.view() == s && pass_step_view(r.1) == step
            }),
            r.0.next <= r.0.endpoints@.len(),
    {
        let s = PairPasses { endpoints, next: 0, retryable: false, last_error: None, deadline: now + 30_000 };
        let logs: Vec<String> = Vec::new();
        let step = s.next_step(Some("Pairing with your phone...".to_string()), logs, now);
        proof {
            assert(strings(step.logs@) =~= pass_next(s.view(), now as nat).logs);
        }
        (s, step)
    }

    /// After `adb pair` on the current endpoint gave `result` at `now`.
    pub fn on_pair_result(&mut self, result: Result<(), String>, now: u64) -> (r: PassStep)
        requires
            old(self).next < old(self).endpoints@.len(),
        ensures
            ({
                let (s, step) = pass_after_pair(old(self).view(), match result {
                    Ok(_) => Ok(()),
                    Err(e) => Err(e@),
                }, now as nat);
                final(self).view() == s && pass_step_view(r) == step
            }),
            final(self).next <= final(self).endpoints@.len(),
    {
        let e = self.endpoints[self.next].clone();
        proof {
            assert(strings(self.endpoints@)[self.next as int] == e@);
        }
        match result {
            Ok(()) => {
                let logs: Vec<String> = Vec::new();
                proof {
                    assert(strings(logs@) =~= Seq::<Seq<char>>::empty());
                }
                PassStep { label: None, logs, command: PassCommand::Finish(Ok(e)) }
            },
            Err(m) => {
                let again = pairing_error_is_retryable(m.as_str());
                let line = cat3("Pairing endpoint ", e.as_str(), cat(" failed: ", m.as_str()).as_str());
                let mut logs: Vec<String> = Vec::new();
                proof {
                    lemma_strings_push(logs@, line);
                }
                logs.push(line);
                let ghost lv = strings(logs@);
                proof {
                    assert(lv =~= seq![line@]);
                    assert(line@ =~= "Pairing endpoint "@ + e@ + " failed: "@ + m@);
                }
                let n = self.endpoints.len();
                self.retryable = self.retryable || again;
                self.last_error = Some(m);
                self.next = self.next + 1;
                proof {
                    assert(self.next <= n);
                }
                let r = self.next_step(None, logs, now);
                proof {
                    let (s2, step2) = pass_after_pair(old(self).view(), Err(m@), now as nat);
                    assert(pass_step_view(r).logs =~= step2.logs);
                }
                r
            },
        }
    }

    /// After the pause: a new pass from the first endpoint.
    pub fn on_slept(&mut self, now: u64) -> (r: PassStep)
        ensures
            ({
                let (s, step) = pass_begin(old(self).view(), now as nat);
                final(self).view() == s && pass_step_view(r) == step
            }),
            final(self).next <= final(self).endpoints@.len(),
    {
        self.next = 0;
        self.retryable = false;
        let logs: Vec<String> = Vec::new();
        let step = self.next_step(Some("Pairing with your phone...".to_string()), logs, now);
        proof {
            assert(strings(step.logs@) =~= pass_next(self.view(), now as nat).logs);
        }
        step
    }
}

// ---------------------------------------------------------------------------
// Connecting after pairing
// ---------------------------------------------------------------------------

/// `extra` appended to `endpoints`, each only where it is not there yet.
pub open spec fn merged(endpoints: Seq<Seq<char>>, extra: Seq<Seq<char>>) -> Seq<Seq<char>>
    decreases extra.len(),
{
    if extra.len() == 0 {
        endpoints
    } else {
        let m = merged(endpoints, extra.drop_last());
        if m.contains(extra.last()) {
            m
        } else {
            m.push(extra.last())
        }
    }
}

/// The addresses of `services`, in order.
pub open spec fn addresses(services: Seq<ServiceView>) -> Seq<Seq<char>> {
    services.map_values(|s: ServiceView| s.address)
}

/// Where to try `adb connect` after pairing: the connect candidates that ADB
/// lists, then the Bonjour endpoints on the pairing host that are not among
/// them (Bonjour can see a live endpoint while ADB lists a stale one).
pub open spec fn connect_after_pairing_spec(candidates: Seq<ServiceView>, bonjour: Option<Seq<Seq<char>>>, pairing: Seq<char>) -> Seq<Seq<char>> {
    match bonjour {
        Some(found) => merged(addresses(candidates), same_host(found, pairing)),
        None => addresses(candidates),
    }
}

pub fn connect_after_pairing_endpoints(
    candidates: &[MdnsService],
    bonjour: Option<Vec<String>>,
    pairing_endpoint: &str,
) -> (r: Vec<String>)
    ensures
        strs(r@) == connect_after_pairing_spec(
            service_views(candidates@),
            match bonjour {
                Some(f) => Some(strs(f@)),
                None => None,
            },
            pairing_endpoint@,
        ),
{
    let ghost sv = service_views(candidates@);
    let mut out: Vec<String> = Vec::new();
    let mut i: usize = 0;
    proof {
        assert(addresses(sv).take(0) =~= strs(out@));
    }
    while i < candidates.len()
        invariant
            i <= candidates@.len(),
            sv == service_views(candidates@),
            strs(out@) == addresses(sv).take(i as int),
        decreases candidates.len() - i,
    {
        let a = candidates[i].address.clone();
        proof {
            assert(strs(out@.push(a)) =~= strs(out@).push(a@));
            assert(addresses(sv).take(i + 1) =~= addresses(sv).take(i as int).push(a@));
        }
        out.push(a);
        i += 1;
    }
    proof {
        assert(addresses(sv).take(candidates@.len() as int) =~= addresses(sv));
    }
    let found = match bonjour {
        Some(f) => f,
        None => {
            return out;
        },
    };
    let extra = crate::desktop::bonjour_connect_candidates_for_pairing(found, pairing_endpoint);
    let ghost base = strs(out@);
    let ghost es = strs(extra@);
    let mut j: usize = 0;
    proof {
        assert(es.take(0) =~= Seq::<Seq<char>>::empty());
    }
    while j < extra.len()
        invariant
            j <= extra@.len(),
            es == strs(extra@),
            strs(out@) == merged(base, es.take(j as int)),
        decreases extra.len() - j,
    {
        proof {
            assert(es.take(j + 1).drop_last() =~= es.take(j as int));
            assert(es.take(j + 1).last() == extra@[j as int]@);
        }
        if !contains_string(out.as_slice(), &extra[j]) {
            let e = extra[j].clone();
            proof {
                assert(strs(out@.push(e)) =~= strs(out@).push(e@));
            }
            out.push(e);
        }
        j += 1;
    }
    proof {
        assert(es.take(extra@.len() as int) =~= es);
    }
    out
}


// ---------------------------------------------------------------------------
// The pairing panel
// ---------------------------------------------------------------------------

/// What the pairing panel shows.
#[derive(Debug, Clone, PartialEq, Eq)]
pub enum PairingPhase {
    /// The QR code to scan.
    Qr,
    /// A step after the scan.
    Connecting { label: String },
    /// Pairing stopped with this message.
    Failed { message: String },
}

/// A pairing shown in the panel. Its cancellation flag belongs to the
/// worker that runs it.
#[derive(Debug, Clone, PartialEq, Eq)]
pub struct PairingSession {
    pub phase: PairingPhase,
}

/// How asking for a new pairing ends.
#[derive(Debug, Clone, PartialEq, Eq)]
pub enum PairingStart {
    /// This Mac cannot pair now: the panel shows why.
    Blocked(PairingSession),
    /// No QR code could be drawn: the panel keeps what it showed.
    QrFailed,
    /// The QR code is up and the worker can run.
    Started(PairingSession),
}

/// Starting a pairing for QR instance `instance`: blocked while Wi-Fi is not
/// ready, failed when the QR code cannot be drawn, else shown; with the line
/// to log.
pub fn start_pairing_session(wifi_ready: Result<(), String>, qr_drawn: Result<(), String>, instance: &str) -> (r: (PairingStart, String))
    ensures
        match wifi_ready {
            Err(m) => r.0 == PairingStart::Blocked(PairingSession { phase: PairingPhase::Failed { message: m } })
                && r.1@ == "Pairing blocked: "@ + m@,
            Ok(_) => match qr_drawn {
                Err(e) => r.0 == PairingStart::QrFailed && r.1@ == "QR generation failed: "@ + e@,
                Ok(_) => r.0 == PairingStart::Started(PairingSession { phase: PairingPhase::Qr })
                    && r.1@ == "Pairing started ("@ + instance@ + ")"@,
            },
        },
{
    match wifi_ready {
        Err(m) => {
            let line = cat("Pairing blocked: ", m.as_str());
            (PairingStart::Blocked(PairingSession { phase: PairingPhase::Failed { message: m } }), line)
        },
        Ok(()) => match qr_drawn {
            Err(e) => (PairingStart::QrFailed, cat("QR generation failed: ", e.as_str())),
            Ok(()) => (
                PairingStart::Started(PairingSession { phase: PairingPhase::Qr }),
                cat3("Pairing started (", instance, ")"),
            ),
        },
    }
}

/// Shows `phase` in the pairing panel, when a pairing is shown.
pub fn set_pairing_phase(session: &mut Option<PairingSession>, phase: PairingPhase)
    ensures
        match *old(session) {
            Some(_) => *final(session) == Some(PairingSession { phase }),
            None => *final(session) is None,
        },
{
    match session {
        Some(s) => {
            s.phase = phase;
        },
        None => {},
    }
}

/// The worker ended with the name of the paired phone or an error: unless
/// the pairing was cancelled meanwhile, a paired phone closes the panel and
/// an error is shown in it; with the line to log.
pub fn finish_pairing_session(session: &mut Option<PairingSession>, cancelled: bool, result: Result<String, String>) -> (r: Option<String>)
    ensures
        cancelled ==> r is None && *final(session) == *old(session),
        !cancelled ==> match result {
            Ok(name) => *final(session) is None && (r matches Some(l) && l@ == "Paired and connected to "@ + name@),
            Err(e) => (r matches Some(l) && l@ == "Pairing failed: "@ + e@) && match *old(session) {
                Some(_) => *final(session) == Some(PairingSession { phase: PairingPhase::Failed { message: e } }),
                None => *final(session) is None,
            },
        },
{
    if cancelled {
        return None;
    }
    match result {
        Ok(name) => {
            *session = None;
            Some(cat("Paired and connected to ", name.as_str()))
        },
        Err(e) => {
            let line = cat("Pairing failed: ", e.as_str());
            set_pairing_phase(session, PairingPhase::Failed { message: e });
            Some(line)
        },
    }
}

/// Closes the pairing panel; the line to log when a pairing was shown.
pub fn cancel_pairing_session(session: &mut Option<PairingSession>) -> (r: Option<String>)
    ensures
        *final(session) is None,
        match *old(session) {
            Some(_) => r matches Some(l) && l@ == "Pairing cancelled"@,
            None => r is None,
        },
{
    match session.take() {
        Some(_) => Some("Pairing cancelled".to_string()),
        None => None,
    }
}

} // verus!
