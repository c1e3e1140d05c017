//! The `adb` executable: interpreting what its commands print.
//!
//! Running a command is the caller's part; each function here takes the
//! finished command's result and decides what it means.
use vstd::prelude::*;

use crate::text::{
    trim,
    trimmed,
    lower,
    lowercase,
    contains,
    contains_exec,
    chars_of,
    string_of,
    concat,
    append_chars,
    lines,
    split_lines,
    seqs,
    lemma_seqs_push,
    strip_prefix,
    strip_prefix_exec,
    words,
    split_words,
    join,
    join_exec,
};
use crate::command_path::{ProgramError, resolves, resolve_program};
use crate::adb::{
    AdbDevice,
    MdnsService,
    device_views,
    service_views,
    parse_devices_spec,
    parse_services_spec,
    parse_devices,
    parse_mdns_services,
};

verus! {

// ---------------------------------------------------------------------------
// Command results
// ---------------------------------------------------------------------------

/// A finished command: whether it exited successfully, and what it printed.
#[derive(Debug, Clone, PartialEq, Eq)]
pub struct CommandResult {
    pub success: bool,
    pub stdout: String,
    pub stderr: String,
}

/// Trimmed stdout and trimmed stderr, joined by a newline when both are present.
pub open spec fn combined(stdout: Seq<char>, stderr: Seq<char>) -> Seq<char> {
    let o = trim(stdout);
    let e = trim(stderr);
    if o.len() == 0 {
        e
    } else if e.len() == 0 {
        o
    } else {
        o + seq!['\n'] + e
    }
}

pub open spec fn result_output(r: CommandResult) -> Seq<char> {
    combined(r.stdout@, r.stderr@)
}

impl CommandResult {
    pub fn combined_output(&self) -> (r: String)
        ensures
            r@ == result_output(*self),
    {
        string_of(&combined_chars(self))
    }
}

fn combined_chars(r: &CommandResult) -> (c: Vec<char>)
    ensures
        c@ == result_output(*r),
{
    let o = trimmed(&chars_of(r.stdout.as_str()));
    let e = trimmed(&chars_of(r.stderr.as_str()));
    if o.len() == 0 {
        e
    } else if e.len() == 0 {
        o
    } else {
        let mut out = o;
        out.push('\n');
        append_chars(&mut out, &e);
        out
    }
}

/// The trimmed output, or a note that there was none.
pub open spec fn fallback(output: Seq<char>) -> Seq<char> {
    if trim(output).len() == 0 {
        "command exited without output"@
    } else {
        trim(output)
    }
}

fn fallback_chars(output: &[char]) -> (r: Vec<char>)
    ensures
        r@ == fallback(output@),
{
    let t = trimmed(output);
    if t.len() == 0 {
        chars_of("command exited without output")
    } else {
        t
    }
}

/// `"{command} failed: {output or a note}"`.
pub open spec fn failed_message(command: Seq<char>, output: Seq<char>) -> Seq<char> {
    command + " failed: "@ + fallback(output)
}

fn failed_message_string(command: &str, output: &[char]) -> (r: String)
    ensures
        r@ == failed_message(command@, output@),
{
    let a = concat(&chars_of(command), &chars_of(" failed: "));
    string_of(&concat(&a, &fallback_chars(output)))
}

/// The result itself when the command succeeded, else its failure message.
pub fn ensure_success(command: &str, output: CommandResult) -> (r: Result<CommandResult, String>)
    ensures
        output.success ==> r == Ok::<CommandResult, String>(output),
        !output.success ==> r is Err && r->Err_0@ == failed_message(command@, result_output(output)),
{
    if output.success {
        Ok(output)
    } else {
        let c = combined_chars(&output);
        Err(failed_message_string(command, &c))
    }
}

/// Output that reports a failure even though the command exited successfully.
pub open spec fn looks_failed(output: Seq<char>) -> bool {
    let l = lower(output);
    contains(l, "failed"@) || contains(l, "unable"@) || contains(l, "cannot"@) || contains(
        l,
        "error:"@,
    )
}

fn output_looks_failed(output: &[char]) -> (r: bool)
    ensures
        r == looks_failed(output@),
{
    let l = lowercase(output);
    contains_exec(&l, &chars_of("failed")) || contains_exec(&l, &chars_of("unable"))
        || contains_exec(&l, &chars_of("cannot")) || contains_exec(&l, &chars_of("error:"))
}

/// The advice appended to a timed-out command's error.
pub open spec fn timeout_hint_spec(stderr: Seq<char>) -> Seq<char> {
    let tail = ". Try `awb --reset-adb` or `adb kill-server` if ADB is wedged."@;
    if trim(stderr).len() == 0 {
        tail
    } else {
        ": "@ + fallback(trim(stderr)) + tail
    }
}

pub fn timeout_hint(stderr: &str) -> (r: String)
    ensures
        r@ == timeout_hint_spec(stderr@),
{
    let tail = chars_of(". Try `awb --reset-adb` or `adb kill-server` if ADB is wedged.");
    let t = trimmed(&chars_of(stderr));
    if t.len() == 0 {
        string_of(&tail)
    } else {
        let a = concat(&chars_of(": "), &fallback_chars(&t));
        string_of(&concat(&a, &tail))
    }
}

/// Some message in an error's chain of causes reports a timeout.
pub open spec fn mentions_timeout(chain: Seq<Seq<char>>) -> bool {
    exists|i: int| 0 <= i < chain.len() && contains(#[trigger] chain[i], " timed out after "@)
}

/// Whether an error, given as the messages of its chain of causes, is a timeout.
pub fn error_is_timeout(chain: &[String]) -> (r: bool)
    ensures
        r == mentions_timeout(chain@.map_values(|s: String| s@)),
{
    let ghost v = chain@.map_values(|s: String| s@);
    let pat = chars_of(" timed out after ");
    let mut i: usize = 0;
    while i < chain.len()
        invariant
            i <= chain@.len(),
            v == chain@.map_values(|s: String| s@),
            pat@ == " timed out after "@,
            forall|k: int| 0 <= k < i ==> !contains(#[trigger] v[k], " timed out after "@),
        decreases chain.len() - i,
    {
        if contains_exec(&chars_of(chain[i].as_str()), &pat) {
            proof {
                assert(contains(v[i as int], " timed out after "@));
            }
            return true;
        }
        i += 1;
    }
    false
}

// ---------------------------------------------------------------------------
// `adb connect` output
// ---------------------------------------------------------------------------

/// The serial a single output line reports as connected.
pub open spec fn connected_serial_in_line(line: Seq<char>) -> Option<Seq<char>> {
    let t = trim(line);
    let rest = match strip_prefix(t, "connected to "@) {
        Some(r) => Some(r),
        None => strip_prefix(t, "already connected to "@),
    };
    match rest {
        Some(r) => if words(r).len() > 0 {
            Some(words(r)[0])
        } else {
            None
        },
        None => None,
    }
}

/// The serial reported by the first line that names one.
pub open spec fn first_connected_serial(ls: Seq<Seq<char>>) -> Option<Seq<char>>
    decreases ls.len(),
{
    if ls.len() == 0 {
        None
    } else {
        match connected_serial_in_line(ls[0]) {
            Some(s) => Some(s),
            None => first_connected_serial(ls.skip(1)),
        }
    }
}

fn connected_serial_in_line_exec(line: &[char]) -> (r: Option<Vec<char>>)
    ensures
        r is None ==> connected_serial_in_line(line@) is None,
        r is Some ==> connected_serial_in_line(line@) == Some(r->0@),
{
    let t = trimmed(line);
    let rest = match strip_prefix_exec(&t, &chars_of("connected to ")) {
        Some(r) => Some(r),
        None => strip_prefix_exec(&t, &chars_of("already connected to ")),
    };
    match rest {
        Some(r) => {
            let ws = split_words(&r);
            if ws.len() > 0 {
                proof {
                    assert(seqs(ws@)[0] == ws@[0]@);
                }
                Some(ws[0].clone())
            } else {
                None
            }
        },
        None => None,
    }
}

/// The serial that `adb connect` reports as (already) connected.
pub fn connect_serial_from_output(output: &str) -> (r: Option<String>)
    ensures
        r is None ==> first_connected_serial(lines(output@)) is None,
        r is Some ==> first_connected_serial(lines(output@)) == Some(r->0@),
{
    let ls = split_lines(&chars_of(output));
    let ghost all = seqs(ls@);
    let mut i: usize = 0;
    proof {
        assert(all.skip(0) =~= all);
    }
    while i < ls.len()
        invariant
            i <= ls@.len(),
            all == seqs(ls@),
            all == lines(output@),
            first_connected_serial(all) == first_connected_serial(all.skip(i as int)),
        decreases ls.len() - i,
    {
        proof {
            assert(all.skip(i as int)[0] == ls@[i as int]@);
            assert(all.skip(i as int).skip(1) =~= all.skip(i + 1));
        }
        match connected_serial_in_line_exec(ls[i].as_slice()) {
            Some(s) => {
                return Some(string_of(&s));
            },
            None => {},
        }
        i += 1;
    }
    None
}

// ---------------------------------------------------------------------------
// Wi-Fi status summary
// ---------------------------------------------------------------------------

/// A lowercased status line that describes the Wi-Fi link.
pub open spec fn is_wifi_line(l: Seq<char>) -> bool {
    contains(l, "ssid"@) || contains(l, "bssid"@) || contains(l, "rssi"@) || contains(
        l,
        "frequency"@,
    ) || contains(l, "link speed"@) || contains(l, "wifi is"@) || contains(l, "wi-fi is"@)
        || contains(l, "connected"@)
}

pub open spec fn keeps_status_line(t: Seq<char>) -> bool {
    t.len() > 0 && is_wifi_line(lower(t))
}

/// The trimmed lines that describe the Wi-Fi link, in order.
pub open spec fn wifi_lines(ls: Seq<Seq<char>>) -> Seq<Seq<char>>
    decreases ls.len(),
{
    if ls.len() == 0 {
        seq![]
    } else if keeps_status_line(trim(ls.last())) {
        wifi_lines(ls.drop_last()).push(trim(ls.last()))
    } else {
        wifi_lines(ls.drop_last())
    }
}

/// At most eight Wi-Fi lines joined by `" | "`; without any, the first six raw lines.
pub open spec fn summarize_wifi(output: Seq<char>) -> Seq<char> {
    let w = wifi_lines(lines(output));
    if w.len() == 0 {
        let ls = lines(output);
        join(if ls.len() <= 6 { ls } else { ls.take(6) }, " | "@)
    } else {
        join(if w.len() <= 8 { w } else { w.take(8) }, " | "@)
    }
}

/// What an earlier prefix of the lines keeps is a prefix of what all of them keep.
pub proof fn lemma_wifi_lines_prefix(ls: Seq<Seq<char>>, i: int)
    requires
        0 <= i <= ls.len(),
    ensures
        wifi_lines(ls.take(i)).len() <= wifi_lines(ls).len(),
        wifi_lines(ls).take(wifi_lines(ls.take(i)).len() as int) == wifi_lines(ls.take(i)),
    decreases ls.len(),
{
    if i == ls.len() {
        assert(ls.take(i) =~= ls);
        assert(wifi_lines(ls).take(wifi_lines(ls).len() as int) =~= wifi_lines(ls));
    } else {
        lemma_wifi_lines_prefix(ls.drop_last(), i);
        assert(ls.drop_last().take(i) =~= ls.take(i));
        let a = wifi_lines(ls.drop_last());
        let k = wifi_lines(ls.take(i)).len() as int;
        if keeps_status_line(trim(ls.last())) {
            assert(a.push(trim(ls.last())).take(k) =~= a.take(k));
        }
    }
}

/// The Wi-Fi lines of a status dump joined by `" | "`.
pub fn summarize_wifi_status(output: &str) -> (r: String)
    ensures
        r@ == summarize_wifi(output@),
{
    string_of(&summarize_wifi_chars(&chars_of(output)))
}

fn summarize_wifi_chars(output: &[char]) -> (r: Vec<char>)
    ensures
        r@ == summarize_wifi(output@),
{
    let ls = split_lines(output);
    let ghost all = seqs(ls@);
    let mut kept: Vec<Vec<char>> = Vec::new();
    let mut i: usize = 0;
    proof {
        assert(all.take(0) =~= Seq::<Seq<char>>::empty());
        assert(seqs(kept@) =~= Seq::<Seq<char>>::empty());
    }
    while i < ls.len()
        invariant_except_break
            i <= ls@.len(),
            all == seqs(ls@),
            all == lines(output@),
            seqs(kept@) == wifi_lines(all.take(i as int)),
            kept@.len() < 8,
        ensures
            all == lines(output@),
            seqs(kept@) == wifi_lines(all.take(i as int)),
            i <= ls@.len(),
            kept@.len() <= 8,
            kept@.len() < 8 ==> i == ls@.len(),
        decreases ls.len() - i,
    {
        proof {
            let p = all.take(i + 1);
            assert(p.drop_last() =~= all.take(i as int));
            assert(p.last() == ls@[i as int]@);
        }
        let t = trimmed(ls[i].as_slice());
        if t.len() == 0 {
            i += 1;
            continue;
        }
        let l = lowercase(&t);
        let keep = contains_exec(&l, &chars_of("ssid")) || contains_exec(&l, &chars_of("bssid"))
            || contains_exec(&l, &chars_of("rssi")) || contains_exec(&l, &chars_of("frequency"))
            || contains_exec(&l, &chars_of("link speed")) || contains_exec(
            &l,
            &chars_of("wifi is"),
        ) || contains_exec(&l, &chars_of("wi-fi is")) || contains_exec(
            &l,
            &chars_of("connected"),
        );
        if keep {
            proof {
                lemma_seqs_push(kept@, t);
            }
            kept.push(t);
        }
        i += 1;
        if kept.len() >= 8 {
            break;
        }
    }
    proof {
        lemma_wifi_lines_prefix(all, i as int);
        if kept@.len() < 8 {
            assert(all.take(i as int) =~= all);
        }
    }
    if kept.len() == 0 {
        let mut first: Vec<Vec<char>> = Vec::new();
        let mut j: usize = 0;
        proof {
            assert(seqs(first@) =~= all.take(0));
            lemma_wifi_lines_prefix(all, all.len() as int);
            assert(all.take(all.len() as int) =~= all);
        }
        while j < ls.len() && j < 6
            invariant
                j <= ls@.len(),
                j <= 6,
                all == seqs(ls@),
                seqs(first@) == all.take(j as int),
            decreases ls.len() - j,
        {
            proof {
                lemma_seqs_push(first@, ls@[j as int]);
                assert(all.take(j + 1) =~= all.take(j as int).push(ls@[j as int]@));
            }
            first.push(ls[j].clone());
            j += 1;
        }
        proof {
            if ls@.len() <= 6 {
                assert(all.take(j as int) =~= all);
            }
        }
        join_exec(&first, &chars_of(" | "))
    } else {
        proof {
            if wifi_lines(all).len() > 8 {
                assert(kept@.len() == 8);
            } else {
                assert(kept@.len() == wifi_lines(all).len());
                assert(wifi_lines(all).take(kept@.len() as int) =~= wifi_lines(all));
            }
        }
        join_exec(&kept, &chars_of(" | "))
    }
}

// ---------------------------------------------------------------------------
// The `adb` executable
// ---------------------------------------------------------------------------

/// The `adb` executable to run.
#[derive(Debug, Clone, PartialEq, Eq)]
pub struct Adb {
    pub path: String,
}

/// What the first `cmd wifi status` run leaves to do.
#[derive(Debug, Clone, PartialEq, Eq)]
pub enum WifiStatusStep {
    /// The status was readable: its summary.
    Summary(String),
    /// Nothing usable came back: `dumpsys wifi` is read next.
    ReadDumpsys,
}

impl Adb {
    /// The `adb` at the override path, or the first executable `adb` among the candidates.
    pub fn resolve(override_path: Option<(String, bool)>, candidates: &[(String, bool)]) -> (r:
        Result<Adb, ProgramError>)
        ensures
            resolves(
                "adb"@,
                override_path,
                candidates@,
                match r {
                    Ok(a) => Ok(a.path@),
                    Err(e) => Err(e),
                },
            ),
    {
        match resolve_program("adb", override_path, candidates) {
            Ok(path) => Ok(Adb { path }),
            Err(e) => Err(e),
        }
    }

    pub fn path(&self) -> (r: &str)
        ensures
            r@ == self.path@,
    {
        self.path.as_str()
    }

    /// `adb version`, which must succeed.
    pub fn version(output: CommandResult) -> (r: Result<CommandResult, String>)
        ensures
            output.success ==> r == Ok::<CommandResult, String>(output),
            !output.success ==> r is Err && r->Err_0@ == failed_message(
                "adb version"@,
                result_output(output),
            ),
    {
        ensure_success("adb version", output)
    }

    /// The rows of `adb devices -l`, which must succeed.
    pub fn devices(output: CommandResult) -> (r: Result<Vec<AdbDevice>, String>)
        ensures
            output.success ==> r is Ok && device_views(r->Ok_0@) == parse_devices_spec(
                output.stdout@,
            ),
            !output.success ==> r is Err && r->Err_0@ == failed_message(
                "adb devices -l"@,
                result_output(output),
            ),
    {
        match ensure_success("adb devices -l", output) {
            Ok(o) => Ok(parse_devices(o.stdout.as_str())),
            Err(e) => Err(e),
        }
    }

    /// The rows of `adb mdns services`, which must succeed.
    pub fn mdns_services(output: CommandResult) -> (r: Result<Vec<MdnsService>, String>)
        ensures
            output.success ==> r is Ok && service_views(r->Ok_0@) == parse_services_spec(
                output.stdout@,
            ),
            !output.success ==> r is Err && r->Err_0@ == failed_message(
                "adb mdns services"@,
                result_output(output),
            ),
    {
        match ensure_success("adb mdns services", output) {
            Ok(o) => Ok(parse_mdns_services(o.stdout.as_str())),
            Err(e) => Err(e),
        }
    }

    /// `adb pair`: it must succeed and print nothing that reads as a failure.
    pub fn pair(output: CommandResult) -> (r: Result<CommandResult, String>)
        ensures
            (output.success && !looks_failed(result_output(output))) ==> r == Ok::<
                CommandResult,
                String,
            >(output),
            !(output.success && !looks_failed(result_output(output))) ==> r is Err
                && r->Err_0@ == failed_message("adb pair"@, result_output(output)),
    {
        checked_transport_command("adb pair", output)
    }

    /// `adb connect`: it must succeed and print nothing that reads as a failure.
    pub fn connect(output: CommandResult) -> (r: Result<CommandResult, String>)
        ensures
            (output.success && !looks_failed(result_output(output))) ==> r == Ok::<
                CommandResult,
                String,
            >(output),
            !(output.success && !looks_failed(result_output(output))) ==> r is Err
                && r->Err_0@ == failed_message("adb connect"@, result_output(output)),
    {
        checked_transport_command("adb connect", output)
    }

    /// `adb disconnect`, which must succeed.
    pub fn disconnect(output: CommandResult) -> (r: Result<CommandResult, String>)
        ensures
            output.success ==> r == Ok::<CommandResult, String>(output),
            !output.success ==> r is Err && r->Err_0@ == failed_message(
                "adb disconnect"@,
                result_output(output),
            ),
    {
        ensure_success("adb disconnect", output)
    }

    /// `adb -s SERIAL shell true`, which must succeed.
    pub fn keepalive(output: CommandResult) -> (r: Result<(), String>)
        ensures
            output.success ==> r is Ok,
            !output.success ==> r is Err && r->Err_0@ == failed_message(
                "adb shell true"@,
                result_output(output),
            ),
    {
        match ensure_success("adb shell true", output) {
            Ok(_) => Ok(()),
            Err(e) => Err(e),
        }
    }

    /// `adb -s SERIAL shell svc power stayon true`, which must succeed.
    pub fn stay_awake(output: CommandResult) -> (r: Result<(), String>)
        ensures
            output.success ==> r is Ok,
            !output.success ==> r is Err && r->Err_0@ == failed_message(
                "adb shell svc power stayon true"@,
                result_output(output),
            ),
    {
        match ensure_success("adb shell svc power stayon true", output) {
            Ok(_) => Ok(()),
            Err(e) => Err(e),
        }
    }

    /// `adb -s SERIAL shell cmd wifi status`: its summary, or that `dumpsys wifi` comes next.
    pub fn wifi_status(output: &CommandResult) -> (r: WifiStatusStep)
        ensures
            (output.success && trim(result_output(*output)).len() > 0) ==> (r matches WifiStatusStep::Summary(s)
                && s@ == summarize_wifi(result_output(*output))),
            !(output.success && trim(result_output(*output)).len() > 0) ==> r is ReadDumpsys,
    {
        let c = combined_chars(output);
        if output.success && trimmed(&c).len() > 0 {
            WifiStatusStep::Summary(string_of(&summarize_wifi_chars(&c)))
        } else {
            WifiStatusStep::ReadDumpsys
        }
    }

    /// `adb -s SERIAL shell dumpsys wifi`, which must succeed: its summary.
    pub fn wifi_status_from_dumpsys(output: CommandResult) -> (r: Result<String, String>)
        ensures
            output.success ==> r is Ok && r->Ok_0@ == summarize_wifi(result_output(output)),
            !output.success ==> r is Err && r->Err_0@ == failed_message(
                "adb shell dumpsys wifi"@,
                result_output(output),
            ),
    {
        match ensure_success("adb shell dumpsys wifi", output) {
            Ok(o) => Ok(string_of(&summarize_wifi_chars(&combined_chars(&o)))),
            Err(e) => Err(e),
        }
    }

    /// `adb -s SERIAL exec-out uiautomator dump /dev/tty`: the hierarchy when it printed one.
    pub fn dump_ui_hierarchy(output: &CommandResult) -> (r: Option<String>)
        ensures
            (output.success && contains(result_output(*output), "<hierarchy"@)) ==> r is Some
                && r->0@ == result_output(*output),
            !(output.success && contains(result_output(*output), "<hierarchy"@)) ==> r is None,
    {
        let c = combined_chars(output);
        if output.success && contains_exec(&c, &chars_of("<hierarchy")) {
            Some(string_of(&c))
        } else {
            None
        }
    }

    /// `adb -s SERIAL shell uiautomator dump /sdcard/awb-window.xml`, which must succeed.
    pub fn ui_dump_saved(output: CommandResult) -> (r: Result<(), String>)
        ensures
            output.success ==> r is Ok,
            !output.success ==> r is Err && r->Err_0@ == failed_message(
                "adb shell uiautomator dump"@,
                result_output(output),
            ),
    {
        match ensure_success("adb shell uiautomator dump", output) {
            Ok(_) => Ok(()),
            Err(e) => Err(e),
        }
    }

    /// `adb -s SERIAL exec-out cat /sdcard/awb-window.xml`, which must succeed: what it printed.
    pub fn ui_dump_read(output: CommandResult) -> (r: Result<String, String>)
        ensures
            output.success ==> r is Ok && r->Ok_0@ == result_output(output),
            !output.success ==> r is Err && r->Err_0@ == failed_message(
                "adb exec-out cat /sdcard/awb-window.xml"@,
                result_output(output),
            ),
    {
        match ensure_success("adb exec-out cat /sdcard/awb-window.xml", output) {
            Ok(o) => Ok(o.combined_output()),
            Err(e) => Err(e),
        }
    }
}

fn checked_transport_command(command: &str, output: CommandResult) -> (r: Result<
    CommandResult,
    String,
>)
    ensures
        (output.success && !looks_failed(result_output(output))) ==> r == Ok::<
            CommandResult,
            String,
        >(output),
        !(output.success && !looks_failed(result_output(output))) ==> r is Err && r->Err_0@
            == failed_message(command@, result_output(output)),
{
    let c = combined_chars(&output);
    if !output.success || output_looks_failed(&c) {
        return Err(failed_message_string(command, &c));
    }
    Ok(output)
}

} // verus!
