//! `scrcpy`: the command line that mirrors a phone, and what its version and
//! help output say about whether it supports the options in use.
use vstd::prelude::*;

use crate::text::{
    trim,
    trimmed,
    chars_of,
    string_of,
    concat,
    contains,
    contains_exec,
    lines,
    split_lines,
    seqs,
    words,
    split_words,
    is_digit,
    split_char,
    split_char_exec,
    trim_start_char,
    trim_start_char_exec,
    parse_unsigned,
    parse_unsigned_exec,
    decimal,
    decimal_exec,
    slice_range,
};
use crate::adb_client::{Adb, CommandResult, result_output};
use crate::command_path::{ProgramError, resolves, resolve_program, strings, lemma_strings_push};

verus! {

pub const DEFAULT_WINDOW_WIDTH: u32 = 480;

pub const DEFAULT_WINDOW_HEIGHT: u32 = 1071;

/// How scrcpy's mirroring options are set.
#[derive(Debug, Clone, PartialEq, Eq)]
pub struct ScrcpyOptions {
    pub no_audio: bool,
    pub stay_awake: bool,
    pub borderless: bool,
    pub always_on_top: bool,
    pub window_title: String,
    pub window_width: u32,
    pub window_height: u32,
}

impl Default for ScrcpyOptions {
    fn default() -> (r: Self)
        ensures
            r.no_audio && r.stay_awake && r.borderless && !r.always_on_top,
            r.window_title@ == "Pixel 10 Pro"@,
            r.window_width == DEFAULT_WINDOW_WIDTH,
            r.window_height == DEFAULT_WINDOW_HEIGHT,
    {
        ScrcpyOptions {
            no_audio: true,
            stay_awake: true,
            borderless: true,
            always_on_top: false,
            window_title: "Pixel 10 Pro".to_string(),
            window_width: DEFAULT_WINDOW_WIDTH,
            window_height: DEFAULT_WINDOW_HEIGHT,
        }
    }
}

/// Whether the mirroring window runs detached or in the foreground.
#[derive(Debug, Clone, Copy, PartialEq, Eq)]
pub enum ScrcpyRunMode {
    Background,
    Foreground,
}

// ---------------------------------------------------------------------------
// Arguments
// ---------------------------------------------------------------------------

/// `-s SERIAL`, then a flag for each enabled option; the title, width and
/// height only when set (non-empty, non-zero), each followed by its value.
pub open spec fn default_args_spec(serial: Seq<char>, o: ScrcpyOptions) -> Seq<Seq<char>> {
    let a = seq!["-s"@, serial];
    let b = if o.no_audio { a.push("--no-audio"@) } else { a };
    let c = if o.stay_awake { b.push("--stay-awake"@) } else { b };
    let d = if o.borderless { c.push("--window-borderless"@) } else { c };
    let e = if o.always_on_top { d.push("--always-on-top"@) } else { d };
    let f = if o.window_title@.len() > 0 {
        e.push("--window-title"@).push(o.window_title@)
    } else {
        e
    };
    let g = if o.window_width > 0 {
        f.push("--window-width"@).push(decimal(o.window_width as nat))
    } else {
        f
    };
    if o.window_height > 0 {
        g.push("--window-height"@).push(decimal(o.window_height as nat))
    } else {
        g
    }
}

fn push_str(v: &mut Vec<String>, s: String)
    ensures
        strings(final(v)@) == strings(old(v)@).push(s@),
{
    proof {
        lemma_strings_push(v@, s);
    }
    v.push(s);
}

/// The arguments that mirror the device `serial` with `options`.
pub fn default_args(serial: &str, options: &ScrcpyOptions) -> (r: Vec<String>)
    ensures
        strings(r@) == default_args_spec(serial@, *options),
{
    let mut args: Vec<String> = Vec::new();
    push_str(&mut args, "-s".to_string());
    push_str(&mut args, serial.to_string());
    proof {
        assert(strings(args@) =~= seq!["-s"@, serial@]);
    }
    if options.no_audio {
        push_str(&mut args, "--no-audio".to_string());
    }
    if options.stay_awake {
        push_str(&mut args, "--stay-awake".to_string());
    }
    if options.borderless {
        push_str(&mut args, "--window-borderless".to_string());
    }
    if options.always_on_top {
        push_str(&mut args, "--always-on-top".to_string());
    }
    if !options.window_title.as_str().is_empty() {
        push_str(&mut args, "--window-title".to_string());
        push_str(&mut args, options.window_title.clone());
    }
    if options.window_width > 0 {
        push_str(&mut args, "--window-width".to_string());
        push_str(&mut args, string_of(&decimal_exec(options.window_width as u64)));
    }
    if options.window_height > 0 {
        push_str(&mut args, "--window-height".to_string());
        push_str(&mut args, string_of(&decimal_exec(options.window_height as u64)));
    }
    args
}

/// The flags that the enabled options need scrcpy to support.
pub open spec fn compatibility_flags_spec(o: ScrcpyOptions) -> Seq<Seq<char>> {
    let a = seq!["--no-audio"@, "--stay-awake"@];
    let b = if o.borderless { a.push("--window-borderless"@) } else { a };
    let c = if o.always_on_top { b.push("--always-on-top"@) } else { b };
    let d = if o.window_title@.len() > 0 { c.push("--window-title"@) } else { c };
    let e = if o.window_width > 0 { d.push("--window-width"@) } else { d };
    if o.window_height > 0 { e.push("--window-height"@) } else { e }
}

pub fn compatibility_flags(options: &ScrcpyOptions) -> (r: Vec<String>)
    ensures
        strings(r@) == compatibility_flags_spec(*options),
{
    let mut flags: Vec<String> = Vec::new();
    push_str(&mut flags, "--no-audio".to_string());
    push_str(&mut flags, "--stay-awake".to_string());
    proof {
        assert(strings(flags@) =~= seq!["--no-audio"@, "--stay-awake"@]);
    }
    if options.borderless {
        push_str(&mut flags, "--window-borderless".to_string());
    }
    if options.always_on_top {
        push_str(&mut flags, "--always-on-top".to_string());
    }
    if !options.window_title.as_str().is_empty() {
        push_str(&mut flags, "--window-title".to_string());
    }
    if options.window_width > 0 {
        push_str(&mut flags, "--window-width".to_string());
    }
    if options.window_height > 0 {
        push_str(&mut flags, "--window-height".to_string());
    }
    flags
}

// ---------------------------------------------------------------------------
// Versions
// ---------------------------------------------------------------------------

/// A scrcpy release number.
#[derive(Debug, Clone, Copy, PartialEq, Eq)]
pub struct ScrcpyVersion {
    pub major: u16,
    pub minor: u16,
    pub patch: u16,
}

/// The version below which a warning is shown.
pub open spec fn recommended() -> (nat, nat, nat) {
    (4, 0, 0)
}

pub open spec fn version_view(v: ScrcpyVersion) -> (nat, nat, nat) {
    (v.major as nat, v.minor as nat, v.patch as nat)
}

/// `a` precedes `b`, comparing major, then minor, then patch.
pub open spec fn older(a: (nat, nat, nat), b: (nat, nat, nat)) -> bool {
    a.0 < b.0 || (a.0 == b.0 && (a.1 < b.1 || (a.1 == b.1 && a.2 < b.2)))
}

/// `major.minor`, with `.patch` only when the patch is not zero.
pub open spec fn version_text(v: (nat, nat, nat)) -> Seq<char> {
    if v.2 == 0 {
        decimal(v.0) + "."@ + decimal(v.1)
    } else {
        decimal(v.0) + "."@ + decimal(v.1) + "."@ + decimal(v.2)
    }
}

impl ScrcpyVersion {
    pub fn new(major: u16, minor: u16, patch: u16) -> (r: Self)
        ensures
            r.major == major && r.minor == minor && r.patch == patch,
    {
        ScrcpyVersion { major, minor, patch }
    }

    pub fn is_older_than(&self, other: &ScrcpyVersion) -> (r: bool)
        ensures
            r == older(version_view(*self), version_view(*other)),
    {
        self.major < other.major || (self.major == other.major && (self.minor < other.minor || (
        self.minor == other.minor && self.patch < other.patch)))
    }

    pub fn text(&self) -> (r: String)
        ensures
            r@ == version_text(version_view(*self)),
    {
        let a = concat(&decimal_exec(self.major as u64), &chars_of("."));
        let b = concat(&a, &decimal_exec(self.minor as u64));
        if self.patch == 0 {
            string_of(&b)
        } else {
            let c = concat(&b, &chars_of("."));
            string_of(&concat(&c, &decimal_exec(self.patch as u64)))
        }
    }
}

/// How many leading characters are ASCII digits.
pub open spec fn digit_prefix_len(s: Seq<char>) -> nat
    decreases s.len(),
{
    if s.len() == 0 || !is_digit(s[0]) {
        0
    } else {
        1 + digit_prefix_len(s.skip(1))
    }
}

/// The number the leading digits spell, when there are some and it fits in 16 bits.
pub open spec fn number_prefix(s: Seq<char>) -> Option<nat> {
    let d = s.take(digit_prefix_len(s) as int);
    if d.len() == 0 {
        None
    } else {
        parse_unsigned(d, 65535)
    }
}

proof fn lemma_digit_prefix(s: Seq<char>, i: int)
    requires
        0 <= i <= s.len(),
        forall|k: int| 0 <= k < i ==> is_digit(s[k]),
        i == s.len() || !is_digit(s[i]),
    ensures
        digit_prefix_len(s) == i,
    decreases s.len(),
{
    if s.len() > 0 && is_digit(s[0]) {
        lemma_digit_prefix(s.skip(1), i - 1);
    }
}

fn parse_number_prefix(value: &[char]) -> (r: Option<u16>)
    ensures
        r is None ==> number_prefix(value@) is None,
        r matches Some(n) ==> number_prefix(value@) == Some(n as nat),
{
    let mut i: usize = 0;
    while i < value.len() && '0' <= value[i] && value[i] <= '9'
        invariant
            i <= value@.len(),
            forall|k: int| 0 <= k < i ==> is_digit(value@[k]),
        decreases value.len() - i,
    {
        i += 1;
    }
    proof {
        lemma_digit_prefix(value@, i as int);
    }
    if i == 0 {
        return None;
    }
    let d = slice_range(value, 0, i);
    proof {
        assert(d@ =~= value@.take(i as int));
    }
    match parse_unsigned_exec(&d, 65535) {
        Some(n) => Some(n as u16),
        None => None,
    }
}

/// The version a token spells: an optional run of `v`s, a digit, then
/// `major.minor[.patch]`, each read from its leading digits (a patch that
/// does not read counts as zero).
pub open spec fn version_token(token: Seq<char>) -> Option<(nat, nat, nat)> {
    let t = trim_start_char(token, 'v');
    if t.len() == 0 || !is_digit(t[0]) {
        None
    } else {
        let parts = split_char(t, '.');
        match number_prefix(parts[0]) {
            None => None,
            Some(major) => if parts.len() < 2 {
                None
            } else {
                match number_prefix(parts[1]) {
                    None => None,
                    Some(minor) => {
                        let patch = if parts.len() >= 3 {
                            match number_prefix(parts[2]) {
                                Some(p) => p,
                                None => 0,
                            }
                        } else {
                            0
                        };
                        Some((major, minor, patch))
                    },
                }
            },
        }
    }
}

fn parse_version_token(token: &[char]) -> (r: Option<ScrcpyVersion>)
    ensures
        r is None ==> version_token(token@) is None,
        r matches Some(v) ==> version_token(token@) == Some(version_view(v)),
{
    let t = trim_start_char_exec(token, 'v');
    if t.len() == 0 || !('0' <= t[0] && t[0] <= '9') {
        return None;
    }
    let parts = split_char_exec(&t, '.');
    proof {
        crate::text::lemma_split_char_nonempty(t@, '.');
        assert(seqs(parts@)[0] == parts@[0]@);
    }
    let major = match parse_number_prefix(parts[0].as_slice()) {
        Some(m) => m,
        None => return None,
    };
    if parts.len() < 2 {
        return None;
    }
    proof {
        assert(seqs(parts@)[1] == parts@[1]@);
    }
    let minor = match parse_number_prefix(parts[1].as_slice()) {
        Some(m) => m,
        None => return None,
    };
    let patch: u16 = if parts.len() >= 3 {
        proof {
            assert(seqs(parts@)[2] == parts@[2]@);
        }
        match parse_number_prefix(parts[2].as_slice()) {
            Some(p) => p,
            None => 0,
        }
    } else {
        0
    };
    Some(ScrcpyVersion::new(major, minor, patch))
}

/// The version of the first token that spells one.
pub open spec fn first_version(ws: Seq<Seq<char>>) -> Option<(nat, nat, nat)>
    decreases ws.len(),
{
    if ws.len() == 0 {
        None
    } else {
        match version_token(ws[0]) {
            Some(v) => Some(v),
            None => first_version(ws.skip(1)),
        }
    }
}

/// The version in a `scrcpy --version` line.
pub fn parse_scrcpy_version(line: &str) -> (r: Option<ScrcpyVersion>)
    ensures
        r is None ==> first_version(words(line@)) is None,
        r matches Some(v) ==> first_version(words(line@)) == Some(version_view(v)),
{
    let ws = split_words(&chars_of(line));
    let ghost all = seqs(ws@);
    let mut i: usize = 0;
    proof {
        assert(all.skip(0) =~= all);
    }
    while i < ws.len()
        invariant
            i <= ws@.len(),
            all == seqs(ws@),
            all == words(line@),
            first_version(all) == first_version(all.skip(i as int)),
        decreases ws.len() - i,
    {
        proof {
            assert(all.skip(i as int)[0] == ws@[i as int]@);
            assert(all.skip(i as int).skip(1) =~= all.skip(i + 1));
        }
        let v = parse_version_token(ws[i].as_slice());
        if v.is_some() {
            return v;
        }
        i += 1;
    }
    None
}

// ---------------------------------------------------------------------------
// The executable and what it reports
// ---------------------------------------------------------------------------

/// The `scrcpy` executable, and the `adb` it is pointed at.
#[derive(Debug, Clone, PartialEq, Eq)]
pub struct Scrcpy {
    pub path: String,
    pub adb: Option<Adb>,
}

/// What a helper command printed when it succeeded, else an error that names
/// the command and its exit status.
pub open spec fn tool_output_spec(command: Seq<char>, output: CommandResult, status: Seq<char>) -> Result<Seq<char>, Seq<char>> {
    if output.success {
        Ok(result_output(output))
    } else {
        Err(command + " exited with status "@ + status + ": "@ + result_output(output))
    }
}

pub open spec fn string_result(r: Result<String, String>) -> Result<Seq<char>, Seq<char>> {
    match r {
        Ok(s) => Ok(s@),
        Err(e) => Err(e@),
    }
}

pub fn tool_output(command: &str, output: &CommandResult, status: &str) -> (r: Result<String, String>)
    ensures
        string_result(r) == tool_output_spec(command@, *output, status@),
{
    let text = output.combined_output();
    if output.success {
        Ok(text)
    } else {
        let a = concat(&chars_of(command), &chars_of(" exited with status "));
        let b = concat(&a, &chars_of(status));
        let c = concat(&b, &chars_of(": "));
        Err(string_of(&concat(&c, &chars_of(text.as_str()))))
    }
}

/// The first line that is not blank, trimmed.
pub open spec fn first_nonblank(ls: Seq<Seq<char>>) -> Option<Seq<char>>
    decreases ls.len(),
{
    if ls.len() == 0 {
        None
    } else if trim(ls[0]).len() > 0 {
        Some(trim(ls[0]))
    } else {
        first_nonblank(ls.skip(1))
    }
}

/// The first non-blank line of `text`, or `text` itself when there is none.
pub open spec fn version_line_spec(text: Seq<char>) -> Seq<char> {
    match first_nonblank(lines(text)) {
        Some(l) => l,
        None => text,
    }
}

fn first_nonblank_line(text: &[char]) -> (r: Vec<char>)
    ensures
        r@ == version_line_spec(text@),
{
    let ls = split_lines(text);
    let ghost all = seqs(ls@);
    let mut i: usize = 0;
    proof {
        assert(all.skip(0) =~= all);
    }
    while i < ls.len()
        invariant
            i <= ls@.len(),
            all == seqs(ls@),
            all == lines(text@),
            first_nonblank(all) == first_nonblank(all.skip(i as int)),
        decreases ls.len() - i,
    {
        proof {
            assert(all.skip(i as int)[0] == ls@[i as int]@);
            assert(all.skip(i as int).skip(1) =~= all.skip(i + 1));
        }
        let t = trimmed(ls[i].as_slice());
        if t.len() > 0 {
            return t;
        }
        i += 1;
    }
    proof {
        assert(all.skip(ls@.len() as int) =~= Seq::<Seq<char>>::empty());
        assert(text@.subrange(0, text@.len() as int) =~= text@);
    }
    slice_range(text, 0, text.len())
}

pub open spec fn old_version_warning(v: (nat, nat, nat), path: Seq<char>) -> Seq<char> {
    "scrcpy "@ + version_text(v) + " detected at "@ + path + ". AWB works best with scrcpy "@
        + version_text(recommended()) + " or newer; run `brew upgrade scrcpy` if mirroring fails."@
}

pub open spec fn unreadable_version_warning(path: Seq<char>, error: Seq<char>) -> Seq<char> {
    "Could not read scrcpy version from "@ + path + ": "@ + error
        + ". If mirroring fails, run `brew upgrade scrcpy` and try again."@
}

pub open spec fn missing_flag_warning(path: Seq<char>, flag: Seq<char>) -> Seq<char> {
    "scrcpy at "@ + path + " does not advertise `"@ + flag
        + "` in `scrcpy --help`; update it with `brew upgrade scrcpy` or disable the related AWB setting."@
}

pub open spec fn unreadable_help_warning(path: Seq<char>, error: Seq<char>) -> Seq<char> {
    "Could not inspect scrcpy options from "@ + path + ": "@ + error
        + ". If mirroring fails, run `brew upgrade scrcpy` and try again."@
}

/// A warning when the version line names a release older than recommended, or
/// when the version could not be read.
pub open spec fn version_warnings(path: Seq<char>, version: Result<Seq<char>, Seq<char>>) -> Seq<Seq<char>> {
    match version {
        Ok(line) => match first_version(words(line)) {
            Some(v) => if older(v, recommended()) {
                seq![old_version_warning(v, path)]
            } else {
                seq![]
            },
            None => seq![],
        },
        Err(e) => seq![unreadable_version_warning(path, e)],
    }
}

/// A warning for each flag that the help text does not mention, in order.
pub open spec fn missing_flag_warnings(path: Seq<char>, flags: Seq<Seq<char>>, help: Seq<char>) -> Seq<Seq<char>>
    decreases flags.len(),
{
    if flags.len() == 0 {
        seq![]
    } else if contains(help, flags.last()) {
        missing_flag_warnings(path, flags.drop_last(), help)
    } else {
        missing_flag_warnings(path, flags.drop_last(), help).push(missing_flag_warning(path, flags.last()))
    }
}

pub open spec fn help_warnings(path: Seq<char>, flags: Seq<Seq<char>>, help: Result<Seq<char>, Seq<char>>) -> Seq<Seq<char>> {
    match help {
        Ok(h) => missing_flag_warnings(path, flags, h),
        Err(e) => seq![unreadable_help_warning(path, e)],
    }
}

/// What scrcpy's version and help output say about the installation.
#[derive(Debug, Clone, PartialEq, Eq)]
pub struct ScrcpyDiagnostics {
    pub version_line: Option<String>,
    pub warnings: Vec<String>,
}

fn cat(a: &[char], b: &[char]) -> (r: Vec<char>)
    ensures
        r@ == a@ + b@,
{
    concat(a, b)
}

impl Scrcpy {
    /// The scrcpy at the override path, or `scrcpy` when the check is skipped;
    /// otherwise the first executable candidate. Without an `adb`, the
    /// fallback one is used.
    pub fn resolve_with_adb(
        override_path: Option<(String, bool)>,
        skip_check: bool,
        candidates: &[(String, bool)],
        adb: Option<Adb>,
        fallback_adb: Option<Adb>,
    ) -> (r: Result<Scrcpy, ProgramError>)
        ensures
            skip_check ==> r is Ok && r->Ok_0.path@ == match override_path {
                Some((p, _)) => p@,
                None => "scrcpy"@,
            },
            !skip_check ==> resolves(
                "scrcpy"@,
                override_path,
                candidates@,
                match r {
                    Ok(s) => Ok(s.path@),
                    Err(e) => Err(e),
                },
            ),
            r is Ok ==> r->Ok_0.adb == if adb is Some { adb } else { fallback_adb },
    {
        let chosen = match adb {
            Some(a) => Some(a),
            None => fallback_adb,
        };
        if skip_check {
            let path = match override_path {
                Some((p, _)) => p,
                None => "scrcpy".to_string(),
            };
            return Ok(Scrcpy { path, adb: chosen });
        }
        match resolve_program("scrcpy", override_path, candidates) {
            Ok(path) => Ok(Scrcpy { path, adb: chosen }),
            Err(e) => Err(e),
        }
    }

    /// `resolve_with_adb` without an `adb` of the caller's choosing.
    pub fn resolve(
        override_path: Option<(String, bool)>,
        skip_check: bool,
        candidates: &[(String, bool)],
        fallback_adb: Option<Adb>,
    ) -> (r: Result<Scrcpy, ProgramError>)
        ensures
            skip_check ==> r is Ok && r->Ok_0.path@ == match override_path {
                Some((p, _)) => p@,
                None => "scrcpy"@,
            },
            !skip_check ==> resolves(
                "scrcpy"@,
                override_path,
                candidates@,
                match r {
                    Ok(s) => Ok(s.path@),
                    Err(e) => Err(e),
                },
            ),
            r is Ok ==> r->Ok_0.adb == fallback_adb,
    {
        Scrcpy::resolve_with_adb(override_path, skip_check, candidates, None, fallback_adb)
    }

    pub fn path(&self) -> (r: &str)
        ensures
            r@ == self.path@,
    {
        self.path.as_str()
    }

    /// The first non-blank line of `scrcpy --version`, given its result and exit status.
    pub fn version_line(output: &CommandResult, status: &str) -> (r: Result<String, String>)
        ensures
            string_result(r) == match tool_output_spec("scrcpy --version"@, *output, status@) {
                Ok(text) => Ok(version_line_spec(text)),
                Err(e) => Err(e),
            },
    {
        match tool_output("scrcpy --version", output, status) {
            Ok(text) => Ok(string_of(&first_nonblank_line(&chars_of(text.as_str())))),
            Err(e) => Err(e),
        }
    }

    /// The version line, and warnings about an old or unreadable version and
    /// about flags the help text does not list.
    pub fn diagnostics(
        &self,
        options: &ScrcpyOptions,
        version_line: Result<String, String>,
        help: Result<String, String>,
    ) -> (r: ScrcpyDiagnostics)
        ensures
            r.version_line == match version_line {
                Ok(l) => Some(l),
                Err(_) => None::<String>,
            },
            strings(r.warnings@) == version_warnings(self.path@, string_result(version_line))
                + help_warnings(self.path@, compatibility_flags_spec(*options), string_result(help)),
    {
        let path = chars_of(self.path.as_str());
        let mut warnings: Vec<String> = Vec::new();
        let line: Option<String> = match &version_line {
            Ok(l) => {
                match parse_scrcpy_version(l.as_str()) {
                    Some(v) => {
                        let rec = ScrcpyVersion::new(4, 0, 0);
                        if v.is_older_than(&rec) {
                            let m = cat(&chars_of("scrcpy "), &chars_of(v.text().as_str()));
                            let m = cat(&m, &chars_of(" detected at "));
                            let m = cat(&m, &path);
                            let m = cat(&m, &chars_of(". AWB works best with scrcpy "));
                            let m = cat(&m, &chars_of(rec.text().as_str()));
                            let m = cat(
                                &m,
                                &chars_of(" or newer; run `brew upgrade scrcpy` if mirroring fails."),
                            );
                            push_str(&mut warnings, string_of(&m));
                        }
                    },
                    None => {},
                }
                Some(l.clone())
            },
            Err(e) => {
                let m = cat(&chars_of("Could not read scrcpy version from "), &path);
                let m = cat(&m, &chars_of(": "));
                let m = cat(&m, &chars_of(e.as_str()));
                let m = cat(
                    &m,
                    &chars_of(". If mirroring fails, run `brew upgrade scrcpy` and try again."),
                );
                push_str(&mut warnings, string_of(&m));
                None
            },
        };
        proof {
            assert(strings(warnings@) =~= version_warnings(self.path@, string_result(version_line)));
        }
        let ghost first = strings(warnings@);
        match &help {
            Ok(h) => {
                let flags = compatibility_flags(options);
                let hc = chars_of(h.as_str());
                let ghost fs = strings(flags@);
                let mut i: usize = 0;
                proof {
                    assert(fs.take(0) =~= Seq::<Seq<char>>::empty());
                    assert(first + missing_flag_warnings(self.path@, fs.take(0), h@) =~= first);
                }
                while i < flags.len()
                    invariant
                        i <= flags@.len(),
                        fs == strings(flags@),
                        hc@ == h@,
                        path@ == self.path@,
                        strings(warnings@) == first + missing_flag_warnings(self.path@, fs.take(i as int), h@),
                    decreases flags.len() - i,
                {
                    proof {
                        let p = fs.take(i + 1);
                        assert(p.drop_last() =~= fs.take(i as int));
                        assert(p.last() == flags@[i as int]@);
                    }
                    let f = chars_of(flags[i].as_str());
                    if !contains_exec(&hc, &f) {
                        let m = cat(&chars_of("scrcpy at "), &path);
                        let m = cat(&m, &chars_of(" does not advertise `"));
                        let m = cat(&m, &f);
                        let m = cat(
                            &m,
                            &chars_of("` in `scrcpy --help`; update it with `brew upgrade scrcpy` or disable the related AWB setting."),
                        );
                        let s = string_of(&m);
                        proof {
                            let w = missing_flag_warnings(self.path@, fs.take(i as int), h@);
                            assert(first + w.push(s@) =~= (first + w).push(s@));
                        }
                        push_str(&mut warnings, s);
                    }
                    i += 1;
                }
                proof {
                    assert(fs.take(flags@.len() as int) =~= fs);
                }
            },
            Err(e) => {
                let m = cat(&chars_of("Could not inspect scrcpy options from "), &path);
                let m = cat(&m, &chars_of(": "));
                let m = cat(&m, &chars_of(e.as_str()));
                let m = cat(
                    &m,
                    &chars_of(". If mirroring fails, run `brew upgrade scrcpy` and try again."),
                );
                let s = string_of(&m);
                proof {
                    assert(first.push(s@) =~= first + seq![s@]);
                }
                push_str(&mut warnings, s);
            },
        }
        ScrcpyDiagnostics { version_line: line, warnings }
    }

    /// The result of a foreground run, given whether it exited successfully
    /// and its exit status.
    pub fn launch(success: bool, status: &str) -> (r: Result<(), String>)
        ensures
            success ==> r is Ok,
            !success ==> r is Err && r->Err_0@ == "scrcpy exited with status "@ + status@,
    {
        if success {
            Ok(())
        } else {
            Err(string_of(&cat(&chars_of("scrcpy exited with status "), &chars_of(status))))
        }
    }
}

} // verus!
