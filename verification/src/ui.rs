//! The terminal interface's decisions: menu selection and navigation, the
//! countdown's display, and the text of prompts; drawing is the caller's part.
use vstd::prelude::*;

use crate::text::{
    trim,
    trimmed,
    chars_of,
    string_of,
    concat,
    contains,
    contains_exec,
    decimal,
    decimal_exec,
    parse_unsigned,
    parse_unsigned_exec,
    lower_char,
};

verus! {

/// The user cancelled.
#[derive(Debug, Clone, PartialEq, Eq)]
pub struct Cancelled;

impl Cancelled {
    pub fn message(&self) -> (r: String)
        ensures
            r@ == "cancelled"@,
    {
        "cancelled".to_string()
    }
}

pub fn cancelled() -> (r: Cancelled) {
    Cancelled
}

pub open spec fn cancel_hint() -> Seq<char> {
    "Press either ⌃ + C, ESC, C or X to cancel and exit."@
}

/// A key press, as far as the menus and waits distinguish them.
#[derive(Debug, Clone, Copy, PartialEq, Eq)]
pub enum Key {
    Esc,
    Up,
    Down,
    Home,
    End,
    Enter,
    /// A character, and whether Control was held.
    Char(char, bool),
    Other,
}

/// Esc, Control-C, or `c`/`x` in either case cancel a wait.
pub open spec fn is_cancel_key(key: Key) -> bool {
    match key {
        Key::Esc => true,
        Key::Char(c, control) => (c == 'c' && control) || lower_char(c) == 'c' || lower_char(c) == 'x',
        _ => false,
    }
}

pub fn is_wait_cancel_key(key: Key) -> (r: bool)
    ensures
        r == is_cancel_key(key),
{
    match key {
        Key::Esc => true,
        Key::Char(c, control) => {
            if c == 'c' && control {
                true
            } else {
                let l = crate::text::ascii_lower(c);
                l == 'c' || l == 'x'
            }
        },
        _ => false,
    }
}

// ---------------------------------------------------------------------------
// Countdown
// ---------------------------------------------------------------------------

/// Whole seconds left, rounded up.
pub open spec fn display_seconds_spec(secs: nat, nanos: nat) -> nat {
    if secs == 0 && nanos == 0 {
        0
    } else if nanos > 0 {
        secs + 1
    } else {
        secs
    }
}

/// The seconds to show for a remaining duration of `secs` seconds and `nanos`
/// nanoseconds.
pub fn display_seconds(secs: u64, nanos: u32) -> (r: u64)
    requires
        secs < u64::MAX || nanos == 0,
    ensures
        r as nat == display_seconds_spec(secs as nat, nanos as nat),
{
    if secs == 0 && nanos == 0 {
        0
    } else if nanos > 0 {
        secs + 1
    } else {
        secs
    }
}

/// A line that counts down the seconds left, rewritten only when the number changes.
#[derive(Debug, Clone, PartialEq, Eq)]
pub struct Countdown {
    pub label: String,
    pub last_seconds: Option<u64>,
    pub wrote_line: bool,
}

impl Countdown {
    pub fn new(label: String) -> (r: Countdown)
        ensures
            r.label == label,
            r.last_seconds is None,
            !r.wrote_line,
    {
        Countdown { label, last_seconds: None, wrote_line: false }
    }

    /// The text to show for the remaining time, or `None` when the shown
    /// number would not change.
    pub fn tick(&mut self, secs: u64, nanos: u32) -> (r: Option<String>)
        requires
            secs < u64::MAX || nanos == 0,
        ensures
            ({
                let s = display_seconds_spec(secs as nat, nanos as nat);
                if old(self).last_seconds == Some(s as u64) {
                    r is None && *final(self) == *old(self)
                } else {
                    &&& r is Some
                    &&& r->0@ == old(self).label@ + ": "@ + decimal(s) + " seconds remaining..."@
                    &&& final(self).last_seconds == Some(s as u64)
                    &&& final(self).wrote_line
                    &&& final(self).label == old(self).label
                }
            }),
    {
        let seconds = display_seconds(secs, nanos);
        if self.last_seconds == Some(seconds) {
            return None;
        }
        let a = concat(&chars_of(self.label.as_str()), &chars_of(": "));
        let b = concat(&a, &decimal_exec(seconds));
        let line = string_of(&concat(&b, &chars_of(" seconds remaining...")));
        self.last_seconds = Some(seconds);
        self.wrote_line = true;
        Some(line)
    }

    /// Whether a line was written and needs ending; the countdown starts over.
    pub fn finish(&mut self) -> (r: bool)
        ensures
            r == old(self).wrote_line,
            old(self).wrote_line ==> !final(self).wrote_line && final(self).last_seconds is None
                && final(self).label == old(self).label,
            !old(self).wrote_line ==> *final(self) == *old(self),
    {
        if self.wrote_line {
            self.wrote_line = false;
            self.last_seconds = None;
            true
        } else {
            false
        }
    }
}

// ---------------------------------------------------------------------------
// Menus
// ---------------------------------------------------------------------------

/// How a menu is shown: with arrow keys, or as a numbered list to type into.
#[derive(Debug, Clone, Copy, PartialEq, Eq)]
pub enum MenuMode {
    Interactive,
    Lines,
}

/// A menu needs options; up to nine are chosen interactively.
pub fn menu(option_count: usize) -> (r: Result<MenuMode, String>)
    ensures
        option_count == 0 ==> r is Err && r->Err_0@ == "menu cannot be shown without options"@,
        1 <= option_count <= 9 ==> r == Ok::<MenuMode, String>(MenuMode::Interactive),
        option_count > 9 ==> r == Ok::<MenuMode, String>(MenuMode::Lines),
{
    if option_count == 0 {
        return Err("menu cannot be shown without options".to_string());
    }
    if option_count <= 9 {
        Ok(MenuMode::Interactive)
    } else {
        Ok(MenuMode::Lines)
    }
}

/// As `menu`, with a default that must be one of the numbered options.
pub fn menu_with_default(option_count: usize, default_selection: usize) -> (r: Result<MenuMode, String>)
    ensures
        option_count == 0 ==> r is Err && r->Err_0@ == "menu cannot be shown without options"@,
        option_count > 0 && !(1 <= default_selection <= option_count) ==> r is Err && r->Err_0@
            == "default menu selection must be one of the numbered options"@,
        1 <= default_selection <= option_count <= 9 ==> r == Ok::<MenuMode, String>(MenuMode::Interactive),
        1 <= default_selection <= option_count && option_count > 9 ==> r == Ok::<MenuMode, String>(MenuMode::Lines),
{
    if option_count == 0 {
        return Err("menu cannot be shown without options".to_string());
    }
    if !(1 <= default_selection && default_selection <= option_count) {
        return Err("default menu selection must be one of the numbered options".to_string());
    }
    menu(option_count)
}

/// The option a digit key picks, numbered from 1.
pub open spec fn selection_from_char_spec(c: char, option_count: nat) -> Option<nat> {
    if '0' <= c <= '9' {
        let v = (c as u32 - '0' as u32) as nat;
        if 1 <= v <= option_count {
            Some(v)
        } else {
            None
        }
    } else {
        None
    }
}

pub fn selection_from_char(c: char, option_count: usize) -> (r: Option<usize>)
    ensures
        match r {
            Some(v) => selection_from_char_spec(c, option_count as nat) == Some(v as nat),
            None => selection_from_char_spec(c, option_count as nat) is None,
        },
{
    if '0' <= c && c <= '9' {
        let v = (c as u32 - '0' as u32) as usize;
        if 1 <= v && v <= option_count {
            Some(v)
        } else {
            None
        }
    } else {
        None
    }
}

/// The option above, wrapping to the last.
pub open spec fn previous_spec(selected: int, option_count: int) -> int {
    if selected == 0 {
        option_count - 1
    } else {
        selected - 1
    }
}

/// The option below, wrapping to the first.
pub open spec fn next_spec(selected: int, option_count: int) -> int {
    (selected + 1) % option_count
}

pub fn previous_selection(selected: usize, option_count: usize) -> (r: usize)
    requires
        option_count > 0,
    ensures
        r == previous_spec(selected as int, option_count as int),
{
    if selected == 0 {
        option_count - 1
    } else {
        selected - 1
    }
}

pub fn next_selection(selected: usize, option_count: usize) -> (r: usize)
    requires
        option_count > 0,
        selected < usize::MAX,
    ensures
        r == next_spec(selected as int, option_count as int),
{
    (selected + 1) % option_count
}

/// Lines to move up to redraw the options and the prompt.
pub fn rerender_menu_line_count(option_count: usize) -> (r: u16)
    ensures
        r as int == (if option_count == usize::MAX { usize::MAX as int } else { option_count + 1 }) % 65536,
{
    let n = if option_count == usize::MAX {
        usize::MAX
    } else {
        option_count + 1
    };
    (n % 65536) as u16
}

/// Lines to move up from the prompt to the option at `option_index`.
pub fn rerender_menu_option_line_offset(option_count: usize, option_index: usize) -> (r: u16)
    ensures
        r as int == (if option_index >= option_count { 0 } else { option_count - option_index }) % 65536,
{
    let n = if option_index >= option_count {
        0
    } else {
        option_count - option_index
    };
    (n % 65536) as u16
}

pub open spec fn menu_prompt() -> Seq<char> {
    "Use ↑↓ + Enter, number key, or ESC to cancel: "@
}

/// The prompt under an interactive menu, with or without a timed default.
pub fn interactive_menu_prompt(auto_default: Option<AutoDefault>) -> (r: String)
    ensures
        r@ == menu_prompt(),
{
    "Use ↑↓ + Enter, number key, or ESC to cancel: ".to_string()
}

/// A default option chosen when time runs out, unless a key press disabled it.
#[derive(Debug, Clone, Copy, PartialEq, Eq)]
pub struct AutoDefault {
    pub selection: usize,
    pub active: bool,
}

/// The option text, with a dot per elapsed second when it is the active default.
pub open spec fn option_suffix_spec(option: Seq<char>, index: nat, auto_default: Option<AutoDefault>, elapsed_seconds: nat) -> Seq<char> {
    match auto_default {
        Some(d) => if !d.active || index != d.selection || elapsed_seconds == 0 {
            option
        } else {
            option + Seq::new(elapsed_seconds, |i: int| '.')
        },
        None => option,
    }
}

pub fn option_with_auto_default_suffix(
    option: &str,
    index: usize,
    auto_default: Option<AutoDefault>,
    elapsed_seconds: u64,
) -> (r: String)
    ensures
        r@ == option_suffix_spec(option@, index as nat, auto_default, elapsed_seconds as nat),
{
    let mut out = chars_of(option);
    match auto_default {
        Some(d) => {
            if d.active && index == d.selection {
                let ghost base = out@;
                let mut k: u64 = 0;
                while k < elapsed_seconds
                    invariant
                        k <= elapsed_seconds,
                        base == option@,
                        out@ == base + Seq::new(k as nat, |i: int| '.'),
                    decreases elapsed_seconds - k,
                {
                    out.push('.');
                    proof {
                        assert(base + Seq::new((k + 1) as nat, |i: int| '.') =~= (base + Seq::new(k as nat, |i: int| '.')).push('.'));
                    }
                    k += 1;
                }
                proof {
                    if elapsed_seconds == 0 {
                        assert(out@ =~= option@);
                    }
                }
            }
        },
        None => {},
    }
    string_of(&out)
}

/// The state of an interactive menu: how many options it has, the
/// highlighted one and the timed default.
#[derive(Debug, Clone, PartialEq, Eq)]
pub struct MenuState {
    pub option_count: usize,
    pub selected: usize,
    pub auto_default: Option<AutoDefault>,
}

impl MenuState {
    /// The menu has options, and the highlight and the default are among them.
    pub open spec fn wf(self) -> bool {
        &&& self.option_count > 0
        &&& self.selected < self.option_count
        &&& match self.auto_default {
            Some(d) => d.selection < self.option_count,
            None => true,
        }
    }
}

/// What a key press asks of an interactive menu.
#[derive(Debug, Clone, Copy, PartialEq, Eq)]
pub enum MenuAction {
    /// Cancel the menu.
    Cancel,
    /// Choose this option, numbered from 1.
    Choose(usize),
    /// Redraw the options.
    Redraw,
    /// Redraw the prompt and ring the bell.
    Bell,
}

pub open spec fn disabled(d: Option<AutoDefault>) -> Option<AutoDefault> {
    match d {
        Some(a) => Some(AutoDefault { active: false, ..a }),
        None => None,
    }
}

impl MenuState {
    /// A menu of `option_count` options highlighting the timed default, or
    /// the first option.
    pub fn new(auto_default: Option<AutoDefault>, option_count: usize) -> (r: MenuState)
        requires
            option_count > 0,
            auto_default matches Some(d) ==> d.selection < option_count,
        ensures
            r.option_count == option_count,
            r.auto_default == auto_default,
            r.selected == match auto_default {
                Some(d) => d.selection,
                None => 0,
            },
            r.wf(),
    {
        let selected = match auto_default {
            Some(d) => d.selection,
            None => 0,
        };
        MenuState { option_count, selected, auto_default }
    }

    /// Handles a key press: Control-C and Esc cancel; the arrows, Home and End
    /// move the highlight (wrapping) and disable the default; Enter chooses the
    /// highlighted option; a digit chooses its option; any other key disables
    /// the default and rings the bell.
    pub fn handle_key(&mut self, key: Key) -> (r: MenuAction)
        requires
            old(self).wf(),
        ensures
            final(self).wf(),
            final(self).option_count == old(self).option_count,
            ({
                let option_count = old(self).option_count;
                match key {
                Key::Esc => r == MenuAction::Cancel && *final(self) == *old(self),
                Key::Char(c, control) if c == 'c' && control => r == MenuAction::Cancel
                    && *final(self) == *old(self),
                Key::Up => r == MenuAction::Redraw && final(self).selected == previous_spec(
                    old(self).selected as int,
                    option_count as int,
                ) && final(self).auto_default == disabled(old(self).auto_default),
                Key::Down => r == MenuAction::Redraw && final(self).selected == next_spec(
                    old(self).selected as int,
                    option_count as int,
                ) && final(self).auto_default == disabled(old(self).auto_default),
                Key::Home => r == MenuAction::Redraw && final(self).selected == 0
                    && final(self).auto_default == disabled(old(self).auto_default),
                Key::End => r == MenuAction::Redraw && final(self).selected == option_count - 1
                    && final(self).auto_default == disabled(old(self).auto_default),
                Key::Enter => r == MenuAction::Choose((old(self).selected + 1) as usize)
                    && *final(self) == *old(self),
                Key::Char(c, _) => match selection_from_char_spec(c, option_count as nat) {
                    Some(v) => r == MenuAction::Choose(v as usize) && *final(self) == *old(self),
                    None => r == MenuAction::Bell && final(self).selected == old(self).selected
                        && final(self).auto_default == disabled(old(self).auto_default),
                },
                Key::Other => r == MenuAction::Bell && final(self).selected == old(self).selected
                    && final(self).auto_default == disabled(old(self).auto_default),
                }
            }),
            r matches MenuAction::Choose(v) ==> 1 <= v <= old(self).option_count,
    {
        let option_count = self.option_count;
        match key {
            Key::Esc => MenuAction::Cancel,
            Key::Char(c, control) => {
                if c == 'c' && control {
                    return MenuAction::Cancel;
                }
                match selection_from_char(c, option_count) {
                    Some(v) => MenuAction::Choose(v),
                    None => {
                        self.disable_auto_default();
                        MenuAction::Bell
                    },
                }
            },
            Key::Up => {
                self.disable_auto_default();
                self.selected = previous_selection(self.selected, option_count);
                MenuAction::Redraw
            },
            Key::Down => {
                self.disable_auto_default();
                self.selected = next_selection(self.selected, option_count);
                MenuAction::Redraw
            },
            Key::Home => {
                self.disable_auto_default();
                self.selected = 0;
                MenuAction::Redraw
            },
            Key::End => {
                self.disable_auto_default();
                self.selected = option_count - 1;
                MenuAction::Redraw
            },
            Key::Enter => MenuAction::Choose(self.selected + 1),
            Key::Other => {
                self.disable_auto_default();
                MenuAction::Bell
            },
        }
    }

    fn disable_auto_default(&mut self)
        ensures
            final(self).option_count == old(self).option_count,
            final(self).selected == old(self).selected,
            final(self).auto_default == disabled(old(self).auto_default),
    {
        match self.auto_default {
            Some(d) => {
                self.auto_default = Some(AutoDefault { selection: d.selection, active: false });
            },
            None => {},
        }
    }

    /// When no key came in time: the default option, numbered from 1, once its
    /// deadline has passed while it is active.
    pub fn expired_choice(&self, deadline_passed: bool) -> (r: Option<usize>)
        requires
            self.wf(),
        ensures
            r == match self.auto_default {
                Some(d) => if d.active && deadline_passed {
                    Some((d.selection + 1) as usize)
                } else {
                    None
                },
                None => None,
            },
            r matches Some(v) ==> 1 <= v <= self.option_count,
    {
        match self.auto_default {
            Some(d) => {
                if d.active && deadline_passed {
                    Some(d.selection + 1)
                } else {
                    None
                }
            },
            None => None,
        }
    }
}

/// The choice typed into a numbered list: a number among the options.
pub open spec fn line_menu_choice_spec(input: Seq<char>, option_count: nat, max: nat) -> Option<nat> {
    match parse_unsigned(trim(input), max) {
        Some(v) => if 1 <= v <= option_count {
            Some(v)
        } else {
            None
        },
        None => None,
    }
}

pub fn line_menu_choice(input: &str, option_count: u32) -> (r: Option<u32>)
    ensures
        match r {
            Some(v) => line_menu_choice_spec(input@, option_count as nat, u32::MAX as nat) == Some(
                v as nat,
            ),
            None => line_menu_choice_spec(input@, option_count as nat, u32::MAX as nat) is None,
        },
{
    match parse_unsigned_exec(&trimmed(&chars_of(input)), u32::MAX) {
        Some(v) => {
            if 1 <= v && v <= option_count {
                Some(v)
            } else {
                None
            }
        },
        None => None,
    }
}

/// A typed answer counts when something is left after trimming.
pub fn prompt_required(input: &str) -> (r: Option<String>)
    ensures
        trim(input@).len() == 0 ==> r is None,
        trim(input@).len() > 0 ==> r is Some && r->0@ == trim(input@),
{
    let t = trimmed(&chars_of(input));
    if t.len() == 0 {
        None
    } else {
        Some(string_of(&t))
    }
}

/// Whether an error, given as its chain of messages, comes from raw terminal input.
pub fn is_raw_mode_error(chain: &[String]) -> (r: bool)
    ensures
        r == exists|i: int| 0 <= i < chain@.len() && contains(#[trigger] chain@[i]@, "raw terminal input"@),
{
    let pat = chars_of("raw terminal input");
    let mut i: usize = 0;
    while i < chain.len()
        invariant
            i <= chain@.len(),
            pat@ == "raw terminal input"@,
            forall|k: int| 0 <= k < i ==> !contains(#[trigger] chain@[k]@, "raw terminal input"@),
        decreases chain.len() - i,
    {
        if contains_exec(&chars_of(chain[i].as_str()), &pat) {
            return true;
        }
        i += 1;
    }
    false
}

} // verus!
