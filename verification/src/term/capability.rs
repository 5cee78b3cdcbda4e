//! Terminal capability classification: kitty graphics, truecolor cells, or
//! a degraded ASCII tier, decided from the environment variables the
//! caller reads.

use vstd::prelude::*;
use crate::text::{str_eq, str_contains, str_starts_with, contains_seq};

verus! {

/// The three rendering tiers.
#[derive(Debug, Clone, Copy, PartialEq, Eq, Hash, Structural)]
pub enum TerminalCapability {
    /// Kitty graphics protocol available.
    Kitty,
    /// Truecolor cell rendering.
    Truecolor,
    /// Degraded: coarse markers over SSH or dumb terminals.
    Ascii,
}

/// The environment variables capability detection reads: which of the
/// flag variables are set, and the values of `TERM` and `COLORTERM`
/// (empty when unset).
#[derive(Debug, Clone, PartialEq, Eq)]
pub struct TermEnv {
    pub kitty_window_id: bool,
    pub ghostty_resources_dir: bool,
    pub wezterm_pane: bool,
    pub term: String,
    pub ssh_connection: bool,
    pub ssh_client: bool,
    pub colorterm: String,
}

/// Stable lower-case tag of a tier.
pub open spec fn capability_name(c: TerminalCapability) -> Seq<char> {
    match c {
        TerminalCapability::Kitty => "kitty"@,
        TerminalCapability::Truecolor => "truecolor"@,
        TerminalCapability::Ascii => "ascii"@,
    }
}

/// The tier a forced-mode string names, if any (the config's
/// `"truecolor"`, and `"braille"` for the same tier).
pub open spec fn spec_from_force_mode(s: Seq<char>) -> Option<TerminalCapability> {
    if s == "kitty"@ {
        Some(TerminalCapability::Kitty)
    } else if s == "truecolor"@ || s == "braille"@ {
        Some(TerminalCapability::Truecolor)
    } else if s == "ascii"@ {
        Some(TerminalCapability::Ascii)
    } else {
        None
    }
}

/// The tier the environment indicates, highest precedence first: kitty
/// family variables or a kitty/ghostty `TERM`; SSH without `COLORTERM`;
/// a dumb/vt100/linux `TERM`; a truecolor `COLORTERM`; otherwise truecolor.
pub open spec fn spec_detect(env: TermEnv) -> TerminalCapability {
    let term = env.term@;
    if env.kitty_window_id || env.ghostty_resources_dir || env.wezterm_pane {
        TerminalCapability::Kitty
    } else if contains_seq(term, "kitty"@) || contains_seq(term, "ghostty"@) {
        TerminalCapability::Kitty
    } else if (env.ssh_connection || env.ssh_client) && env.colorterm@.len() == 0 {
        TerminalCapability::Ascii
    } else if term == "dumb"@ || term == "vt100"@ || term == "linux"@ {
        TerminalCapability::Ascii
    } else {
        TerminalCapability::Truecolor
    }
}

/// The effective tier: a recognised forced mode wins; otherwise the
/// detected tier, except that with `auto_degrade` off it never degrades to
/// ASCII.
pub open spec fn spec_resolve(force_mode: Option<Seq<char>>, auto_degrade: bool, env: TermEnv) -> TerminalCapability {
    let forced = match force_mode {
        Some(s) => spec_from_force_mode(s),
        None => None,
    };
    match forced {
        Some(c) => c,
        None => if !auto_degrade && spec_detect(env) == TerminalCapability::Ascii {
            TerminalCapability::Truecolor
        } else {
            spec_detect(env)
        },
    }
}

impl TerminalCapability {
    /// Stable lower-case tag for the status bar and logs.
    pub fn as_str(self) -> (s: &'static str)
        ensures
            s@ == capability_name(self),
    {
        match self {
            TerminalCapability::Kitty => "kitty",
            TerminalCapability::Truecolor => "truecolor",
            TerminalCapability::Ascii => "ascii",
        }
    }

    /// Parse a forced-mode string: `"kitty"`, `"truecolor"` (also spelled
    /// `"braille"`, the renderer of that tier) or `"ascii"`; anything
    /// unrecognised is `None`.
    pub fn from_force_mode(s: &str) -> (c: Option<TerminalCapability>)
        ensures
            c == spec_from_force_mode(s@),
    {
        if str_eq(s, "kitty") {
            Some(TerminalCapability::Kitty)
        } else if str_eq(s, "truecolor") || str_eq(s, "braille") {
            Some(TerminalCapability::Truecolor)
        } else if str_eq(s, "ascii") {
            Some(TerminalCapability::Ascii)
        } else {
            None
        }
    }
}

/// Classify the terminal from its environment variables.
pub fn detect(env: &TermEnv) -> (c: TerminalCapability)
    ensures
        c == spec_detect(*env),
{
    if env.kitty_window_id || env.ghostty_resources_dir || env.wezterm_pane {
        return TerminalCapability::Kitty;
    }
    let term = env.term.as_str();
    if str_contains(term, "kitty") || str_contains(term, "ghostty") {
        return TerminalCapability::Kitty;
    }
    let in_ssh = env.ssh_connection || env.ssh_client;
    let colorterm = env.colorterm.as_str();
    if in_ssh && colorterm.unicode_len() == 0 {
        return TerminalCapability::Ascii;
    }
    if str_eq(term, "dumb") || str_eq(term, "vt100") || str_eq(term, "linux") {
        return TerminalCapability::Ascii;
    }
    if str_eq(colorterm, "truecolor") || str_eq(colorterm, "24bit") {
        return TerminalCapability::Truecolor;
    }
    if str_starts_with(term, "xterm-256color") || str_starts_with(term, "alacritty") {
        return TerminalCapability::Truecolor;
    }
    TerminalCapability::Truecolor
}

/// Resolve the effective tier from the forced mode, the degrade policy
/// and the environment.
pub fn resolve(force_mode: Option<&str>, auto_degrade: bool, env: &TermEnv) -> (c: TerminalCapability)
    ensures
        c == spec_resolve(match force_mode { Some(s) => Some(s@), None => None }, auto_degrade, *env),
{
    if let Some(s) = force_mode {
        if let Some(forced) = TerminalCapability::from_force_mode(s) {
            return forced;
        }
    }
    let detected = detect(env);
    if !auto_degrade && detected == TerminalCapability::Ascii {
        return TerminalCapability::Truecolor;
    }
    detected
}

/// Whether the terminal exposes the kitty graphics protocol.
pub fn supports_kitty_graphics(env: &TermEnv) -> (b: bool)
    ensures
        b == (spec_detect(*env) == TerminalCapability::Kitty),
{
    match detect(env) {
        TerminalCapability::Kitty => true,
        _ => false,
    }
}

/// A recognised forced mode always wins, and turning automatic degrade off
/// never yields the ASCII tier unless it is forced.
pub proof fn lemma_resolve_laws(force_mode: Option<Seq<char>>, auto_degrade: bool, env: TermEnv)
    ensures
        force_mode is Some && spec_from_force_mode(force_mode->0) is Some
            ==> spec_resolve(force_mode, auto_degrade, env) == spec_from_force_mode(force_mode->0)->0,
        !auto_degrade && spec_resolve(force_mode, auto_degrade, env) == TerminalCapability::Ascii
            ==> force_mode is Some && spec_from_force_mode(force_mode->0) == Some(TerminalCapability::Ascii),
{
}

} // verus!
