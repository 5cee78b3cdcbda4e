//! Application configuration: the TOML schema's values and defaults, and
//! the decisions of the loader (which file, and what a read outcome
//! means). Reading and TOML parsing are done by the caller.

use vstd::prelude::*;
use vstd::string::*;
use crate::text::{str_eq, views};

verus! {

/// User-facing runtime configuration.
#[derive(Debug, Clone, PartialEq, Eq)]
pub struct AppConfig {
    /// Active palette name.
    pub palette: String,
    /// Whether the legend overlay is visible at startup.
    pub hud_visible: bool,
    /// Degrade automatically on weak terminals.
    pub auto_degrade: bool,
    /// Forced render mode (`auto`, `kitty`, `truecolor`, `ascii`).
    pub force_mode: String,
    /// Frame-rate cap when degraded.
    pub degraded_fps_cap: u32,
}

impl Default for AppConfig {
    fn default() -> (c: Self)
        ensures
            c.palette@ == "notion-soft"@,
            c.hud_visible,
            c.auto_degrade,
            c.force_mode@ == "auto"@,
            c.degraded_fps_cap == 15,
    {
        AppConfig {
            palette: String::from_str("notion-soft"),
            hud_visible: true,
            auto_degrade: true,
            force_mode: String::from_str("auto"),
            degraded_fps_cap: 15,
        }
    }
}

/// Index of the first `--config` flag in `args`, or `args.len()`.
pub open spec fn config_flag_index(args: Seq<Seq<char>>) -> int
    decreases args.len(),
{
    if args.len() == 0 {
        0
    } else if args[0] == "--config"@ {
        0
    } else {
        1 + config_flag_index(args.drop_first())
    }
}

/// The file named after the first `--config` flag, if a token follows it.
pub open spec fn spec_config_arg(args: Seq<Seq<char>>) -> Option<Seq<char>> {
    let i = config_flag_index(args);
    if i + 1 < args.len() {
        Some(args[i + 1])
    } else {
        None
    }
}

proof fn lemma_config_flag_scan(args: Seq<Seq<char>>, i: int)
    requires
        0 <= i <= args.len(),
        forall|j: int| 0 <= j < i ==> args[j] != "--config"@,
    ensures
        config_flag_index(args) == i + config_flag_index(args.skip(i)),
        0 <= config_flag_index(args) <= args.len(),
    decreases i,
{
    if i > 0 {
        lemma_config_flag_scan(args.drop_first(), i - 1);
        assert(args.drop_first().skip(i - 1) =~= args.skip(i));
    } else {
        assert(args.skip(0) =~= args);
        lemma_config_flag_bound(args);
    }
}

proof fn lemma_config_flag_bound(args: Seq<Seq<char>>)
    ensures
        0 <= config_flag_index(args) <= args.len(),
    decreases args.len(),
{
    if args.len() > 0 {
        lemma_config_flag_bound(args.drop_first());
    }
}

/// The config file the command line names: the token after the first
/// `--config`, when there is one.
pub fn find_config_arg(args: &Vec<String>) -> (p: Option<String>)
    ensures
        match p {
            Some(s) => spec_config_arg(views(args@)) == Some(s@),
            None => spec_config_arg(views(args@)) is None,
        },
{
    let ghost v = views(args@);
    let mut i: usize = 0;
    while i < args.len()
        invariant
            v == views(args@),
            i <= args@.len(),
            forall|j: int| 0 <= j < i ==> v[j] != "--config"@,
        decreases args@.len() - i,
    {
        if str_eq(args[i].as_str(), "--config") {
            proof {
                lemma_config_flag_scan(v, i as int);
                assert(v.skip(i as int)[0] == v[i as int]);
            }
            if i + 1 < args.len() {
                return Some(String::from_str(args[i + 1].as_str()));
            }
            return None;
        }
        i = i + 1;
    }
    proof {
        lemma_config_flag_scan(v, i as int);
    }
    None
}

/// How reading a config file turned out.
#[derive(Debug, Clone, PartialEq, Eq)]
pub enum ReadOutcome {
    /// The file was read; its text.
    Text(String),
    /// The file does not exist.
    Missing,
    /// The file exists but could not be read.
    Unreadable,
}

/// What the loader does next.
#[derive(Debug, Clone, PartialEq, Eq)]
pub enum LoadStep {
    /// Use [`AppConfig::default`].
    UseDefaults,
    /// Parse this text as TOML.
    Parse(String),
    /// Report a read error for the file.
    ReadError,
}

/// Decide what a read outcome means. A missing file falls back to the
/// defaults unless the file was named explicitly on the command line, in
/// which case it is an error like any other failed read.
pub fn after_read(explicit: bool, read: &ReadOutcome) -> (s: LoadStep)
    ensures
        match *read {
            ReadOutcome::Text(t) => s matches LoadStep::Parse(u) && u@ == t@,
            ReadOutcome::Missing => s == (if explicit { LoadStep::ReadError } else { LoadStep::UseDefaults }),
            ReadOutcome::Unreadable => s == LoadStep::ReadError,
        },
{
    match read {
        ReadOutcome::Text(t) => LoadStep::Parse(String::from_str(t.as_str())),
        ReadOutcome::Missing => {
            if explicit {
                LoadStep::ReadError
            } else {
                LoadStep::UseDefaults
            }
        },
        ReadOutcome::Unreadable => LoadStep::ReadError,
    }
}

} // verus!
