//! Application-level state rules: the empty-world banner gate (counters
//! advanced once per logic tick and the rule that decides whether the "no
//! containers" banner may be painted) and the palette cycle order.

use vstd::prelude::*;
use vstd::string::*;
use crate::text::str_eq;

verus! {

/// Consecutive empty ticks, after a container has once been seen, before
/// the empty-state banner returns (about five seconds at 60 ticks/s).
pub const EMPTY_BANNER_DEBOUNCE_TICKS: u32 = 300;

/// Ticks after launch during which the banner is never shown (about one
/// second at 60 ticks/s).
pub const STARTUP_GRACE_TICKS: u32 = 60;

/// Tick counters behind the banner decision.
#[derive(Debug, Clone, Copy, PartialEq, Eq, Structural)]
pub struct BannerState {
    /// Logic ticks since launch (wrapping).
    pub tick_count: u64,
    /// Set on the first tick with a non-empty world; never cleared.
    pub non_empty_seen_once: bool,
    /// Consecutive ticks the world has been empty (saturating).
    pub empty_streak_ticks: u32,
}

/// The state at launch.
pub open spec fn initial_banner_state() -> BannerState {
    BannerState { tick_count: 0, non_empty_seen_once: false, empty_streak_ticks: 0 }
}

/// One logic tick: the tick count advances (wrapping); an empty world
/// lengthens the empty streak (saturating), a non-empty one marks a
/// container as seen and resets the streak.
pub open spec fn tick_step(s: BannerState, world_empty: bool) -> BannerState {
    let tick = if s.tick_count == u64::MAX { 0u64 } else { (s.tick_count + 1) as u64 };
    if world_empty {
        BannerState {
            tick_count: tick,
            non_empty_seen_once: s.non_empty_seen_once,
            empty_streak_ticks: if s.empty_streak_ticks == u32::MAX {
                u32::MAX
            } else {
                (s.empty_streak_ticks + 1) as u32
            },
        }
    } else {
        BannerState { tick_count: tick, non_empty_seen_once: true, empty_streak_ticks: 0 }
    }
}

/// The state after a run of ticks; `empties[i]` tells whether the world
/// was empty on the `i`-th tick.
pub open spec fn run_ticks(s: BannerState, empties: Seq<bool>) -> BannerState
    decreases empties.len(),
{
    if empties.len() == 0 {
        s
    } else {
        tick_step(run_ticks(s, empties.drop_last()), empties.last())
    }
}

/// The banner rule: hidden throughout the startup grace; afterwards shown
/// when no container was ever seen, or when the world has been empty for
/// the whole debounce window.
pub open spec fn banner_shown(s: BannerState) -> bool {
    s.tick_count >= STARTUP_GRACE_TICKS as u64 && (!s.non_empty_seen_once
        || s.empty_streak_ticks >= EMPTY_BANNER_DEBOUNCE_TICKS)
}

impl BannerState {
    /// Counters at launch: no ticks, nothing seen, no streak.
    pub fn new() -> (s: Self)
        ensures
            s == initial_banner_state(),
    {
        BannerState { tick_count: 0, non_empty_seen_once: false, empty_streak_ticks: 0 }
    }

    /// Advance the counters by one logic tick.
    pub fn on_tick(&mut self, world_empty: bool)
        ensures
            *final(self) == tick_step(*old(self), world_empty),
    {
        self.tick_count = self.tick_count.wrapping_add(1);
        if world_empty {
            self.empty_streak_ticks = self.empty_streak_ticks.saturating_add(1);
        } else {
            self.non_empty_seen_once = true;
            self.empty_streak_ticks = 0;
        }
    }

    /// Whether the empty-state banner may be drawn this frame (the caller
    /// asks only while the world is empty).
    pub fn should_show_empty_banner(&self) -> (b: bool)
        ensures
            b == banner_shown(*self),
    {
        if self.tick_count < STARTUP_GRACE_TICKS as u64 {
            return false;
        }
        !self.non_empty_seen_once || self.empty_streak_ticks >= EMPTY_BANNER_DEBOUNCE_TICKS
    }
}

/// Over a run of ticks the tick count advances by the run's length (short
/// of wrapping), and once a container has been seen it stays seen.
pub proof fn lemma_run_ticks_counts(s: BannerState, empties: Seq<bool>)
    requires
        s.tick_count + empties.len() <= u64::MAX,
    ensures
        run_ticks(s, empties).tick_count == s.tick_count + empties.len(),
        s.non_empty_seen_once ==> run_ticks(s, empties).non_empty_seen_once,
    decreases empties.len(),
{
    if empties.len() > 0 {
        lemma_run_ticks_counts(s, empties.drop_last());
    }
}

/// A run of `k` empty ticks leaves the "seen" mark as it was and adds `k`
/// to the empty streak (short of saturating).
pub proof fn lemma_empty_run(s: BannerState, k: nat)
    requires
        s.empty_streak_ticks + k <= u32::MAX,
    ensures
        run_ticks(s, Seq::new(k, |i: int| true)).non_empty_seen_once == s.non_empty_seen_once,
        run_ticks(s, Seq::new(k, |i: int| true)).empty_streak_ticks == s.empty_streak_ticks + k,
    decreases k,
{
    if k > 0 {
        let e = Seq::new(k, |i: int| true);
        assert(e.drop_last() =~= Seq::new((k - 1) as nat, |i: int| true));
        lemma_empty_run(s, (k - 1) as nat);
    }
}

/// No banner during the startup grace: from launch, any run of fewer than
/// `STARTUP_GRACE_TICKS` ticks, whatever the world held, leaves the banner
/// hidden.
pub proof fn lemma_no_banner_in_startup_grace(empties: Seq<bool>)
    requires
        empties.len() < STARTUP_GRACE_TICKS,
    ensures
        !banner_shown(run_ticks(initial_banner_state(), empties)),
{
    lemma_run_ticks_counts(initial_banner_state(), empties);
}

/// Debounce: after a tick with a non-empty world, fewer than
/// `EMPTY_BANNER_DEBOUNCE_TICKS` empty ticks in a row never bring the
/// banner back.
pub proof fn lemma_transient_empty_hides_banner(s: BannerState, k: nat)
    requires
        k < EMPTY_BANNER_DEBOUNCE_TICKS,
    ensures
        !banner_shown(run_ticks(tick_step(s, false), Seq::new(k, |i: int| true))),
{
    lemma_empty_run(tick_step(s, false), k);
}

/// Sustained emptiness: once past the startup grace, a run of at least
/// `EMPTY_BANNER_DEBOUNCE_TICKS` empty ticks shows the banner.
pub proof fn lemma_sustained_empty_shows_banner(s: BannerState, k: nat)
    requires
        s.tick_count >= STARTUP_GRACE_TICKS,
        s.tick_count + k <= u64::MAX,
        k >= EMPTY_BANNER_DEBOUNCE_TICKS,
        s.empty_streak_ticks + k <= u32::MAX,
    ensures
        banner_shown(run_ticks(s, Seq::new(k, |i: int| true))),
{
    lemma_empty_run(s, k);
    lemma_run_ticks_counts(s, Seq::new(k, |i: int| true));
}

/// A daemon with no containers at all gets its banner as soon as the
/// startup grace is over.
pub proof fn lemma_never_seen_shows_banner_after_grace(s: BannerState)
    requires
        !s.non_empty_seen_once,
        s.tick_count >= STARTUP_GRACE_TICKS,
    ensures
        banner_shown(s),
{
}


// ---------------------------------------------------------------------------
// Palette cycle
// ---------------------------------------------------------------------------

/// The order `P` cycles palettes in; `omarchy` takes part only when the
/// host's omarchy theme resolved.
pub open spec fn palette_order(omarchy: bool) -> Seq<Seq<char>> {
    let base = seq!["notion-soft"@, "cyberpunk-neon"@, "terminal-green"@];
    if omarchy {
        base.push("omarchy"@)
    } else {
        base
    }
}

/// Position of `name` in the cycle, or 0 when it is not a member.
pub open spec fn palette_position(name: Seq<char>, omarchy: bool) -> int {
    let order = palette_order(omarchy);
    if order[0] == name {
        0
    } else if order[1] == name {
        1
    } else if order[2] == name {
        2
    } else if omarchy && order[3] == name {
        3
    } else {
        0
    }
}

/// The palette after `name` in the cycle, wrapping to the first.
pub open spec fn next_palette_spec(name: Seq<char>, omarchy: bool) -> Seq<char> {
    let order = palette_order(omarchy);
    order[(palette_position(name, omarchy) + 1) % (order.len() as int)]
}

/// Name of the palette that follows `current` in the cycle; an unknown
/// name counts as the first, so cycling from it lands on the second.
pub fn next_palette_name(current: &str, omarchy_available: bool) -> (n: String)
    ensures
        n@ == next_palette_spec(current@, omarchy_available),
{
    proof {
        reveal_strlit("notion-soft");
        reveal_strlit("cyberpunk-neon");
        reveal_strlit("terminal-green");
        reveal_strlit("omarchy");
    }
    let pos: usize = if str_eq(current, "notion-soft") {
        0
    } else if str_eq(current, "cyberpunk-neon") {
        1
    } else if str_eq(current, "terminal-green") {
        2
    } else if omarchy_available && str_eq(current, "omarchy") {
        3
    } else {
        0
    };
    let len: usize = if omarchy_available { 4 } else { 3 };
    let next = (pos + 1) % len;
    if next == 0 {
        String::from_str("notion-soft")
    } else if next == 1 {
        String::from_str("cyberpunk-neon")
    } else if next == 2 {
        String::from_str("terminal-green")
    } else {
        String::from_str("omarchy")
    }
}

/// Whether `name` is a palette of the cycle.
pub open spec fn is_palette_name(name: Seq<char>, omarchy: bool) -> bool {
    ||| name == "notion-soft"@
    ||| name == "cyberpunk-neon"@
    ||| name == "terminal-green"@
    ||| omarchy && name == "omarchy"@
}

/// The palette a configured name selects: the name itself when it is a
/// palette of the cycle, else `notion-soft` (under that name, so cycling
/// from it proceeds from the first palette).
pub open spec fn resolve_palette_spec(name: Seq<char>, omarchy: bool) -> Seq<char> {
    if is_palette_name(name, omarchy) {
        name
    } else {
        "notion-soft"@
    }
}

/// Resolve the configured palette name: a known palette keeps its name
/// (`omarchy` only when that palette is available); any other name falls
/// back to `notion-soft`.
pub fn resolve_palette_name(name: &str, omarchy_available: bool) -> (n: String)
    ensures
        n@ == resolve_palette_spec(name@, omarchy_available),
{
    if str_eq(name, "notion-soft") || str_eq(name, "cyberpunk-neon") || str_eq(name, "terminal-green")
        || (omarchy_available && str_eq(name, "omarchy")) {
        String::from_str(name)
    } else {
        String::from_str("notion-soft")
    }
}

/// A resolved palette name is always a member of the cycle, so cycling
/// from it walks the cycle.
pub proof fn lemma_resolved_palette_in_cycle(name: Seq<char>, omarchy: bool)
    ensures
        palette_order(omarchy).contains(resolve_palette_spec(name, omarchy)),
{
    let o = palette_order(omarchy);
    let r = resolve_palette_spec(name, omarchy);
    if r == o[0] {
        assert(o[0] == r);
    } else if r == o[1] {
        assert(o[1] == r);
    } else if r == o[2] {
        assert(o[2] == r);
    } else {
        assert(omarchy && o[3] == r);
    }
}

/// The palette after `k` steps of the cycle from `name`.
pub open spec fn palette_after(name: Seq<char>, omarchy: bool, k: nat) -> Seq<char>
    decreases k,
{
    if k == 0 {
        name
    } else {
        next_palette_spec(palette_after(name, omarchy, (k - 1) as nat), omarchy)
    }
}

proof fn lemma_palette_names_distinct(omarchy: bool)
    ensures
        forall|i: int, j: int|
            0 <= i < j < palette_order(omarchy).len() ==> palette_order(omarchy)[i]
                != palette_order(omarchy)[j],
{
    reveal_strlit("notion-soft");
    reveal_strlit("cyberpunk-neon");
    reveal_strlit("terminal-green");
    reveal_strlit("omarchy");
    let o = palette_order(omarchy);
    assert(o[0].len() != o[1].len());
    assert(o[0].len() != o[2].len());
    assert(o[1][0] != o[2][0]);
    if omarchy {
        assert(o[0].len() != o[3].len());
        assert(o[1].len() != o[3].len());
        assert(o[2].len() != o[3].len());
    }
}

/// Cycling from a member of the order walks the order: after `k` steps
/// from the `i`-th palette comes the `(i + k) mod len`-th, so every
/// palette is visited and the cycle returns to its start after one round;
/// an unknown name enters the cycle at its second palette.
pub proof fn lemma_palette_cycle(i: int, omarchy: bool, k: nat, unknown: Seq<char>)
    requires
        0 <= i < palette_order(omarchy).len(),
        forall|j: int| 0 <= j < palette_order(omarchy).len() ==> palette_order(omarchy)[j] != unknown,
    ensures
        palette_after(palette_order(omarchy)[i], omarchy, k) == palette_order(omarchy)[(i + k) % (
        palette_order(omarchy).len() as int)],
        next_palette_spec(unknown, omarchy) == "cyberpunk-neon"@,
    decreases k,
{
    let o = palette_order(omarchy);
    let len = o.len() as int;
    lemma_palette_names_distinct(omarchy);
    assert(palette_position(unknown, omarchy) == 0);
    if omarchy {
        assert(len == 4);
        assert((0 + 1) % 4 == 1);
    } else {
        assert(len == 3);
        assert((0 + 1) % 3 == 1);
    }
    assert(o[1] == "cyberpunk-neon"@);
    if k > 0 {
        lemma_palette_cycle(i, omarchy, (k - 1) as nat, unknown);
        let m = (i + k - 1) % len;
        assert(palette_position(o[m], omarchy) == m);
        assert((m + 1) % len == (i + k) % len) by {
            vstd::arithmetic::div_mod::lemma_add_mod_noop(i + k - 1, 1, len);
            vstd::arithmetic::div_mod::lemma_small_mod(1, len as nat);
        }
    } else {
        vstd::arithmetic::div_mod::lemma_small_mod(i as nat, len as nat);
    }
}

} // verus!
