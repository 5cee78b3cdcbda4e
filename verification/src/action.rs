//! The intent layer: key events map to [`Action`]s, queued actions are
//! coalesced once per frame, and an action is dispatched against the input
//! state both backends share.
//!
//! Nudge amounts are fixed-point: millionths of a radian for yaw and pitch,
//! millionths of a world unit for zoom ([`MICROS_PER_UNIT`] per unit).

use vstd::prelude::*;

verus! {

/// Fixed-point scale of nudge amounts: millionths per radian / world unit.
pub const MICROS_PER_UNIT: i64 = 1_000_000;

/// Yaw nudge per key press or repeat (0.10 rad).
pub const YAW_STEP: i64 = 100_000;

/// Pitch nudge per key press or repeat (0.07 rad).
pub const PITCH_STEP: i64 = 70_000;

/// Zoom nudge per key press or repeat (0.4 world units).
pub const ZOOM_STEP: i64 = 400_000;

/// A key, as far as the key map distinguishes keys.
#[derive(Debug, Clone, Copy, PartialEq, Eq, Hash, Structural)]
pub enum KeyCode {
    Char(char),
    Left,
    Right,
    Up,
    Down,
    PageUp,
    PageDown,
    Tab,
    BackTab,
    Enter,
    Esc,
    /// Any other key.
    Other,
}

/// Whether a key went down, auto-repeated, or went up.
#[derive(Debug, Clone, Copy, PartialEq, Eq, Hash, Structural)]
pub enum KeyEventKind {
    Press,
    Repeat,
    Release,
}

/// One key event: the key, whether Control was held, and its kind.
#[derive(Debug, Clone, Copy, PartialEq, Eq, Hash, Structural)]
pub struct KeyEvent {
    pub code: KeyCode,
    pub control: bool,
    pub kind: KeyEventKind,
}

/// A continuous movement intent that can be held across render ticks.
#[derive(Debug, Clone, Copy, PartialEq, Eq, Hash, Structural)]
pub enum HeldAction {
    /// Left arrow / 'a'.
    NudgeYawLeft,
    /// Right arrow / 'd'.
    NudgeYawRight,
    /// Up arrow / 'w'.
    NudgePitchUp,
    /// Down arrow / 's'.
    NudgePitchDown,
    /// '+' / '=' / PageUp.
    NudgeZoomIn,
    /// '-' / '_' / PageDown.
    NudgeZoomOut,
}

/// A high-level input intent produced from a key event.
#[derive(Debug, Clone, Copy, PartialEq, Eq, Hash, Structural)]
pub enum Action {
    /// Quit the application.
    Quit,
    /// No actionable intent.
    Nothing,
    /// Orbit yaw by the carried amount (millionths of a radian).
    NudgeYaw(i64),
    /// Orbit pitch by the carried amount (millionths of a radian).
    NudgePitch(i64),
    /// Zoom radius by the carried amount (millionths of a world unit;
    /// negative = closer).
    NudgeZoom(i64),
    /// Cycle the selection forward (Tab).
    SelectNext,
    /// Cycle the selection backward (Shift+Tab).
    SelectPrev,
    /// Open the detail panel for the selection (Enter).
    OpenDetail,
    /// Close the detail panel, or quit when none is open (Esc).
    CloseDetail,
    /// Cycle the palette (P).
    CyclePalette,
    /// Toggle the legend overlay (L).
    ToggleLegend,
}

/// What the caller must do after a dispatch that the dispatch itself
/// cannot do.
#[derive(Debug, Clone, PartialEq, Eq)]
pub enum Effect {
    /// Nothing to do.
    Nothing,
    /// Quit the app.
    Quit,
    /// Fetch the detail of this container id off-thread.
    SpawnInspect(String),
    /// Cycle the palette.
    CyclePalette,
    /// Toggle the legend overlay.
    ToggleLegend,
}

/// The held action a key code drives, if any.
pub open spec fn spec_held_from_code(code: KeyCode) -> Option<HeldAction> {
    match code {
        KeyCode::Left => Some(HeldAction::NudgeYawLeft),
        KeyCode::Right => Some(HeldAction::NudgeYawRight),
        KeyCode::Up => Some(HeldAction::NudgePitchUp),
        KeyCode::Down => Some(HeldAction::NudgePitchDown),
        KeyCode::PageUp => Some(HeldAction::NudgeZoomIn),
        KeyCode::PageDown => Some(HeldAction::NudgeZoomOut),
        KeyCode::Char(c) => if c == 'a' {
            Some(HeldAction::NudgeYawLeft)
        } else if c == 'd' {
            Some(HeldAction::NudgeYawRight)
        } else if c == 'w' {
            Some(HeldAction::NudgePitchUp)
        } else if c == 's' {
            Some(HeldAction::NudgePitchDown)
        } else if c == '+' || c == '=' {
            Some(HeldAction::NudgeZoomIn)
        } else if c == '-' || c == '_' {
            Some(HeldAction::NudgeZoomOut)
        } else {
            None
        },
        _ => None,
    }
}

/// The nudge a held action dispatches per tick.
pub open spec fn spec_held_to_action(h: HeldAction) -> Action {
    match h {
        HeldAction::NudgeYawLeft => Action::NudgeYaw((-YAW_STEP) as i64),
        HeldAction::NudgeYawRight => Action::NudgeYaw(YAW_STEP),
        HeldAction::NudgePitchUp => Action::NudgePitch(PITCH_STEP),
        HeldAction::NudgePitchDown => Action::NudgePitch((-PITCH_STEP) as i64),
        HeldAction::NudgeZoomIn => Action::NudgeZoom((-ZOOM_STEP) as i64),
        HeldAction::NudgeZoomOut => Action::NudgeZoom(ZOOM_STEP),
    }
}

impl HeldAction {
    /// The held movement action of a key code; `None` for discrete keys.
    pub fn from_key_code(code: KeyCode) -> (h: Option<HeldAction>)
        ensures
            h == spec_held_from_code(code),
    {
        match code {
            KeyCode::Left => Some(HeldAction::NudgeYawLeft),
            KeyCode::Right => Some(HeldAction::NudgeYawRight),
            KeyCode::Up => Some(HeldAction::NudgePitchUp),
            KeyCode::Down => Some(HeldAction::NudgePitchDown),
            KeyCode::PageUp => Some(HeldAction::NudgeZoomIn),
            KeyCode::PageDown => Some(HeldAction::NudgeZoomOut),
            KeyCode::Char(c) => {
                if c == 'a' {
                    Some(HeldAction::NudgeYawLeft)
                } else if c == 'd' {
                    Some(HeldAction::NudgeYawRight)
                } else if c == 'w' {
                    Some(HeldAction::NudgePitchUp)
                } else if c == 's' {
                    Some(HeldAction::NudgePitchDown)
                } else if c == '+' || c == '=' {
                    Some(HeldAction::NudgeZoomIn)
                } else if c == '-' || c == '_' {
                    Some(HeldAction::NudgeZoomOut)
                } else {
                    None
                }
            },
            _ => None,
        }
    }

    /// The nudge this held intent dispatches once per render tick.
    pub fn to_action(self) -> (a: Action)
        ensures
            a == spec_held_to_action(self),
    {
        match self {
            HeldAction::NudgeYawLeft => Action::NudgeYaw(-YAW_STEP),
            HeldAction::NudgeYawRight => Action::NudgeYaw(YAW_STEP),
            HeldAction::NudgePitchUp => Action::NudgePitch(PITCH_STEP),
            HeldAction::NudgePitchDown => Action::NudgePitch(-PITCH_STEP),
            HeldAction::NudgeZoomIn => Action::NudgeZoom(-ZOOM_STEP),
            HeldAction::NudgeZoomOut => Action::NudgeZoom(ZOOM_STEP),
        }
    }
}

/// The action a key event maps to. Release events map to `None`; discrete
/// intents fire on Press only, continuous nudges on Press and Repeat;
/// Control-C quits on Press.
pub open spec fn spec_from_key(key: KeyEvent) -> Action {
    let repeat = key.kind == KeyEventKind::Repeat;
    let discrete = |a: Action| if repeat { Action::Nothing } else { a };
    if key.kind == KeyEventKind::Release {
        Action::Nothing
    } else if key.code == KeyCode::Char('c') && key.control {
        discrete(Action::Quit)
    } else {
        match key.code {
            KeyCode::Esc => discrete(Action::CloseDetail),
            KeyCode::Tab => discrete(Action::SelectNext),
            KeyCode::BackTab => discrete(Action::SelectPrev),
            KeyCode::Enter => discrete(Action::OpenDetail),
            KeyCode::Char(c) => if c == 'q' {
                discrete(Action::Quit)
            } else if c == 'p' || c == 'P' {
                discrete(Action::CyclePalette)
            } else if c == 'l' || c == 'L' {
                discrete(Action::ToggleLegend)
            } else {
                match spec_held_from_code(key.code) {
                    Some(h) => spec_held_to_action(h),
                    None => Action::Nothing,
                }
            },
            _ => match spec_held_from_code(key.code) {
                Some(h) => spec_held_to_action(h),
                None => Action::Nothing,
            },
        }
    }
}

impl Action {
    /// Map a key event to an [`Action`].
    pub fn from_key(key: KeyEvent) -> (a: Action)
        ensures
            a == spec_from_key(key),
    {
        let is_repeat = match key.kind {
            KeyEventKind::Press => false,
            KeyEventKind::Repeat => true,
            KeyEventKind::Release => { return Action::Nothing; },
        };
        let is_ctrl_c = match key.code {
            KeyCode::Char(c) => c == 'c' && key.control,
            _ => false,
        };
        if is_ctrl_c {
            if is_repeat {
                return Action::Nothing;
            }
            return Action::Quit;
        }
        let discrete = match key.code {
            KeyCode::Esc => Some(Action::CloseDetail),
            KeyCode::Tab => Some(Action::SelectNext),
            KeyCode::BackTab => Some(Action::SelectPrev),
            KeyCode::Enter => Some(Action::OpenDetail),
            KeyCode::Char(c) => {
                if c == 'q' {
                    Some(Action::Quit)
                } else if c == 'p' || c == 'P' {
                    Some(Action::CyclePalette)
                } else if c == 'l' || c == 'L' {
                    Some(Action::ToggleLegend)
                } else {
                    None
                }
            },
            _ => None,
        };
        match discrete {
            Some(a) => {
                if is_repeat {
                    Action::Nothing
                } else {
                    a
                }
            },
            None => {
                match HeldAction::from_key_code(key.code) {
                    Some(h) => h.to_action(),
                    None => Action::Nothing,
                }
            },
        }
    }
}

} // verus!

verus! {

// ---------------------------------------------------------------------------
// Coalescing
// ---------------------------------------------------------------------------

/// Which kind of action `a` is (its variant, ignoring any amount).
pub open spec fn kind(a: Action) -> int {
    match a {
        Action::Quit => 0,
        Action::Nothing => 1,
        Action::NudgeYaw(_) => 2,
        Action::NudgePitch(_) => 3,
        Action::NudgeZoom(_) => 4,
        Action::SelectNext => 5,
        Action::SelectPrev => 6,
        Action::OpenDetail => 7,
        Action::CloseDetail => 8,
        Action::CyclePalette => 9,
        Action::ToggleLegend => 10,
    }
}

/// Whether `k` is the kind of a nudge (yaw, pitch or zoom).
pub open spec fn is_nudge_kind(k: int) -> bool {
    2 <= k <= 4
}

/// The amount a nudge carries (zero for other actions).
pub open spec fn nudge_amount(a: Action) -> int {
    match a {
        Action::NudgeYaw(d) => d as int,
        Action::NudgePitch(d) => d as int,
        Action::NudgeZoom(d) => d as int,
        _ => 0,
    }
}

/// The nudge of the same axis as `a` carrying amount `d`.
pub open spec fn with_amount(a: Action, d: i64) -> Action {
    match a {
        Action::NudgeYaw(_) => Action::NudgeYaw(d),
        Action::NudgePitch(_) => Action::NudgePitch(d),
        Action::NudgeZoom(_) => Action::NudgeZoom(d),
        _ => a,
    }
}

/// Index of the first action of kind `k` in `s`, or -1 when there is none.
pub open spec fn kind_index(s: Seq<Action>, k: int) -> int
    decreases s.len(),
{
    if s.len() == 0 {
        -1
    } else if kind(s[0]) == k {
        0
    } else {
        let r = kind_index(s.drop_first(), k);
        if r < 0 { -1 } else { r + 1 }
    }
}

/// One coalescing step: `Nothing` is dropped; a nudge adds its amount to
/// the entry of its axis (or is appended); any other action is appended
/// unless one of its kind is already present.
pub open spec fn coalesce_step(out: Seq<Action>, a: Action) -> Seq<Action> {
    let j = kind_index(out, kind(a));
    if a == Action::Nothing {
        out
    } else if is_nudge_kind(kind(a)) {
        if j >= 0 {
            out.update(j, with_amount(a, (nudge_amount(out[j]) + nudge_amount(a)) as i64))
        } else {
            out.push(a)
        }
    } else if j >= 0 {
        out
    } else {
        out.push(a)
    }
}

/// The coalesced form of a queue of actions.
pub open spec fn coalesce_spec(s: Seq<Action>) -> Seq<Action>
    decreases s.len(),
{
    if s.len() == 0 {
        Seq::empty()
    } else {
        coalesce_step(coalesce_spec(s.drop_last()), s.last())
    }
}

/// Sum of the amounts of every nudge of kind `k` in `s`.
pub open spec fn axis_total(s: Seq<Action>, k: int) -> int
    decreases s.len(),
{
    if s.len() == 0 {
        0
    } else {
        axis_total(s.drop_last(), k) + (if kind(s.last()) == k { nudge_amount(s.last()) } else { 0 })
    }
}

/// Every partial per-axis sum of `s` fits the amount type.
pub open spec fn sums_fit(s: Seq<Action>) -> bool {
    forall|j: int, k: int|
        0 <= j <= s.len() && is_nudge_kind(k) ==> i64::MIN <= #[trigger] axis_total(s.take(j), k) <= i64::MAX
}

proof fn lemma_kind_index(s: Seq<Action>, k: int)
    ensures
        -1 <= kind_index(s, k) < s.len(),
        kind_index(s, k) >= 0 ==> kind(s[kind_index(s, k)]) == k,
        kind_index(s, k) >= 0 ==> forall|i: int| 0 <= i < kind_index(s, k) ==> kind(#[trigger] s[i]) != k,
        kind_index(s, k) < 0 ==> forall|i: int| 0 <= i < s.len() ==> kind(#[trigger] s[i]) != k,
    decreases s.len(),
{
    if s.len() > 0 {
        lemma_kind_index(s.drop_first(), k);
        assert forall|i: int| 1 <= i < s.len() implies s[i] == #[trigger] s.drop_first()[i - 1] by {}
        if kind(s[0]) != k {
            assert forall|i: int| 0 <= i < s.len() && kind_index(s.drop_first(), k) < 0 implies kind(#[trigger] s[i]) != k by {
                if i > 0 {
                    assert(s[i] == s.drop_first()[i - 1]);
                }
            }
            assert forall|i: int| 0 <= i < kind_index(s, k) implies kind(#[trigger] s[i]) != k by {
                if i > 0 {
                    assert(s[i] == s.drop_first()[i - 1]);
                }
            }
        }
    }
}

/// `kind_index` is the unique first occurrence.
proof fn lemma_kind_index_unique(s: Seq<Action>, k: int, j: int)
    requires
        -1 <= j < s.len(),
        j >= 0 ==> kind(s[j]) == k,
        j >= 0 ==> forall|i: int| 0 <= i < j ==> kind(#[trigger] s[i]) != k,
        j < 0 ==> forall|i: int| 0 <= i < s.len() ==> kind(#[trigger] s[i]) != k,
    ensures
        kind_index(s, k) == j,
{
    lemma_kind_index(s, k);
    let r = kind_index(s, k);
    if r >= 0 && j >= 0 {
        if r < j {
            assert(kind(s[r]) != k);
        } else if j < r {
            assert(kind(s[j]) != k);
        }
    } else if r >= 0 {
        assert(kind(s[r]) != k);
    } else if j >= 0 {
        assert(kind(s[j]) != k);
    }
}

/// The coalesced form holds at most one action of each kind, never
/// `Nothing`, and the entry of each nudge axis carries that axis's total.
proof fn lemma_coalesce_shape(s: Seq<Action>)
    requires
        sums_fit(s),
    ensures
        forall|i: int, j: int|
            0 <= i < j < coalesce_spec(s).len() ==> kind(#[trigger] coalesce_spec(s)[i]) != kind(#[trigger] coalesce_spec(s)[j]),
        forall|i: int| 0 <= i < coalesce_spec(s).len() ==> #[trigger] coalesce_spec(s)[i] != Action::Nothing,
        forall|k: int| #[trigger] is_nudge_kind(k) && kind_index(coalesce_spec(s), k) >= 0
            ==> nudge_amount(coalesce_spec(s)[kind_index(coalesce_spec(s), k)]) == axis_total(s, k),
        forall|k: int| #[trigger] is_nudge_kind(k) && kind_index(coalesce_spec(s), k) < 0 ==> axis_total(s, k) == 0,
    decreases s.len(),
{
    if s.len() > 0 {
        let p = s.drop_last();
        assert forall|j: int, k: int| 0 <= j <= p.len() && is_nudge_kind(k) implies
            i64::MIN <= #[trigger] axis_total(p.take(j), k) <= i64::MAX by {
            assert(p.take(j) =~= s.take(j));
        }
        lemma_coalesce_shape(p);
        let c = coalesce_spec(p);
        let a = s.last();
        let ka = kind(a);
        lemma_kind_index(c, ka);
        let j = kind_index(c, ka);
        assert(s.take(s.len() as int) =~= s);
        if is_nudge_kind(ka) {
            assert(i64::MIN <= axis_total(s.take(s.len() as int), ka) <= i64::MAX);
        }
        let r = coalesce_spec(s);
        assert forall|k: int| #[trigger] is_nudge_kind(k) implies
            (kind_index(r, k) >= 0 ==> nudge_amount(r[kind_index(r, k)]) == axis_total(s, k))
            && (kind_index(r, k) < 0 ==> axis_total(s, k) == 0) by {
            lemma_kind_index(c, k);
            let ck = kind_index(c, k);
            if a == Action::Nothing {
            } else if is_nudge_kind(ka) && j >= 0 {
                if k == ka {
                    lemma_kind_index_unique(r, k, j);
                } else {
                    lemma_kind_index_unique(r, k, ck);
                }
            } else if is_nudge_kind(ka) {
                if k == ka {
                    lemma_kind_index_unique(r, k, c.len() as int);
                } else {
                    lemma_kind_index_unique(r, k, ck);
                }
            } else if j >= 0 {
            } else {
                lemma_kind_index_unique(r, k, ck);
            }
        }
    }
}

fn kind_of(a: &Action) -> (k: u8)
    ensures
        k as int == kind(*a),
{
    match a {
        Action::Quit => 0,
        Action::Nothing => 1,
        Action::NudgeYaw(_) => 2,
        Action::NudgePitch(_) => 3,
        Action::NudgeZoom(_) => 4,
        Action::SelectNext => 5,
        Action::SelectPrev => 6,
        Action::OpenDetail => 7,
        Action::CloseDetail => 8,
        Action::CyclePalette => 9,
        Action::ToggleLegend => 10,
    }
}

fn find_kind(out: &Vec<Action>, k: u8) -> (r: Option<usize>)
    ensures
        match r {
            Some(j) => kind_index(out@, k as int) == j,
            None => kind_index(out@, k as int) < 0,
        },
{
    let mut i: usize = 0;
    while i < out.len()
        invariant
            i <= out@.len(),
            forall|m: int| 0 <= m < i ==> kind(#[trigger] out@[m]) != k as int,
        decreases out@.len() - i,
    {
        if kind_of(&out[i]) == k {
            proof {
                lemma_kind_index_unique(out@, k as int, i as int);
            }
            return Some(i);
        }
        i = i + 1;
    }
    proof {
        lemma_kind_index_unique(out@, k as int, -1);
    }
    None
}

/// Collapse a backlog of queued actions: `Nothing` is dropped, the nudges
/// of each axis are summed into one entry, and every other intent is kept
/// at most once; kinds keep the order of their first occurrence.
pub fn coalesce_actions(actions: &[Action]) -> (out: Vec<Action>)
    requires
        sums_fit(actions@),
    ensures
        out@ == coalesce_spec(actions@),
        sums_fit(out@),
{
    let mut out: Vec<Action> = Vec::new();
    let mut i: usize = 0;
    while i < actions.len()
        invariant
            i <= actions@.len(),
            sums_fit(actions@),
            out@ == coalesce_spec(actions@.take(i as int)),
        decreases actions@.len() - i,
    {
        let a = actions[i];
        let ghost pre = actions@.take(i as int);
        proof {
            assert(actions@.take(i as int + 1).drop_last() =~= pre);
            assert(actions@.take(i as int + 1).last() == a);
            assert forall|j: int, k: int| 0 <= j <= pre.len() && is_nudge_kind(k) implies
                i64::MIN <= #[trigger] axis_total(pre.take(j), k) <= i64::MAX by {
                assert(pre.take(j) =~= actions@.take(j));
            }
            lemma_coalesce_shape(pre);
            if is_nudge_kind(kind(a)) {
                assert(i64::MIN <= axis_total(actions@.take(i as int + 1), kind(a)) <= i64::MAX);
                assert(is_nudge_kind(kind(a)));
            }
        }
        let k = kind_of(&a);
        match a {
            Action::Nothing => {},
            Action::NudgeYaw(d) => {
                match find_kind(&out, k) {
                    Some(j) => {
                        proof { lemma_kind_index(out@, k as int); }
                        let prev = match out[j] { Action::NudgeYaw(p) => p, _ => 0 };
                        out.set(j, Action::NudgeYaw(prev + d));
                    },
                    None => out.push(a),
                }
            },
            Action::NudgePitch(d) => {
                match find_kind(&out, k) {
                    Some(j) => {
                        proof { lemma_kind_index(out@, k as int); }
                        let prev = match out[j] { Action::NudgePitch(p) => p, _ => 0 };
                        out.set(j, Action::NudgePitch(prev + d));
                    },
                    None => out.push(a),
                }
            },
            Action::NudgeZoom(d) => {
                match find_kind(&out, k) {
                    Some(j) => {
                        proof { lemma_kind_index(out@, k as int); }
                        let prev = match out[j] { Action::NudgeZoom(p) => p, _ => 0 };
                        out.set(j, Action::NudgeZoom(prev + d));
                    },
                    None => out.push(a),
                }
            },
            _ => {
                match find_kind(&out, k) {
                    Some(_) => {},
                    None => out.push(a),
                }
            },
        }
        i = i + 1;
    }
    proof {
        assert(actions@.take(actions@.len() as int) =~= actions@);
        lemma_coalesce_sums_fit(actions@);
    }
    out
}

} // verus!

verus! {

/// A queue in which no two actions share a kind and `Nothing` is absent is
/// already coalesced.
proof fn lemma_coalesce_distinct_is_identity(t: Seq<Action>)
    requires
        forall|i: int, j: int| 0 <= i < j < t.len() ==> kind(#[trigger] t[i]) != kind(#[trigger] t[j]),
        forall|i: int| 0 <= i < t.len() ==> #[trigger] t[i] != Action::Nothing,
    ensures
        coalesce_spec(t) == t,
    decreases t.len(),
{
    if t.len() > 0 {
        let p = t.drop_last();
        lemma_coalesce_distinct_is_identity(p);
        let a = t.last();
        assert forall|i: int| 0 <= i < p.len() implies kind(#[trigger] p[i]) != kind(a) by {
            assert(p[i] == t[i]);
        }
        lemma_kind_index_unique(p, kind(a), -1);
        assert(p.push(a) =~= t);
    }
}

/// Kind presence: the coalesced queue holds an action of kind `k` (other
/// than `Nothing`) exactly when the input does.
proof fn lemma_coalesce_kinds(s: Seq<Action>, k: int)
    requires
        k != 1,
    ensures
        kind_index(coalesce_spec(s), k) >= 0 <==> kind_index(s, k) >= 0,
    decreases s.len(),
{
    lemma_kind_index(s, k);
    if s.len() > 0 {
        let p = s.drop_last();
        lemma_coalesce_kinds(p, k);
        lemma_kind_index(p, k);
        let c = coalesce_spec(p);
        let a = s.last();
        lemma_kind_index(c, k);
        lemma_kind_index(c, kind(a));
        let r = coalesce_spec(s);
        lemma_kind_index(r, k);
        let ck = kind_index(c, k);
        // The input side: s has kind k iff its prefix has it or its last action is of kind k.
        if kind_index(p, k) >= 0 {
            assert(s[kind_index(p, k)] == p[kind_index(p, k)]);
        } else if kind(a) == k {
            assert(kind(s[s.len() - 1]) == k);
        } else {
            assert forall|i: int| 0 <= i < s.len() implies kind(#[trigger] s[i]) != k by {
                if i < p.len() {
                    assert(s[i] == p[i]);
                }
            }
        }
        // The output side.
        if ck >= 0 {
            if r.len() > ck {
                if a != Action::Nothing && is_nudge_kind(kind(a)) && kind_index(c, kind(a)) >= 0 {
                    assert(kind(r[ck]) == k);
                } else {
                    assert(r[ck] == c[ck]);
                }
            }
        } else if a != Action::Nothing && kind(a) == k {
            assert(kind(r[r.len() - 1]) == k);
        } else {
            assert forall|i: int| 0 <= i < r.len() implies kind(#[trigger] r[i]) != k by {
                if a != Action::Nothing && is_nudge_kind(kind(a)) && kind_index(c, kind(a)) >= 0 && i == kind_index(c, kind(a)) {
                    assert(kind(r[i]) == kind(a));
                } else if i < c.len() {
                    assert(r[i] == c[i]);
                }
            }
        }
    }
}

proof fn lemma_axis_total_absent(u: Seq<Action>, k: int)
    requires
        forall|i: int| 0 <= i < u.len() ==> kind(#[trigger] u[i]) != k,
    ensures
        axis_total(u, k) == 0,
    decreases u.len(),
{
    if u.len() > 0 {
        let p = u.drop_last();
        assert forall|i: int| 0 <= i < p.len() implies kind(#[trigger] p[i]) != k by {
            assert(p[i] == u[i]);
        }
        assert(kind(u[u.len() - 1]) != k);
        lemma_axis_total_absent(p, k);
    }
}

/// In a queue whose kinds are distinct, an axis total is one amount (or
/// zero), so it fits the amount type.
proof fn lemma_axis_total_distinct_fits(u: Seq<Action>, k: int)
    requires
        forall|i: int, j: int| 0 <= i < j < u.len() ==> kind(#[trigger] u[i]) != kind(#[trigger] u[j]),
    ensures
        i64::MIN <= axis_total(u, k) <= i64::MAX,
    decreases u.len(),
{
    if u.len() > 0 {
        let p = u.drop_last();
        let a = u.last();
        assert forall|i: int, j: int| 0 <= i < j < p.len() implies kind(#[trigger] p[i]) != kind(#[trigger] p[j]) by {
            assert(p[i] == u[i] && p[j] == u[j]);
        }
        if kind(a) == k {
            assert forall|i: int| 0 <= i < p.len() implies kind(#[trigger] p[i]) != k by {
                assert(p[i] == u[i]);
                assert(kind(u[i]) != kind(u[u.len() - 1]));
            }
            lemma_axis_total_absent(p, k);
            assert(i64::MIN <= nudge_amount(a) <= i64::MAX);
        } else {
            lemma_axis_total_distinct_fits(p, k);
        }
    }
}

/// The coalesced form of a queue whose sums fit has sums that fit too, so
/// it can itself be coalesced.
proof fn lemma_coalesce_sums_fit(s: Seq<Action>)
    requires
        sums_fit(s),
    ensures
        sums_fit(coalesce_spec(s)),
{
    lemma_coalesce_shape(s);
    let c = coalesce_spec(s);
    assert forall|j: int, k: int| 0 <= j <= c.len() && is_nudge_kind(k) implies
        i64::MIN <= #[trigger] axis_total(c.take(j), k) <= i64::MAX by {
        let u = c.take(j);
        assert forall|a: int, b: int| 0 <= a < b < u.len() implies kind(#[trigger] u[a]) != kind(#[trigger] u[b]) by {
            assert(u[a] == c[a] && u[b] == c[b]);
        }
        lemma_axis_total_distinct_fits(u, k);
    }
}

/// The coalescing laws: the result never holds `Nothing` and holds at most
/// one action of each kind; it holds an action of a kind exactly when the
/// input does; each nudge axis carries the sum of the input's nudges on
/// that axis; its own sums fit, so it can be coalesced again; and
/// coalescing again changes nothing.
pub proof fn lemma_coalesce_laws(s: Seq<Action>)
    requires
        sums_fit(s),
    ensures
        sums_fit(coalesce_spec(s)),
        forall|i: int| 0 <= i < coalesce_spec(s).len() ==> #[trigger] coalesce_spec(s)[i] != Action::Nothing,
        forall|i: int, j: int|
            0 <= i < j < coalesce_spec(s).len() ==> kind(#[trigger] coalesce_spec(s)[i]) != kind(#[trigger] coalesce_spec(s)[j]),
        forall|k: int| k != 1 ==> (kind_index(coalesce_spec(s), k) >= 0 <==> #[trigger] kind_index(s, k) >= 0),
        forall|k: int| #[trigger] is_nudge_kind(k) && kind_index(coalesce_spec(s), k) >= 0
            ==> nudge_amount(coalesce_spec(s)[kind_index(coalesce_spec(s), k)]) == axis_total(s, k),
        coalesce_spec(coalesce_spec(s)) == coalesce_spec(s),
{
    lemma_coalesce_shape(s);
    lemma_coalesce_sums_fit(s);
    lemma_coalesce_distinct_is_identity(coalesce_spec(s));
    assert forall|k: int| k != 1 implies (kind_index(coalesce_spec(s), k) >= 0 <==> #[trigger] kind_index(s, k) >= 0) by {
        lemma_coalesce_kinds(s, k);
    }
}

} // verus!

verus! {

/// What pressing a key does: Ctrl-C and `q` quit, `p`/`P` cycle the
/// palette, `l`/`L` toggle the legend, Esc closes the detail panel,
/// Tab/Shift-Tab step the selection, Enter opens the detail panel, a
/// movement key dispatches its nudge, and any other key does nothing;
/// releasing a key never does anything.
pub proof fn lemma_press_table(key: KeyEvent)
    ensures
        key.kind == KeyEventKind::Release ==> spec_from_key(key) == Action::Nothing,
        key.kind == KeyEventKind::Press ==> {
            let a = spec_from_key(key);
            &&& (key.code == KeyCode::Char('c') && key.control) ==> a == Action::Quit
            &&& key.code == KeyCode::Char('q') ==> a == Action::Quit
            &&& (key.code == KeyCode::Char('p') || key.code == KeyCode::Char('P')) ==> a == Action::CyclePalette
            &&& (key.code == KeyCode::Char('l') || key.code == KeyCode::Char('L')) ==> a == Action::ToggleLegend
            &&& key.code == KeyCode::Esc ==> a == Action::CloseDetail
            &&& key.code == KeyCode::Tab ==> a == Action::SelectNext
            &&& key.code == KeyCode::BackTab ==> a == Action::SelectPrev
            &&& key.code == KeyCode::Enter ==> a == Action::OpenDetail
            &&& spec_held_from_code(key.code) is Some ==> a == spec_held_to_action(spec_held_from_code(key.code)->0)
        },
{
}

/// Auto-repeat only moves the camera: a Repeat event of a movement key
/// dispatches that key's nudge, and a Repeat event of any other key
/// (Ctrl-C, `q`, `p`/`P`, `l`/`L`, Esc, Tab, Enter, ...) dispatches
/// nothing, so holding a discrete key fires its intent once.
pub proof fn lemma_repeat_only_nudges(key: KeyEvent)
    requires
        key.kind == KeyEventKind::Repeat,
    ensures
        spec_held_from_code(key.code) is None ==> spec_from_key(key) == Action::Nothing,
        spec_held_from_code(key.code) is Some && !(key.code == KeyCode::Char('c') && key.control)
            ==> spec_from_key(key) == spec_held_to_action(spec_held_from_code(key.code)->0),
        spec_from_key(key) == Action::Nothing || spec_from_key(key) is NudgeYaw
            || spec_from_key(key) is NudgePitch || spec_from_key(key) is NudgeZoom,
{
}

/// Every held action dispatches exactly what pressing or auto-repeating
/// its key maps to, so holding a key under key-release tracking moves the
/// camera as the auto-repeat fallback does.
pub proof fn lemma_held_matches_key_map(code: KeyCode, control: bool)
    requires
        spec_held_from_code(code) is Some,
    ensures
        spec_from_key(KeyEvent { code, control, kind: KeyEventKind::Press })
            == spec_held_to_action(spec_held_from_code(code)->0),
        spec_from_key(KeyEvent { code, control, kind: KeyEventKind::Repeat })
            == spec_held_to_action(spec_held_from_code(code)->0),
{
}

// ---------------------------------------------------------------------------
// Dispatch
// ---------------------------------------------------------------------------

/// The input state both backends share that a dispatch may change.
#[derive(Debug, Clone, Copy, PartialEq, Eq, Structural)]
pub struct InputState {
    /// The camera is still on autopilot (no user input yet).
    pub autopilot_active: bool,
    /// The detail panel is open.
    pub detail_open: bool,
}

/// The camera move a dispatch asks the caller to apply.
#[derive(Debug, Clone, Copy, PartialEq, Eq, Structural)]
pub enum CameraNudge {
    Keep,
    Yaw(i64),
    Pitch(i64),
    Zoom(i64),
}

/// The selection move a dispatch asks the caller to apply.
#[derive(Debug, Clone, Copy, PartialEq, Eq, Structural)]
pub enum SelectionStep {
    Stay,
    Next,
    Prev,
}

/// The result of dispatching one action.
#[derive(Debug, Clone, PartialEq, Eq)]
pub struct Dispatch {
    pub effect: Effect,
    pub camera: CameraNudge,
    pub selection: SelectionStep,
}

/// Whether an action puts the user in control of the camera.
pub open spec fn takes_control(a: Action) -> bool {
    match a {
        Action::NudgeYaw(_) | Action::NudgePitch(_) | Action::NudgeZoom(_)
        | Action::SelectNext | Action::SelectPrev | Action::OpenDetail => true,
        _ => false,
    }
}

/// Apply one action to the shared input state. Nudges, selection steps
/// and opening the detail panel switch the camera to manual control;
/// opening the panel needs a selected container (`selected_container`, its
/// Docker id) and asks for its detail; Esc closes an open panel, or quits
/// when none is open; palette and legend changes leave the camera alone.
pub fn apply_input_action(action: Action, state: &mut InputState, selected_container: Option<&str>) -> (d: Dispatch)
    ensures
        final(state).autopilot_active == (old(state).autopilot_active && !takes_control(action)),
        final(state).detail_open == match action {
            Action::OpenDetail => old(state).detail_open || selected_container is Some,
            Action::CloseDetail => false,
            _ => old(state).detail_open,
        },
        d.camera == match action {
            Action::NudgeYaw(x) => CameraNudge::Yaw(x),
            Action::NudgePitch(x) => CameraNudge::Pitch(x),
            Action::NudgeZoom(x) => CameraNudge::Zoom(x),
            _ => CameraNudge::Keep,
        },
        d.selection == match action {
            Action::SelectNext => SelectionStep::Next,
            Action::SelectPrev => SelectionStep::Prev,
            _ => SelectionStep::Stay,
        },
        match action {
            Action::Quit => d.effect == Effect::Quit,
            Action::CloseDetail => d.effect == (if old(state).detail_open { Effect::Nothing } else { Effect::Quit }),
            Action::CyclePalette => d.effect == Effect::CyclePalette,
            Action::ToggleLegend => d.effect == Effect::ToggleLegend,
            Action::OpenDetail => match selected_container {
                Some(id) => d.effect matches Effect::SpawnInspect(s) && s@ == id@,
                None => d.effect == Effect::Nothing,
            },
            _ => d.effect == Effect::Nothing,
        },
{
    let mut camera = CameraNudge::Keep;
    let mut selection = SelectionStep::Stay;
    let effect = match action {
        Action::Quit => Effect::Quit,
        Action::Nothing => Effect::Nothing,
        Action::NudgeYaw(x) => {
            state.autopilot_active = false;
            camera = CameraNudge::Yaw(x);
            Effect::Nothing
        },
        Action::NudgePitch(x) => {
            state.autopilot_active = false;
            camera = CameraNudge::Pitch(x);
            Effect::Nothing
        },
        Action::NudgeZoom(x) => {
            state.autopilot_active = false;
            camera = CameraNudge::Zoom(x);
            Effect::Nothing
        },
        Action::SelectNext => {
            state.autopilot_active = false;
            selection = SelectionStep::Next;
            Effect::Nothing
        },
        Action::SelectPrev => {
            state.autopilot_active = false;
            selection = SelectionStep::Prev;
            Effect::Nothing
        },
        Action::OpenDetail => {
            state.autopilot_active = false;
            match selected_container {
                Some(id) => {
                    state.detail_open = true;
                    Effect::SpawnInspect(String::from_str(id))
                },
                None => Effect::Nothing,
            }
        },
        Action::CloseDetail => {
            if state.detail_open {
                state.detail_open = false;
                Effect::Nothing
            } else {
                Effect::Quit
            }
        },
        Action::CyclePalette => Effect::CyclePalette,
        Action::ToggleLegend => Effect::ToggleLegend,
    };
    Dispatch { effect, camera, selection }
}


// ---------------------------------------------------------------------------
// Held movement keys (key-release tracking terminals)
// ---------------------------------------------------------------------------

/// Slot of a held action in [`HeldKeys`].
pub open spec fn held_index(h: HeldAction) -> int {
    match h {
        HeldAction::NudgeYawLeft => 0,
        HeldAction::NudgeYawRight => 1,
        HeldAction::NudgePitchUp => 2,
        HeldAction::NudgePitchDown => 3,
        HeldAction::NudgeZoomIn => 4,
        HeldAction::NudgeZoomOut => 5,
    }
}

/// The held action of a slot.
pub open spec fn held_at(i: int) -> HeldAction {
    if i == 0 {
        HeldAction::NudgeYawLeft
    } else if i == 1 {
        HeldAction::NudgeYawRight
    } else if i == 2 {
        HeldAction::NudgePitchUp
    } else if i == 3 {
        HeldAction::NudgePitchDown
    } else if i == 4 {
        HeldAction::NudgeZoomIn
    } else {
        HeldAction::NudgeZoomOut
    }
}

fn held_at_exec(i: usize) -> (h: HeldAction)
    requires
        i < 6,
    ensures
        h == held_at(i as int),
{
    if i == 0 {
        HeldAction::NudgeYawLeft
    } else if i == 1 {
        HeldAction::NudgeYawRight
    } else if i == 2 {
        HeldAction::NudgePitchUp
    } else if i == 3 {
        HeldAction::NudgePitchDown
    } else if i == 4 {
        HeldAction::NudgeZoomIn
    } else {
        HeldAction::NudgeZoomOut
    }
}

fn held_index_exec(h: HeldAction) -> (i: usize)
    ensures
        i == held_index(h),
        i < 6,
        held_at(i as int) == h,
{
    match h {
        HeldAction::NudgeYawLeft => 0,
        HeldAction::NudgeYawRight => 1,
        HeldAction::NudgePitchUp => 2,
        HeldAction::NudgePitchDown => 3,
        HeldAction::NudgeZoomIn => 4,
        HeldAction::NudgeZoomOut => 5,
    }
}

/// The per-tick nudges of a set of held actions, one per held action, in
/// the fixed order left, right, up, down, in, out.
pub open spec fn held_nudges_upto(s: Set<HeldAction>, n: int) -> Seq<Action>
    decreases n,
{
    if n <= 0 {
        Seq::empty()
    } else {
        let rest = held_nudges_upto(s, n - 1);
        if s.contains(held_at(n - 1)) {
            rest.push(spec_held_to_action(held_at(n - 1)))
        } else {
            rest
        }
    }
}

/// The nudges one render tick dispatches for the held set `s`.
pub open spec fn held_nudges(s: Set<HeldAction>) -> Seq<Action> {
    held_nudges_upto(s, 6)
}

/// The set of movement keys currently held down.
#[derive(Debug, Clone, Copy, PartialEq, Eq)]
pub struct HeldKeys {
    held: [bool; 6],
}

impl View for HeldKeys {
    type V = Set<HeldAction>;

    closed spec fn view(&self) -> Set<HeldAction> {
        Set::new(|h: HeldAction| self.held@[held_index(h)])
    }
}

impl HeldKeys {
    /// No key held.
    pub fn new() -> (k: Self)
        ensures
            k@ == Set::<HeldAction>::empty(),
    {
        let k = HeldKeys { held: [false; 6] };
        proof {
            assert(k@ =~= Set::<HeldAction>::empty());
        }
        k
    }

    /// Whether `h` is held.
    pub fn contains(&self, h: HeldAction) -> (b: bool)
        ensures
            b == self@.contains(h),
    {
        self.held[held_index_exec(h)]
    }

    /// Mark `h` held (a second press of a held key changes nothing).
    pub fn insert(&mut self, h: HeldAction)
        ensures
            final(self)@ == old(self)@.insert(h),
    {
        let i = held_index_exec(h);
        self.held[i] = true;
        proof {
            assert(final(self)@ =~= old(self)@.insert(h)) by {
                assert forall|g: HeldAction| final(self)@.contains(g) == old(self)@.insert(h).contains(g) by {
                    if held_index(g) == held_index(h) {
                        assert(g == h);
                    }
                }
            }
        }
    }

    /// Mark `h` released.
    pub fn remove(&mut self, h: HeldAction)
        ensures
            final(self)@ == old(self)@.remove(h),
    {
        let i = held_index_exec(h);
        self.held[i] = false;
        proof {
            assert(final(self)@ =~= old(self)@.remove(h)) by {
                assert forall|g: HeldAction| final(self)@.contains(g) == old(self)@.remove(h).contains(g) by {
                    if held_index(g) == held_index(h) {
                        assert(g == h);
                    }
                }
            }
        }
    }

    /// The nudges of one render tick: one per held key.
    pub fn nudges(&self) -> (r: Vec<Action>)
        ensures
            r@ == held_nudges(self@),
    {
        let mut r: Vec<Action> = Vec::new();
        let mut i: usize = 0;
        while i < 6
            invariant
                i <= 6,
                r@ == held_nudges_upto(self@, i as int),
            decreases 6 - i,
        {
            let h = held_at_exec(i);
            proof {
                assert(held_index(held_at(i as int)) == i);
                assert(self@.contains(h) == self.held@[i as int]);
            }
            if self.held[i] {
                r.push(h.to_action());
            }
            i = i + 1;
        }
        r
    }
}

/// The state of the key gathering of one frame: the held set and the
/// actions queued so far.
pub open spec fn key_step(kkp_active: bool, st: (Set<HeldAction>, Seq<Action>), k: KeyEvent) -> (
    Set<HeldAction>,
    Seq<Action>,
) {
    let (held, acts) = st;
    match spec_held_from_code(k.code) {
        Some(h) => if kkp_active {
            match k.kind {
                KeyEventKind::Press => (held.insert(h), acts.push(spec_held_to_action(h))),
                KeyEventKind::Release => (held.remove(h), acts),
                KeyEventKind::Repeat => (held, acts),
            }
        } else {
            (held, acts.push(spec_from_key(k)))
        },
        None => (held, acts.push(spec_from_key(k))),
    }
}

/// Key gathering over a frame's events, in order.
pub open spec fn key_steps(kkp_active: bool, st: (Set<HeldAction>, Seq<Action>), keys: Seq<KeyEvent>) -> (
    Set<HeldAction>,
    Seq<Action>,
)
    decreases keys.len(),
{
    if keys.len() == 0 {
        st
    } else {
        key_step(kkp_active, key_steps(kkp_active, st, keys.drop_last()), keys.last())
    }
}

/// Gather one frame's actions from its pending key events. With key
/// release tracking (`kkp_active`), a movement key's press marks it held
/// and dispatches one nudge at once, its release unmarks it and its
/// auto-repeats are ignored; every other key (and every key without
/// release tracking) maps through [`Action::from_key`]. Then every held
/// key adds one nudge for this frame.
pub fn frame_actions(kkp_active: bool, held: &mut HeldKeys, keys: &[KeyEvent]) -> (r: Vec<Action>)
    ensures
        final(held)@ == key_steps(kkp_active, (old(held)@, Seq::empty()), keys@).0,
        r@ == key_steps(kkp_active, (old(held)@, Seq::empty()), keys@).1 + held_nudges(final(held)@),
{
    let mut acts: Vec<Action> = Vec::new();
    let mut i: usize = 0;
    while i < keys.len()
        invariant
            i <= keys@.len(),
            (held@, acts@) == key_steps(kkp_active, (old(held)@, Seq::empty()), keys@.take(i as int)),
        decreases keys@.len() - i,
    {
        let k = keys[i];
        proof {
            assert(keys@.take(i as int + 1).drop_last() =~= keys@.take(i as int));
            assert(keys@.take(i as int + 1).last() == k);
        }
        match HeldAction::from_key_code(k.code) {
            Some(h) => {
                if kkp_active {
                    match k.kind {
                        KeyEventKind::Press => {
                            held.insert(h);
                            acts.push(h.to_action());
                        },
                        KeyEventKind::Release => {
                            held.remove(h);
                        },
                        KeyEventKind::Repeat => {},
                    }
                } else {
                    acts.push(Action::from_key(k));
                }
            },
            None => {
                acts.push(Action::from_key(k));
            },
        }
        i = i + 1;
    }
    proof {
        assert(keys@.take(keys@.len() as int) =~= keys@);
    }
    let mut nudges = held.nudges();
    acts.append(&mut nudges);
    acts
}

/// Under key-release tracking, a key pressed several times without a
/// release is held once: the set semantics cap it at one entry, so it
/// drives exactly one nudge per frame.
pub proof fn lemma_held_press_idempotent(s: Set<HeldAction>, h: HeldAction)
    ensures
        s.insert(h).insert(h) == s.insert(h),
        held_nudges(s.insert(h)) == held_nudges(s.insert(h).insert(h)),
{
    assert(s.insert(h).insert(h) =~= s.insert(h));
}

/// A released key stops driving nudges on the very next frame: the
/// frame's nudges are exactly those of the keys still held, and none of
/// them is the released key's.
pub proof fn lemma_release_stops_nudges(s: Set<HeldAction>, h: HeldAction, n: int)
    requires
        0 <= n <= 6,
    ensures
        forall|j: int| 0 <= j < held_nudges_upto(s.remove(h), n).len() ==> #[trigger] held_nudges_upto(
            s.remove(h),
            n,
        )[j] != spec_held_to_action(h),
    decreases n,
{
    if n > 0 {
        lemma_release_stops_nudges(s, h, n - 1);
        let g = held_at(n - 1);
        if s.remove(h).contains(g) {
            assert(g != h);
            assert(spec_held_to_action(g) != spec_held_to_action(h));
        }
    }
}

} // verus!
