use dd3::action::{
    apply_input_action, coalesce_actions, frame_actions, Action, CameraNudge, Effect, HeldAction, HeldKeys,
    InputState, KeyCode, KeyEvent, KeyEventKind, SelectionStep, PITCH_STEP, YAW_STEP, ZOOM_STEP,
};
use std::collections::HashSet;

fn key(code: KeyCode, kind: KeyEventKind) -> KeyEvent {
    KeyEvent { code, control: false, kind }
}

fn key_press(code: KeyCode) -> KeyEvent {
    key(code, KeyEventKind::Press)
}

fn key_repeat(code: KeyCode) -> KeyEvent {
    key(code, KeyEventKind::Repeat)
}

fn key_release(code: KeyCode) -> KeyEvent {
    key(code, KeyEventKind::Release)
}

fn fresh() -> InputState {
    InputState { autopilot_active: true, detail_open: false }
}

#[test]
fn quit_keys_map_to_quit() {
    assert_eq!(Action::from_key(key_press(KeyCode::Char('q'))), Action::Quit);
    let ctrl_c = KeyEvent { code: KeyCode::Char('c'), control: true, kind: KeyEventKind::Press };
    assert_eq!(Action::from_key(ctrl_c), Action::Quit);
    assert_eq!(Action::from_key(key_press(KeyCode::Esc)), Action::CloseDetail);
}

#[test]
fn arrows_and_wasd_map_to_same_nudges() {
    assert_eq!(Action::from_key(key_press(KeyCode::Left)), Action::NudgeYaw(-YAW_STEP));
    assert_eq!(Action::from_key(key_press(KeyCode::Char('a'))), Action::NudgeYaw(-YAW_STEP));
    assert_eq!(Action::from_key(key_press(KeyCode::Right)), Action::NudgeYaw(YAW_STEP));
    assert_eq!(Action::from_key(key_press(KeyCode::Char('d'))), Action::NudgeYaw(YAW_STEP));
    assert_eq!(Action::from_key(key_press(KeyCode::Up)), Action::NudgePitch(PITCH_STEP));
    assert_eq!(Action::from_key(key_press(KeyCode::Char('w'))), Action::NudgePitch(PITCH_STEP));
    assert_eq!(Action::from_key(key_press(KeyCode::Down)), Action::NudgePitch(-PITCH_STEP));
    assert_eq!(Action::from_key(key_press(KeyCode::Char('s'))), Action::NudgePitch(-PITCH_STEP));
}

#[test]
fn plus_equals_pageup_all_map_to_zoom_in() {
    let z = Action::NudgeZoom(-ZOOM_STEP);
    assert_eq!(Action::from_key(key_press(KeyCode::Char('+'))), z);
    assert_eq!(Action::from_key(key_press(KeyCode::Char('='))), z);
    assert_eq!(Action::from_key(key_press(KeyCode::PageUp)), z);
}

#[test]
fn minus_underscore_pagedown_all_map_to_zoom_out() {
    let z = Action::NudgeZoom(ZOOM_STEP);
    assert_eq!(Action::from_key(key_press(KeyCode::Char('-'))), z);
    assert_eq!(Action::from_key(key_press(KeyCode::Char('_'))), z);
    assert_eq!(Action::from_key(key_press(KeyCode::PageDown)), z);
}

#[test]
fn tab_backtab_enter_map_to_selection_intents() {
    assert_eq!(Action::from_key(key_press(KeyCode::Tab)), Action::SelectNext);
    assert_eq!(Action::from_key(key_press(KeyCode::BackTab)), Action::SelectPrev);
    assert_eq!(Action::from_key(key_press(KeyCode::Enter)), Action::OpenDetail);
}

#[test]
fn repeat_kind_maps_same_as_press_for_continuous_nudges() {
    assert_eq!(Action::from_key(key_repeat(KeyCode::Left)), Action::NudgeYaw(-YAW_STEP));
    assert_eq!(Action::from_key(key_repeat(KeyCode::Char('w'))), Action::NudgePitch(PITCH_STEP));
}

#[test]
fn repeat_kind_drops_discrete_actions() {
    for code in [
        KeyCode::Tab,
        KeyCode::BackTab,
        KeyCode::Char('q'),
        KeyCode::Esc,
        KeyCode::Enter,
        KeyCode::Char('p'),
        KeyCode::Char('l'),
    ] {
        assert_eq!(Action::from_key(key_repeat(code)), Action::Nothing, "{code:?}");
    }
}

#[test]
fn ctrl_c_repeat_drops_to_none() {
    let ctrl_c_repeat = KeyEvent { code: KeyCode::Char('c'), control: true, kind: KeyEventKind::Repeat };
    assert_eq!(Action::from_key(ctrl_c_repeat), Action::Nothing);
}

#[test]
fn release_kind_maps_to_none() {
    assert_eq!(Action::from_key(key_release(KeyCode::Left)), Action::Nothing);
    assert_eq!(Action::from_key(key_release(KeyCode::Tab)), Action::Nothing);
}

#[test]
fn quit_action_returns_effect_quit() {
    let mut st = fresh();
    let d = apply_input_action(Action::Quit, &mut st, None);
    assert_eq!(d.effect, Effect::Quit);
}

#[test]
fn nudge_returns_effect_none_and_flips_autopilot() {
    let mut st = fresh();
    let d = apply_input_action(Action::NudgeYaw(100_000), &mut st, None);
    assert_eq!(d.effect, Effect::Nothing);
    assert!(!st.autopilot_active, "first nudge must flip autopilot off");
    assert_eq!(d.camera, CameraNudge::Yaw(100_000));
}

#[test]
fn close_detail_with_no_panel_open_returns_effect_quit() {
    let mut st = fresh();
    let d = apply_input_action(Action::CloseDetail, &mut st, Some("abc"));
    assert_eq!(d.effect, Effect::Quit);
}

#[test]
fn close_detail_with_panel_open_returns_effect_none_and_closes() {
    let mut st = fresh();
    st.detail_open = true;
    let d = apply_input_action(Action::CloseDetail, &mut st, Some("abc"));
    assert_eq!(d.effect, Effect::Nothing);
    assert!(!st.detail_open);
}

#[test]
fn open_detail_no_selection_returns_effect_none() {
    let mut st = fresh();
    let d = apply_input_action(Action::OpenDetail, &mut st, None);
    assert_eq!(d.effect, Effect::Nothing);
    assert!(!st.detail_open);
}

#[test]
fn open_detail_with_selection_returns_effect_spawn_inspect_with_id() {
    let mut st = fresh();
    let d = apply_input_action(Action::OpenDetail, &mut st, Some("abc123"));
    assert_eq!(d.effect, Effect::SpawnInspect("abc123".to_string()));
    assert!(st.detail_open, "OpenDetail must set detail_open=true");
}

#[test]
fn select_next_flips_autopilot_and_advances_selection() {
    let mut st = fresh();
    let d = apply_input_action(Action::SelectNext, &mut st, None);
    assert_eq!(d.effect, Effect::Nothing);
    assert!(!st.autopilot_active);
    assert_eq!(d.selection, SelectionStep::Next);
}

#[test]
fn p_key_maps_to_cycle_palette() {
    assert_eq!(Action::from_key(key_press(KeyCode::Char('p'))), Action::CyclePalette);
    assert_eq!(Action::from_key(key_press(KeyCode::Char('P'))), Action::CyclePalette);
}

#[test]
fn apply_cycle_palette_returns_effect_cycle_palette() {
    let mut st = fresh();
    let d = apply_input_action(Action::CyclePalette, &mut st, None);
    assert_eq!(d.effect, Effect::CyclePalette);
}

#[test]
fn apply_cycle_palette_does_not_flip_autopilot() {
    let mut st = fresh();
    let _ = apply_input_action(Action::CyclePalette, &mut st, None);
    assert!(st.autopilot_active);
}

#[test]
fn coalesce_collapses_n_cycle_palette_into_one() {
    let backlog: Vec<Action> = std::iter::repeat(Action::CyclePalette).take(30).collect();
    assert_eq!(coalesce_actions(&backlog), vec![Action::CyclePalette]);
}

#[test]
fn coalesce_sums_nudge_yaw_deltas() {
    let backlog = vec![Action::NudgeYaw(100_000), Action::NudgeYaw(100_000), Action::NudgeYaw(-50_000)];
    assert_eq!(coalesce_actions(&backlog), vec![Action::NudgeYaw(150_000)]);
}

#[test]
fn coalesce_keeps_separate_axes() {
    let backlog = vec![
        Action::NudgeYaw(100_000),
        Action::NudgePitch(70_000),
        Action::NudgeYaw(100_000),
        Action::NudgePitch(70_000),
        Action::NudgeYaw(100_000),
    ];
    assert_eq!(coalesce_actions(&backlog), vec![Action::NudgeYaw(300_000), Action::NudgePitch(140_000)]);
}

#[test]
fn coalesce_collapses_select_next_repeats() {
    let backlog: Vec<Action> = std::iter::repeat(Action::SelectNext).take(20).collect();
    assert_eq!(coalesce_actions(&backlog), vec![Action::SelectNext]);
}

#[test]
fn coalesce_drops_none_entries() {
    let backlog = vec![Action::Nothing, Action::NudgeYaw(100_000), Action::Nothing, Action::Nothing];
    assert_eq!(coalesce_actions(&backlog), vec![Action::NudgeYaw(100_000)]);
}

#[test]
fn coalesce_empty_input_is_empty() {
    assert!(coalesce_actions(&[]).is_empty());
}

#[test]
fn coalesce_mixed_backlog_collapses_all() {
    let backlog = vec![
        Action::CyclePalette,
        Action::NudgeYaw(100_000),
        Action::CyclePalette,
        Action::SelectNext,
        Action::NudgeYaw(100_000),
        Action::SelectNext,
        Action::CyclePalette,
    ];
    assert_eq!(
        coalesce_actions(&backlog),
        vec![Action::CyclePalette, Action::NudgeYaw(200_000), Action::SelectNext]
    );
}

#[test]
fn coalesce_collapses_quit_repeats() {
    assert_eq!(coalesce_actions(&[Action::Quit, Action::Quit, Action::Quit]), vec![Action::Quit]);
}

#[test]
fn l_key_maps_to_toggle_legend() {
    assert_eq!(Action::from_key(key_press(KeyCode::Char('l'))), Action::ToggleLegend);
    assert_eq!(Action::from_key(key_press(KeyCode::Char('L'))), Action::ToggleLegend);
}

#[test]
fn apply_toggle_legend_returns_effect_toggle_legend() {
    let mut st = fresh();
    let d = apply_input_action(Action::ToggleLegend, &mut st, None);
    assert_eq!(d.effect, Effect::ToggleLegend);
}

#[test]
fn apply_toggle_legend_does_not_flip_autopilot() {
    let mut st = fresh();
    let _ = apply_input_action(Action::ToggleLegend, &mut st, None);
    assert!(st.autopilot_active);
}

#[test]
fn coalesce_collapses_n_toggle_legend_into_one() {
    let backlog: Vec<Action> = std::iter::repeat(Action::ToggleLegend).take(30).collect();
    assert_eq!(coalesce_actions(&backlog), vec![Action::ToggleLegend]);
}

#[test]
fn held_action_covers_all_movement_keys() {
    let cases = [
        (KeyCode::Left, HeldAction::NudgeYawLeft),
        (KeyCode::Char('a'), HeldAction::NudgeYawLeft),
        (KeyCode::Right, HeldAction::NudgeYawRight),
        (KeyCode::Char('d'), HeldAction::NudgeYawRight),
        (KeyCode::Up, HeldAction::NudgePitchUp),
        (KeyCode::Char('w'), HeldAction::NudgePitchUp),
        (KeyCode::Down, HeldAction::NudgePitchDown),
        (KeyCode::Char('s'), HeldAction::NudgePitchDown),
        (KeyCode::Char('+'), HeldAction::NudgeZoomIn),
        (KeyCode::Char('='), HeldAction::NudgeZoomIn),
        (KeyCode::PageUp, HeldAction::NudgeZoomIn),
        (KeyCode::Char('-'), HeldAction::NudgeZoomOut),
        (KeyCode::Char('_'), HeldAction::NudgeZoomOut),
        (KeyCode::PageDown, HeldAction::NudgeZoomOut),
    ];
    for (code, held) in cases {
        assert_eq!(HeldAction::from_key_code(code), Some(held), "{code:?}");
    }
}

#[test]
fn held_action_skips_discrete_keys() {
    for code in [
        KeyCode::Char('p'),
        KeyCode::Char('P'),
        KeyCode::Char('l'),
        KeyCode::Char('L'),
        KeyCode::Char('q'),
        KeyCode::Tab,
        KeyCode::BackTab,
        KeyCode::Enter,
        KeyCode::Esc,
    ] {
        assert_eq!(HeldAction::from_key_code(code), None, "{code:?}");
    }
}

#[test]
fn held_action_to_action_matches_from_key() {
    assert_eq!(HeldAction::NudgeYawLeft.to_action(), Action::from_key(key_press(KeyCode::Left)));
    assert_eq!(HeldAction::NudgeYawRight.to_action(), Action::from_key(key_press(KeyCode::Right)));
    assert_eq!(HeldAction::NudgePitchUp.to_action(), Action::from_key(key_press(KeyCode::Up)));
    assert_eq!(HeldAction::NudgePitchDown.to_action(), Action::from_key(key_press(KeyCode::Down)));
    assert_eq!(HeldAction::NudgeZoomIn.to_action(), Action::from_key(key_press(KeyCode::Char('+'))));
    assert_eq!(HeldAction::NudgeZoomOut.to_action(), Action::from_key(key_press(KeyCode::Char('-'))));
}

#[test]
fn held_action_drives_one_nudge_per_render_tick() {
    let mut held = HeldKeys::new();
    held.insert(HeldAction::NudgeYawLeft);
    let nudges_per_tick: Vec<Action> = (0..5).flat_map(|_| held.nudges()).collect();
    assert_eq!(nudges_per_tick.len(), 5);
    for n in &nudges_per_tick {
        assert_eq!(*n, Action::NudgeYaw(-YAW_STEP));
    }
    held.remove(HeldAction::NudgeYawLeft);
    let post_release: Vec<Action> = (0..5).flat_map(|_| held.nudges()).collect();
    assert_eq!(post_release.len(), 0);
}

#[test]
fn held_action_supports_multiple_simultaneous_keys() {
    let mut held = HeldKeys::new();
    held.insert(HeldAction::NudgeYawLeft);
    held.insert(HeldAction::NudgePitchUp);
    let one_tick = held.nudges();
    assert_eq!(one_tick.len(), 2);
    assert!(one_tick.contains(&Action::NudgeYaw(-YAW_STEP)));
    assert!(one_tick.contains(&Action::NudgePitch(PITCH_STEP)));
}

#[test]
fn held_action_set_is_idempotent_on_duplicate_press() {
    let mut held: HashSet<HeldAction> = HashSet::new();
    held.insert(HeldAction::NudgeYawLeft);
    held.insert(HeldAction::NudgeYawLeft);
    held.insert(HeldAction::NudgeYawLeft);
    assert_eq!(held.len(), 1, "duplicate Press must not duplicate the held entry");
}

#[test]
fn held_keys_duplicate_press_drives_one_nudge() {
    let mut held = HeldKeys::new();
    held.insert(HeldAction::NudgeYawLeft);
    held.insert(HeldAction::NudgeYawLeft);
    assert!(held.contains(HeldAction::NudgeYawLeft));
    assert_eq!(held.nudges(), vec![Action::NudgeYaw(-YAW_STEP)]);
}

#[test]
fn frame_actions_with_release_tracking() {
    let mut held = HeldKeys::new();
    let keys = [
        key_press(KeyCode::Left),
        key_repeat(KeyCode::Left),
        key_press(KeyCode::Tab),
        key_press(KeyCode::Up),
        key_release(KeyCode::Up),
    ];
    let acts = frame_actions(true, &mut held, &keys);
    assert_eq!(
        acts,
        vec![
            Action::NudgeYaw(-YAW_STEP),
            Action::SelectNext,
            Action::NudgePitch(PITCH_STEP),
            Action::NudgeYaw(-YAW_STEP),
        ]
    );
    assert!(held.contains(HeldAction::NudgeYawLeft));
    assert!(!held.contains(HeldAction::NudgePitchUp));
    // Next frame with no events: one nudge per held key.
    assert_eq!(frame_actions(true, &mut held, &[]), vec![Action::NudgeYaw(-YAW_STEP)]);
}

#[test]
fn frame_actions_without_release_tracking_use_the_key_map() {
    let mut held = HeldKeys::new();
    let keys = [key_press(KeyCode::Left), key_repeat(KeyCode::Left), key_release(KeyCode::Left)];
    let acts = frame_actions(false, &mut held, &keys);
    assert_eq!(acts, vec![Action::NudgeYaw(-YAW_STEP), Action::NudgeYaw(-YAW_STEP), Action::Nothing]);
    assert!(held.nudges().is_empty());
}

#[test]
fn coalesce_sums_opposite_nudges_to_zero_but_keeps_the_kind() {
    assert_eq!(
        coalesce_actions(&[Action::NudgeZoom(ZOOM_STEP), Action::NudgeZoom(-ZOOM_STEP)]),
        vec![Action::NudgeZoom(0)]
    );
}

#[test]
fn coalescing_twice_changes_nothing() {
    let backlog = vec![
        Action::NudgeYaw(i64::MAX / 2),
        Action::Nothing,
        Action::SelectNext,
        Action::NudgeYaw(i64::MAX / 2),
        Action::NudgeZoom(-5),
        Action::SelectNext,
        Action::NudgeYaw(1),
    ];
    let once = coalesce_actions(&backlog);
    assert_eq!(once, vec![Action::NudgeYaw(i64::MAX), Action::SelectNext, Action::NudgeZoom(-5)]);
    assert_eq!(coalesce_actions(&once), once);
}
