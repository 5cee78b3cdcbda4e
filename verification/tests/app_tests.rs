use dd3::app::{next_palette_name, resolve_palette_name, BannerState, EMPTY_BANNER_DEBOUNCE_TICKS, STARTUP_GRACE_TICKS};

#[test]
fn rv5_startup_grace_ticks_is_at_least_one_second() {
    const { assert!(STARTUP_GRACE_TICKS >= 60) };
}

#[test]
fn empty_banner_suppressed_during_startup_grace_then_shows() {
    let mut s = BannerState::new();
    assert!(!s.non_empty_seen_once);
    assert_eq!(s.tick_count, 0);
    assert!(!s.should_show_empty_banner());
    for _ in 0..STARTUP_GRACE_TICKS {
        s.on_tick(true);
    }
    assert_eq!(s.tick_count, STARTUP_GRACE_TICKS as u64);
    assert!(s.should_show_empty_banner());
}

#[test]
fn empty_banner_debounces_after_container_churn() {
    let mut s = BannerState::new();
    s.on_tick(false);
    assert!(s.non_empty_seen_once);
    assert_eq!(s.empty_streak_ticks, 0);
    s.on_tick(true);
    assert_eq!(s.empty_streak_ticks, 1);
    assert!(!s.should_show_empty_banner());
}

#[test]
fn empty_banner_returns_after_debounce_window_elapses() {
    let mut s = BannerState::new();
    s.on_tick(false);
    for _ in 0..EMPTY_BANNER_DEBOUNCE_TICKS {
        s.on_tick(true);
    }
    assert_eq!(s.empty_streak_ticks, EMPTY_BANNER_DEBOUNCE_TICKS);
    assert!(s.should_show_empty_banner());
}

#[test]
fn empty_banner_streak_resets_on_non_empty_tick() {
    let mut s = BannerState::new();
    for _ in 0..STARTUP_GRACE_TICKS {
        s.on_tick(false);
    }
    for _ in 0..5 {
        s.on_tick(true);
    }
    assert_eq!(s.empty_streak_ticks, 5);
    s.on_tick(false);
    assert_eq!(s.empty_streak_ticks, 0);
    assert!(!s.should_show_empty_banner());
}

#[test]
fn non_empty_seen_once_is_sticky_after_first_container() {
    let mut s = BannerState::new();
    assert!(!s.non_empty_seen_once);
    s.on_tick(false);
    assert!(s.non_empty_seen_once);
    for _ in 0..100 {
        s.on_tick(true);
    }
    assert!(s.non_empty_seen_once);
}

#[test]
fn rv5_debounce_window_covers_200_tick_empty_episode() {
    let mut s = BannerState::new();
    for _ in 0..STARTUP_GRACE_TICKS {
        s.on_tick(false);
    }
    for i in 0..200 {
        s.on_tick(true);
        assert!(!s.should_show_empty_banner(), "tick {i} of the empty episode showed the banner");
    }
    assert_eq!(s.empty_streak_ticks, 200);
    assert!(!s.should_show_empty_banner());
    assert_eq!(EMPTY_BANNER_DEBOUNCE_TICKS, 300);
}

#[test]
fn rv5_no_banner_during_4_second_empty_episode() {
    let mut s = BannerState::new();
    for _ in 0..STARTUP_GRACE_TICKS {
        s.on_tick(false);
    }
    for i in 0..240 {
        s.on_tick(true);
        assert!(!s.should_show_empty_banner(), "frame {i} of 4-s empty episode");
    }
    assert_eq!(s.empty_streak_ticks, 240);
}

#[test]
fn rv5_no_banner_during_cold_start_seed_race() {
    let mut s = BannerState::new();
    for i in 0..6 {
        s.on_tick(true);
        assert!(!s.should_show_empty_banner(), "frame {i}: banner must not show during the startup grace");
    }
    s.on_tick(false);
    assert!(s.non_empty_seen_once);
    assert!(!s.should_show_empty_banner());
}

#[test]
fn rv5_no_banner_during_single_tick_transient_empty() {
    let mut s = BannerState::new();
    for _ in 0..STARTUP_GRACE_TICKS {
        s.on_tick(false);
    }
    assert!(s.non_empty_seen_once);
    s.on_tick(true);
    assert_eq!(s.empty_streak_ticks, 1);
    assert!(!s.should_show_empty_banner());
    s.on_tick(false);
    assert_eq!(s.empty_streak_ticks, 0);
    assert!(!s.should_show_empty_banner());
}

#[test]
fn empty_streak_saturates_and_ticks_wrap() {
    let mut s = BannerState { tick_count: u64::MAX, non_empty_seen_once: true, empty_streak_ticks: u32::MAX };
    s.on_tick(true);
    assert_eq!(s.tick_count, 0);
    assert_eq!(s.empty_streak_ticks, u32::MAX);
    assert!(!s.should_show_empty_banner(), "a wrapped tick count is inside the grace again");
}

#[test]
fn next_palette_cycles_through_named_presets() {
    let n1 = next_palette_name("notion-soft", false);
    assert_eq!(n1, "cyberpunk-neon");
    let n2 = next_palette_name(&n1, false);
    assert_eq!(n2, "terminal-green");
    let n3 = next_palette_name(&n2, false);
    assert_eq!(n3, "notion-soft");
    assert_eq!(next_palette_name(&n2, true), "omarchy");
    assert_eq!(next_palette_name("omarchy", true), "notion-soft");
}

#[test]
fn with_docker_unknown_palette_falls_back_and_renames() {
    let name = resolve_palette_name("no-such-palette", false);
    assert_eq!(name, "notion-soft");
    assert_eq!(next_palette_name(&name, false), "cyberpunk-neon");
    assert_eq!(next_palette_name("no-such-palette", false), "cyberpunk-neon");
    assert_eq!(next_palette_name("omarchy", false), "cyberpunk-neon");
}

#[test]
fn resolve_palette_name_keeps_known_names() {
    for n in ["notion-soft", "cyberpunk-neon", "terminal-green"] {
        assert_eq!(resolve_palette_name(n, false), n);
        assert_eq!(resolve_palette_name(n, true), n);
    }
    assert_eq!(resolve_palette_name("omarchy", true), "omarchy");
    assert_eq!(resolve_palette_name("omarchy", false), "notion-soft");
    assert_eq!(resolve_palette_name("Notion-Soft", true), "notion-soft");
    assert_eq!(resolve_palette_name("", true), "notion-soft");
}
