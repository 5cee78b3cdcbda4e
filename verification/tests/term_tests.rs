use dd3::term::capability::{detect, resolve, supports_kitty_graphics, TermEnv, TerminalCapability};
use dd3::term::cell::{cell_pixel_size, WindowSize, TYPICAL_CELL_PIXELS};

fn env() -> TermEnv {
    TermEnv {
        kitty_window_id: false,
        ghostty_resources_dir: false,
        wezterm_pane: false,
        term: String::new(),
        ssh_connection: false,
        ssh_client: false,
        colorterm: String::new(),
    }
}

fn with_term(t: &str) -> TermEnv {
    TermEnv { term: t.to_string(), ..env() }
}

#[test]
fn kitty_window_id_picks_kitty() {
    assert_eq!(detect(&TermEnv { kitty_window_id: true, ..env() }), TerminalCapability::Kitty);
}

#[test]
fn ghostty_resources_dir_picks_kitty() {
    assert_eq!(detect(&TermEnv { ghostty_resources_dir: true, ..env() }), TerminalCapability::Kitty);
}

#[test]
fn wezterm_pane_picks_kitty() {
    assert_eq!(detect(&TermEnv { wezterm_pane: true, ..env() }), TerminalCapability::Kitty);
}

#[test]
fn term_kitty_substring_picks_kitty() {
    assert_eq!(detect(&with_term("xterm-kitty")), TerminalCapability::Kitty);
}

#[test]
fn ssh_without_colorterm_picks_ascii() {
    let e = TermEnv { ssh_connection: true, ..with_term("xterm") };
    assert_eq!(detect(&e), TerminalCapability::Ascii);
}

#[test]
fn ssh_with_truecolor_stays_truecolor() {
    let e = TermEnv { ssh_connection: true, colorterm: "truecolor".to_string(), ..with_term("xterm-256color") };
    assert_eq!(detect(&e), TerminalCapability::Truecolor);
}

#[test]
fn dumb_term_picks_ascii() {
    assert_eq!(detect(&with_term("dumb")), TerminalCapability::Ascii);
}

#[test]
fn vt100_term_picks_ascii() {
    assert_eq!(detect(&with_term("vt100")), TerminalCapability::Ascii);
}

#[test]
fn alacritty_term_picks_truecolor() {
    assert_eq!(detect(&with_term("alacritty")), TerminalCapability::Truecolor);
}

#[test]
fn xterm_256color_picks_truecolor() {
    assert_eq!(detect(&with_term("xterm-256color")), TerminalCapability::Truecolor);
}

#[test]
fn colorterm_24bit_picks_truecolor() {
    let e = TermEnv { colorterm: "24bit".to_string(), ..with_term("screen") };
    assert_eq!(detect(&e), TerminalCapability::Truecolor);
}

#[test]
fn empty_env_defaults_to_truecolor() {
    assert_eq!(detect(&env()), TerminalCapability::Truecolor);
}

#[test]
fn force_mode_kitty_wins_over_detection() {
    assert_eq!(resolve(Some("kitty"), true, &with_term("dumb")), TerminalCapability::Kitty);
}

#[test]
fn force_mode_braille_maps_to_truecolor() {
    let e = TermEnv { kitty_window_id: true, ..env() };
    assert_eq!(resolve(Some("braille"), true, &e), TerminalCapability::Truecolor);
}

#[test]
fn force_mode_ascii_wins_over_truecolor_detection() {
    let e = TermEnv { colorterm: "truecolor".to_string(), ..with_term("xterm-256color") };
    assert_eq!(resolve(Some("ascii"), true, &e), TerminalCapability::Ascii);
}

#[test]
fn auto_degrade_false_blocks_ascii_downshift() {
    assert_eq!(resolve(None, false, &with_term("dumb")), TerminalCapability::Truecolor);
}

#[test]
fn auto_degrade_false_preserves_kitty() {
    let e = TermEnv { kitty_window_id: true, ..env() };
    assert_eq!(resolve(None, false, &e), TerminalCapability::Kitty);
}

#[test]
fn unknown_force_mode_falls_through_to_detection() {
    let e = TermEnv { kitty_window_id: true, ..env() };
    assert_eq!(resolve(Some("no-such-mode"), true, &e), TerminalCapability::Kitty);
}

#[test]
fn as_str_round_trip() {
    assert_eq!(TerminalCapability::Kitty.as_str(), "kitty");
    assert_eq!(TerminalCapability::Truecolor.as_str(), "truecolor");
    assert_eq!(TerminalCapability::Ascii.as_str(), "ascii");
}

#[test]
fn from_force_mode_unknown_returns_none() {
    assert_eq!(TerminalCapability::from_force_mode("auto"), None);
    assert_eq!(TerminalCapability::from_force_mode(""), None);
    assert_eq!(TerminalCapability::from_force_mode("BRAILLE"), None);
}

#[test]
fn linux_console_and_ghostty_term() {
    assert_eq!(detect(&with_term("linux")), TerminalCapability::Ascii);
    assert_eq!(detect(&with_term("xterm-ghostty")), TerminalCapability::Kitty);
    let ssh_client = TermEnv { ssh_client: true, ..with_term("xterm-256color") };
    assert_eq!(detect(&ssh_client), TerminalCapability::Ascii);
}

#[test]
fn supports_kitty_graphics_follows_detection() {
    assert!(supports_kitty_graphics(&TermEnv { wezterm_pane: true, ..env() }));
    assert!(!supports_kitty_graphics(&with_term("xterm-256color")));
}

#[test]
fn typical_cell_is_two_to_one_height_to_width() {
    let (cw, ch) = TYPICAL_CELL_PIXELS;
    let ratio = ch as f32 / cw as f32;
    assert!((ratio - 2.0).abs() < 1e-3, "got cw={cw}, ch={ch}, ratio={ratio}");
}

#[test]
fn cell_pixel_size_returns_non_zero() {
    let (cw, ch) = cell_pixel_size(None);
    assert!(cw > 0, "cell width must be non-zero, got {cw}");
    assert!(ch > 0, "cell height must be non-zero, got {ch}");
}

#[test]
fn cell_pixel_size_divides_window_by_grid() {
    let ws = WindowSize { columns: 100, rows: 50, width: 1000, height: 1100 };
    assert_eq!(cell_pixel_size(Some(ws)), (10, 22));
    let tiny = WindowSize { columns: 100, rows: 50, width: 10, height: 10 };
    assert_eq!(cell_pixel_size(Some(tiny)), (1, 1));
    let zero = WindowSize { columns: 0, rows: 50, width: 1000, height: 1000 };
    assert_eq!(cell_pixel_size(Some(zero)), TYPICAL_CELL_PIXELS);
}

#[test]
fn force_mode_truecolor_wins_over_dumb_terminal() {
    assert_eq!(resolve(Some("truecolor"), true, &with_term("dumb")), TerminalCapability::Truecolor);
    assert_eq!(TerminalCapability::from_force_mode("truecolor"), Some(TerminalCapability::Truecolor));
    assert_eq!(TerminalCapability::from_force_mode("TRUECOLOR"), None);
}
