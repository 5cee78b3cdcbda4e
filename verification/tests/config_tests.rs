use dd3::config::{after_read, find_config_arg, AppConfig, LoadStep, ReadOutcome};

#[test]
fn default_config_is_notion_soft_palette_with_hud_on() {
    let c = AppConfig::default();
    assert_eq!(c.palette, "notion-soft");
    assert!(c.hud_visible);
    assert!(c.auto_degrade);
    assert_eq!(c.force_mode, "auto");
    assert_eq!(c.degraded_fps_cap, 15);
}

#[test]
fn missing_file_returns_default() {
    assert_eq!(after_read(false, &ReadOutcome::Missing), LoadStep::UseDefaults);
}

#[test]
fn cli_override_missing_file_is_error() {
    let args = vec!["dd3".to_string(), "--config".to_string(), "/nope/config.toml".to_string()];
    assert_eq!(find_config_arg(&args), Some("/nope/config.toml".to_string()));
    assert_eq!(after_read(true, &ReadOutcome::Missing), LoadStep::ReadError);
}

#[test]
fn config_flag_without_value_is_ignored() {
    let args = vec!["dd3".to_string(), "--config".to_string()];
    assert_eq!(find_config_arg(&args), None);
    assert_eq!(find_config_arg(&vec!["dd3".to_string()]), None);
    let two = vec![
        "--config".to_string(),
        "a.toml".to_string(),
        "--config".to_string(),
        "b.toml".to_string(),
    ];
    assert_eq!(find_config_arg(&two), Some("a.toml".to_string()));
}

#[test]
fn read_text_goes_to_the_parser_and_unreadable_is_an_error() {
    assert_eq!(
        after_read(false, &ReadOutcome::Text("palette = \"x\"".to_string())),
        LoadStep::Parse("palette = \"x\"".to_string())
    );
    assert_eq!(after_read(false, &ReadOutcome::Unreadable), LoadStep::ReadError);
    assert_eq!(after_read(true, &ReadOutcome::Unreadable), LoadStep::ReadError);
}
