use gras::labels::LogLevel;
use gras::volume::RlVolume;

#[test]
fn log_level_names_parse_to_a_visible_verbosity() {
    assert_eq!(LogLevel::parse("summ"), Some(LogLevel::Summ));
    assert_eq!(LogLevel::parse("SUMM"), Some(LogLevel::Summ));
    assert_eq!(LogLevel::parse("minimal"), Some(LogLevel::Minimal));
    assert_eq!(LogLevel::parse("none"), Some(LogLevel::Silent));
    assert_eq!(LogLevel::parse("debug"), None, "env_logger levels pass through");
    assert_eq!(LogLevel::Summ.env_filter(), "info");
    assert_eq!(LogLevel::Minimal.env_filter(), "warn");
    assert_eq!(LogLevel::Silent.env_filter(), "warn");
}

#[test]
fn core_rl_volume_label_formats_and_never_lies() {
    let empty = RlVolume::default();
    assert!(empty.label().contains('—'), "{}", empty.label());
    let pop = RlVolume { nets: 3, matches: 3, turns: 432 };
    assert_eq!(pop.label(), "matches 3 │ turns 432 │ turns/match 144");
    let zero_turns = RlVolume { nets: 1, matches: 1, turns: 0 };
    assert_eq!(zero_turns.label(), "matches 1 │ turns 0 │ turns/match 0");
}

#[test]
fn race_engine_rl_volume_label_formats_and_never_lies() {
    let empty = RlVolume::default();
    assert!(empty.label().contains('—'), "{}", empty.label());
    let pop = RlVolume { nets: 3, matches: 3, turns: 432 };
    assert_eq!(pop.label(), "matches 3 │ turns 432 │ turns/match 144");
    let zero_turns = RlVolume { nets: 1, matches: 1, turns: 0 };
    assert_eq!(zero_turns.label(), "matches 1 │ turns 0 │ turns/match 0");
}
