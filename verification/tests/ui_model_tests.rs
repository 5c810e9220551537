use minesweeper::persistence::parse_u64;
use minesweeper::ui_model::{number_class, parse_saved_choice, preset_choice};
use minesweeper::difficulty::DifficultyPreset;

#[test]
fn parse_u64_accepts_exact_decimals() {
    assert_eq!(parse_u64("0"), Some(0));
    assert_eq!(parse_u64("42"), Some(42));
    assert_eq!(parse_u64("007"), Some(7));
    assert_eq!(parse_u64("18446744073709551615"), Some(u64::MAX));
}

#[test]
fn parse_u64_rejects_everything_else() {
    assert_eq!(parse_u64(""), None);
    assert_eq!(parse_u64("12a"), None);
    assert_eq!(parse_u64("+5"), None);
    assert_eq!(parse_u64(" 5"), None);
    assert_eq!(parse_u64("-1"), None);
    assert_eq!(parse_u64("18446744073709551616"), None);
    assert_eq!(parse_u64("99999999999999999999999"), None);
}

#[test]
fn preset_choice_names_the_tier() {
    let choice = preset_choice(DifficultyPreset::Intermediate);
    assert_eq!(choice.best_key, "intermediate");
    assert_eq!(choice.storage_value, "intermediate");
    assert_eq!(choice.settings.width, 16);
}

#[test]
fn parse_saved_choice_decodes_presets() {
    let beginner = parse_saved_choice(Some("beginner")).unwrap();
    assert_eq!(beginner.settings.mines, 10);
    assert_eq!(beginner.storage_value, "beginner");

    let expert = parse_saved_choice(Some("expert")).unwrap();
    assert_eq!((expert.settings.width, expert.settings.height), (30, 16));
}

#[test]
fn parse_saved_choice_decodes_custom_values() {
    let choice = parse_saved_choice(Some("custom:9:7:11")).unwrap();
    assert_eq!(choice.settings.width, 9);
    assert_eq!(choice.settings.height, 7);
    assert_eq!(choice.settings.mines, 11);
    assert_eq!(choice.settings.label, "Custom");
    assert_eq!(choice.storage_value, "custom:9:7:11");
    assert_eq!(choice.best_key, "custom-9x7-11");
}

#[test]
fn parse_saved_choice_rejects_malformed_values() {
    assert!(parse_saved_choice(None).is_none());
    assert!(parse_saved_choice(Some("")).is_none());
    assert!(parse_saved_choice(Some("junk")).is_none());
    assert!(parse_saved_choice(Some("custom:5:5")).is_none());
    assert!(parse_saved_choice(Some("custom:5:5:6:7")).is_none());
    assert!(parse_saved_choice(Some("custom:4:5:3")).is_none());
    assert!(parse_saved_choice(Some("custom:5:5:0")).is_none());
    assert!(parse_saved_choice(Some("custom:5:5:25")).is_none());
    assert!(parse_saved_choice(Some("custom:a:5:3")).is_none());
    assert!(parse_saved_choice(Some("Custom:5:5:3")).is_none());
}

#[test]
fn number_class_maps_hints_to_style_classes() {
    assert_eq!(number_class(1), "n1");
    assert_eq!(number_class(3), "n3");
    assert_eq!(number_class(7), "n7");
    assert_eq!(number_class(8), "n8");
    assert_eq!(number_class(9), "n8");
}
