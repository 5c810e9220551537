use minesweeper::difficulty::{validate_custom, DifficultyPreset};

#[test]
fn validates_custom_bounds() {
    assert!(validate_custom(4, 5, 3).is_err());
    assert!(validate_custom(5, 4, 3).is_err());
    assert!(validate_custom(5, 5, 0).is_err());
    assert!(validate_custom(5, 5, 25).is_err());
    assert!(validate_custom(50, 50, 1).is_ok());
}

#[test]
fn each_rejection_carries_its_own_message() {
    assert_eq!(validate_custom(4, 5, 3).unwrap_err(), "Width must be between 5 and 50.");
    assert_eq!(validate_custom(51, 5, 3).unwrap_err(), "Width must be between 5 and 50.");
    assert_eq!(validate_custom(5, 51, 3).unwrap_err(), "Height must be between 5 and 50.");
    assert_eq!(validate_custom(5, 5, 0).unwrap_err(), "Mines must be at least 1.");
    assert_eq!(
        validate_custom(5, 5, 26).unwrap_err(),
        "Mines must be less than total cell count."
    );
}

#[test]
fn accepted_custom_settings_carry_the_inputs() {
    let settings = validate_custom(7, 9, 11).unwrap();
    assert_eq!(settings.width, 7);
    assert_eq!(settings.height, 9);
    assert_eq!(settings.mines, 11);
    assert_eq!(settings.label, "Custom");
}

#[test]
fn presets_have_the_fixed_settings() {
    let beginner = DifficultyPreset::Beginner.settings();
    assert_eq!((beginner.width, beginner.height, beginner.mines), (9, 9, 10));
    assert_eq!(beginner.label, "Beginner");

    let intermediate = DifficultyPreset::Intermediate.settings();
    assert_eq!((intermediate.width, intermediate.height, intermediate.mines), (16, 16, 40));
    assert_eq!(intermediate.label, "Intermediate");

    let expert = DifficultyPreset::Expert.settings();
    assert_eq!((expert.width, expert.height, expert.mines), (30, 16, 99));
    assert_eq!(expert.label, "Expert");
}
