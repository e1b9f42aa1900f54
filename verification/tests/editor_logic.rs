use bevy_map::cli::is_valid_crate_name;

#[test]
fn test_valid_crate_names() {
    assert!(is_valid_crate_name("my_game"));
    assert!(is_valid_crate_name("my-game"));
    assert!(is_valid_crate_name("game123"));
    assert!(is_valid_crate_name("_private"));
}

#[test]
fn test_invalid_crate_names() {
    assert!(!is_valid_crate_name(""));
    assert!(!is_valid_crate_name("123game")); // starts with number
    assert!(!is_valid_crate_name("My_Game")); // uppercase
    assert!(!is_valid_crate_name("my game")); // space
}
