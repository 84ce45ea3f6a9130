use iconic_statusbar::classify::{classify_window, WindowCategory};

#[test]
fn spotify_instance_beats_class_rules() {
    assert_eq!(
        classify_window(("spotify".to_owned(), "firefox".to_owned())),
        WindowCategory::Spotify
    );
    assert_eq!(
        classify_window(("spotify".to_owned(), "discord".to_owned())),
        WindowCategory::Spotify
    );
    assert_eq!(
        classify_window(("spotify".to_owned(), "anything".to_owned())),
        WindowCategory::Spotify
    );
}

#[test]
fn kitty_class_is_console_regardless_of_instance() {
    assert_eq!(
        classify_window(("kitty".to_owned(), "kitty".to_owned())),
        WindowCategory::Console
    );
    assert_eq!(
        classify_window(("spotify".to_owned(), "kitty".to_owned())),
        WindowCategory::Console
    );
}

#[test]
fn class_rules_fire_after_spotify() {
    assert_eq!(
        classify_window(("Navigator".to_owned(), "firefox".to_owned())),
        WindowCategory::Firefox
    );
    assert_eq!(
        classify_window(("discord".to_owned(), "discord".to_owned())),
        WindowCategory::Discord
    );
}

#[test]
fn unmatched_pair_is_generic() {
    assert_eq!(
        classify_window(("foo".to_owned(), "bar".to_owned())),
        WindowCategory::GenericWindow
    );
    assert_eq!(
        classify_window((String::new(), String::new())),
        WindowCategory::GenericWindow
    );
}

#[test]
fn matching_is_case_sensitive() {
    assert_eq!(
        classify_window(("Spotify".to_owned(), "Firefox".to_owned())),
        WindowCategory::GenericWindow
    );
}
