use keyboard_dances::error::{to_command_error, AppError};
use keyboard_dances::order::{sort_texts, str_less};
use keyboard_dances::paths::{join_path, path_extension, path_file_name};
use keyboard_dances::text::{capitalize, decimal_text, normalized_profile_name};

#[test]
fn normalization_replaces_spaces_and_symbols() {
    assert_eq!(normalized_profile_name("Desk Mode"), "Desk_Mode");
    assert_eq!(normalized_profile_name("  a.b/c  "), "a_b_c");
    assert_eq!(normalized_profile_name("keep-this_1"), "keep-this_1");
    assert_eq!(normalized_profile_name("Désk"), "D_sk");
}

#[test]
fn normalization_trims_unicode_white_space() {
    assert_eq!(normalized_profile_name("\u{3000}\tname \u{a0}\n"), "name");
    assert_eq!(normalized_profile_name("   "), "");
    assert_eq!(normalized_profile_name(""), "");
    assert_eq!(normalized_profile_name("a b"), "a_b");
}

#[test]
fn normalization_is_idempotent() {
    for name in ["Desk Mode", "  x y z ", "ü-ß", "..", "plain"] {
        let once = normalized_profile_name(name);
        assert_eq!(normalized_profile_name(&once), once);
    }
}

#[test]
fn capitalize_maps_first_letter() {
    assert_eq!(capitalize("press"), "Press");
    assert_eq!(capitalize("release"), "Release");
    assert_eq!(capitalize(""), "");
    assert_eq!(capitalize("ßx"), "SSx");
}

#[test]
fn decimal_text_writes_numbers() {
    assert_eq!(decimal_text(0), "0");
    assert_eq!(decimal_text(7), "7");
    assert_eq!(decimal_text(10), "10");
    assert_eq!(decimal_text(4096), "4096");
    assert_eq!(decimal_text(u64::MAX), u64::MAX.to_string());
}

#[test]
fn join_follows_path_join() {
    assert_eq!(join_path("/home/a/.config", "sounds"), "/home/a/.config/sounds");
    assert_eq!(join_path("/home/a/", "sounds"), "/home/a/sounds");
    assert_eq!(join_path("", "sounds"), "sounds");
    assert_eq!(join_path("/home/a", "/etc"), "/etc");
}

#[test]
fn file_name_and_extension_follow_path() {
    assert_eq!(path_file_name("/a/b/mechanical.WAV"), Some("mechanical.WAV".to_string()));
    assert_eq!(path_file_name("/a/b/"), Some("b".to_string()));
    assert_eq!(path_file_name("/a/b/."), Some("b".to_string()));
    assert_eq!(path_file_name("/a/.."), None);
    assert_eq!(path_file_name("/"), None);
    assert_eq!(path_file_name(""), None);
    assert_eq!(path_extension("/a/b/mechanical.WAV"), Some("WAV".to_string()));
    assert_eq!(path_extension("/a/b/archive.tar.ogg"), Some("ogg".to_string()));
    assert_eq!(path_extension("/a/.hidden"), None);
    assert_eq!(path_extension("/a/noext"), None);
    assert_eq!(path_extension("/a/trailing."), Some("".to_string()));
}

#[test]
fn text_order_is_string_order() {
    assert!(str_less("a", "b"));
    assert!(str_less("ab", "abc"));
    assert!(!str_less("abc", "ab"));
    assert!(!str_less("same", "same"));
    assert!(str_less("Z", "a"));
    assert!(str_less("zz", "é"));
}

#[test]
fn sorting_matches_std_sort() {
    let names: Vec<String> = ["work", "default", "Desk_Mode", "a", "default", "é", "ab"]
        .iter()
        .map(|s| s.to_string())
        .collect();
    let mut expected = names.clone();
    expected.sort();
    assert_eq!(sort_texts(names), expected);
    assert_eq!(sort_texts(Vec::new()), Vec::<String>::new());
}

#[test]
fn error_texts_match_messages() {
    assert_eq!(
        to_command_error(AppError::EmptyProfileName),
        "Profile name cannot be empty"
    );
    assert_eq!(
        to_command_error(AppError::ProfileMissing { name: "x".to_string() }),
        "Profile does not exist: x"
    );
    assert_eq!(
        to_command_error(AppError::LastProfile),
        "Cannot delete the last profile"
    );
    assert_eq!(
        to_command_error(AppError::ProfileExists { name: "work".to_string() }),
        "Profile already exists: work"
    );
    assert_eq!(
        to_command_error(AppError::SoundFileMissing {
            role: "press".to_string(),
            path: "/x.wav".to_string()
        }),
        "Press sound file does not exist: /x.wav"
    );
    assert_eq!(
        to_command_error(AppError::NoAudioExtension { path: "/x".to_string() }),
        "Audio file has no valid extension: /x"
    );
    assert_eq!(
        to_command_error(AppError::UnsupportedAudioFormat { extension: "mp3".to_string() }),
        "Unsupported audio format .mp3; choose a WAV or OGG file"
    );
    assert_eq!(
        to_command_error(AppError::NoProfilesRemain),
        "No profiles remain after deletion"
    );
    assert_eq!(
        to_command_error(AppError::NoConfigDirectory),
        "Unable to locate a user config directory"
    );
    assert_eq!(
        to_command_error(AppError::LockPoisoned),
        "Application state lock was poisoned"
    );
    assert_eq!(
        to_command_error(AppError::External {
            context: "Failed to read /c/app.toml".to_string(),
            cause: "No such file or directory (os error 2)".to_string()
        }),
        "Failed to read /c/app.toml: No such file or directory (os error 2)"
    );
}
