use keyboard_dances::config::{app_identity, AppConfig, ConfigStore, ProfileConfig};
use keyboard_dances::error::AppError;

fn store() -> ConfigStore {
    ConfigStore::from_dirs(
        "/home/alice/.config/keyboard-dances".to_string(),
        "/home/alice/.local/share/keyboard-dances".to_string(),
    )
}

fn names(list: &[&str]) -> Vec<String> {
    list.iter().map(|s| s.to_string()).collect()
}

#[test]
fn store_layout_under_config_dir() {
    let store = store();
    assert_eq!(store.config_dir(), "/home/alice/.config/keyboard-dances");
    assert_eq!(store.data_dir(), "/home/alice/.local/share/keyboard-dances");
    assert_eq!(store.profiles_dir(), "/home/alice/.config/keyboard-dances/profiles");
    assert_eq!(store.app_config_path(), "/home/alice/.config/keyboard-dances/app.toml");
    assert_eq!(store.sounds_dir(), "/home/alice/.config/keyboard-dances/sounds");
}

#[test]
fn profile_path_uses_normalized_name() {
    let store = store();
    assert_eq!(
        store.profile_path("Desk Mode"),
        "/home/alice/.config/keyboard-dances/profiles/Desk_Mode.toml"
    );
    assert_eq!(store.profile_path("Desk Mode"), store.profile_path("Desk_Mode"));
}

#[test]
fn defaults() {
    let app = AppConfig::default();
    assert_eq!(app.active_profile, "default");
    assert!(app.enabled);
    let profile = ProfileConfig::default();
    assert_eq!(profile.name, "default");
    assert_eq!(profile.press_sound, "");
    assert_eq!(profile.release_sound, "");
    let default = store().default_profile();
    assert_eq!(default.name, "default");
    assert_eq!(
        default.press_sound,
        "/home/alice/.local/share/keyboard-dances/sounds/default-press.wav"
    );
    assert_eq!(
        default.release_sound,
        "/home/alice/.local/share/keyboard-dances/sounds/default-release.wav"
    );
}

#[test]
fn listing_keeps_toml_stems_sorted() {
    let store = store();
    let entries = names(&["work.toml", "notes.txt", ".toml", "default.toml", "a.b.toml", "x.TOML", "Desk_Mode.toml"]);
    assert_eq!(
        store.list_profile_names(&entries),
        names(&["Desk_Mode", "a.b", "default", "work"])
    );
    assert_eq!(store.list_profile_names(&Vec::new()), Vec::<String>::new());
}

#[test]
fn listing_marks_active_profile() {
    let store = store();
    let listed = store.list_profiles(&names(&["default", "work"]), "work");
    assert_eq!(listed.len(), 2);
    assert_eq!(listed[0].name, "default");
    assert!(!listed[0].active);
    assert_eq!(listed[0].path, "/home/alice/.config/keyboard-dances/profiles/default.toml");
    assert_eq!(listed[1].name, "work");
    assert!(listed[1].active);
}

#[test]
fn load_restores_blank_name() {
    let store = store();
    let parsed = ProfileConfig {
        name: "  ".to_string(),
        press_sound: "/p.wav".to_string(),
        release_sound: "/r.wav".to_string(),
    };
    let loaded = store.load_profile("work", parsed);
    assert_eq!(loaded.name, "work");
    assert_eq!(loaded.press_sound, "/p.wav");
    let named = ProfileConfig {
        name: "Other".to_string(),
        press_sound: String::new(),
        release_sound: String::new(),
    };
    assert_eq!(store.load_profile("work", named).name, "Other");
}

#[test]
fn save_plan_places_sounds_in_config_sounds_directory() {
    let store = store();
    let profile = ProfileConfig {
        name: "Desk Mode".to_string(),
        press_sound: "/tmp/imports/mechanical.WAV".to_string(),
        release_sound: "/tmp/imports/mechanical.ogg".to_string(),
    };
    let name = store.save_profile_name(&profile).unwrap();
    assert_eq!(name, "Desk_Mode");
    let press = store.stage_sound(&name, "press", &profile.press_sound, true).unwrap();
    let release = store.stage_sound(&name, "release", &profile.release_sound, true).unwrap();
    assert_eq!(press.file_name, "Desk_Mode-press.wav");
    assert_eq!(
        press.destination,
        "/home/alice/.config/keyboard-dances/sounds/Desk_Mode-press.wav"
    );
    assert_eq!(
        release.destination,
        "/home/alice/.config/keyboard-dances/sounds/Desk_Mode-release.ogg"
    );
    assert_eq!(
        store.staged_sound_path(&press.file_name, 4242, 7),
        "/home/alice/.config/keyboard-dances/sounds/.Desk_Mode-press.wav.4242.7.tmp"
    );
}

#[test]
fn resaving_managed_sounds_keeps_their_paths() {
    let store = store();
    let managed_press = format!("{}/swap-press.wav", store.sounds_dir());
    let managed_release = format!("{}/swap-release.ogg", store.sounds_dir());
    let press = store.stage_sound("swap", "press", &managed_press, true).unwrap();
    let release = store.stage_sound("swap", "release", &managed_release, true).unwrap();
    assert_eq!(press.destination, managed_press);
    assert_eq!(release.destination, managed_release);

    // Swapping the two sounds plans each into the other's place, through
    // temporary files that differ from both.
    let swapped_press = store.stage_sound("swap", "press", &managed_release, true).unwrap();
    let swapped_release = store.stage_sound("swap", "release", &managed_press, true).unwrap();
    assert_eq!(
        swapped_press.destination,
        "/home/alice/.config/keyboard-dances/sounds/swap-press.ogg"
    );
    assert_eq!(
        swapped_release.destination,
        "/home/alice/.config/keyboard-dances/sounds/swap-release.wav"
    );
    let staged_press = store.staged_sound_path(&swapped_press.file_name, 1, 1);
    let staged_release = store.staged_sound_path(&swapped_release.file_name, 1, 2);
    assert_ne!(staged_press, staged_release);
    assert_ne!(staged_press, managed_release);
    assert_ne!(staged_release, managed_press);
}

#[test]
fn saved_profile_is_listed_under_its_name() {
    let store = store();
    let name = store.required_profile_name("Desk Mode").unwrap();
    let entry = format!("{name}.toml");
    assert_eq!(store.list_profile_names(&vec![entry]), vec![name.clone()]);
    assert!(store.profile_path(&name).ends_with("/profiles/Desk_Mode.toml"));
}

#[test]
fn stage_sound_refusals() {
    let store = store();
    match store.stage_sound("p", "press", "/none.wav", false) {
        Err(AppError::SoundFileMissing { role, path }) => {
            assert_eq!(role, "press");
            assert_eq!(path, "/none.wav");
        }
        other => panic!("unexpected {:?}", other.err()),
    }
    assert!(matches!(
        store.stage_sound("p", "press", "/sounds/noext", true),
        Err(AppError::NoAudioExtension { .. })
    ));
    match store.stage_sound("p", "release", "/sounds/a.MP3", true) {
        Err(AppError::UnsupportedAudioFormat { extension }) => assert_eq!(extension, "mp3"),
        other => panic!("unexpected {:?}", other.err()),
    }
}

#[test]
fn empty_names_are_refused() {
    let store = store();
    let profile = ProfileConfig {
        name: "   ".to_string(),
        press_sound: String::new(),
        release_sound: String::new(),
    };
    assert!(matches!(store.save_profile_name(&profile), Err(AppError::EmptyProfileName)));
    assert!(matches!(store.required_profile_name(""), Err(AppError::EmptyProfileName)));
    assert_eq!(store.required_profile_name(" a b ").unwrap(), "a_b");
}

#[test]
fn delete_profile_checks() {
    let store = store();
    let two = names(&["default", "work"]);
    assert_eq!(store.delete_profile(" work ", &two).unwrap(), "work");
    assert!(matches!(store.delete_profile("", &two), Err(AppError::EmptyProfileName)));
    match store.delete_profile("gone", &two) {
        Err(AppError::ProfileMissing { name }) => assert_eq!(name, "gone"),
        other => panic!("unexpected {:?}", other),
    }
    assert!(matches!(
        store.delete_profile("default", &names(&["default"])),
        Err(AppError::LastProfile)
    ));
}

#[test]
fn sample_sounds_live_in_data_dir() {
    let store = store();
    assert_eq!(
        store.sample_sounds_dir(),
        "/home/alice/.local/share/keyboard-dances/sounds"
    );
    assert_eq!(
        store.sample_sound_path("default-release.wav"),
        "/home/alice/.local/share/keyboard-dances/sounds/default-release.wav"
    );
}

#[test]
fn application_identity() {
    assert_eq!(app_identity(), ("dev", "keyboard-dances", "keyboard-dances"));
}

#[test]
fn found_directories_become_the_store() {
    let store = ConfigStore::from_found_dirs(Some((
        Some("/cfg/keyboard-dances".to_string()),
        Some("/data/keyboard-dances".to_string()),
    )))
    .unwrap();
    assert_eq!(store.config_dir(), "/cfg/keyboard-dances");
    assert_eq!(store.data_dir(), "/data/keyboard-dances");
    assert!(matches!(ConfigStore::from_found_dirs(None), Err(AppError::NoConfigDirectory)));
    assert!(matches!(
        ConfigStore::from_found_dirs(Some((None, Some("/d".to_string())))),
        Err(AppError::NonUnicodeDirectory)
    ));
    assert!(matches!(
        ConfigStore::from_found_dirs(Some((Some("/c".to_string()), None))),
        Err(AppError::NonUnicodeDirectory)
    ));
}
