use keyboard_dances::config::{AppConfig, ConfigStore, ProfileConfig};
use keyboard_dances::error::AppError;
use keyboard_dances::icon::{tray_icon_rgba, TRAY_ICON_SIZE};
use keyboard_dances::input::KeyEvent;
use keyboard_dances::runtime::{
    adopt_profile, audio_load_failure, check_active_rename, command_line_sound_problem,
    listener_failure, loaded_or_default, next_profile_name, profile_after_delete, sound_files_problem, RuntimeState,
};

fn names(list: &[&str]) -> Vec<String> {
    list.iter().map(|s| s.to_string()).collect()
}

fn profile(name: &str) -> ProfileConfig {
    ProfileConfig {
        name: name.to_string(),
        press_sound: format!("/s/{name}-press.wav"),
        release_sound: format!("/s/{name}-release.wav"),
    }
}

fn state() -> RuntimeState {
    RuntimeState {
        app_config: AppConfig::default(),
        active_profile: profile("default"),
        last_error: None,
    }
}

fn store() -> ConfigStore {
    ConfigStore::from_dirs("/c".to_string(), "/d".to_string())
}

#[test]
fn switching_profile_switches_sounds() {
    let mut state = state();
    state.switch_profile(profile("work"), Some("boom".to_string()));
    assert_eq!(state.active_profile.press_sound, "/s/work-press.wav");
    assert_eq!(state.app_config.active_profile, "work");
    assert!(state.app_config.enabled);
    assert_eq!(state.last_error.as_deref(), Some("boom"));
}

#[test]
fn disabled_runtime_plays_nothing() {
    let mut state = state();
    assert_eq!(state.sound_for_event(KeyEvent::Press), Some(KeyEvent::Press));
    assert_eq!(state.sound_for_event(KeyEvent::Release), Some(KeyEvent::Release));
    state.set_enabled(false);
    assert_eq!(state.sound_for_event(KeyEvent::Press), None);
    assert_eq!(state.sound_for_event(KeyEvent::Release), None);
    assert_eq!(state.app_config.active_profile, "default");
}

#[test]
fn snapshot_reports_state() {
    let mut state = state();
    state.set_last_error("oops".to_string());
    let snapshot = state.snapshot(&store(), &names(&["default", "work"]));
    assert!(snapshot.enabled);
    assert_eq!(snapshot.active_profile.name, "default");
    assert_eq!(snapshot.profiles.len(), 2);
    assert!(snapshot.profiles[0].active);
    assert!(!snapshot.profiles[1].active);
    assert_eq!(snapshot.profiles[1].path, "/c/profiles/work.toml");
    assert_eq!(snapshot.config_dir, "/c");
    assert_eq!(snapshot.data_dir, "/d");
    assert_eq!(snapshot.profiles_dir, "/c/profiles");
    assert_eq!(snapshot.last_error.as_deref(), Some("oops"));
    assert_eq!(state.active_profile_name(), "default");
}

#[test]
fn next_profile_wraps_around() {
    let store = store();
    let listed = store.list_profiles(&names(&["a", "b", "c"]), "c");
    assert_eq!(next_profile_name(&listed, "a").as_deref(), Some("b"));
    assert_eq!(next_profile_name(&listed, "c").as_deref(), Some("a"));
    assert_eq!(next_profile_name(&listed, "missing").as_deref(), Some("b"));
    assert_eq!(next_profile_name(&Vec::new(), "a"), None);
    let mut current = "b".to_string();
    for _ in 0..3 {
        current = next_profile_name(&listed, &current).unwrap();
    }
    assert_eq!(current, "b");
}

#[test]
fn rename_rules() {
    let existing = names(&["default", "work"]);
    let rename = check_active_rename("default", &existing, &profile("Desk Mode")).unwrap();
    assert_eq!(rename.next, "Desk_Mode");
    assert_eq!(rename.previous, "default");
    assert!(rename.retires_previous("Desk_Mode"));
    let same = check_active_rename("work", &existing, &profile(" work ")).unwrap();
    assert!(!same.retires_previous("work"));
    match check_active_rename("default", &existing, &profile("work")) {
        Err(AppError::ProfileExists { name }) => assert_eq!(name, "work"),
        other => panic!("unexpected {:?}", other),
    }
    assert!(matches!(
        check_active_rename("default", &existing, &profile("  ")),
        Err(AppError::EmptyProfileName)
    ));
}

#[test]
fn deleting_active_profile_moves_to_first() {
    let remaining = names(&["alpha", "beta"]);
    assert_eq!(
        profile_after_delete("Desk Mode", "Desk_Mode", &remaining).unwrap().as_deref(),
        Some("alpha")
    );
    assert_eq!(profile_after_delete("beta", "Desk_Mode", &remaining).unwrap(), None);
    assert!(matches!(
        profile_after_delete("x", "x", &Vec::new()),
        Err(AppError::NoProfilesRemain)
    ));
}

#[test]
fn fallback_profile_becomes_active() {
    let mut config = AppConfig::default();
    config.active_profile = "broken".to_string();
    config.enabled = false;
    let adopted = adopt_profile(config, &profile("default"));
    assert_eq!(adopted.active_profile, "default");
    assert!(!adopted.enabled);
}

#[test]
fn player_messages() {
    let p = profile("work");
    assert_eq!(
        sound_files_problem(&p, false, false).as_deref(),
        Some("Press sound file does not exist: /s/work-press.wav")
    );
    assert_eq!(
        sound_files_problem(&p, true, false).as_deref(),
        Some("Release sound file does not exist: /s/work-release.wav")
    );
    assert_eq!(sound_files_problem(&p, true, true), None);
    assert_eq!(audio_load_failure("bad header"), "Failed to load audio: bad header");
    assert_eq!(listener_failure("no seat"), "Input listener stopped: no seat");
    assert_eq!(
        command_line_sound_problem("/p.wav", true, "/r.wav", false).as_deref(),
        Some("Release sound file not found: /r.wav")
    );
    assert_eq!(
        command_line_sound_problem("/p.wav", false, "/r.wav", false).as_deref(),
        Some("Press sound file not found: /p.wav")
    );
    assert_eq!(command_line_sound_problem("/p.wav", true, "/r.wav", true), None);
}

#[test]
fn tray_icon_pixels() {
    let rgba = tray_icon_rgba();
    let size = TRAY_ICON_SIZE as usize;
    assert_eq!(rgba.len(), size * size * 4);
    let at = |x: usize, y: usize| &rgba[(y * size + x) * 4..(y * size + x) * 4 + 4];
    assert_eq!(at(0, 0), &[0, 0, 0, 0]);
    assert_eq!(at(5, 10), &[29, 45, 54, 255]);
    assert_eq!(at(12, 15), &[255, 193, 84, 255]);
    assert_eq!(at(16, 12), &[80, 173, 132, 255]);
    assert_eq!(at(20, 16), &[255, 193, 84, 255]);
}

#[test]
fn unreadable_settings_fall_back_to_defaults() {
    let fallback = loaded_or_default(None);
    assert_eq!(fallback.active_profile, "default");
    assert!(fallback.enabled);
    let loaded = AppConfig { active_profile: "work".to_string(), enabled: false };
    let kept = loaded_or_default(Some(loaded));
    assert_eq!(kept.active_profile, "work");
    assert!(!kept.enabled);
}
