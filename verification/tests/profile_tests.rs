use eve_l_preview::charmap::CharacterMap;
use eve_l_preview::profile::Config;
use eve_l_preview::profile::HotkeySettingsState;
use eve_l_preview::profile::ManagerSettings;
use eve_l_preview::profile::Profile;
use eve_l_preview::profile::SharedSettings;
use eve_l_preview::settings::PersistentState;
use eve_l_preview::types::CharacterSettings;

fn test_profile(name: &str, opacity: u8) -> Profile {
    Profile {
        name: name.to_string(),
        opacity_percent: opacity,
        border_size: 5,
        border_enabled: true,
        border_color: "#FF0000FF".to_string(),
        text_x: 10,
        text_y: 20,
        text_foreground: "#FFFFFFFF".to_string(),
        text_size: 18,
        cycle_group: vec!["One".to_string(), "Two".to_string()],
        character_positions: CharacterMap::new(),
    }
}

fn test_config(selected: &str) -> Config {
    Config {
        manager: ManagerSettings { selected_profile: selected.to_string() },
        global: SharedSettings {
            hide_when_no_focus: true,
            snap_threshold: 25,
            hotkey_require_eve_focus: false,
            minimize_clients_on_switch: false,
            log_level: "info".to_string(),
        },
        profiles: vec![test_profile("default", 60), test_profile("alt", 90)],
    }
}

#[test]
fn test_from_profile_config_selects_named_profile() {
    let state = PersistentState::from_profile_config(test_config("alt"));
    assert_eq!(state.global.opacity_percent, 90);
    assert_eq!(state.global.snap_threshold, 25);
    assert_eq!(state.global.hide_when_no_focus, true);
    assert_eq!(state.global.hotkey_require_eve_focus, false);
    assert_eq!(state.global.default_width, 250);
    assert_eq!(state.global.default_height, 141);
    assert_eq!(
        state.global.hotkey_order,
        vec!["One".to_string(), "Two".to_string()]
    );
}

#[test]
fn test_from_profile_config_falls_back_to_first_profile() {
    let state = PersistentState::from_profile_config(test_config("missing"));
    assert_eq!(state.global.opacity_percent, 60);
}

#[test]
fn test_from_profile_config_keeps_character_positions() {
    let mut config = test_config("default");
    config.profiles[0]
        .character_positions
        .insert("Pilot".to_string(), CharacterSettings::new(1, 2, 3, 4));
    let state = PersistentState::from_profile_config(config);
    assert_eq!(
        state.character_positions.get("Pilot"),
        Some(CharacterSettings::new(1, 2, 3, 4))
    );
}

#[test]
fn test_hotkey_settings_state_new() {
    let state = HotkeySettingsState::new();
    assert_eq!(state.cycle_group_text(), "");
}

#[test]
fn test_save_to_profile_trims_and_drops_empty_lines() {
    let mut state = HotkeySettingsState::new();
    let mut profile = test_profile("default", 60);
    // Round-trip through the editor text, with noise added.
    state.load_from_profile(&profile);
    state.save_to_profile(&mut profile);
    assert_eq!(
        profile.cycle_group,
        vec!["One".to_string(), "Two".to_string()]
    );

    // An edited buffer with surrounding whitespace and blank lines.
    let mut source = test_profile("source", 60);
    source.cycle_group = vec![
        "  Main Character ".to_string(),
        "".to_string(),
        "\tAlt 1\r".to_string(),
        "   ".to_string(),
    ];
    state.load_from_profile(&source);
    state.save_to_profile(&mut profile);
    assert_eq!(
        profile.cycle_group,
        vec!["Main Character".to_string(), "Alt 1".to_string()]
    );
}

#[test]
fn test_load_from_profile_joins_lines() {
    let mut state = HotkeySettingsState::new();
    let profile = test_profile("default", 60);
    state.load_from_profile(&profile);
    assert_eq!(state.cycle_group_text(), "One\nTwo");

    let mut single = test_profile("single", 60);
    single.cycle_group = vec!["Solo".to_string()];
    state.load_from_profile(&single);
    assert_eq!(state.cycle_group_text(), "Solo");

    let mut empty = test_profile("empty", 60);
    empty.cycle_group = Vec::new();
    state.load_from_profile(&empty);
    assert_eq!(state.cycle_group_text(), "");
}
