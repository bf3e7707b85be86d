use eve_l_preview::charmap::CharacterMap;
use eve_l_preview::settings::GlobalSettings;
use eve_l_preview::settings::PersistentState;
use eve_l_preview::types::CharacterSettings;
use eve_l_preview::types::Position;

// Helper to build test GlobalSettings
fn test_global_settings(
    opacity_percent: u8,
    border_size: u16,
    border_color_hex: &str,
    text_x: i16,
    text_y: i16,
    text_color_hex: &str,
    hide_when_no_focus: bool,
    snap_threshold: u16,
) -> GlobalSettings {
    GlobalSettings {
        opacity_percent,
        border_size,
        border_color_hex: border_color_hex.to_string(),
        text_x,
        text_y,
        text_color_hex: text_color_hex.to_string(),
        hide_when_no_focus,
        text_size: 18,
        snap_threshold,
        default_width: 250,
        default_height: 141,
        hotkey_order: Vec::new(),
        hotkey_require_eve_focus: true,
    }
}

#[test]
fn test_build_display_config_valid_colors() {
    let state = PersistentState {
        global: test_global_settings(
            75,           // opacity_percent
            3,            // border_size
            "#FF00FF00",  // Green border
            15,           // text_x
            25,           // text_y
            "#FFFFFFFF",  // White text color
            true,         // hide_when_no_focus
            20,           // snap_threshold
        ),
        character_positions: CharacterMap::new(),
    };

    let config = state.build_display_config();
    assert_eq!(config.border_size, 3);
    assert_eq!(config.text_offset.x, 15);
    assert_eq!(config.text_offset.y, 25);
    assert_eq!(config.hide_when_no_focus, true);

    // Opacity: 75% -> 0xBF
    assert_eq!(config.opacity, 0xBF000000);

    // Border color: #FF00FF00 -> red 0, green 65535, blue 0, alpha 65535
    assert_eq!(config.border_color.red, 0);
    assert_eq!(config.border_color.green, 65535);
    assert_eq!(config.border_color.blue, 0);
    assert_eq!(config.border_color.alpha, 65535);
}

#[test]
fn test_build_display_config_invalid_colors_fallback() {
    let state = PersistentState {
        global: test_global_settings(
            100,            // opacity_percent
            5,              // border_size
            "invalid",      // invalid border color
            10,             // text_x
            20,             // text_y
            "also_invalid", // invalid text color
            false,          // hide_when_no_focus
            15,             // snap_threshold
        ),
        character_positions: CharacterMap::new(),
    };

    let config = state.build_display_config();

    // Opacity: 100% -> 0xFF
    assert_eq!(config.opacity, 0xFF000000);

    // Default border_color: 0xFFFF0000 (opaque red)
    // Alpha conversion: 0xFF (255) * 257 = 65535 in 16-bit
    assert_eq!(config.border_color.red, 65535);
    assert_eq!(config.border_color.blue, 0);
    assert_eq!(config.border_color.alpha, 65535);
}

#[test]
fn test_update_position_with_character_name() {
    let mut state = PersistentState {
        global: test_global_settings(75, 3, "#FF00FF00", 10, 20, "#FFFFFFFF", false, 15),
        character_positions: CharacterMap::new(),
    };

    // Update position with dimensions
    let dirty = state.update_position("TestChar", 100, 200, 480, 270);
    assert!(dirty);

    let settings = state.character_positions.get("TestChar").unwrap();
    assert_eq!(settings.x, 100);
    assert_eq!(settings.y, 200);
    assert_eq!(settings.dimensions(), (480, 270));
}

#[test]
fn test_update_position_empty_name_ignored() {
    let mut state = PersistentState {
        global: test_global_settings(75, 3, "#FF00FF00", 10, 20, "#FFFFFFFF", false, 15),
        character_positions: CharacterMap::new(),
    };

    let dirty = state.update_position("", 300, 400, 480, 270);
    assert!(!dirty);

    // Empty name should not be inserted
    assert!(state.character_positions.is_empty());
}

#[test]
fn test_handle_character_change_both_names() {
    let mut positions = CharacterMap::new();
    positions.insert("NewChar".to_string(), CharacterSettings::new(500, 600, 240, 135));
    let mut state = PersistentState {
        global: test_global_settings(75, 3, "#FF00FF00", 10, 20, "#FFFFFFFF", false, 15),
        character_positions: positions,
    };

    let current_pos = Position::new(100, 200);
    let result = state.handle_character_change("OldChar", "NewChar", current_pos, 480, 270);

    // The old position AND dimensions are snapshotted
    let old_settings = state.character_positions.get("OldChar").unwrap();
    assert_eq!(old_settings.x, 100);
    assert_eq!(old_settings.y, 200);
    assert_eq!(old_settings.dimensions(), (480, 270));

    // The new character's persisted position is reported back
    assert_eq!(result, Some(Position::new(500, 600)));

    // And it is still recorded
    let new_settings = state.character_positions.get("NewChar").unwrap();
    assert_eq!(new_settings.x, 500);
    assert_eq!(new_settings.y, 600);
}

#[test]
fn test_handle_character_change_logout() {
    let mut state = PersistentState {
        global: test_global_settings(75, 3, "#FF00FF00", 10, 20, "#FFFFFFFF", false, 15),
        character_positions: CharacterMap::new(),
    };

    let current_pos = Position::new(300, 400);
    let result = state.handle_character_change("LoggingOut", "", current_pos, 480, 270);

    // The old position AND dimensions are snapshotted
    let settings = state.character_positions.get("LoggingOut").unwrap();
    assert_eq!(settings.x, 300);
    assert_eq!(settings.y, 400);
    assert_eq!(settings.dimensions(), (480, 270));

    // A logout (empty new name) reports no position to move to
    assert_eq!(result, None);
}

#[test]
fn test_handle_character_change_new_character_no_saved_position() {
    let mut state = PersistentState {
        global: test_global_settings(75, 3, "#FF00FF00", 10, 20, "#FFFFFFFF", false, 15),
        character_positions: CharacterMap::new(),
    };

    let current_pos = Position::new(700, 800);
    let result = state.handle_character_change("", "BrandNewChar", current_pos, 480, 270);

    // Empty old name not saved
    assert!(state.character_positions.is_empty());

    // No saved position for the brand-new character
    assert_eq!(result, None);
}

#[test]
fn test_opacity_percent_roundtrip() {
    // Opacity percent converts to a packed alpha value
    let state = PersistentState {
        global: test_global_settings(50, 3, "#FF00FF00", 10, 20, "#FFFFFFFF", false, 15),
        character_positions: CharacterMap::new(),
    };

    let config = state.build_display_config();

    // 50% -> 0x7F or 0x80 (due to rounding)
    assert!(config.opacity >= 0x7F000000 && config.opacity <= 0x80000000);
}

#[test]
fn test_validate_and_clamp_ranges() {
    let mut state = PersistentState {
        global: GlobalSettings {
            opacity_percent: 150,
            border_size: 500,
            border_color_hex: "#FF00FF00".to_string(),
            text_x: 10,
            text_y: 20,
            text_color_hex: "#FFFFFFFF".to_string(),
            text_size: 0,
            hide_when_no_focus: false,
            snap_threshold: 5000,
            default_width: 3,
            default_height: 9000,
            hotkey_order: Vec::new(),
            hotkey_require_eve_focus: true,
        },
        character_positions: CharacterMap::new(),
    };
    state
        .character_positions
        .insert("Tiny".to_string(), CharacterSettings::new(0, 0, 5, 9000));
    state
        .character_positions
        .insert("Auto".to_string(), CharacterSettings::new(0, 0, 0, 0));

    state.validate_and_clamp();

    assert_eq!(state.global.opacity_percent, 100);
    assert_eq!(state.global.border_size, 100);
    assert_eq!(state.global.text_size, 1);
    assert_eq!(state.global.snap_threshold, 1000);
    assert_eq!(state.global.default_width, 250);
    assert_eq!(state.global.default_height, 4096);

    // Too-small dimensions fall back to the defaults, too-large are clamped,
    // and 0 stays 0 (auto-detect).
    let tiny = state.character_positions.get("Tiny").unwrap();
    assert_eq!(tiny.dimensions(), (250, 4096));
    let auto = state.character_positions.get("Auto").unwrap();
    assert_eq!(auto.dimensions(), (0, 0));
}

#[test]
fn test_default_thumbnail_size_uses_configured_defaults() {
    let state = PersistentState {
        global: test_global_settings(75, 3, "#FF00FF00", 10, 20, "#FFFFFFFF", false, 15),
        character_positions: CharacterMap::new(),
    };
    assert_eq!(state.default_thumbnail_size(1920, 1080), (250, 141));
}

#[test]
fn test_defaults() {
    assert_eq!(eve_l_preview::settings::default_snap_threshold(), 15);
    assert_eq!(eve_l_preview::settings::default_width(), 250);
    assert_eq!(eve_l_preview::settings::default_height(), 141);
    assert!(eve_l_preview::settings::default_hotkey_require_eve_focus());
}

#[test]
fn test_merge_from_prefers_new_records() {
    let mut disk = CharacterMap::new();
    disk.insert("Keep".to_string(), CharacterSettings::new(1, 2, 3, 4));
    disk.insert("Both".to_string(), CharacterSettings::new(5, 6, 7, 8));

    let mut ours = CharacterMap::new();
    ours.insert("Both".to_string(), CharacterSettings::new(50, 60, 70, 80));
    ours.insert("New".to_string(), CharacterSettings::new(9, 9, 9, 9));

    disk.merge_from(&ours);
    assert_eq!(disk.get("Keep"), Some(CharacterSettings::new(1, 2, 3, 4)));
    assert_eq!(disk.get("Both"), Some(CharacterSettings::new(50, 60, 70, 80)));
    assert_eq!(disk.get("New"), Some(CharacterSettings::new(9, 9, 9, 9)));
}
