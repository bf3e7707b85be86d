use eve_l_preview::charmap::CharacterMap;
use eve_l_preview::engine::Action;
use eve_l_preview::engine::Engine;
use eve_l_preview::engine::WindowEvent;
use eve_l_preview::resolver::SavedState;
use eve_l_preview::settings::GlobalSettings;
use eve_l_preview::settings::PersistentState;
use eve_l_preview::types::CharacterSettings;

fn test_settings(snap_threshold: u16, hide_when_no_focus: bool) -> PersistentState {
    PersistentState {
        global: GlobalSettings {
            opacity_percent: 75,
            border_size: 3,
            border_color_hex: "#FF00FF00".to_string(),
            text_x: 10,
            text_y: 20,
            text_color_hex: "#FFFFFFFF".to_string(),
            text_size: 18,
            hide_when_no_focus,
            snap_threshold,
            default_width: 240,
            default_height: 135,
            hotkey_order: Vec::new(),
            hotkey_require_eve_focus: true,
        },
        character_positions: CharacterMap::new(),
    }
}

fn engine_with_tile_at(x: i16, y: i16, snap_threshold: u16) -> Engine {
    let mut settings = test_settings(snap_threshold, false);
    settings
        .character_positions
        .insert("Pilot".to_string(), CharacterSettings::new(x, y, 240, 135));
    let mut engine = Engine::new(settings, SavedState::new(), 1920, 1080);
    let acts = engine.handle_event(WindowEvent::Created {
        window: 11,
        name: Some("Pilot".to_string()),
        damage: 91,
    });
    assert_eq!(
        acts,
        vec![Action::CreatePreview {
            window: 11,
            name: "Pilot".to_string(),
            x,
            y,
            width: 240,
            height: 135,
        }]
    );
    engine
}

#[test]
fn test_drag_motion_moves_by_pointer_delta() {
    // Drag start pointer (100,100), window at (50,50); motion to (130,90)
    // gives the new window position (80,40).
    let mut engine = engine_with_tile_at(50, 50, 15);
    let acts = engine.handle_event(WindowEvent::ButtonDown { x: 100, y: 100 });
    assert_eq!(acts, vec![]);
    let acts = engine.handle_event(WindowEvent::PointerMoved { x: 130, y: 90 });
    assert_eq!(acts, vec![Action::Reposition { window: 11, x: 80, y: 40 }]);
    assert_eq!(engine.tile_geometry(11), Some((80, 40, 240, 135)));
}

#[test]
fn test_click_raises_and_focuses() {
    // ButtonDown at (100,100) then ButtonUp at exactly (100,100) on the same
    // window raises and focuses it.
    let mut engine = engine_with_tile_at(50, 50, 15);
    engine.handle_event(WindowEvent::ButtonDown { x: 100, y: 100 });
    let acts = engine.handle_event(WindowEvent::ButtonUp { x: 100, y: 100, button: 1 });
    assert_eq!(
        acts,
        vec![
            Action::RaiseAndFocus { window: 11 },
            Action::SaveCharacterSettings {
                name: "Pilot".to_string(),
                x: 50,
                y: 50,
                width: 240,
                height: 135,
            },
        ]
    );
}

#[test]
fn test_moved_release_is_no_click() {
    // ButtonUp away from the drag-start point ends the drag without raising.
    let mut engine = engine_with_tile_at(50, 50, 15);
    engine.handle_event(WindowEvent::ButtonDown { x: 100, y: 100 });
    let acts = engine.handle_event(WindowEvent::ButtonUp { x: 105, y: 100, button: 1 });
    assert_eq!(
        acts,
        vec![Action::SaveCharacterSettings {
            name: "Pilot".to_string(),
            x: 50,
            y: 50,
            width: 240,
            height: 135,
        }]
    );
}

#[test]
fn test_drag_snaps_to_peer_edge() {
    // A second visible tile at x=320: dragging the first tile to x=310 with
    // threshold 15 snaps its left edge onto the peer's left edge.
    let mut settings = test_settings(15, false);
    settings
        .character_positions
        .insert("Pilot".to_string(), CharacterSettings::new(50, 50, 240, 135));
    settings
        .character_positions
        .insert("Wingman".to_string(), CharacterSettings::new(320, 300, 240, 135));
    let mut engine = Engine::new(settings, SavedState::new(), 1920, 1080);
    engine.handle_event(WindowEvent::Created {
        window: 11,
        name: Some("Pilot".to_string()),
        damage: 91,
    });
    engine.handle_event(WindowEvent::Created {
        window: 22,
        name: Some("Wingman".to_string()),
        damage: 92,
    });
    assert_eq!(engine.tile_geometry(22), Some((320, 300, 240, 135)));

    // Drag the first tile towards the peer's left edge, keeping the pointer
    // inside the tile as it follows.
    engine.handle_event(WindowEvent::ButtonDown { x: 100, y: 100 });
    let acts = engine.handle_event(WindowEvent::PointerMoved { x: 250, y: 100 });
    assert_eq!(acts, vec![Action::Reposition { window: 11, x: 200, y: 50 }]);
    let acts = engine.handle_event(WindowEvent::PointerMoved { x: 360, y: 90 });
    assert_eq!(acts, vec![Action::Reposition { window: 11, x: 320, y: 40 }]);
}

#[test]
fn test_snap_threshold_zero_disables_snapping() {
    let mut engine = engine_with_tile_at(50, 50, 0);
    engine.handle_event(WindowEvent::ButtonDown { x: 100, y: 100 });
    // Close to the screen's left edge; with threshold 0 nothing snaps.
    let acts = engine.handle_event(WindowEvent::PointerMoved { x: 52, y: 100 });
    assert_eq!(acts, vec![Action::Reposition { window: 11, x: 2, y: 50 }]);
}

#[test]
fn test_untracked_events_are_ignored() {
    let mut engine = engine_with_tile_at(50, 50, 15);
    assert_eq!(engine.handle_event(WindowEvent::Destroyed { window: 99 }), vec![]);
    assert_eq!(engine.handle_event(WindowEvent::FocusGained { window: 99 }), vec![]);
    assert_eq!(
        engine.handle_event(WindowEvent::VisibilityChanged { window: 99, hidden: true }),
        vec![]
    );
    assert_eq!(
        engine.handle_event(WindowEvent::Created { window: 99, name: None, damage: 5 }),
        vec![]
    );
}

#[test]
fn test_destroy_removes_window_from_cycle() {
    let mut settings = test_settings(15, false);
    settings.global.hotkey_order = vec!["A".to_string(), "B".to_string()];
    let mut engine = Engine::new(settings, SavedState::new(), 1920, 1080);
    engine.handle_event(WindowEvent::Created { window: 1, name: Some("A".to_string()), damage: 1 });
    engine.handle_event(WindowEvent::Created { window: 2, name: Some("B".to_string()), damage: 2 });

    assert_eq!(engine.cycle_forward(), Some(2));
    let acts = engine.handle_event(WindowEvent::Destroyed { window: 2 });
    assert_eq!(acts, vec![Action::DestroyPreview { window: 2 }]);
    // Only A is active now.
    assert_eq!(engine.cycle_forward(), Some(1));
    assert_eq!(engine.cycle_forward(), Some(1));
}

#[test]
fn test_rename_relabels_and_moves_to_saved_position() {
    let mut settings = test_settings(15, false);
    settings
        .character_positions
        .insert("Alt".to_string(), CharacterSettings::new(700, 500, 0, 0));
    let mut engine = Engine::new(settings, SavedState::new(), 1920, 1080);
    engine.handle_event(WindowEvent::Created {
        window: 7,
        name: Some("Main".to_string()),
        damage: 3,
    });
    let acts = engine.handle_event(WindowEvent::NameChanged {
        window: 7,
        name: Some("Alt".to_string()),
        damage: 4,
    });
    // The outgoing name's geometry is snapshotted and saved, the label is
    // updated, and the tile moves to the new name's persisted position.
    assert_eq!(
        acts,
        vec![
            Action::UpdateLabel { window: 7, name: "Alt".to_string() },
            Action::SaveCharacterSettings {
                name: "Main".to_string(),
                x: 840,
                y: 472,
                width: 240,
                height: 135,
            },
            Action::Reposition { window: 7, x: 700, y: 500 },
        ]
    );
    assert_eq!(engine.tile_geometry(7), Some((700, 500, 240, 135)));
}

#[test]
fn test_name_change_on_untracked_window_creates() {
    let mut engine = Engine::new(test_settings(15, false), SavedState::new(), 1920, 1080);
    let acts = engine.handle_event(WindowEvent::NameChanged {
        window: 5,
        name: Some("Pilot".to_string()),
        damage: 9,
    });
    assert_eq!(
        acts,
        vec![Action::CreatePreview {
            window: 5,
            name: "Pilot".to_string(),
            x: 840,
            y: 472,
            width: 240,
            height: 135,
        }]
    );
}

#[test]
fn test_focus_gained_shows_all_under_policy() {
    let mut engine = Engine::new(test_settings(15, true), SavedState::new(), 1920, 1080);
    engine.handle_event(WindowEvent::Created { window: 1, name: Some("A".to_string()), damage: 1 });
    engine.handle_event(WindowEvent::Created { window: 2, name: Some("B".to_string()), damage: 2 });

    // Lose focus on both: nothing focused, nothing minimized -> hide all.
    engine.handle_event(WindowEvent::FocusGained { window: 1 });
    let acts = engine.handle_event(WindowEvent::FocusLost { window: 1 });
    assert_eq!(
        acts,
        vec![
            Action::SetBorder { window: 1, on: false },
            Action::SetVisible { window: 1, on: false },
            Action::SetVisible { window: 2, on: false },
        ]
    );

    // Focus again: some tile is hidden -> show all.
    let acts = engine.handle_event(WindowEvent::FocusGained { window: 2 });
    assert_eq!(
        acts,
        vec![
            Action::SetBorder { window: 2, on: true },
            Action::SetVisible { window: 1, on: true },
            Action::SetVisible { window: 2, on: true },
        ]
    );
}

#[test]
fn test_minimized_window_blocks_hide_all() {
    let mut engine = Engine::new(test_settings(15, true), SavedState::new(), 1920, 1080);
    engine.handle_event(WindowEvent::Created { window: 1, name: Some("A".to_string()), damage: 1 });
    engine.handle_event(WindowEvent::Created { window: 2, name: Some("B".to_string()), damage: 2 });
    let acts = engine.handle_event(WindowEvent::VisibilityChanged { window: 2, hidden: true });
    assert_eq!(acts, vec![Action::SetMinimized { window: 2 }]);

    // Window 2 is minimized, so losing focus does not hide all.
    let acts = engine.handle_event(WindowEvent::FocusLost { window: 1 });
    assert_eq!(acts, vec![Action::SetBorder { window: 1, on: false }]);
}

#[test]
fn test_damage_matches_rendering_handle() {
    let mut engine = engine_with_tile_at(50, 50, 15);
    assert_eq!(
        engine.handle_event(WindowEvent::DamageNotify { damage: 91 }),
        vec![Action::RedrawDamaged { window: 11 }]
    );
    assert_eq!(engine.handle_event(WindowEvent::DamageNotify { damage: 17 }), vec![]);
}

#[test]
fn test_unidentified_window_uses_session_position() {
    // A drag of an unidentified window records a session position; a later
    // window creation without a name reuses it.
    let mut session = SavedState::new();
    session.update_window_position(33, 123, 234);
    let mut engine = Engine::new(test_settings(15, false), session, 1920, 1080);
    let acts = engine.handle_event(WindowEvent::Created {
        window: 33,
        name: Some(String::new()),
        damage: 8,
    });
    assert_eq!(
        acts,
        vec![Action::CreatePreview {
            window: 33,
            name: String::new(),
            x: 123,
            y: 234,
            width: 240,
            height: 135,
        }]
    );
}
