use eve_l_preview::charmap::CharacterMap;
use eve_l_preview::resolver::SavedState;
use eve_l_preview::types::CharacterSettings;

#[test]
fn test_persisted_position_wins_over_session() {
    // A persisted position for "Alice" plus a session position for handle 42:
    // resolving ("Alice", 42) returns the persisted position.
    let mut positions = CharacterMap::new();
    positions.insert("Alice".to_string(), CharacterSettings::new(10, 20, 0, 0));

    let mut state = SavedState::new();
    state.update_window_position(42, 300, 400);

    assert_eq!(state.get_position("Alice", 42, &positions), Some((10, 20)));
}

#[test]
fn test_session_position_for_unidentified_window() {
    // Resolving ("", 42) with a prior session position for handle 42 returns
    // that session position.
    let positions = CharacterMap::new();
    let mut state = SavedState::new();
    state.update_window_position(42, 300, 400);

    assert_eq!(state.get_position("", 42, &positions), Some((300, 400)));
}

#[test]
fn test_unknown_window_and_name_resolves_to_none() {
    let positions = CharacterMap::new();
    let state = SavedState::new();
    assert_eq!(state.get_position("", 42, &positions), None);
    assert_eq!(state.get_position("Alice", 42, &positions), None);
}

#[test]
fn test_inherit_window_position_policy() {
    // A never-seen name uses the window's session position only under the
    // inherit policy.
    let positions = CharacterMap::new();
    let mut state = SavedState::new();
    state.update_window_position(42, 300, 400);

    assert_eq!(state.get_position("Newcomer", 42, &positions), None);

    state.set_inherit_window_position(true);
    assert!(state.inherit_window_position());
    assert_eq!(state.get_position("Newcomer", 42, &positions), Some((300, 400)));
}

#[test]
fn test_update_window_position_overwrites() {
    let positions = CharacterMap::new();
    let mut state = SavedState::new();
    state.update_window_position(7, 1, 2);
    state.update_window_position(7, 3, 4);
    assert_eq!(state.get_position("", 7, &positions), Some((3, 4)));
}
