use eve_l_preview::cycle::CycleState;

#[test]
fn test_cycle_forward_basic() {
    let mut state = CycleState::new(vec![
        "Char1".to_string(),
        "Char2".to_string(),
        "Char3".to_string(),
    ]);

    state.add_window("Char1".to_string(), 100);
    state.add_window("Char2".to_string(), 200);
    state.add_window("Char3".to_string(), 300);

    // Start at index 0 (Char1)
    assert_eq!(state.cycle_forward(), Some(200)); // -> Char2
    assert_eq!(state.cycle_forward(), Some(300)); // -> Char3
    assert_eq!(state.cycle_forward(), Some(100)); // -> Char1 (wrap)
}

#[test]
fn test_cycle_backward_basic() {
    let mut state = CycleState::new(vec![
        "Char1".to_string(),
        "Char2".to_string(),
        "Char3".to_string(),
    ]);

    state.add_window("Char1".to_string(), 100);
    state.add_window("Char2".to_string(), 200);
    state.add_window("Char3".to_string(), 300);

    // Start at index 0 (Char1)
    assert_eq!(state.cycle_backward(), Some(300)); // <- Char3 (wrap)
    assert_eq!(state.cycle_backward(), Some(200)); // <- Char2
    assert_eq!(state.cycle_backward(), Some(100)); // <- Char1
}

#[test]
fn test_set_current() {
    let mut state = CycleState::new(vec!["Char1".to_string(), "Char2".to_string()]);

    state.add_window("Char1".to_string(), 100);
    state.add_window("Char2".to_string(), 200);

    assert!(state.set_current("Char2"));
    assert_eq!(state.cycle_forward(), Some(100)); // Next after Char2 is Char1
}

#[test]
fn test_skip_inactive_characters() {
    let mut state = CycleState::new(vec![
        "Active1".to_string(),
        "Inactive".to_string(),
        "Active2".to_string(),
    ]);

    state.add_window("Active1".to_string(), 100);
    state.add_window("Active2".to_string(), 300);
    // "Inactive" not added

    // Should skip "Inactive" in cycle
    assert_eq!(state.cycle_forward(), Some(300)); // Active1 -> Active2
    assert_eq!(state.cycle_forward(), Some(100)); // Active2 -> Active1 (wrap, skip Inactive)
}

#[test]
fn test_remove_current_character() {
    let mut state = CycleState::new(vec!["Char1".to_string(), "Char2".to_string()]);

    state.add_window("Char1".to_string(), 100);
    state.add_window("Char2".to_string(), 200);

    state.set_current("Char2");
    state.remove_window(200); // Remove current character

    // Index should be clamped and cycle should still work
    assert_eq!(state.cycle_forward(), Some(100));
}

#[test]
fn test_empty_order() {
    let mut state = CycleState::new(vec![]);
    assert_eq!(state.cycle_forward(), None);
    assert_eq!(state.cycle_backward(), None);
}

#[test]
fn test_auto_add_new_character() {
    let mut state = CycleState::new(vec!["Char1".to_string()]);

    state.add_window("Char1".to_string(), 100);
    state.add_window("NewChar".to_string(), 200);

    // NewChar should be auto-added to config order
    assert_eq!(state.config_order().len(), 2);
    assert!(state.config_order().contains(&"NewChar".to_string()));
}

#[test]
fn test_update_character_name() {
    let mut state = CycleState::new(vec!["OldName".to_string()]);

    state.add_window("OldName".to_string(), 100);
    state.update_character(100, "NewName".to_string());

    // Old name should be removed, new name added
    assert!(state.active_window("OldName").is_none());
    assert_eq!(state.active_window("NewName"), Some(100));
}

#[test]
fn test_set_current_unknown_name_fails() {
    let mut state = CycleState::new(vec!["Char1".to_string()]);
    state.add_window("Char1".to_string(), 100);
    assert!(!state.set_current("Nobody"));
    // The cursor is unchanged, so cycling still wraps onto Char1.
    assert_eq!(state.cycle_forward(), Some(100));
}

#[test]
fn test_full_wrap_without_active_entries() {
    let mut state = CycleState::new(vec!["Char1".to_string(), "Char2".to_string()]);
    // Nothing active: cycling finds no target.
    assert_eq!(state.cycle_forward(), None);
    state.add_window("Char1".to_string(), 100);
    state.remove_window(100);
    assert_eq!(state.cycle_forward(), None);
    assert_eq!(state.cycle_backward(), None);
}

#[test]
fn test_cycle_roundtrip_restores_cursor() {
    // Forward N times then backward N times lands on the original entry,
    // when the cursor starts on an active entry.
    let mut state = CycleState::new(vec![
        "A".to_string(),
        "B".to_string(),
        "C".to_string(),
        "D".to_string(),
    ]);
    state.add_window("A".to_string(), 1);
    state.add_window("C".to_string(), 3);
    state.add_window("D".to_string(), 4);
    assert!(state.set_current("C"));

    for _ in 0..3 {
        assert!(state.cycle_forward().is_some());
    }
    for _ in 0..2 {
        assert!(state.cycle_backward().is_some());
    }
    // One more backward step returns to C's window.
    assert_eq!(state.cycle_backward(), Some(3));
    assert_eq!(state.cycle_forward(), Some(4)); // next after C is D
}
