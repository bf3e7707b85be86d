use eve_l_preview::types::Position;

#[test]
fn test_position_creation() {
    let pos = Position::new(100, 200);
    assert_eq!(pos.x, 100);
    assert_eq!(pos.y, 200);
}

#[test]
fn test_position_tuple_conversion() {
    let pos = Position::new(150, 250);
    let tuple = pos.as_tuple();
    assert_eq!(tuple, (150, 250));

    let pos2 = Position::from_tuple(tuple);
    assert_eq!(pos, pos2);
}

#[test]
fn test_position_from_trait() {
    let pos: Position = (100, 200).into();
    assert_eq!(pos.x, 100);
    assert_eq!(pos.y, 200);

    let tuple: (i16, i16) = pos.into();
    assert_eq!(tuple, (100, 200));
}

#[test]
fn test_position_default() {
    let pos = Position::default();
    assert_eq!(pos.x, 0);
    assert_eq!(pos.y, 0);
}

#[test]
fn test_character_settings_accessors() {
    let settings = eve_l_preview::types::CharacterSettings::new(10, -20, 480, 270);
    assert_eq!(settings.position(), Position::new(10, -20));
    assert_eq!(settings.dimensions(), (480, 270));
}

#[test]
fn test_text_offset_from_border_edge() {
    let offset = eve_l_preview::types::TextOffset::from_border_edge(15, 25);
    assert_eq!(offset.x, 15);
    assert_eq!(offset.y, 25);
}
