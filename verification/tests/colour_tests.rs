use termgrid::colour::{Colour, ColoursMap, ColoursMapBuildError, ParseColourError};

#[test]
fn colour_from_str() {
    assert_eq!(Ok(Colour::new(0x42, 0x9d, 0x4a)), Colour::from_str("#429d4a"));
    assert_eq!(Ok(Colour::new(0xed, 0x4a, 0x56)), Colour::from_str("#ED4A56"));
    assert_eq!(Ok(Colour::new(0xdd, 0xaa, 0x99)), Colour::from_str("#da9"));
    assert_eq!(Ok(Colour::new(0xcc, 0x44, 0x22)), Colour::from_str("#C42"));
    assert_eq!(Err(ParseColourError::InvalidLength(0)), Colour::from_str(""));
    assert_eq!(Err(ParseColourError::InvalidLength(5)), Colour::from_str("#abcd"));
    assert_eq!(Err(ParseColourError::InvalidFirstChar('w')), Colour::from_str("wxyz"));
    assert_eq!(Err(ParseColourError::ValueParse), Colour::from_str("#01g"));
}

#[test]
fn colour_rejects_sign_characters() {
    // Only hexadecimal digits may follow the hash.
    assert_eq!(Err(ParseColourError::ValueParse), Colour::from_str("#+12"));
    assert_eq!(Err(ParseColourError::ValueParse), Colour::from_str("#-12345"));
}

#[test]
fn colours_map_build_ok() {
    let map = ColoursMap::build(vec![
        ("black".to_string(), "#000000".to_string()),
        ("white".to_string(), "#ffffff".to_string()),
        ("default-foreground".to_string(), "white".to_string()),
        ("default-background".to_string(), "black".to_string()),
        ("inverse-foreground".to_string(), "default-background".to_string()),
        ("inverse-background".to_string(), "default-foreground".to_string()),
    ])
    .unwrap();
    assert_eq!(6, map.len());
    assert_eq!(Some(Colour::new(0x00, 0x00, 0x00)), map.get("black"));
    assert_eq!(Some(Colour::new(0xff, 0xff, 0xff)), map.get("white"));
    assert_eq!(Some(Colour::new(0xff, 0xff, 0xff)), map.get("default-foreground"));
    assert_eq!(Some(Colour::new(0x00, 0x00, 0x00)), map.get("default-background"));
    assert_eq!(Some(Colour::new(0x00, 0x00, 0x00)), map.get("inverse-foreground"));
    assert_eq!(Some(Colour::new(0xff, 0xff, 0xff)), map.get("inverse-background"));
}

#[test]
fn colours_map_build_error() {
    assert_eq!(
        Some(ColoursMapBuildError::ParseError(
            "a".to_string(),
            Colour::from_str("#hello!").unwrap_err()
        )),
        ColoursMap::build(vec![("a".to_string(), "#hello!".to_string())]).err()
    );
    assert_eq!(
        Some(ColoursMapBuildError::InvalidReference("a".to_string(), "b".to_string())),
        ColoursMap::build(vec![("a".to_string(), "b".to_string())]).err()
    );
    assert_eq!(
        Some(ColoursMapBuildError::CircularReference("a".to_string(), "a".to_string())),
        ColoursMap::build(vec![("a".to_string(), "a".to_string())]).err()
    );
}

#[test]
fn colour_parse_reference_values() {
    assert_eq!(Ok(Colour::new(255, 255, 255)), Colour::from_str("#ffffff"));
    assert_eq!(Ok(Colour::new(0, 170, 0)), Colour::from_str("#0a0"));
}

#[test]
fn colour_hex_round_trip() {
    let samples = vec![
        Colour::new(0, 0, 0),
        Colour::new(255, 255, 255),
        Colour::new(12, 200, 7),
        Colour::new(0x42, 0x9d, 0x4a),
    ];
    for c in samples {
        let hex = c.to_hex();
        assert_eq!(Ok(c), Colour::from_str(&hex));
    }
    assert_eq!("#0cc807", Colour::new(12, 200, 7).to_hex());
}

#[test]
fn colours_map_chain_resolves_in_passes() {
    let map = ColoursMap::build(vec![
        ("d".to_string(), "c".to_string()),
        ("c".to_string(), "b".to_string()),
        ("b".to_string(), "a".to_string()),
        ("a".to_string(), "#123456".to_string()),
    ])
    .unwrap();
    assert_eq!(4, map.len());
    assert_eq!(Some(Colour::new(0x12, 0x34, 0x56)), map.get("d"));
}

#[test]
fn colours_map_two_element_cycle() {
    let err = ColoursMap::build(vec![
        ("a".to_string(), "b".to_string()),
        ("b".to_string(), "a".to_string()),
    ])
    .err()
    .unwrap();
    assert_eq!(
        ColoursMapBuildError::CircularReference("a".to_string(), "b".to_string()),
        err
    );
}
