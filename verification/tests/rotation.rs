use pixelsynth::Rotation;

#[test]
fn quarter_turns_are_valid() {
    assert_eq!(Rotation::from_degrees(90), Some(Rotation::Quarter));
    assert_eq!(Rotation::from_degrees(180), Some(Rotation::Half));
    assert_eq!(Rotation::from_degrees(270), Some(Rotation::ThreeQuarters));
}

#[test]
fn other_angles_are_not() {
    assert_eq!(Rotation::from_degrees(0), None);
    assert_eq!(Rotation::from_degrees(45), None);
    assert_eq!(Rotation::from_degrees(360), None);
    assert_eq!(Rotation::from_degrees(450), None);
    assert_eq!(Rotation::from_degrees(u32::MAX), None);
}

#[test]
fn degrees_and_rotation_round_trip() {
    for rotation in [Rotation::Quarter, Rotation::Half, Rotation::ThreeQuarters] {
        assert_eq!(Rotation::from_degrees(rotation.degrees()), Some(rotation));
    }
    assert_eq!(Rotation::Quarter.degrees(), 90);
    assert_eq!(Rotation::Half.degrees(), 180);
    assert_eq!(Rotation::ThreeQuarters.degrees(), 270);
}
