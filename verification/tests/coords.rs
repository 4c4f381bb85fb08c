use tabletop::coords::{InvalidKind, InvalidPos, Kind, Pos, MAX_KIND, MAX_POS, MIN_KIND, MIN_POS};

#[test]
fn coords_can_convert_numbers_to_kind() {
    assert_eq!(MIN_KIND, Kind::new(MIN_KIND).unwrap().as_u32());
    assert_eq!(MAX_KIND, Kind::new(MAX_KIND).unwrap().as_u32());
}

#[test]
fn coords_can_convert_kind_to_u32() {
    let t: Kind = Kind::new(56).unwrap();
    assert_eq!(56, t.as_u32());
}

#[test]
fn coords_can_convert_kind_to_usize() {
    let t: Kind = Kind::new(56).unwrap();
    assert_eq!(56, t.as_usize());
}

#[test]
fn coords_can_convert_zero_to_kind() {
    let r: Result<Kind, InvalidKind> = Kind::new(0);
    assert_eq!(Err(InvalidKind(0)), r);
}

#[test]
fn coords_can_convert_over_max_to_kind() {
    let r: Result<Kind, InvalidKind> = Kind::new(MAX_KIND + 1);
    assert_eq!(Err(InvalidKind(10000)), r);
}

#[test]
fn coords_check_max_kind_is_a_valid_u16() {
    assert!(u16::MAX as u32 > MAX_KIND);
}

#[test]
fn kind_debug_is_three_digit_zero_padded_number() {
    let kind: Kind = Kind::new(45).unwrap();
    assert_eq!("045", kind.debug_string());
}

#[test]
fn kind_display_is_number() {
    let kind: Kind = Kind::new(45).unwrap();
    assert_eq!("45", kind.display_string());
}

#[test]
fn coords_can_convert_numbers_to_pos() {
    assert_eq!(MIN_POS, Pos::new(MIN_POS).unwrap().as_u32());
    assert_eq!(MAX_POS, Pos::new(MAX_POS).unwrap().as_u32());
}

#[test]
fn coords_can_convert_zero_to_pos() {
    let r: Result<Pos, InvalidPos> = Pos::new(0);
    assert_eq!(Err(InvalidPos(0)), r);
}

#[test]
fn can_convert_pos_to_u32() {
    let t: Pos = Pos::new(56).unwrap();
    assert_eq!(56, t.as_u32());
}

#[test]
fn can_convert_pos_to_usize() {
    let t: Pos = Pos::new(56).unwrap();
    assert_eq!(56, t.as_usize());
}

#[test]
fn coords_can_convert_over_max_to_pos() {
    let r: Result<Pos, InvalidPos> = Pos::new(MAX_POS + 1);
    assert_eq!(Err(InvalidPos(10000)), r);
}

#[test]
fn coords_check_max_pos_is_a_valid_u16() {
    assert!(u16::MAX as u32 > MAX_POS);
}

#[test]
fn pos_debug_is_three_digit_zero_padded_number() {
    let pos: Pos = Pos::new(45).unwrap();
    assert_eq!("045", pos.debug_string());
}

#[test]
fn pos_display_is_number() {
    let pos: Pos = Pos::new(45).unwrap();
    assert_eq!("45", pos.display_string());
}

#[test]
fn kind_can_convert_numbers_to_kind() {
    assert_eq!(MIN_KIND, Kind::new(MIN_KIND).unwrap().as_u32());
    assert_eq!(MAX_KIND, Kind::new(MAX_KIND).unwrap().as_u32());
}

#[test]
fn kind_can_convert_kind_to_u32() {
    let t: Kind = Kind::new(56).unwrap();
    assert_eq!(56, t.as_u32());
}

#[test]
fn kind_can_convert_kind_to_usize() {
    let t: Kind = Kind::new(56).unwrap();
    assert_eq!(56, t.as_usize());
}

#[test]
fn kind_can_convert_zero_to_kind() {
    let r: Result<Kind, InvalidKind> = Kind::new(0);
    assert_eq!(Err(InvalidKind(0)), r);
}

#[test]
fn kind_can_convert_over_max_to_kind() {
    let r: Result<Kind, InvalidKind> = Kind::new(MAX_KIND + 1);
    assert_eq!(Err(InvalidKind(10000)), r);
}

#[test]
fn kind_check_max_kind_is_a_valid_u16() {
    assert!(u16::MAX as u32 > MAX_KIND);
}

#[test]
fn kind_debug_is_number() {
    let kind: Kind = Kind::new(45).unwrap();
    assert_eq!("45", kind.display_string());
}

#[test]
fn pos_can_convert_numbers_to_pos() {
    assert_eq!(MIN_POS, Pos::new(MIN_POS).unwrap().as_u32());
    assert_eq!(MAX_POS, Pos::new(MAX_POS).unwrap().as_u32());
}

#[test]
fn pos_can_convert_zero_to_pos() {
    let r: Result<Pos, InvalidPos> = Pos::new(0);
    assert_eq!(Err(InvalidPos(0)), r);
}

#[test]
fn pos_can_convert_over_max_to_pos() {
    let r: Result<Pos, InvalidPos> = Pos::new(MAX_POS + 1);
    assert_eq!(Err(InvalidPos(10000)), r);
}

#[test]
fn pos_check_max_pos_is_a_valid_u16() {
    assert!(u16::MAX as u32 > MAX_POS);
}

#[test]
fn pos_debug_is_number() {
    let pos: Pos = Pos::new(45).unwrap();
    assert_eq!("45", pos.display_string());
}

#[test]
fn four_digit_values_render_whole() {
    let kind: Kind = Kind::new(1234).unwrap();
    assert_eq!("1234", kind.debug_string());
    assert_eq!("1234", kind.display_string());
}

#[test]
fn round_trip_holds_across_the_whole_range() {
    for u in [1u32, 2, 9, 10, 99, 100, 999, 1000, 9998, 9999] {
        assert_eq!(u, Kind::new(u).unwrap().as_u32());
        assert_eq!(u, Pos::new(u).unwrap().as_u32());
    }
    assert!(Kind::new(0).is_err());
    assert!(Kind::new(10000).is_err());
    assert!(Pos::new(0).is_err());
    assert!(Pos::new(10000).is_err());
}
