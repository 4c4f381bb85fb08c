use tabletop::coords::{Kind, Pos, Suffix};
use tabletop::defs::{GameDef, GameDefBuilder, KindDef, PosDef, SuffixDef, SuffixRangeDef};
use tabletop::error::{Error, ItemError};
use tabletop::lookup::Collision;
use tabletop::specs::{compile, GameSpec};
use tabletop::suffix::SuffixRange;

fn whist_def() -> GameDef {
    GameDefBuilder::new("whist")
        .min_players(3)
        .max_players(5)
        .kind(KindDef::new("card").suffix_range(1, 52))
        .kind(KindDef::new("leader"))
        .kind(KindDef::new("to_play"))
        .kind(
            KindDef::new("suit")
                .suffix(SuffixDef::new("hearts"))
                .suffix(SuffixDef::new("clubs"))
                .suffix(SuffixDef::new("diamonds"))
                .suffix(SuffixDef::new("spades")),
        )
        .pos(PosDef::new("deck").hidden())
        .pos(PosDef::new("discard").hidden())
        .pos(PosDef::new("hand").hidden().separate())
        .pos(PosDef::new("trick").separate())
        .pos(PosDef::new("trump"))
        .build()
}

fn check_whist_spec(spec: &GameSpec) {
    let deck = spec.pos_specs().find_by_label(&"deck".to_string()).unwrap();
    assert_eq!(true, deck.hidden);
    assert_eq!(false, deck.ordered);
    assert_eq!(false, deck.separate);

    let suit = spec.kind_specs().find_by_label(&"suit".to_string()).unwrap();
    assert_eq!(Some(Suffix(1)), suit.suffixes.find_by_label(&"hearts".to_string()));
    assert_eq!(Some(Suffix(4)), suit.suffixes.find_by_label(&"spades".to_string()));
    assert_eq!(None, suit.suffixes.find_by_label(&"ravenclaw".to_string()));
    assert_eq!(true, suit.suffixes.is_valid(Suffix(1)));
    assert_eq!(true, suit.suffixes.is_valid(Suffix(4)));
    assert_eq!(false, suit.suffixes.is_valid(Suffix(5)));

    let cards = spec.kind_specs().find_by_label(&"card".to_string()).unwrap();
    assert_eq!(None, cards.suffixes.find_by_label(&"ravenclaw".to_string()));
    assert_eq!(false, cards.suffixes.is_valid(Suffix(0)));
    assert_eq!(true, cards.suffixes.is_valid(Suffix(1)));
    assert_eq!(true, cards.suffixes.is_valid(Suffix(52)));
    assert_eq!(false, cards.suffixes.is_valid(Suffix(53)));

    let leader = spec.kind_specs().find_by_label(&"leader".to_string()).unwrap();
    assert_eq!(false, leader.suffixes.is_valid(Suffix(-1)));
    assert_eq!(true, leader.suffixes.is_valid(Suffix(0)));
    assert_eq!(false, leader.suffixes.is_valid(Suffix(1)));
}

#[test]
fn specs_can_convert_def_into_spec() {
    let spec: GameSpec = compile(whist_def()).unwrap();
    check_whist_spec(&spec);
}

#[test]
fn mod_can_convert_def_into_spec() {
    let spec: GameSpec = compile(whist_def()).unwrap();
    check_whist_spec(&spec);
}

#[test]
fn can_not_convert_game_def_with_colliding_kind_labels() {
    let def = GameDefBuilder::new("whist")
        .min_players(3)
        .max_players(5)
        .kind(KindDef::new("card"))
        .kind(KindDef::new("card"))
        .build();

    let spec: Result<GameSpec, Error> = compile(def);
    let err = spec.unwrap_err();

    assert_eq!(Error::InvalidKindTable(Collision::LabelCollision("card".to_owned())), err);
}

#[test]
fn can_not_convert_game_def_with_colliding_kind_ids() {
    let def = GameDefBuilder::new("whist")
        .min_players(3)
        .max_players(5)
        .kind(KindDef::new("beans").id(2))
        .kind(KindDef::new("card").id(2))
        .build();

    let spec: Result<GameSpec, Error> = compile(def);
    let err = spec.unwrap_err();

    assert_eq!(Error::InvalidKindTable(Collision::IdCollision(Kind::new(2).unwrap())), err);
}

#[test]
fn can_not_convert_game_def_with_colliding_kind_suffix_labels() {
    let def = GameDefBuilder::new("whist")
        .min_players(3)
        .max_players(5)
        .kind(KindDef::new("beans").suffix(SuffixDef::new("coke")).suffix(SuffixDef::new("coke")))
        .build();

    let spec: Result<GameSpec, Error> = compile(def);
    let err = spec.unwrap_err();

    assert_eq!(
        Error::InvalidKind(ItemError::InvalidSuffixTable(Collision::LabelCollision(
            "coke".to_owned()
        ))),
        err
    );
}

#[test]
fn can_not_convert_game_def_with_colliding_pos_labels() {
    let def = GameDefBuilder::new("whist")
        .min_players(3)
        .max_players(5)
        .pos(PosDef::new("card"))
        .pos(PosDef::new("card"))
        .build();

    let spec: Result<GameSpec, Error> = compile(def);
    let err = spec.unwrap_err();

    assert_eq!(Error::InvalidPosTable(Collision::LabelCollision("card".to_owned())), err);
}

#[test]
fn can_not_convert_game_def_with_colliding_pos_ids() {
    let def = GameDefBuilder::new("whist")
        .min_players(3)
        .max_players(5)
        .pos(PosDef::new("beans").id(2))
        .pos(PosDef::new("card").id(2))
        .build();

    let spec: Result<GameSpec, Error> = compile(def);
    let err = spec.unwrap_err();

    assert_eq!(Error::InvalidPosTable(Collision::IdCollision(Pos::new(2).unwrap())), err);
}

#[test]
fn can_not_convert_game_def_with_colliding_pos_suffix_labels() {
    let def = GameDefBuilder::new("whist")
        .min_players(3)
        .max_players(5)
        .pos(PosDef::new("beans").suffix(SuffixDef::new("coke")).suffix(SuffixDef::new("coke")))
        .build();

    let spec: Result<GameSpec, Error> = compile(def);
    let err = spec.unwrap_err();

    assert_eq!(
        Error::InvalidPos(ItemError::InvalidSuffixTable(Collision::LabelCollision(
            "coke".to_owned()
        ))),
        err
    );
}

#[test]
fn suffix_range_with_equal_bounds_is_refused() {
    let r = SuffixRange::from_def(SuffixRangeDef { min: 5, max: 5 });
    match r {
        Err(e) => assert_eq!(ItemError::InvalidSuffixRange(5, 5), e),
        Ok(_) => panic!("a range needs a strictly smaller minimum"),
    }

    let def = GameDefBuilder::new("whist").kind(KindDef::new("card").suffix_range(5, 5)).build();
    let err = compile(def).unwrap_err();
    assert_eq!(Error::InvalidKind(ItemError::InvalidSuffixRange(5, 5)), err);
}

#[test]
fn suffix_range_is_inclusive_at_both_ends() {
    let range = SuffixRange::from_def(SuffixRangeDef { min: 1, max: 52 }).unwrap();
    assert!(range.contains_suffix(Suffix(1)));
    assert!(range.contains_suffix(Suffix(52)));
    assert!(!range.contains_suffix(Suffix(0)));
    assert!(!range.contains_suffix(Suffix(53)));
}

#[test]
fn suffix_range_and_rows_together_are_refused() {
    let def = GameDefBuilder::new("whist")
        .kind(KindDef::new("card").suffix_range(1, 52).suffix(SuffixDef::new("hearts")))
        .build();
    let err = compile(def).unwrap_err();
    assert_eq!(Error::InvalidKind(ItemError::SuffixesAndRangeDefined), err);
}

#[test]
fn out_of_bounds_ids_are_refused() {
    let def = GameDefBuilder::new("whist").kind(KindDef::new("card").id(10000)).build();
    assert_eq!(Error::InvalidKind(ItemError::InvalidId(10000)), compile(def).unwrap_err());

    let def = GameDefBuilder::new("whist").pos(PosDef::new("deck").id(0)).build();
    assert_eq!(Error::InvalidPos(ItemError::InvalidId(0)), compile(def).unwrap_err());
}

#[test]
fn player_counts_must_fit_the_narrow_width() {
    let def = GameDefBuilder::new("whist").min_players(300).max_players(301).build();
    assert_eq!(Error::InvalidNumPlayers(300), compile(def).unwrap_err());

    let def = GameDefBuilder::new("whist").min_players(2).max_players(300).build();
    assert_eq!(Error::InvalidNumPlayers(300), compile(def).unwrap_err());

    let spec = compile(GameDefBuilder::new("whist").min_players(3).max_players(5).build()).unwrap();
    assert_eq!(3, spec.min_players());
    assert_eq!(5, spec.max_players());
    assert_eq!("whist", spec.label());
}

#[test]
fn default_ids_are_one_based_positions() {
    let spec = compile(whist_def()).unwrap();
    let card = spec.kind_specs().find_by_label(&"card".to_string()).unwrap();
    assert_eq!(1, card.id.as_u32());
    let suit = spec.kind_specs().find_by_label(&"suit".to_string()).unwrap();
    assert_eq!(4, suit.id.as_u32());
    let trump = spec.pos_specs().find_by_label(&"trump".to_string()).unwrap();
    assert_eq!(5, trump.id.as_u32());
}
