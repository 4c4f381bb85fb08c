use tabletop::coords::{Pos, QKind, QPos, Region, Suffix};
use tabletop::defs::{GameDef, GameDefBuilder, KindDef, PosDef, SuffixDef};
use tabletop::specs::{compile, GameSpec};
use tabletop::state::{Cmd, CmdError, CreatePieces, ExportRow, State};

fn whist_def() -> GameDef {
    GameDefBuilder::new("whist")
        .min_players(3)
        .max_players(5)
        .kind(KindDef::new("card").suffix_range(1, 52))
        .kind(KindDef::new("leader"))
        .kind(KindDef::new("to_play"))
        .kind(
            KindDef::new("suit")
                .suffix(SuffixDef::new("hearts"))
                .suffix(SuffixDef::new("clubs"))
                .suffix(SuffixDef::new("diamonds"))
                .suffix(SuffixDef::new("spades")),
        )
        .pos(PosDef::new("deck").hidden())
        .pos(PosDef::new("discard").hidden())
        .pos(PosDef::new("hand").hidden().separate())
        .pos(PosDef::new("trick").separate())
        .pos(PosDef::new("trump"))
        .build()
}

fn whist_spec() -> GameSpec {
    compile(whist_def()).unwrap()
}

fn row(
    spec: &GameSpec,
    pos: &str,
    pos_suffix: i32,
    region: u16,
    kind: &str,
    kind_suffix: i32,
    count: u32,
) -> ExportRow {
    let pos = spec.pos_specs().find_by_label(&pos.to_string()).unwrap().id;
    let kind = spec.kind_specs().find_by_label(&kind.to_string()).unwrap().id;
    let pos = QPos { pos, region: Region(region), suffix: Suffix(pos_suffix) };
    let kind = QKind { kind, suffix: Suffix(kind_suffix) };
    ExportRow { pos, kind, count }
}

fn create_pieces(
    spec: &GameSpec,
    pos: &str,
    pos_suffix: i32,
    region: u16,
    kind: &str,
    kind_suffix: i32,
    count: u32,
) -> Cmd {
    let pos = spec.pos_specs().find_by_label(&pos.to_string()).unwrap().id;
    let kind = spec.kind_specs().find_by_label(&kind.to_string()).unwrap().id;
    let pos = QPos { pos, region: Region(region), suffix: Suffix(pos_suffix) };
    let kind = QKind { kind, suffix: Suffix(kind_suffix) };
    Cmd::CreatePieces(CreatePieces { pos, kind, count })
}

fn apply(state: State, cmd: &Cmd) -> State {
    let mut tx = state.start_tx();
    tx.apply(cmd).unwrap();
    tx.commit()
}

fn assert_rows(state: &State, expected_rows: &[ExportRow]) {
    let mut actual_rows = state.export_rows();
    actual_rows.sort();
    assert_eq!(expected_rows, actual_rows.as_slice());
}

fn apply_named(
    spec: &GameSpec,
    state: State,
    pos: &str,
    pos_suffix: i32,
    region: u16,
    kind: &str,
    kind_suffix: i32,
    count: u32,
) -> State {
    apply(state, &create_pieces(spec, pos, pos_suffix, region, kind, kind_suffix, count))
}

#[test]
fn can_create_pieces_in_unordered_pos() {
    let spec = whist_spec();
    let mut state = State::new(&spec);

    state = apply_named(&spec, state, "deck", 0, 0, "card", 1, 1);
    state = apply_named(&spec, state, "deck", 0, 0, "card", 1, 3);

    assert_rows(&state, &vec![row(&spec, "deck", 0, 0, "card", 1, 4)]);
}

#[test]
fn a_fresh_state_has_one_shard_per_position_and_exports_nothing() {
    let spec = whist_spec();
    let state = State::new(&spec);
    assert_eq!(5, state.shards.len());
    assert!(state.export_rows().is_empty());
}

#[test]
fn export_rows_are_sorted_whatever_the_insertion_order() {
    let spec = whist_spec();
    // Spades (suffix 4) first, hearts (suffix 1) second: hearts still sorts
    // ahead of spades because it has the lower suffix id.
    let mut state = State::new(&spec);
    state = apply_named(&spec, state, "deck", 0, 0, "suit", 4, 1);
    state = apply_named(&spec, state, "deck", 0, 0, "suit", 1, 1);
    let forward = state.export_rows();

    let mut state = State::new(&spec);
    state = apply_named(&spec, state, "deck", 0, 0, "suit", 1, 1);
    state = apply_named(&spec, state, "deck", 0, 0, "suit", 4, 1);
    let backward = state.export_rows();

    assert_eq!(forward, backward);
    assert_eq!(
        vec![
            row(&spec, "deck", 0, 0, "suit", 1, 1),
            row(&spec, "deck", 0, 0, "suit", 4, 1),
        ],
        forward
    );
}

#[test]
fn a_command_for_an_undeclared_position_is_refused() {
    let spec = whist_spec();
    let state = State::new(&spec);
    let absent_pos = Pos::new(77).unwrap();
    let cmd = Cmd::CreatePieces(CreatePieces {
        pos: QPos { pos: absent_pos, region: Region(0), suffix: Suffix(0) },
        kind: QKind {
            kind: spec.kind_specs().find_by_label(&"card".to_string()).unwrap().id,
            suffix: Suffix(1),
        },
        count: 1,
    });
    let mut tx = state.start_tx();
    assert_eq!(Err(CmdError::NoSuchPos(absent_pos)), tx.apply(&cmd));
    let state = tx.commit();
    assert!(state.export_rows().is_empty());
}

#[test]
fn regions_partition_an_unordered_position() {
    let spec = whist_spec();
    let mut state = State::new(&spec);
    state = apply_named(&spec, state, "hand", 0, 1, "card", 7, 2);
    state = apply_named(&spec, state, "hand", 0, 2, "card", 7, 5);
    assert_rows(
        &state,
        &vec![
            row(&spec, "hand", 0, 1, "card", 7, 2),
            row(&spec, "hand", 0, 2, "card", 7, 5),
        ],
    );
}

fn ordered_spec() -> GameSpec {
    let def = GameDefBuilder::new("whist")
        .min_players(3)
        .max_players(5)
        .kind(KindDef::new("card").suffix_range(1, 52))
        .pos(PosDef::new("deck").hidden())
        .pos(PosDef::new("trick").separate().ordered())
        .build();
    compile(def).unwrap()
}

#[test]
fn an_ordered_slot_holds_one_kind_and_is_overwritten() {
    let spec = ordered_spec();
    let mut state = State::new(&spec);
    state = apply_named(&spec, state, "trick", 3, 0, "card", 11, 1);
    assert_rows(&state, &vec![row(&spec, "trick", 3, 0, "card", 11, 1)]);

    state = apply_named(&spec, state, "trick", 3, 0, "card", 12, 1);
    assert_rows(&state, &vec![row(&spec, "trick", 3, 0, "card", 12, 1)]);

    state = apply_named(&spec, state, "trick", 4, 0, "card", 13, 1);
    assert_rows(
        &state,
        &vec![
            row(&spec, "trick", 3, 0, "card", 12, 1),
            row(&spec, "trick", 4, 0, "card", 13, 1),
        ],
    );
}

#[test]
fn counts_accumulate_and_saturate() {
    let spec = whist_spec();
    let mut state = State::new(&spec);
    state = apply_named(&spec, state, "deck", 0, 0, "card", 1, u32::MAX - 1);
    state = apply_named(&spec, state, "deck", 0, 0, "card", 1, 5);
    assert_rows(&state, &vec![row(&spec, "deck", 0, 0, "card", 1, u32::MAX)]);
}
