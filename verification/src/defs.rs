//! Raw, author-supplied declaration of a game: its piece kinds and board
//! positions, each with a label, a numeric id defaulting to its 1-based place
//! in the list, and either a suffix range or explicit suffix rows. Builders
//! fill the defaults; compilation (see `specs`) validates the result.

use vstd::prelude::*;

verus! {

/// Declared range of suffix values, bounds included when queried.
#[derive(Debug, Eq, PartialEq, Copy, Clone, Structural)]
pub struct SuffixRangeDef {
    pub min: i32,
    pub max: i32,
}

/// One declared, labelled suffix row.
#[derive(Debug, PartialEq)]
pub struct SuffixDef {
    pub label: String,
    pub id: u32,
}

/// Mathematical form of a `SuffixDef`.
pub ghost struct SuffixDefModel {
    pub label: Seq<char>,
    pub id: u32,
}

impl View for SuffixDef {
    type V = SuffixDefModel;

    open spec fn view(&self) -> SuffixDefModel {
        SuffixDefModel { label: self.label@, id: self.id }
    }
}

/// Builder for a `SuffixDef`; an unset id defaults to the row's 1-based
/// place in its list.
pub struct SuffixDefBuilder {
    pub label: String,
    pub id: Option<u32>,
}

impl SuffixDef {
    /// Starts a suffix row declaration under `label`.
    pub fn new(label: &str) -> (r: SuffixDefBuilder)
        ensures
            r.label@ == label@,
            r.id is None,
    {
        SuffixDefBuilder { label: label.to_owned(), id: None }
    }
}

impl SuffixDefBuilder {
    /// The row this builder denotes once `next_id` is known.
    pub open spec fn built(self, next_id: u32) -> SuffixDef {
        SuffixDef {
            label: self.label,
            id: match self.id {
                Some(id) => id,
                None => next_id,
            },
        }
    }

    /// Finishes the row, defaulting the id to `next_id`.
    fn build(self, next_id: u32) -> (r: SuffixDef)
        ensures
            r == self.built(next_id),
    {
        let id = match self.id {
            Some(id) => id,
            None => next_id,
        };
        SuffixDef { label: self.label, id }
    }
}

/// Declaration of one piece kind.
#[derive(Debug, PartialEq)]
pub struct KindDef {
    pub label: String,
    pub id: u32,
    pub suffix_range: Option<SuffixRangeDef>,
    pub suffixes: Vec<SuffixDef>,
}

/// Mathematical form of a `KindDef`.
pub ghost struct KindDefModel {
    pub label: Seq<char>,
    pub id: u32,
    pub suffix_range: Option<SuffixRangeDef>,
    pub suffixes: Seq<SuffixDefModel>,
}

impl View for KindDef {
    type V = KindDefModel;

    open spec fn view(&self) -> KindDefModel {
        KindDefModel {
            label: self.label@,
            id: self.id,
            suffix_range: self.suffix_range,
            suffixes: self.suffixes@.map_values(|d: SuffixDef| d@),
        }
    }
}

/// Builder for a `KindDef`; an unset id defaults to the kind's 1-based place
/// in the declaration.
pub struct KindDefBuilder {
    pub label: String,
    pub id: Option<u32>,
    pub suffix_range: Option<SuffixRangeDef>,
    pub suffixes: Vec<SuffixDef>,
}

impl KindDef {
    /// Starts a kind declaration under `label`.
    pub fn new(label: &str) -> (r: KindDefBuilder)
        ensures
            r.label@ == label@,
            r.id is None,
            r.suffix_range is None,
            r.suffixes@ == Seq::<SuffixDef>::empty(),
    {
        KindDefBuilder {
            label: label.to_owned(),
            id: None,
            suffix_range: None,
            suffixes: Vec::new(),
        }
    }
}

impl KindDefBuilder {
    /// Sets an explicit id.
    pub fn id(self, id: u32) -> (r: Self)
        ensures
            r == (KindDefBuilder { id: Some(id), ..self }),
    {
        KindDefBuilder { id: Some(id), ..self }
    }

    /// Declares the allowed suffixes as a range.
    pub fn suffix_range(self, min: i32, max: i32) -> (r: Self)
        ensures
            r == (KindDefBuilder { suffix_range: Some(SuffixRangeDef { min, max }), ..self }),
    {
        KindDefBuilder { suffix_range: Some(SuffixRangeDef { min, max }), ..self }
    }

    /// Adds one labelled suffix row, its id defaulting to its 1-based place.
    pub fn suffix(self, bld: SuffixDefBuilder) -> (r: Self)
        requires
            self.suffixes@.len() < u32::MAX,
        ensures
            r.label == self.label,
            r.id == self.id,
            r.suffix_range == self.suffix_range,
            r.suffixes@ == self.suffixes@.push(
                bld.built((self.suffixes@.len() + 1) as u32),
            ),
    {
        let next_id = (self.suffixes.len() + 1) as u32;
        let mut suffixes = self.suffixes;
        suffixes.push(bld.build(next_id));
        KindDefBuilder { suffixes, ..self }
    }

    /// The kind declaration this builder denotes once `next_id` is known.
    pub open spec fn built(self, next_id: u32) -> KindDef {
        KindDef {
            label: self.label,
            id: match self.id {
                Some(id) => id,
                None => next_id,
            },
            suffix_range: self.suffix_range,
            suffixes: self.suffixes,
        }
    }

    /// Finishes the declaration, defaulting the id to `next_id`.
    fn build(self, next_id: u32) -> (r: KindDef)
        ensures
            r == self.built(next_id),
    {
        let id = match self.id {
            Some(id) => id,
            None => next_id,
        };
        KindDef { label: self.label, id, suffix_range: self.suffix_range, suffixes: self.suffixes }
    }
}

/// Declaration of one board position: as a kind declaration, plus the
/// storage flags `separate`, `ordered` and `hidden`.
#[derive(Debug, PartialEq)]
pub struct PosDef {
    pub label: String,
    pub id: u32,
    pub suffix_range: Option<SuffixRangeDef>,
    pub suffixes: Vec<SuffixDef>,
    pub separate: bool,
    pub ordered: bool,
    pub hidden: bool,
}

/// Mathematical form of a `PosDef`.
pub ghost struct PosDefModel {
    pub label: Seq<char>,
    pub id: u32,
    pub suffix_range: Option<SuffixRangeDef>,
    pub suffixes: Seq<SuffixDefModel>,
    pub separate: bool,
    pub ordered: bool,
    pub hidden: bool,
}

impl View for PosDef {
    type V = PosDefModel;

    open spec fn view(&self) -> PosDefModel {
        PosDefModel {
            label: self.label@,
            id: self.id,
            suffix_range: self.suffix_range,
            suffixes: self.suffixes@.map_values(|d: SuffixDef| d@),
            separate: self.separate,
            ordered: self.ordered,
            hidden: self.hidden,
        }
    }
}

/// Builder for a `PosDef`; an unset id defaults to the position's 1-based
/// place in the declaration, and every flag defaults to false.
pub struct PosDefBuilder {
    pub label: String,
    pub id: Option<u32>,
    pub suffix_range: Option<SuffixRangeDef>,
    pub suffixes: Vec<SuffixDef>,
    pub separate: bool,
    pub ordered: bool,
    pub hidden: bool,
}

impl PosDef {
    /// Starts a position declaration under `label`.
    pub fn new(label: &str) -> (r: PosDefBuilder)
        ensures
            r.label@ == label@,
            r.id is None,
            r.suffix_range is None,
            r.suffixes@ == Seq::<SuffixDef>::empty(),
            !r.separate,
            !r.ordered,
            !r.hidden,
    {
        PosDefBuilder {
            label: label.to_owned(),
            id: None,
            suffix_range: None,
            suffixes: Vec::new(),
            separate: false,
            ordered: false,
            hidden: false,
        }
    }
}

impl PosDefBuilder {
    /// Sets an explicit id.
    pub fn id(self, id: u32) -> (r: Self)
        ensures
            r == (PosDefBuilder { id: Some(id), ..self }),
    {
        PosDefBuilder { id: Some(id), ..self }
    }

    /// Declares the allowed suffixes as a range.
    pub fn suffix_range(self, min: i32, max: i32) -> (r: Self)
        ensures
            r == (PosDefBuilder { suffix_range: Some(SuffixRangeDef { min, max }), ..self }),
    {
        PosDefBuilder { suffix_range: Some(SuffixRangeDef { min, max }), ..self }
    }

    /// Adds one labelled suffix row, its id defaulting to its 1-based place.
    pub fn suffix(self, bld: SuffixDefBuilder) -> (r: Self)
        requires
            self.suffixes@.len() < u32::MAX,
        ensures
            r.label == self.label,
            r.id == self.id,
            r.suffix_range == self.suffix_range,
            r.suffixes@ == self.suffixes@.push(
                bld.built((self.suffixes@.len() + 1) as u32),
            ),
            r.separate == self.separate,
            r.ordered == self.ordered,
            r.hidden == self.hidden,
    {
        let next_id = (self.suffixes.len() + 1) as u32;
        let mut suffixes = self.suffixes;
        suffixes.push(bld.build(next_id));
        PosDefBuilder { suffixes, ..self }
    }

    /// Marks the position as not player-visible; informational only.
    pub fn hidden(self) -> (r: Self)
        ensures
            r == (PosDefBuilder { hidden: true, ..self }),
    {
        PosDefBuilder { hidden: true, ..self }
    }

    /// Marks the position as carrying sequence semantics.
    pub fn ordered(self) -> (r: Self)
        ensures
            r == (PosDefBuilder { ordered: true, ..self }),
    {
        PosDefBuilder { ordered: true, ..self }
    }

    /// Marks the position as sharded per region rather than shared.
    pub fn separate(self) -> (r: Self)
        ensures
            r == (PosDefBuilder { separate: true, ..self }),
    {
        PosDefBuilder { separate: true, ..self }
    }

    /// The position declaration this builder denotes once `next_id` is known.
    pub open spec fn built(self, next_id: u32) -> PosDef {
        PosDef {
            label: self.label,
            id: match self.id {
                Some(id) => id,
                None => next_id,
            },
            suffix_range: self.suffix_range,
            suffixes: self.suffixes,
            separate: self.separate,
            ordered: self.ordered,
            hidden: self.hidden,
        }
    }

    /// Finishes the declaration, defaulting the id to `next_id`.
    fn build(self, next_id: u32) -> (r: PosDef)
        ensures
            r == self.built(next_id),
    {
        let id = match self.id {
            Some(id) => id,
            None => next_id,
        };
        PosDef {
            label: self.label,
            id,
            suffix_range: self.suffix_range,
            suffixes: self.suffixes,
            separate: self.separate,
            ordered: self.ordered,
            hidden: self.hidden,
        }
    }
}

/// Raw declaration of a whole game: label, player counts, kinds, positions.
#[derive(Debug, PartialEq)]
pub struct GameDef {
    pub label: String,
    pub min_players: u32,
    pub max_players: u32,
    pub kind_defs: Vec<KindDef>,
    pub pos_defs: Vec<PosDef>,
}

/// Mathematical form of a `GameDef`.
pub ghost struct GameDefModel {
    pub label: Seq<char>,
    pub min_players: u32,
    pub max_players: u32,
    pub kind_defs: Seq<KindDefModel>,
    pub pos_defs: Seq<PosDefModel>,
}

impl View for GameDef {
    type V = GameDefModel;

    open spec fn view(&self) -> GameDefModel {
        GameDefModel {
            label: self.label@,
            min_players: self.min_players,
            max_players: self.max_players,
            kind_defs: self.kind_defs@.map_values(|d: KindDef| d@),
            pos_defs: self.pos_defs@.map_values(|d: PosDef| d@),
        }
    }
}

/// Builder for a `GameDef`; player counts default to two.
pub struct GameDefBuilder {
    pub label: String,
    pub min_players: u32,
    pub max_players: u32,
    pub kind_defs: Vec<KindDef>,
    pub pos_defs: Vec<PosDef>,
}

impl GameDefBuilder {
    /// Starts a game declaration under `label`.
    pub fn new(label: &str) -> (r: GameDefBuilder)
        ensures
            r.label@ == label@,
            r.min_players == 2u32,
            r.max_players == 2u32,
            r.kind_defs@ == Seq::<KindDef>::empty(),
            r.pos_defs@ == Seq::<PosDef>::empty(),
    {
        GameDefBuilder {
            label: label.to_owned(),
            min_players: 2,
            max_players: 2,
            kind_defs: Vec::new(),
            pos_defs: Vec::new(),
        }
    }

    /// Sets the smallest allowed player count.
    pub fn min_players(self, num: u32) -> (r: Self)
        ensures
            r == (GameDefBuilder { min_players: num, ..self }),
    {
        GameDefBuilder { min_players: num, ..self }
    }

    /// Sets the largest allowed player count.
    pub fn max_players(self, num: u32) -> (r: Self)
        ensures
            r == (GameDefBuilder { max_players: num, ..self }),
    {
        GameDefBuilder { max_players: num, ..self }
    }

    /// Adds one kind declaration, its id defaulting to its 1-based place.
    pub fn kind(self, bld: KindDefBuilder) -> (r: Self)
        requires
            self.kind_defs@.len() < u32::MAX,
        ensures
            r.label == self.label,
            r.min_players == self.min_players,
            r.max_players == self.max_players,
            r.kind_defs@ == self.kind_defs@.push(
                bld.built((self.kind_defs@.len() + 1) as u32),
            ),
            r.pos_defs == self.pos_defs,
    {
        let next_id = (self.kind_defs.len() + 1) as u32;
        let mut kind_defs = self.kind_defs;
        kind_defs.push(bld.build(next_id));
        GameDefBuilder { kind_defs, ..self }
    }

    /// Adds one position declaration, its id defaulting to its 1-based place.
    pub fn pos(self, bld: PosDefBuilder) -> (r: Self)
        requires
            self.pos_defs@.len() < u32::MAX,
        ensures
            r.label == self.label,
            r.min_players == self.min_players,
            r.max_players == self.max_players,
            r.kind_defs == self.kind_defs,
            r.pos_defs@ == self.pos_defs@.push(
                bld.built((self.pos_defs@.len() + 1) as u32),
            ),
    {
        let next_id = (self.pos_defs.len() + 1) as u32;
        let mut pos_defs = self.pos_defs;
        pos_defs.push(bld.build(next_id));
        GameDefBuilder { pos_defs, ..self }
    }

    /// Finishes the declaration.
    pub fn build(self) -> (r: GameDef)
        ensures
            r.label == self.label,
            r.min_players == self.min_players,
            r.max_players == self.max_players,
            r.kind_defs == self.kind_defs,
            r.pos_defs == self.pos_defs,
    {
        GameDef {
            label: self.label,
            min_players: self.min_players,
            max_players: self.max_players,
            kind_defs: self.kind_defs,
            pos_defs: self.pos_defs,
        }
    }
}

} // verus!
