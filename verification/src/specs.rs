//! The compiler: validates a raw `GameDef` into a `GameSpec` whose kind and
//! position tables are collision-free, with every id in bounds and every
//! suffix declaration resolved. The first error wins; no partial
//! specification is ever returned.

use crate::coords::{Kind, Pos, MAX_KIND, MAX_POS, MIN_KIND, MIN_POS};
use crate::defs::{GameDef, KindDef, KindDefModel, PosDef, PosDefModel};
use crate::error::{Error, ErrorModel, ItemError, ItemErrorModel};
use crate::lookup::{
    lemma_build_outcome_pairs, lemma_pair_build_outcome_ok_wf, lemma_pairs_of_table_wf,
    pair_build_outcome, pair_table_wf, pairs_of, HasId, Labelled, LookupTable,
};
use crate::suffix::{convert_suffixes, resolve_model, suffix_model_wf, SuffixSpec, SuffixSpecModel};
use vstd::prelude::*;

verus! {

/// A compiled piece kind: validated id, resolved suffixes.
#[derive(Debug)]
pub struct KindSpec {
    pub label: String,
    pub id: Kind,
    pub suffixes: SuffixSpec,
}

/// Mathematical form of a `KindSpec`.
pub ghost struct KindSpecModel {
    pub label: Seq<char>,
    pub id: Kind,
    pub suffixes: SuffixSpecModel,
}

impl KindSpecModel {
    /// The id is in bounds and the suffix specification is well-formed.
    pub open spec fn wf(self) -> bool {
        self.id.wf() && suffix_model_wf(self.suffixes)
    }
}

impl View for KindSpec {
    type V = KindSpecModel;

    open spec fn view(&self) -> KindSpecModel {
        KindSpecModel { label: self.label@, id: self.id, suffixes: self.suffixes@ }
    }
}

impl HasId<Kind> for KindSpec {
    open spec fn spec_id(&self) -> Kind {
        self.id
    }

    fn id(&self) -> (r: Kind) {
        self.id
    }
}

impl Labelled for KindSpec {
    open spec fn spec_label(&self) -> Seq<char> {
        self.label@
    }

    fn label(&self) -> (r: &String) {
        &self.label
    }
}

/// The compiled kind a declaration resolves to, or the first failure: an out
/// of bounds id, then whatever its suffixes are refused for.
pub open spec fn kind_spec_outcome(d: KindDefModel) -> Result<KindSpecModel, ItemErrorModel> {
    if !(MIN_KIND <= d.id <= MAX_KIND) {
        Err(ItemErrorModel::InvalidId(d.id))
    } else {
        match resolve_model(d.suffix_range, d.suffixes) {
            Ok(m) => Ok(
                KindSpecModel { label: d.label, id: Kind::from_u32(d.id), suffixes: m },
            ),
            Err(e) => Err(e),
        }
    }
}

impl KindSpec {
    /// Compiles one kind declaration.
    pub fn from_def(def: KindDef) -> (r: Result<KindSpec, ItemError>)
        ensures
            kind_spec_outcome(def@) matches Ok(m) ==> (r matches Ok(s) && s@ == m),
            kind_spec_outcome(def@) matches Err(em) ==> (r matches Err(e) && e.model() == em),
    {
        let id = match Kind::new(def.id) {
            Ok(id) => id,
            Err(e) => {
                return Err(ItemError::InvalidId(e.0));
            },
        };
        let suffixes = match convert_suffixes(def.suffix_range, def.suffixes) {
            Ok(s) => s,
            Err(e) => {
                return Err(e);
            },
        };
        Ok(KindSpec { label: def.label, id, suffixes })
    }
}

/// A compiled board position: validated id, resolved suffixes, storage flags.
#[derive(Debug)]
pub struct PosSpec {
    pub label: String,
    pub id: Pos,
    pub suffixes: SuffixSpec,
    pub separate: bool,
    pub ordered: bool,
    pub hidden: bool,
}

/// Mathematical form of a `PosSpec`.
pub ghost struct PosSpecModel {
    pub label: Seq<char>,
    pub id: Pos,
    pub suffixes: SuffixSpecModel,
    pub separate: bool,
    pub ordered: bool,
    pub hidden: bool,
}

impl PosSpecModel {
    /// The id is in bounds and the suffix specification is well-formed.
    pub open spec fn wf(self) -> bool {
        self.id.wf() && suffix_model_wf(self.suffixes)
    }
}

impl View for PosSpec {
    type V = PosSpecModel;

    open spec fn view(&self) -> PosSpecModel {
        PosSpecModel {
            label: self.label@,
            id: self.id,
            suffixes: self.suffixes@,
            separate: self.separate,
            ordered: self.ordered,
            hidden: self.hidden,
        }
    }
}

impl HasId<Pos> for PosSpec {
    open spec fn spec_id(&self) -> Pos {
        self.id
    }

    fn id(&self) -> (r: Pos) {
        self.id
    }
}

impl Labelled for PosSpec {
    open spec fn spec_label(&self) -> Seq<char> {
        self.label@
    }

    fn label(&self) -> (r: &String) {
        &self.label
    }
}

/// The compiled position a declaration resolves to, or the first failure.
pub open spec fn pos_spec_outcome(d: PosDefModel) -> Result<PosSpecModel, ItemErrorModel> {
    if !(MIN_POS <= d.id <= MAX_POS) {
        Err(ItemErrorModel::InvalidId(d.id))
    } else {
        match resolve_model(d.suffix_range, d.suffixes) {
            Ok(m) => Ok(
                PosSpecModel {
                    label: d.label,
                    id: Pos::from_u32(d.id),
                    suffixes: m,
                    separate: d.separate,
                    ordered: d.ordered,
                    hidden: d.hidden,
                },
            ),
            Err(e) => Err(e),
        }
    }
}

impl PosSpec {
    /// Compiles one position declaration.
    pub fn from_def(def: PosDef) -> (r: Result<PosSpec, ItemError>)
        ensures
            pos_spec_outcome(def@) matches Ok(m) ==> (r matches Ok(s) && s@ == m),
            pos_spec_outcome(def@) matches Err(em) ==> (r matches Err(e) && e.model() == em),
    {
        let id = match Pos::new(def.id) {
            Ok(id) => id,
            Err(e) => {
                return Err(ItemError::InvalidId(e.0));
            },
        };
        let suffixes = match convert_suffixes(def.suffix_range, def.suffixes) {
            Ok(s) => s,
            Err(e) => {
                return Err(e);
            },
        };
        Ok(PosSpec {
            label: def.label,
            id,
            suffixes,
            separate: def.separate,
            ordered: def.ordered,
            hidden: def.hidden,
        })
    }
}

/// A player count already checked into the narrow width.
#[derive(Debug, Eq, PartialEq, Copy, Clone, Structural)]
pub struct PlayerNum(pub u8);

/// Narrows a declared player count, refusing one the narrow width cannot
/// hold.
pub fn convert_player_num(input: u32) -> (r: Result<u8, Error>)
    ensures
        r is Ok <==> input <= u8::MAX,
        r matches Ok(v) ==> v == input,
        r matches Err(e) ==> e == Error::InvalidNumPlayers(input),
{
    if input <= 255 {
        Ok(input as u8)
    } else {
        Err(Error::InvalidNumPlayers(input))
    }
}

/// The compiled kinds of a declaration list, or the first failure.
pub open spec fn convert_kind_defs(s: Seq<KindDefModel>) -> Result<
    Seq<KindSpecModel>,
    ItemErrorModel,
>
    decreases s.len(),
{
    if s.len() == 0 {
        Ok(Seq::empty())
    } else {
        match convert_kind_defs(s.drop_last()) {
            Ok(pre) => match kind_spec_outcome(s.last()) {
                Ok(m) => Ok(pre.push(m)),
                Err(e) => Err(e),
            },
            Err(e) => Err(e),
        }
    }
}

/// The compiled positions of a declaration list, or the first failure.
pub open spec fn convert_pos_defs(s: Seq<PosDefModel>) -> Result<Seq<PosSpecModel>, ItemErrorModel>
    decreases s.len(),
{
    if s.len() == 0 {
        Ok(Seq::empty())
    } else {
        match convert_pos_defs(s.drop_last()) {
            Ok(pre) => match pos_spec_outcome(s.last()) {
                Ok(m) => Ok(pre.push(m)),
                Err(e) => Err(e),
            },
            Err(e) => Err(e),
        }
    }
}

/// A failure inside a prefix settles the outcome of the whole list.
proof fn lemma_convert_kind_defs_prefix_err(s: Seq<KindDefModel>, m: int, e: ItemErrorModel)
    requires
        0 <= m <= s.len(),
        convert_kind_defs(s.take(m)) == Err::<Seq<KindSpecModel>, ItemErrorModel>(e),
    ensures
        convert_kind_defs(s) == Err::<Seq<KindSpecModel>, ItemErrorModel>(e),
    decreases s.len(),
{
    if m == s.len() {
        assert(s.take(m) =~= s);
    } else {
        assert(s.drop_last().take(m) =~= s.take(m));
        lemma_convert_kind_defs_prefix_err(s.drop_last(), m, e);
    }
}

/// A failure inside a prefix settles the outcome of the whole list.
proof fn lemma_convert_pos_defs_prefix_err(s: Seq<PosDefModel>, m: int, e: ItemErrorModel)
    requires
        0 <= m <= s.len(),
        convert_pos_defs(s.take(m)) == Err::<Seq<PosSpecModel>, ItemErrorModel>(e),
    ensures
        convert_pos_defs(s) == Err::<Seq<PosSpecModel>, ItemErrorModel>(e),
    decreases s.len(),
{
    if m == s.len() {
        assert(s.take(m) =~= s);
    } else {
        assert(s.drop_last().take(m) =~= s.take(m));
        lemma_convert_pos_defs_prefix_err(s.drop_last(), m, e);
    }
}

/// The id–label pairs of compiled kinds, as their table sees them.
pub open spec fn kind_pairs(ms: Seq<KindSpecModel>) -> Seq<(Kind, Seq<char>)> {
    ms.map_values(|m: KindSpecModel| (m.id, m.label))
}

/// The id–label pairs of compiled positions, as their table sees them.
pub open spec fn pos_pairs(ms: Seq<PosSpecModel>) -> Seq<(Pos, Seq<char>)> {
    ms.map_values(|m: PosSpecModel| (m.id, m.label))
}

/// Every kind a successful conversion yields is well-formed.
proof fn lemma_convert_kind_defs_ok_wf(s: Seq<KindDefModel>)
    requires
        convert_kind_defs(s) is Ok,
    ensures
        forall|i: int|
            0 <= i < convert_kind_defs(s)->Ok_0.len() ==> (#[trigger] convert_kind_defs(
                s,
            )->Ok_0[i]).wf(),
    decreases s.len(),
{
    if s.len() > 0 {
        lemma_convert_kind_defs_ok_wf(s.drop_last());
        let pre = convert_kind_defs(s.drop_last())->Ok_0;
        let d = s.last();
        let m = kind_spec_outcome(d)->Ok_0;
        crate::coords::lemma_kind_from_u32(d.id);
        match resolve_model(d.suffix_range, d.suffixes) {
            Ok(sm) => {
                if sm is Table {
                    lemma_pair_build_outcome_ok_wf(sm->Table_0);
                }
            },
            Err(_) => {},
        }
        assert(m.wf());
        assert forall|i: int| 0 <= i < convert_kind_defs(s)->Ok_0.len() implies (
        #[trigger] convert_kind_defs(s)->Ok_0[i]).wf() by {
            if i < pre.len() {
                assert(convert_kind_defs(s)->Ok_0[i] == pre[i]);
            } else {
                assert(convert_kind_defs(s)->Ok_0[i] == m);
            }
        }
    }
}

/// Every position a successful conversion yields is well-formed.
proof fn lemma_convert_pos_defs_ok_wf(s: Seq<PosDefModel>)
    requires
        convert_pos_defs(s) is Ok,
    ensures
        forall|i: int|
            0 <= i < convert_pos_defs(s)->Ok_0.len() ==> (#[trigger] convert_pos_defs(
                s,
            )->Ok_0[i]).wf(),
    decreases s.len(),
{
    if s.len() > 0 {
        lemma_convert_pos_defs_ok_wf(s.drop_last());
        let pre = convert_pos_defs(s.drop_last())->Ok_0;
        let d = s.last();
        let m = pos_spec_outcome(d)->Ok_0;
        crate::coords::lemma_pos_from_u32(d.id);
        match resolve_model(d.suffix_range, d.suffixes) {
            Ok(sm) => {
                if sm is Table {
                    lemma_pair_build_outcome_ok_wf(sm->Table_0);
                }
            },
            Err(_) => {},
        }
        assert(m.wf());
        assert forall|i: int| 0 <= i < convert_pos_defs(s)->Ok_0.len() implies (
        #[trigger] convert_pos_defs(s)->Ok_0[i]).wf() by {
            if i < pre.len() {
                assert(convert_pos_defs(s)->Ok_0[i] == pre[i]);
            } else {
                assert(convert_pos_defs(s)->Ok_0[i] == m);
            }
        }
    }
}

/// The compiled, validated form of a whole declaration: collision-free kind
/// and position tables and narrowed player counts, immutable once built.
#[derive(Debug)]
pub struct GameSpec {
    label: String,
    min_players: u8,
    max_players: u8,
    kind_specs: LookupTable<Kind, KindSpec>,
    pos_specs: LookupTable<Pos, PosSpec>,
}

/// Mathematical form of a `GameSpec`.
pub ghost struct GameSpecModel {
    pub label: Seq<char>,
    pub min_players: u8,
    pub max_players: u8,
    pub kind_specs: Seq<KindSpecModel>,
    pub pos_specs: Seq<PosSpecModel>,
}

impl View for GameSpec {
    type V = GameSpecModel;

    closed spec fn view(&self) -> GameSpecModel {
        GameSpecModel {
            label: self.label@,
            min_players: self.min_players,
            max_players: self.max_players,
            kind_specs: self.kind_specs@.map_values(|k: KindSpec| k@),
            pos_specs: self.pos_specs@.map_values(|p: PosSpec| p@),
        }
    }
}

impl GameSpec {
    /// Both tables are collision-free and every entry is well-formed: what
    /// compilation guarantees of everything it returns.
    pub open spec fn wf(&self) -> bool {
        &&& pair_table_wf(kind_pairs(self@.kind_specs))
        &&& pair_table_wf(pos_pairs(self@.pos_specs))
        &&& forall|i: int|
            0 <= i < self@.kind_specs.len() ==> (#[trigger] self@.kind_specs[i]).wf()
        &&& forall|i: int| 0 <= i < self@.pos_specs.len() ==> (#[trigger] self@.pos_specs[i]).wf()
    }

    /// The declared game label.
    pub fn label(&self) -> (r: &String)
        ensures
            r@ == self@.label,
    {
        &self.label
    }

    /// The smallest allowed player count.
    pub fn min_players(&self) -> (r: u8)
        ensures
            r == self@.min_players,
    {
        self.min_players
    }

    /// The largest allowed player count.
    pub fn max_players(&self) -> (r: u8)
        ensures
            r == self@.max_players,
    {
        self.max_players
    }

    /// The compiled kinds, registered by id and label.
    pub fn kind_specs(&self) -> (r: &LookupTable<Kind, KindSpec>)
        ensures
            r@.map_values(|k: KindSpec| k@) == self@.kind_specs,
    {
        &self.kind_specs
    }

    /// The compiled positions, registered by id and label.
    pub fn pos_specs(&self) -> (r: &LookupTable<Pos, PosSpec>)
        ensures
            r@.map_values(|p: PosSpec| p@) == self@.pos_specs,
    {
        &self.pos_specs
    }
}

/// What a declaration compiles to, or the first failure in order: a bad kind,
/// a kind table collision, a bad position, a position table collision, an out
/// of range minimum then maximum player count.
pub open spec fn compile_outcome(d: crate::defs::GameDefModel) -> Result<GameSpecModel, ErrorModel> {
    match convert_kind_defs(d.kind_defs) {
        Err(e) => Err(ErrorModel::InvalidKind(e)),
        Ok(ks) => match pair_build_outcome(kind_pairs(ks)) {
            Err(c) => Err(ErrorModel::InvalidKindTable(c)),
            Ok(()) => match convert_pos_defs(d.pos_defs) {
                Err(e) => Err(ErrorModel::InvalidPos(e)),
                Ok(ps) => match pair_build_outcome(pos_pairs(ps)) {
                    Err(c) => Err(ErrorModel::InvalidPosTable(c)),
                    Ok(()) => {
                        if d.min_players > u8::MAX {
                            Err(ErrorModel::InvalidNumPlayers(d.min_players))
                        } else if d.max_players > u8::MAX {
                            Err(ErrorModel::InvalidNumPlayers(d.max_players))
                        } else {
                            Ok(
                                GameSpecModel {
                                    label: d.label,
                                    min_players: d.min_players as u8,
                                    max_players: d.max_players as u8,
                                    kind_specs: ks,
                                    pos_specs: ps,
                                },
                            )
                        }
                    },
                },
            },
        },
    }
}

/// Compiles a raw declaration into a validated `GameSpec`. Pure: no shared
/// state, safe to run concurrently on independent inputs.
#[verifier::loop_isolation(false)]
pub fn compile(def: GameDef) -> (r: Result<GameSpec, Error>)
    ensures
        compile_outcome(def@) matches Ok(m) ==> (r matches Ok(s) && s@ == m && s.wf()),
        compile_outcome(def@) matches Err(em) ==> (r matches Err(e) && e.model() == em),
{
    let ghost dm = def@;
    let ghost kind_models = def.kind_defs@.map_values(|d: KindDef| d@);
    let ghost pos_models = def.pos_defs@.map_values(|d: PosDef| d@);

    let kn = def.kind_defs.len();
    let mut kind_specs: Vec<KindSpec> = Vec::with_capacity(kn);
    let mut kind_rest = def.kind_defs;
    let mut idx: usize = 0;
    proof {
        assert(kind_models.take(0) =~= Seq::<KindDefModel>::empty());
        assert(kind_specs@.map_values(|k: KindSpec| k@) =~= Seq::<KindSpecModel>::empty());
    }
    while idx < kn
        invariant
            kn == kind_models.len(),
            def.kind_defs@.map_values(|d: KindDef| d@) == kind_models,
            0 <= idx <= kn,
            kind_rest@ =~= def.kind_defs@.skip(idx as int),
            kind_specs@.len() == idx,
            convert_kind_defs(kind_models.take(idx as int)) == Ok::<
                Seq<KindSpecModel>,
                ItemErrorModel,
            >(kind_specs@.map_values(|k: KindSpec| k@)),
        decreases kn - idx,
    {
        proof {
            assert(kind_rest@[0] == def.kind_defs@[idx as int]);
            assert(kind_models[idx as int] == def.kind_defs@[idx as int]@);
            assert(kind_models.take(idx as int + 1).drop_last() =~= kind_models.take(idx as int));
            assert(kind_models.take(idx as int + 1).last() == kind_models[idx as int]);
        }
        let kd = kind_rest.remove(0);
        let ghost kdm = kd@;
        let ghost prev = kind_specs@.map_values(|k: KindSpec| k@);
        proof {
            assert(kdm == kind_models[idx as int]);
        }
        match KindSpec::from_def(kd) {
            Ok(spec) => {
                kind_specs.push(spec);
                proof {
                    assert(kind_rest@ =~= def.kind_defs@.skip(idx as int + 1));
                    assert(kind_spec_outcome(kind_models[idx as int]) == Ok::<
                        KindSpecModel,
                        ItemErrorModel,
                    >(spec@));
                    assert(convert_kind_defs(kind_models.take(idx as int + 1)) == Ok::<
                        Seq<KindSpecModel>,
                        ItemErrorModel,
                    >(prev.push(spec@)));
                    assert(kind_specs@.map_values(|k: KindSpec| k@) =~= prev.push(spec@));
                }
            },
            Err(e) => {
                proof {
                    lemma_convert_kind_defs_prefix_err(kind_models, idx as int + 1, e.model());
                }
                return Err(Error::InvalidKind(e));
            },
        }
        idx += 1;
    }
    proof {
        assert(kind_models.take(kn as int) =~= kind_models);
        assert(pairs_of::<Kind, KindSpec>(kind_specs@) =~= kind_pairs(
            kind_specs@.map_values(|k: KindSpec| k@),
        ));
        lemma_build_outcome_pairs::<Kind, KindSpec>(kind_specs@);
    }
    let ghost kind_spec_models = kind_specs@.map_values(|k: KindSpec| k@);
    let kind_table = match LookupTable::<Kind, KindSpec>::from_values(kind_specs) {
        Ok(t) => t,
        Err(c) => {
            return Err(Error::InvalidKindTable(c));
        },
    };

    let pn = def.pos_defs.len();
    let mut pos_specs: Vec<PosSpec> = Vec::with_capacity(pn);
    let mut pos_rest = def.pos_defs;
    let mut idx: usize = 0;
    proof {
        assert(pos_models.take(0) =~= Seq::<PosDefModel>::empty());
        assert(pos_specs@.map_values(|p: PosSpec| p@) =~= Seq::<PosSpecModel>::empty());
    }
    while idx < pn
        invariant
            pn == pos_models.len(),
            def.pos_defs@.map_values(|d: PosDef| d@) == pos_models,
            0 <= idx <= pn,
            pos_rest@ =~= def.pos_defs@.skip(idx as int),
            pos_specs@.len() == idx,
            convert_pos_defs(pos_models.take(idx as int)) == Ok::<
                Seq<PosSpecModel>,
                ItemErrorModel,
            >(pos_specs@.map_values(|p: PosSpec| p@)),
        decreases pn - idx,
    {
        proof {
            assert(pos_rest@[0] == def.pos_defs@[idx as int]);
            assert(pos_models[idx as int] == def.pos_defs@[idx as int]@);
            assert(pos_models.take(idx as int + 1).drop_last() =~= pos_models.take(idx as int));
            assert(pos_models.take(idx as int + 1).last() == pos_models[idx as int]);
        }
        let pd = pos_rest.remove(0);
        let ghost pdm = pd@;
        let ghost prev = pos_specs@.map_values(|p: PosSpec| p@);
        proof {
            assert(pdm == pos_models[idx as int]);
        }
        match PosSpec::from_def(pd) {
            Ok(spec) => {
                pos_specs.push(spec);
                proof {
                    assert(pos_rest@ =~= def.pos_defs@.skip(idx as int + 1));
                    assert(pos_spec_outcome(pos_models[idx as int]) == Ok::<
                        PosSpecModel,
                        ItemErrorModel,
                    >(spec@));
                    assert(convert_pos_defs(pos_models.take(idx as int + 1)) == Ok::<
                        Seq<PosSpecModel>,
                        ItemErrorModel,
                    >(prev.push(spec@)));
                    assert(pos_specs@.map_values(|p: PosSpec| p@) =~= prev.push(spec@));
                }
            },
            Err(e) => {
                proof {
                    lemma_convert_pos_defs_prefix_err(pos_models, idx as int + 1, e.model());
                }
                return Err(Error::InvalidPos(e));
            },
        }
        idx += 1;
    }
    proof {
        assert(pos_models.take(pn as int) =~= pos_models);
        assert(pairs_of::<Pos, PosSpec>(pos_specs@) =~= pos_pairs(
            pos_specs@.map_values(|p: PosSpec| p@),
        ));
        lemma_build_outcome_pairs::<Pos, PosSpec>(pos_specs@);
    }
    let ghost pos_spec_models = pos_specs@.map_values(|p: PosSpec| p@);
    let pos_table = match LookupTable::<Pos, PosSpec>::from_values(pos_specs) {
        Ok(t) => t,
        Err(c) => {
            return Err(Error::InvalidPosTable(c));
        },
    };

    let min_players = match convert_player_num(def.min_players) {
        Ok(v) => v,
        Err(e) => {
            return Err(e);
        },
    };
    let max_players = match convert_player_num(def.max_players) {
        Ok(v) => v,
        Err(e) => {
            return Err(e);
        },
    };

    let spec = GameSpec {
        label: def.label,
        min_players,
        max_players,
        kind_specs: kind_table,
        pos_specs: pos_table,
    };
    proof {
        assert(spec@.kind_specs == kind_spec_models);
        assert(spec@.pos_specs == pos_spec_models);
        lemma_pairs_of_table_wf::<Kind, KindSpec>(kind_table@);
        lemma_pairs_of_table_wf::<Pos, PosSpec>(pos_table@);
        assert(pairs_of::<Kind, KindSpec>(kind_table@) =~= kind_pairs(spec@.kind_specs));
        assert(pairs_of::<Pos, PosSpec>(pos_table@) =~= pos_pairs(spec@.pos_specs));
        lemma_convert_kind_defs_ok_wf(kind_models);
        lemma_convert_pos_defs_ok_wf(pos_models);
    }
    Ok(spec)
}

} // verus!
