//! Suffix specifications: what variant tags a kind or position allows.
//! A declaration resolves to `Empty` (only suffix zero), `Range` (bounds
//! inclusive when queried, though construction wants a strictly smaller
//! minimum), or `Table` (labelled rows, collision-checked).

use crate::coords::Suffix;
use crate::defs::{SuffixDef, SuffixDefModel, SuffixRangeDef};
use crate::error::{ItemError, ItemErrorModel, SuffixRowError};
use crate::lookup::{
    lemma_build_outcome_pairs, lemma_pairs_of_id_in, lemma_pairs_of_label_in,
    lemma_pairs_of_table_wf, pair_build_outcome, pair_id_in, pair_label_in, pair_table_wf,
    pairs_of, HasId, Labelled, LookupTable,
};
use vstd::prelude::*;

verus! {

/// One labelled suffix value of a `Table` specification.
#[derive(Debug, PartialEq)]
pub struct SuffixRow {
    pub suffix: Suffix,
    pub label: String,
}

impl HasId<Suffix> for SuffixRow {
    open spec fn spec_id(&self) -> Suffix {
        self.suffix
    }

    fn id(&self) -> (r: Suffix) {
        self.suffix
    }
}

impl Labelled for SuffixRow {
    open spec fn spec_label(&self) -> Seq<char> {
        self.label@
    }

    fn label(&self) -> (r: &String) {
        &self.label
    }
}

/// The id–label pair a declared row resolves to: the declared id reread as a
/// signed suffix value.
pub open spec fn row_pair(d: SuffixDefModel) -> (Suffix, Seq<char>) {
    (Suffix(d.id as i32), d.label)
}

impl SuffixRow {
    /// Resolves one declared row. Never fails today; the `Result` keeps the
    /// declared failure mode open.
    pub fn from_def(def: SuffixDef) -> (r: Result<SuffixRow, SuffixRowError>)
        ensures
            r matches Ok(row) && (row.spec_id(), row.spec_label()) == row_pair(def@) && row.label
                == def.label,
    {
        let suffix = Suffix(#[verifier::truncate] (def.id as i32));
        Ok(SuffixRow { suffix, label: def.label })
    }
}

/// Allowed suffix values as a closed range.
#[derive(Debug, Eq, PartialEq, Copy, Clone, Structural)]
pub struct SuffixRange {
    pub min: Suffix,
    pub max: Suffix,
}

impl SuffixRange {
    /// Whether `suffix` lies in the range, both bounds included.
    pub open spec fn spec_contains(self, suffix: Suffix) -> bool {
        self.min.0 <= suffix.0 <= self.max.0
    }

    /// Whether `suffix` lies in the range, both bounds included.
    pub fn contains_suffix(&self, suffix: Suffix) -> (r: bool)
        ensures
            r == self.spec_contains(suffix),
    {
        self.min.0 <= suffix.0 && suffix.0 <= self.max.0
    }

    /// Resolves a declared range, requiring the minimum strictly below the
    /// maximum — stricter than the inclusive bounds queried later.
    pub fn from_def(value: SuffixRangeDef) -> (r: Result<SuffixRange, ItemError>)
        ensures
            r is Ok <==> value.min < value.max,
            r matches Ok(rg) ==> rg == (SuffixRange {
                min: Suffix(value.min),
                max: Suffix(value.max),
            }),
            r matches Err(e) ==> e == ItemError::InvalidSuffixRange(value.min, value.max),
    {
        if value.min < value.max {
            Ok(SuffixRange { min: Suffix(value.min), max: Suffix(value.max) })
        } else {
            Err(ItemError::InvalidSuffixRange(value.min, value.max))
        }
    }
}

/// What suffix values a kind or position allows.
#[derive(Debug)]
pub enum SuffixSpec {
    /// Only suffix zero is valid.
    Empty,
    /// Valid between the bounds, both included.
    Range(SuffixRange),
    /// Valid when present among the labelled rows.
    Table(LookupTable<Suffix, SuffixRow>),
}

/// Mathematical form of a `SuffixSpec`, a table reduced to its id–label
/// pairs; contracts speak of this form.
pub ghost enum SuffixSpecModel {
    Empty,
    Range(SuffixRange),
    Table(Seq<(Suffix, Seq<char>)>),
}

impl View for SuffixSpec {
    type V = SuffixSpecModel;

    open spec fn view(&self) -> SuffixSpecModel {
        match self {
            SuffixSpec::Empty => SuffixSpecModel::Empty,
            SuffixSpec::Range(rg) => SuffixSpecModel::Range(*rg),
            SuffixSpec::Table(t) => SuffixSpecModel::Table(pairs_of::<Suffix, SuffixRow>(t@)),
        }
    }
}

/// A table's pairs carry pairwise distinct suffixes and labels; the other
/// variants are unconditionally well-formed.
pub open spec fn suffix_model_wf(m: SuffixSpecModel) -> bool {
    match m {
        SuffixSpecModel::Table(pairs) => pair_table_wf(pairs),
        _ => true,
    }
}

/// Whether `suffix` is legal under the specification `m`.
pub open spec fn model_is_valid(m: SuffixSpecModel, suffix: Suffix) -> bool {
    match m {
        SuffixSpecModel::Empty => suffix.0 == 0,
        SuffixSpecModel::Range(rg) => rg.spec_contains(suffix),
        SuffixSpecModel::Table(pairs) => pair_id_in(pairs, suffix),
    }
}

impl SuffixSpec {
    /// A table's rows carry pairwise distinct suffixes and labels; the other
    /// variants are unconditionally well-formed.
    pub open spec fn wf(&self) -> bool {
        suffix_model_wf(self@)
    }

    /// Whether `suffix` is legal here: zero under `Empty`, inside the bounds
    /// under `Range`, present by id under `Table`.
    pub fn is_valid(&self, suffix: Suffix) -> (r: bool)
        ensures
            r == model_is_valid(self@, suffix),
    {
        match self {
            SuffixSpec::Empty => suffix.0 == 0,
            SuffixSpec::Range(range) => range.contains_suffix(suffix),
            SuffixSpec::Table(table) => {
                let r = table.contains_id(&suffix);
                proof {
                    lemma_pairs_of_id_in::<Suffix, SuffixRow>(table@, suffix);
                }
                r
            },
        }
    }

    /// The suffix registered under `label`: meaningful only for `Table`; the
    /// other variants never find anything.
    pub fn find_by_label(&self, label: &String) -> (r: Option<Suffix>)
        ensures
            match self@ {
                SuffixSpecModel::Table(pairs) => {
                    &&& r is Some <==> pair_label_in(pairs, label@)
                    &&& (r matches Some(s) ==> exists|j: int|
                        0 <= j < pairs.len() && pairs[j] == (s, label@))
                },
                _ => r is None,
            },
    {
        match self {
            SuffixSpec::Empty => None,
            SuffixSpec::Range(_) => None,
            SuffixSpec::Table(table) => {
                proof {
                    lemma_pairs_of_label_in::<Suffix, SuffixRow>(table@, label@);
                }
                match table.find_by_label(label) {
                    Some(row) => {
                        proof {
                            let j = choose|j: int|
                                0 <= j < table@.len() && table@[j] == *row;
                            assert(pairs_of::<Suffix, SuffixRow>(table@)[j] == (
                                row.suffix,
                                label@,
                            ));
                        }
                        Some(row.suffix)
                    },
                    None => None,
                }
            },
        }
    }
}

/// The specification a declaration resolves to: a range and rows together are
/// refused; a range alone must be strictly increasing; rows alone build a
/// collision-checked table; neither means only suffix zero.
pub open spec fn resolve_model(
    range: Option<SuffixRangeDef>,
    rows: Seq<SuffixDefModel>,
) -> Result<SuffixSpecModel, ItemErrorModel> {
    match range {
        Some(rg) => {
            if rows.len() > 0 {
                Err(ItemErrorModel::SuffixesAndRangeDefined)
            } else if rg.min < rg.max {
                Ok(SuffixSpecModel::Range(SuffixRange { min: Suffix(rg.min), max: Suffix(rg.max) }))
            } else {
                Err(ItemErrorModel::InvalidSuffixRange(rg.min, rg.max))
            }
        },
        None => {
            if rows.len() == 0 {
                Ok(SuffixSpecModel::Empty)
            } else {
                let pairs = rows.map_values(|d: SuffixDefModel| row_pair(d));
                match pair_build_outcome(pairs) {
                    Ok(()) => Ok(SuffixSpecModel::Table(pairs)),
                    Err(c) => Err(ItemErrorModel::InvalidSuffixTable(c)),
                }
            }
        },
    }
}

/// Declaring a suffix range and suffix rows together is refused with
/// `SuffixesAndRangeDefined`, whatever the rows hold and whatever the range's
/// bounds.
pub proof fn lemma_range_and_rows_refused(range: SuffixRangeDef, rows: Seq<SuffixDefModel>)
    requires
        rows.len() > 0,
    ensures
        resolve_model(Some(range), rows) == Err::<SuffixSpecModel, ItemErrorModel>(
            ItemErrorModel::SuffixesAndRangeDefined,
        ),
{
}

/// Resolves a declared suffix range and declared suffix rows — mutually
/// exclusive, never both — into one `SuffixSpec`.
pub fn convert_suffixes(range: Option<SuffixRangeDef>, suffixes: Vec<SuffixDef>) -> (r: Result<
    SuffixSpec,
    ItemError,
>)
    ensures
        resolve_model(range, suffixes@.map_values(|d: SuffixDef| d@)) matches Ok(m) ==> (r matches
        Ok(s) && s@ == m && s.wf()),
        resolve_model(range, suffixes@.map_values(|d: SuffixDef| d@)) matches Err(em) ==> (
        r matches Err(e) && e.model() == em),
{
    let ghost rows_model = suffixes@.map_values(|d: SuffixDef| d@);
    if let Some(range) = range {
        if suffixes.len() > 0 {
            Err(ItemError::SuffixesAndRangeDefined)
        } else {
            match SuffixRange::from_def(range) {
                Ok(rg) => Ok(SuffixSpec::Range(rg)),
                Err(e) => Err(e),
            }
        }
    } else if suffixes.len() > 0 {
        let ghost pairs = rows_model.map_values(|d: SuffixDefModel| row_pair(d));
        let n = suffixes.len();
        let mut rows: Vec<SuffixRow> = Vec::with_capacity(n);
        let mut rest = suffixes;
        let mut idx: usize = 0;
        while idx < n
            invariant
                n == rows_model.len(),
                suffixes@.map_values(|d: SuffixDef| d@) == rows_model,
                pairs == rows_model.map_values(|d: SuffixDefModel| row_pair(d)),
                0 <= idx <= n,
                rest@ =~= suffixes@.skip(idx as int),
                rows@.len() == idx,
                forall|j: int|
                    0 <= j < idx ==> (#[trigger] rows@[j].spec_id(), rows@[j].spec_label())
                        == row_pair(rows_model[j]),
            decreases n - idx,
        {
            proof {
                assert(rest@[0] == suffixes@[idx as int]);
                assert(rows_model[idx as int] == suffixes@[idx as int]@);
            }
            let def = rest.remove(0);
            let row = match SuffixRow::from_def(def) {
                Ok(row) => row,
                Err(e) => {
                    return Err(ItemError::InvalidSuffixRow(e));
                },
            };
            rows.push(row);
            proof {
                assert(rest@ =~= suffixes@.skip(idx as int + 1));
            }
            idx += 1;
        }
        proof {
            assert(pairs_of::<Suffix, SuffixRow>(rows@) =~= pairs);
            lemma_build_outcome_pairs::<Suffix, SuffixRow>(rows@);
        }
        match LookupTable::<Suffix, SuffixRow>::from_values(rows) {
            Ok(table) => {
                proof {
                    lemma_pairs_of_table_wf::<Suffix, SuffixRow>(table@);
                }
                Ok(SuffixSpec::Table(table))
            },
            Err(c) => Err(ItemError::InvalidSuffixTable(c)),
        }
    } else {
        Ok(SuffixSpec::Empty)
    }
}

} // verus!
