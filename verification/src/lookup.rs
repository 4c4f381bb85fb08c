//! Generic registry keyed twice: by numeric id and by human label. Insertion
//! never overwrites; an id or label already present aborts the whole build
//! with the id checked before the label.

use vstd::prelude::*;

verus! {

/// A value addressable by a numeric id.
pub trait HasId<I>: Sized {
    /// The id under which the value is registered.
    spec fn spec_id(&self) -> I;

    /// Returns the value's id.
    fn id(&self) -> (r: I)
        ensures
            r == self.spec_id(),
    ;
}

/// A value addressable by a human-readable label.
pub trait Labelled: Sized {
    /// The label under which the value is registered.
    spec fn spec_label(&self) -> Seq<char>;

    /// Returns the value's label.
    fn label(&self) -> (r: &String)
        ensures
            r@ == self.spec_label(),
    ;
}

/// An id type the table can compare at run time, with run-time equality
/// agreeing with mathematical equality.
pub trait TableId: Sized + Copy {
    /// Decides whether two ids are the same id.
    fn same(&self, other: &Self) -> (r: bool)
        ensures
            r <==> self == other,
    ;
}

/// Why an insertion was refused: the id or the label was already taken.
#[derive(Debug, PartialEq)]
pub enum Collision<I> {
    IdCollision(I),
    LabelCollision(String),
}

/// Mathematical form of a `Collision`, with the label as a character
/// sequence; contracts speak of this form.
pub ghost enum CollisionModel<I> {
    Id(I),
    Label(Seq<char>),
}

impl<I> Collision<I> {
    /// The collision as its mathematical form.
    pub open spec fn model(self) -> CollisionModel<I> {
        match self {
            Collision::IdCollision(i) => CollisionModel::Id(i),
            Collision::LabelCollision(l) => CollisionModel::Label(l@),
        }
    }
}

/// Whether some value in `s` is registered under `id`.
pub open spec fn id_in<I, V: HasId<I>>(s: Seq<V>, id: I) -> bool {
    exists|j: int| 0 <= j < s.len() && s[j].spec_id() == id
}

/// Whether some value in `s` is registered under `label`.
pub open spec fn label_in<V: Labelled>(s: Seq<V>, label: Seq<char>) -> bool {
    exists|j: int| 0 <= j < s.len() && s[j].spec_label() == label
}

/// All ids and all labels in `s` are pairwise distinct: the invariant every
/// built table keeps.
pub open spec fn table_wf<I, V: HasId<I> + Labelled>(s: Seq<V>) -> bool {
    forall|i: int, j: int|
        0 <= i < j < s.len() ==> s[i].spec_id() != s[j].spec_id() && s[i].spec_label()
            != s[j].spec_label()
}

/// The outcome of inserting the values of `s` in order into an empty table:
/// `Ok` when every insertion succeeds, otherwise the first collision
/// encountered, with the id checked before the label at each step.
pub open spec fn build_outcome<I, V: HasId<I> + Labelled>(s: Seq<V>) -> Result<
    (),
    CollisionModel<I>,
>
    decreases s.len(),
{
    if s.len() == 0 {
        Ok(())
    } else {
        match build_outcome::<I, V>(s.drop_last()) {
            Ok(()) => {
                if id_in(s.drop_last(), s.last().spec_id()) {
                    Err(CollisionModel::Id(s.last().spec_id()))
                } else if label_in(s.drop_last(), s.last().spec_label()) {
                    Err(CollisionModel::Label(s.last().spec_label()))
                } else {
                    Ok(())
                }
            },
            Err(c) => Err(c),
        }
    }
}

/// Whether some pair in `s` carries id `id`.
pub open spec fn pair_id_in<I>(s: Seq<(I, Seq<char>)>, id: I) -> bool {
    exists|j: int| 0 <= j < s.len() && s[j].0 == id
}

/// Whether some pair in `s` carries `label`.
pub open spec fn pair_label_in<I>(s: Seq<(I, Seq<char>)>, label: Seq<char>) -> bool {
    exists|j: int| 0 <= j < s.len() && s[j].1 == label
}

/// `build_outcome` restated over bare id–label pairs, for contracts that
/// speak of values only through their mathematical form.
pub open spec fn pair_build_outcome<I>(s: Seq<(I, Seq<char>)>) -> Result<(), CollisionModel<I>>
    decreases s.len(),
{
    if s.len() == 0 {
        Ok(())
    } else {
        match pair_build_outcome(s.drop_last()) {
            Ok(()) => {
                if pair_id_in(s.drop_last(), s.last().0) {
                    Err(CollisionModel::Id(s.last().0))
                } else if pair_label_in(s.drop_last(), s.last().1) {
                    Err(CollisionModel::Label(s.last().1))
                } else {
                    Ok(())
                }
            },
            Err(c) => Err(c),
        }
    }
}

/// The id–label pairs of a value sequence.
pub open spec fn pairs_of<I, V: HasId<I> + Labelled>(s: Seq<V>) -> Seq<(I, Seq<char>)> {
    s.map_values(|v: V| (v.spec_id(), v.spec_label()))
}

/// `table_wf` restated over bare id–label pairs.
pub open spec fn pair_table_wf<I>(s: Seq<(I, Seq<char>)>) -> bool {
    forall|i: int, j: int| 0 <= i < j < s.len() ==> s[i].0 != s[j].0 && s[i].1 != s[j].1
}

/// A pair build that succeeds leaves pairwise distinct ids and labels.
pub proof fn lemma_pair_build_outcome_ok_wf<I>(s: Seq<(I, Seq<char>)>)
    requires
        pair_build_outcome(s) is Ok,
    ensures
        pair_table_wf(s),
    decreases s.len(),
{
    if s.len() > 0 {
        lemma_pair_build_outcome_ok_wf(s.drop_last());
        assert forall|i: int, j: int| 0 <= i < j < s.len() implies s[i].0 != s[j].0 && s[i].1
            != s[j].1 by {
            if j == s.len() - 1 {
                assert(s.drop_last()[i] == s[i]);
                assert(!pair_id_in(s.drop_last(), s.last().0));
                assert(!pair_label_in(s.drop_last(), s.last().1));
            } else {
                assert(s.drop_last()[i] == s[i]);
                assert(s.drop_last()[j] == s[j]);
            }
        }
    }
}

/// Values keep the table invariant exactly when their pairs do.
pub proof fn lemma_pairs_of_table_wf<I, V: HasId<I> + Labelled>(s: Seq<V>)
    ensures
        pair_table_wf(pairs_of::<I, V>(s)) == table_wf::<I, V>(s),
{
    let p = pairs_of::<I, V>(s);
    if pair_table_wf(p) {
        assert forall|i: int, j: int| 0 <= i < j < s.len() implies s[i].spec_id()
            != s[j].spec_id() && s[i].spec_label() != s[j].spec_label() by {
            assert(p[i].0 == s[i].spec_id() && p[i].1 == s[i].spec_label());
            assert(p[j].0 == s[j].spec_id() && p[j].1 == s[j].spec_label());
        }
    }
    if table_wf::<I, V>(s) {
        assert forall|i: int, j: int| 0 <= i < j < p.len() implies p[i].0 != p[j].0 && p[i].1
            != p[j].1 by {
            assert(p[i].0 == s[i].spec_id() && p[i].1 == s[i].spec_label());
            assert(p[j].0 == s[j].spec_id() && p[j].1 == s[j].spec_label());
        }
    }
}

/// An id occurs among values exactly when it occurs among their pairs.
pub proof fn lemma_pairs_of_id_in<I, V: HasId<I> + Labelled>(s: Seq<V>, id: I)
    ensures
        pair_id_in(pairs_of::<I, V>(s), id) == id_in(s, id),
{
    let p = pairs_of::<I, V>(s);
    if pair_id_in(p, id) {
        let j = choose|j: int| 0 <= j < p.len() && p[j].0 == id;
        assert(s[j].spec_id() == id);
    }
    if id_in(s, id) {
        let j = choose|j: int| 0 <= j < s.len() && s[j].spec_id() == id;
        assert(p[j].0 == id);
    }
}

/// A label occurs among values exactly when it occurs among their pairs.
pub proof fn lemma_pairs_of_label_in<I, V: HasId<I> + Labelled>(s: Seq<V>, label: Seq<char>)
    ensures
        pair_label_in(pairs_of::<I, V>(s), label) == label_in(s, label),
{
    let p = pairs_of::<I, V>(s);
    if pair_label_in(p, label) {
        let j = choose|j: int| 0 <= j < p.len() && p[j].1 == label;
        assert(s[j].spec_label() == label);
    }
    if label_in(s, label) {
        let j = choose|j: int| 0 <= j < s.len() && s[j].spec_label() == label;
        assert(p[j].1 == label);
    }
}

/// Building a table from values and building one from their id–label pairs
/// come out the same.
pub proof fn lemma_build_outcome_pairs<I, V: HasId<I> + Labelled>(s: Seq<V>)
    ensures
        pair_build_outcome(pairs_of::<I, V>(s)) == build_outcome::<I, V>(s),
    decreases s.len(),
{
    let p = pairs_of::<I, V>(s);
    if s.len() > 0 {
        lemma_build_outcome_pairs::<I, V>(s.drop_last());
        assert(pairs_of::<I, V>(s.drop_last()) =~= p.drop_last());
        assert(p.last().0 == s.last().spec_id());
        assert(p.last().1 == s.last().spec_label());
        assert(pair_id_in(p.drop_last(), p.last().0) == id_in(
            s.drop_last(),
            s.last().spec_id(),
        )) by {
            if pair_id_in(p.drop_last(), p.last().0) {
                let j = choose|j: int|
                    0 <= j < p.drop_last().len() && p.drop_last()[j].0 == p.last().0;
                assert(s.drop_last()[j].spec_id() == s.last().spec_id());
            }
            if id_in(s.drop_last(), s.last().spec_id()) {
                let j = choose|j: int|
                    0 <= j < s.drop_last().len() && s.drop_last()[j].spec_id()
                        == s.last().spec_id();
                assert(p.drop_last()[j].0 == p.last().0);
            }
        }
        assert(pair_label_in(p.drop_last(), p.last().1) == label_in(
            s.drop_last(),
            s.last().spec_label(),
        )) by {
            if pair_label_in(p.drop_last(), p.last().1) {
                let j = choose|j: int|
                    0 <= j < p.drop_last().len() && p.drop_last()[j].1 == p.last().1;
                assert(s.drop_last()[j].spec_label() == s.last().spec_label());
            }
            if label_in(s.drop_last(), s.last().spec_label()) {
                let j = choose|j: int|
                    0 <= j < s.drop_last().len() && s.drop_last()[j].spec_label()
                        == s.last().spec_label();
                assert(p.drop_last()[j].1 == p.last().1);
            }
        }
    }
}

/// A collision while inserting a prefix settles the outcome of the whole
/// sequence: insertion abandons everything after the first collision.
pub proof fn lemma_build_outcome_prefix_err<I, V: HasId<I> + Labelled>(
    s: Seq<V>,
    m: int,
    c: CollisionModel<I>,
)
    requires
        0 <= m <= s.len(),
        build_outcome::<I, V>(s.take(m)) == Err::<(), CollisionModel<I>>(c),
    ensures
        build_outcome::<I, V>(s) == Err::<(), CollisionModel<I>>(c),
    decreases s.len(),
{
    if m == s.len() {
        assert(s.take(m) =~= s);
    } else {
        assert(s.drop_last().take(m) =~= s.take(m));
        lemma_build_outcome_prefix_err::<I, V>(s.drop_last(), m, c);
    }
}

/// A build that succeeds leaves a table whose ids and labels are pairwise
/// distinct.
pub proof fn lemma_build_outcome_ok_wf<I, V: HasId<I> + Labelled>(s: Seq<V>)
    requires
        build_outcome::<I, V>(s) is Ok,
    ensures
        table_wf::<I, V>(s),
    decreases s.len(),
{
    if s.len() > 0 {
        lemma_build_outcome_ok_wf::<I, V>(s.drop_last());
        assert forall|i: int, j: int| 0 <= i < j < s.len() implies s[i].spec_id()
            != s[j].spec_id() && s[i].spec_label() != s[j].spec_label() by {
            if j == s.len() - 1 {
                assert(s.drop_last()[i] == s[i]);
                assert(!id_in(s.drop_last(), s.last().spec_id()));
                assert(!label_in(s.drop_last(), s.last().spec_label()));
            } else {
                assert(s.drop_last()[i] == s[i]);
                assert(s.drop_last()[j] == s[j]);
            }
        }
    }
}

/// Registry mapping ids to values with a secondary label index. The invariant
/// `wf` — no id and no label occurs twice — is established at construction
/// and preserved by every insertion that succeeds.
#[derive(Debug)]
pub struct LookupTable<I, V> {
    values: Vec<V>,
    id_marker: core::marker::PhantomData<I>,
}

impl<I, T> View for LookupTable<I, T> {
    type V = Seq<T>;

    closed spec fn view(&self) -> Seq<T> {
        self.values@
    }
}

impl<I: TableId, V: HasId<I> + Labelled> LookupTable<I, V> {
    /// The table invariant: all ids and all labels pairwise distinct.
    pub open spec fn wf(&self) -> bool {
        table_wf::<I, V>(self@)
    }

    /// An empty table.
    pub fn new() -> (r: LookupTable<I, V>)
        ensures
            r@ == Seq::<V>::empty(),
            r.wf(),
    {
        LookupTable { values: Vec::new(), id_marker: core::marker::PhantomData }
    }

    /// An empty table expecting about `capacity` values.
    pub fn with_capacity(capacity: usize) -> (r: LookupTable<I, V>)
        ensures
            r@ == Seq::<V>::empty(),
            r.wf(),
    {
        LookupTable { values: Vec::with_capacity(capacity), id_marker: core::marker::PhantomData }
    }

    /// Number of values registered.
    pub fn len(&self) -> (r: usize)
        ensures
            r == self@.len(),
    {
        self.values.len()
    }

    /// The registered values, in insertion order.
    pub fn values(&self) -> (r: &Vec<V>)
        ensures
            r@ == self@,
    {
        &self.values
    }

    /// Inserts `item`, refusing an id already present — checked before the
    /// label — and then a label already present; a refused table is
    /// unchanged.
    pub fn push(&mut self, item: V) -> (r: Result<(), Collision<I>>)
        ensures
            id_in(old(self)@, item.spec_id()) ==> (r matches Err(c) && c.model()
                == CollisionModel::Id(item.spec_id())),
            !id_in(old(self)@, item.spec_id()) && label_in(old(self)@, item.spec_label())
                ==> (r matches Err(c) && c.model() == CollisionModel::<I>::Label(
                item.spec_label(),
            )),
            !id_in(old(self)@, item.spec_id()) && !label_in(old(self)@, item.spec_label())
                ==> r is Ok && final(self)@ == old(self)@.push(item),
            r is Err ==> final(self)@ == old(self)@,
            old(self).wf() ==> final(self).wf(),
    {
        let item_id = item.id();
        let n = self.values.len();
        let mut i: usize = 0;
        while i < n
            invariant
                n == self.values.len(),
                0 <= i <= n,
                item_id == item.spec_id(),
                forall|j: int| 0 <= j < i ==> self.values@[j].spec_id() != item.spec_id(),
            decreases n - i,
        {
            if self.values[i].id().same(&item_id) {
                return Err(Collision::IdCollision(item_id));
            }
            i += 1;
        }
        let mut i: usize = 0;
        while i < n
            invariant
                n == self.values.len(),
                0 <= i <= n,
                !id_in(self.values@, item.spec_id()),
                forall|j: int| 0 <= j < i ==> self.values@[j].spec_label() != item.spec_label(),
            decreases n - i,
        {
            if *self.values[i].label() == *item.label() {
                return Err(Collision::LabelCollision(item.label().clone()));
            }
            i += 1;
        }
        self.values.push(item);
        proof {
            if table_wf::<I, V>(old(self)@) {
                assert forall|i: int, j: int| 0 <= i < j < self@.len() implies self@[i].spec_id()
                    != self@[j].spec_id() && self@[i].spec_label() != self@[j].spec_label() by {
                    if j < self@.len() - 1 {
                        assert(self@[i] == old(self)@[i]);
                        assert(self@[j] == old(self)@[j]);
                    } else {
                        assert(self@[i] == old(self)@[i]);
                        assert(!id_in(old(self)@, item.spec_id()));
                        assert(!label_in(old(self)@, item.spec_label()));
                    }
                }
            }
        }
        Ok(())
    }

    /// Whether a value is registered under `index`.
    pub fn contains_id(&self, index: &I) -> (r: bool)
        ensures
            r == id_in(self@, *index),
    {
        let n = self.values.len();
        let mut i: usize = 0;
        while i < n
            invariant
                n == self.values.len(),
                0 <= i <= n,
                forall|j: int| 0 <= j < i ==> self.values@[j].spec_id() != *index,
            decreases n - i,
        {
            if self.values[i].id().same(index) {
                return true;
            }
            i += 1;
        }
        false
    }

    /// The value registered under `index`, if any.
    pub fn find(&self, index: &I) -> (r: Option<&V>)
        ensures
            r is None <==> !id_in(self@, *index),
            r matches Some(v) ==> v.spec_id() == *index && self@.contains(*v),
    {
        let n = self.values.len();
        let mut i: usize = 0;
        while i < n
            invariant
                n == self.values.len(),
                0 <= i <= n,
                forall|j: int| 0 <= j < i ==> self.values@[j].spec_id() != *index,
            decreases n - i,
        {
            if self.values[i].id().same(index) {
                return Some(&self.values[i]);
            }
            i += 1;
        }
        None
    }

    /// The value registered under `label`, if any.
    pub fn find_by_label(&self, label: &String) -> (r: Option<&V>)
        ensures
            r is None <==> !label_in(self@, label@),
            r matches Some(v) ==> v.spec_label() == label@ && self@.contains(*v),
    {
        let n = self.values.len();
        let mut i: usize = 0;
        while i < n
            invariant
                n == self.values.len(),
                0 <= i <= n,
                forall|j: int| 0 <= j < i ==> self.values@[j].spec_label() != label@,
            decreases n - i,
        {
            if *self.values[i].label() == *label {
                return Some(&self.values[i]);
            }
            i += 1;
        }
        None
    }

    /// Builds a table by inserting `values` in order, returning the first
    /// collision encountered and abandoning the rest.
    pub fn from_values(values: Vec<V>) -> (r: Result<LookupTable<I, V>, Collision<I>>)
        ensures
            build_outcome::<I, V>(values@) is Ok ==> (r matches Ok(t) && t@ == values@
                && t.wf()),
            build_outcome::<I, V>(values@) matches Err(c) ==> (r matches Err(col) && col.model()
                == c),
    {
        let ghost all = values@;
        let n = values.len();
        let mut table = LookupTable::<I, V>::with_capacity(n);
        let mut rest = values;
        let mut idx: usize = 0;
        while idx < n
            invariant
                n == all.len(),
                values@ == all,
                0 <= idx <= n,
                rest@ =~= all.skip(idx as int),
                table@ == all.take(idx as int),
                table.wf(),
                build_outcome::<I, V>(all.take(idx as int)) is Ok,
            decreases n - idx,
        {
            proof {
                assert(rest@.len() == n - idx);
                assert(rest@[0] == all[idx as int]);
                assert(all.take(idx as int + 1).drop_last() =~= all.take(idx as int));
                assert(all.take(idx as int + 1).last() == all[idx as int]);
            }
            let item = rest.remove(0);
            match table.push(item) {
                Ok(()) => {},
                Err(c) => {
                    proof {
                        if id_in(all.take(idx as int), item.spec_id()) {
                            assert(build_outcome::<I, V>(all.take(idx as int + 1)) == Err::<
                                (),
                                CollisionModel<I>,
                            >(CollisionModel::Id(item.spec_id())));
                        } else {
                            assert(build_outcome::<I, V>(all.take(idx as int + 1)) == Err::<
                                (),
                                CollisionModel<I>,
                            >(CollisionModel::Label(item.spec_label())));
                        }
                        lemma_build_outcome_prefix_err::<I, V>(all, idx as int + 1, c.model());
                    }
                    return Err(c);
                },
            }
            proof {
                assert(table@ =~= all.take(idx as int + 1));
                assert(rest@ =~= all.skip(idx as int + 1));
            }
            idx += 1;
        }
        proof {
            assert(all.take(n as int) =~= all);
        }
        Ok(table)
    }
}

} // verus!
