//! The live state store: one `Shard` per declared position, fixed at
//! construction, each partitioned by `Region` — regions are created lazily on
//! first write and never removed. An unordered shard accumulates counts per
//! coordinate; an ordered shard holds one kind per slot suffix, a write to an
//! occupied slot overwriting it. Mutation goes through a `Transaction`, which
//! owns the state for its whole scope.

use crate::coords::{Pos, QKind, QPos, Region, Suffix};
use crate::specs::{pos_pairs, GameSpec};
use vstd::prelude::*;

verus! {

/// Coordinate of one stored fact inside an unordered shard: the position's
/// slot suffix and the qualified kind stored there.
#[derive(Debug, Hash, Eq, PartialEq, Ord, PartialOrd, Copy, Clone, Structural)]
pub struct Key {
    pub pos_suffix: Suffix,
    pub kind: QKind,
}

/// One flattened snapshot fact, totally ordered by `(QPos, QKind)` for
/// deterministic snapshots.
#[derive(Debug, Hash, Eq, PartialEq, Ord, PartialOrd, Copy, Clone, Structural)]
pub struct ExportRow {
    pub pos: QPos,
    pub kind: QKind,
    pub count: u32,
}

/// The first value stored under `key`, if any: association lists resolve a
/// key to its first hit, and every table here keeps its keys unique.
pub open spec fn find_pair<K, V>(s: Seq<(K, V)>, key: K) -> Option<V>
    decreases s.len(),
{
    if s.len() == 0 {
        None
    } else if s[0].0 == key {
        Some(s[0].1)
    } else {
        find_pair(s.skip(1), key)
    }
}

/// Whether any entry carries `key`.
pub open spec fn has_pair<K, V>(s: Seq<(K, V)>, key: K) -> bool {
    exists|j: int| 0 <= j < s.len() && s[j].0 == key
}

/// No key occurs twice.
pub open spec fn unique_keys<K, V>(s: Seq<(K, V)>) -> bool {
    forall|i: int, j: int| 0 <= i < j < s.len() ==> s[i].0 != s[j].0
}

/// A lookup succeeds exactly on present keys, and yields a stored pair.
pub proof fn lemma_find_pair_some<K, V>(s: Seq<(K, V)>, key: K)
    ensures
        (find_pair(s, key) is Some) == has_pair(s, key),
        find_pair(s, key) matches Some(v) ==> exists|j: int|
            0 <= j < s.len() && s[j] == (key, v),
    decreases s.len(),
{
    if s.len() > 0 && s[0].0 != key {
        lemma_find_pair_some(s.skip(1), key);
        if has_pair(s, key) {
            let j = choose|j: int| 0 <= j < s.len() && s[j].0 == key;
            assert(s.skip(1)[j - 1].0 == key);
        }
        if find_pair(s, key) is Some {
            let v = find_pair(s, key)->Some_0;
            let j = choose|j: int| 0 <= j < s.skip(1).len() && s.skip(1)[j] == (key, v);
            assert(s[j + 1] == (key, v));
        }
    }
}

/// With unique keys, looking an entry's own key up yields that entry's value.
pub proof fn lemma_find_pair_at<K, V>(s: Seq<(K, V)>, i: int)
    requires
        unique_keys(s),
        0 <= i < s.len(),
    ensures
        find_pair(s, s[i].0) == Some(s[i].1),
    decreases s.len(),
{
    if i > 0 {
        assert(s[0].0 != s[i].0);
        assert(unique_keys(s.skip(1))) by {
            assert forall|m: int, n: int| 0 <= m < n < s.skip(1).len() implies s.skip(1)[m].0
                != s.skip(1)[n].0 by {
                assert(s.skip(1)[m] == s[m + 1]);
                assert(s.skip(1)[n] == s[n + 1]);
            }
        }
        assert(s.skip(1)[i - 1] == s[i]);
        lemma_find_pair_at(s.skip(1), i - 1);
    }
}

/// Replacing the value stored at one entry changes exactly that key's lookup.
pub proof fn lemma_find_pair_update<K, V>(s: Seq<(K, V)>, i: int, v: V, key: K)
    requires
        unique_keys(s),
        0 <= i < s.len(),
    ensures
        find_pair(s.update(i, (s[i].0, v)), key) == if key == s[i].0 {
            Some(v)
        } else {
            find_pair(s, key)
        },
    decreases s.len(),
{
    let t = s.update(i, (s[i].0, v));
    assert(t.len() == s.len());
    if i == 0 {
        if key != s[0].0 {
            assert(t.skip(1) =~= s.skip(1));
        }
    } else {
        assert(t[0] == s[0]);
        assert(unique_keys(s.skip(1))) by {
            assert forall|m: int, n: int| 0 <= m < n < s.skip(1).len() implies s.skip(1)[m].0
                != s.skip(1)[n].0 by {
                assert(s.skip(1)[m] == s[m + 1]);
                assert(s.skip(1)[n] == s[n + 1]);
            }
        }
        assert(s.skip(1)[i - 1] == s[i]);
        assert(t.skip(1) =~= s.skip(1).update(i - 1, (s[i].0, v)));
        lemma_find_pair_update(s.skip(1), i - 1, v, key);
    }
}

/// Appending a fresh key changes exactly that key's lookup.
pub proof fn lemma_find_pair_push<K, V>(s: Seq<(K, V)>, key2: K, v: V, key: K)
    requires
        !has_pair(s, key2),
    ensures
        find_pair(s.push((key2, v)), key) == if key == key2 {
            Some(v)
        } else {
            find_pair(s, key)
        },
    decreases s.len(),
{
    let t = s.push((key2, v));
    if s.len() == 0 {
        assert(t[0] == (key2, v));
        assert(t.skip(1) =~= Seq::<(K, V)>::empty());
        assert(find_pair(t.skip(1), key) is None);
        if key == key2 {
            assert(find_pair(t, key) == Some(v));
        } else {
            assert(find_pair(t, key) is None);
            assert(find_pair(s, key) is None);
        }
    } else {
        assert(t[0] == s[0]);
        assert(s[0].0 != key2);
        assert(!has_pair(s.skip(1), key2)) by {
            if has_pair(s.skip(1), key2) {
                let j = choose|j: int| 0 <= j < s.skip(1).len() && s.skip(1)[j].0 == key2;
                assert(s[j + 1].0 == key2);
            }
        }
        assert(t.skip(1) =~= s.skip(1).push((key2, v)));
        lemma_find_pair_push(s.skip(1), key2, v, key);
    }
}

/// One region's worth of an unordered position: accumulated counts per
/// coordinate.
pub struct UnorderedShard {
    pub pos: Pos,
    pub region: Region,
    pub counts: Vec<(Key, u32)>,
}

impl UnorderedShard {
    /// An empty partition of the unordered position `pos` for `region`.
    pub fn new(pos: Pos, region: Region) -> (r: UnorderedShard)
        ensures
            r.pos == pos,
            r.region == region,
            r.counts@ == Seq::<(Key, u32)>::empty(),
    {
        UnorderedShard { pos, region, counts: Vec::new() }
    }
}

/// One region's worth of an ordered position: at most one kind per slot.
pub struct OrderedShard {
    pub pos: Pos,
    pub region: Region,
    pub slots: Vec<(Suffix, QKind)>,
}

impl OrderedShard {
    /// An empty partition of the ordered position `pos` for `region`.
    pub fn new(pos: Pos, region: Region) -> (r: OrderedShard)
        ensures
            r.pos == pos,
            r.region == region,
            r.slots@ == Seq::<(Suffix, QKind)>::empty(),
    {
        OrderedShard { pos, region, slots: Vec::new() }
    }
}

/// A position's storage partitioned by region.
pub struct Regional<T> {
    pub regions: Vec<(Region, T)>,
}

impl<T> Regional<T> {
    /// A partitioning with no regions yet.
    pub fn new() -> (r: Regional<T>)
        ensures
            r.regions@ == Seq::<(Region, T)>::empty(),
    {
        Regional { regions: Vec::new() }
    }
}

/// One position's storage, tagged permanently by the position's `ordered`
/// flag.
pub enum Shard {
    Ordered(Regional<OrderedShard>),
    Unordered(Regional<UnorderedShard>),
}

/// Every region entry of the shard belongs to `pos`, is filed under its own
/// region key, and keeps its coordinate keys unique.
pub open spec fn shard_wf(pos: Pos, shard: Shard) -> bool {
    match shard {
        Shard::Unordered(reg) => {
            &&& unique_keys(reg.regions@)
            &&& forall|i: int|
                0 <= i < reg.regions@.len() ==> {
                    &&& (#[trigger] reg.regions@[i]).1.pos == pos
                    &&& reg.regions@[i].1.region == reg.regions@[i].0
                    &&& unique_keys(reg.regions@[i].1.counts@)
                }
        },
        Shard::Ordered(reg) => {
            &&& unique_keys(reg.regions@)
            &&& forall|i: int|
                0 <= i < reg.regions@.len() ==> {
                    &&& (#[trigger] reg.regions@[i]).1.pos == pos
                    &&& reg.regions@[i].1.region == reg.regions@[i].0
                    &&& unique_keys(reg.regions@[i].1.slots@)
                }
        },
    }
}

/// A shard holding no regions yet.
pub open spec fn shard_is_empty(shard: Shard) -> bool {
    match shard {
        Shard::Unordered(reg) => reg.regions@.len() == 0,
        Shard::Ordered(reg) => reg.regions@.len() == 0,
    }
}

/// Whether the shard carries sequence semantics.
pub open spec fn shard_is_ordered(shard: Shard) -> bool {
    shard is Ordered
}

/// The count one shard stores at a coordinate addressing it.
pub open spec fn shard_row_at(shard: Shard, qpos: QPos, qkind: QKind) -> Option<u32> {
    match shard {
        Shard::Unordered(reg) => match find_pair(reg.regions@, qpos.region) {
            None => None,
            Some(ush) => find_pair(ush.counts@, Key { pos_suffix: qpos.suffix, kind: qkind }),
        },
        Shard::Ordered(reg) => match find_pair(reg.regions@, qpos.region) {
            None => None,
            Some(osh) => match find_pair(osh.slots@, qpos.suffix) {
                None => None,
                Some(k) => if k == qkind {
                    Some(1u32)
                } else {
                    None
                },
            },
        },
    }
}

/// The live record of which pieces occupy which positions: one shard per
/// declared position, fixed at construction.
pub struct State {
    pub shards: Vec<(Pos, Shard)>,
}

impl State {
    /// Position keys are unique and every shard is internally consistent.
    pub open spec fn wf(&self) -> bool {
        &&& unique_keys(self.shards@)
        &&& forall|i: int|
            0 <= i < self.shards@.len() ==> shard_wf(
                (#[trigger] self.shards@[i]).0,
                self.shards@[i].1,
            )
    }

    /// Whether a shard for `pos` exists, that is, whether the compiled
    /// specification declared the position.
    pub open spec fn has_pos(&self, pos: Pos) -> bool {
        has_pair(self.shards@, pos)
    }

    /// Whether the shard for `pos`, if any, is ordered.
    pub open spec fn pos_ordered(&self, pos: Pos) -> Option<bool> {
        match find_pair(self.shards@, pos) {
            None => None,
            Some(shard) => Some(shard_is_ordered(shard)),
        }
    }

    /// Whether the `(pos, region)` partition has been created.
    pub open spec fn has_region(&self, pos: Pos, region: Region) -> bool {
        match find_pair(self.shards@, pos) {
            None => false,
            Some(shard) => match shard {
                Shard::Unordered(reg) => has_pair(reg.regions@, region),
                Shard::Ordered(reg) => has_pair(reg.regions@, region),
            },
        }
    }

    /// The count stored at one fully qualified coordinate: what one export
    /// row would report there, `None` where nothing is stored. An ordered
    /// shard reports count one for an occupied slot whose kind matches.
    pub open spec fn row_at(&self, qpos: QPos, qkind: QKind) -> Option<u32> {
        match find_pair(self.shards@, qpos.pos) {
            None => None,
            Some(shard) => shard_row_at(shard, qpos, qkind),
        }
    }

    /// Allocates exactly one empty shard per declared position, typed by that
    /// position's `ordered` flag; no regions exist yet and nothing is stored.
    #[verifier::loop_isolation(false)]
    pub fn new(spec: &GameSpec) -> (r: State)
        requires
            spec.wf(),
        ensures
            r.wf(),
            r.shards@.len() == spec@.pos_specs.len(),
            forall|i: int|
                0 <= i < spec@.pos_specs.len() ==> {
                    &&& (#[trigger] r.shards@[i]).0 == spec@.pos_specs[i].id
                    &&& shard_is_ordered(r.shards@[i].1) == spec@.pos_specs[i].ordered
                    &&& shard_is_empty(r.shards@[i].1)
                },
            forall|qpos: QPos, qkind: QKind| r.row_at(qpos, qkind) is None,
    {
        let pos_specs = spec.pos_specs().values();
        let n = pos_specs.len();
        let mut shards: Vec<(Pos, Shard)> = Vec::with_capacity(n);
        let mut i: usize = 0;
        while i < n
            invariant
                n == spec@.pos_specs.len(),
                pos_specs@.map_values(|p: crate::specs::PosSpec| p@) == spec@.pos_specs,
                0 <= i <= n,
                shards@.len() == i,
                forall|j: int|
                    0 <= j < i ==> {
                        &&& (#[trigger] shards@[j]).0 == spec@.pos_specs[j].id
                        &&& shard_is_ordered(shards@[j].1) == spec@.pos_specs[j].ordered
                        &&& shard_is_empty(shards@[j].1)
                    },
            decreases n - i,
        {
            let ps = &pos_specs[i];
            proof {
                assert(pos_specs@[i as int]@ == spec@.pos_specs[i as int]);
            }
            let shard = if ps.ordered {
                Shard::Ordered(Regional::new())
            } else {
                Shard::Unordered(Regional::new())
            };
            shards.push((ps.id, shard));
            i += 1;
        }
        let r = State { shards };
        proof {
            assert(unique_keys(r.shards@)) by {
                assert forall|i: int, j: int| 0 <= i < j < r.shards@.len() implies r.shards@[i].0
                    != r.shards@[j].0 by {
                    assert(pos_pairs(spec@.pos_specs)[i].0 == spec@.pos_specs[i].id);
                    assert(pos_pairs(spec@.pos_specs)[j].0 == spec@.pos_specs[j].id);
                }
            }
            assert forall|qpos: QPos, qkind: QKind| r.row_at(qpos, qkind) is None by {
                lemma_find_pair_some(r.shards@, qpos.pos);
                match find_pair(r.shards@, qpos.pos) {
                    None => {},
                    Some(shard) => {
                        let j = choose|j: int|
                            0 <= j < r.shards@.len() && r.shards@[j] == (qpos.pos, shard);
                        assert(shard_is_empty(shard));
                        match shard {
                            Shard::Unordered(reg) => {
                                assert(find_pair(reg.regions@, qpos.region) is None);
                            },
                            Shard::Ordered(reg) => {
                                assert(find_pair(reg.regions@, qpos.region) is None);
                            },
                        }
                    },
                }
            }
        }
        r
    }
}

/// `a + b`, stopping at the largest representable count rather than
/// overflowing.
pub open spec fn add_saturating(a: u32, b: u32) -> u32 {
    if a + b > u32::MAX {
        u32::MAX
    } else {
        (a + b) as u32
    }
}

/// The count a creation leaves at its coordinate: added to what was there —
/// saturating, never a destructive overwrite — or stored fresh.
pub open spec fn created_count(prev: Option<u32>, count: u32) -> u32 {
    match prev {
        Some(n) => add_saturating(n, count),
        None => count,
    }
}

/// What applying `CreatePieces` to a state that knows the position does:
/// shard shapes survive, exactly the addressed region may appear, and the
/// stored facts change only at the written coordinate — an unordered shard
/// accumulates, an ordered shard overwrites its slot.
pub open spec fn create_effect(pre: State, post: State, c: CreatePieces) -> bool {
    &&& forall|p: Pos| #[trigger] post.pos_ordered(p) == pre.pos_ordered(p)
    &&& forall|p: Pos, rg: Region| #[trigger]
        post.has_region(p, rg) == (pre.has_region(p, rg) || (p == c.pos.pos && rg
            == c.pos.region))
    &&& pre.pos_ordered(c.pos.pos) == Some(false) ==> {
        &&& post.row_at(c.pos, c.kind) == Some(
            created_count(pre.row_at(c.pos, c.kind), c.count),
        )
        &&& forall|q: QPos, k: QKind|
            !(q == c.pos && k == c.kind) ==> #[trigger] post.row_at(q, k) == pre.row_at(q, k)
    }
    &&& pre.pos_ordered(c.pos.pos) == Some(true) ==> {
        &&& post.row_at(c.pos, c.kind) == Some(1u32)
        &&& forall|q: QPos, k: QKind|
            q != c.pos ==> #[trigger] post.row_at(q, k) == pre.row_at(q, k)
        &&& forall|k: QKind| k != c.kind ==> #[trigger] post.row_at(c.pos, k) is None
    }
}

/// The only mutation so far: place `count` pieces of `kind` at `pos`.
#[derive(Debug, Eq, PartialEq, Copy, Clone, Structural)]
pub struct CreatePieces {
    pub pos: QPos,
    pub kind: QKind,
    pub count: u32,
}

/// A mutation command.
#[derive(Debug, Eq, PartialEq, Copy, Clone, Structural)]
pub enum Cmd {
    CreatePieces(CreatePieces),
}

/// Why a command was refused.
#[derive(Debug, Eq, PartialEq, Copy, Clone, Structural)]
pub enum CmdError {
    NoSuchPos(Pos),
}

/// Exclusive access to one `State`: the transaction owns it from `start_tx`
/// until `commit` hands it back, so no second writer can exist meanwhile.
pub struct Transaction {
    pub state: State,
}

impl State {
    /// Opens a transaction, surrendering the state to it.
    pub fn start_tx(self) -> (tx: Transaction)
        ensures
            tx.state == self,
    {
        Transaction { state: self }
    }
}

/// The index of the entry carrying `key`, if any.
#[verifier::loop_isolation(false)]
fn find_key_index<K: crate::lookup::TableId, V>(entries: &Vec<(K, V)>, key: K) -> (r: Option<
    usize,
>)
    ensures
        r matches Some(i) ==> i < entries@.len() && entries@[i as int].0 == key,
        r is None ==> !has_pair(entries@, key),
{
    let n = entries.len();
    let mut i: usize = 0;
    while i < n
        invariant
            n == entries@.len(),
            0 <= i <= n,
            forall|j: int| 0 <= j < i ==> entries@[j].0 != key,
        decreases n - i,
    {
        if entries[i].0.same(&key) {
            return Some(i);
        }
        i += 1;
    }
    None
}

/// The index of the region partition for `region`, created empty — as the
/// caller's `empty` value — on a first write, and reused ever after.
#[verifier::loop_isolation(false)]
fn find_or_create_region<T>(reg: &mut Regional<T>, region: Region, empty: T) -> (ri: usize)
    requires
        unique_keys(old(reg).regions@),
    ensures
        ri < final(reg).regions@.len(),
        final(reg).regions@[ri as int].0 == region,
        unique_keys(final(reg).regions@),
        find_pair(final(reg).regions@, region) == Some(final(reg).regions@[ri as int].1),
        forall|rg: Region|
            rg != region ==> #[trigger] find_pair(final(reg).regions@, rg) == find_pair(
                old(reg).regions@,
                rg,
            ),
        forall|rg: Region| #[trigger]
            has_pair(final(reg).regions@, rg) == (has_pair(old(reg).regions@, rg) || rg == region),
        match find_pair(old(reg).regions@, region) {
            Some(u) => final(reg).regions@ == old(reg).regions@ && final(reg).regions@[ri as int].1
                == u,
            None => final(reg).regions@ == old(reg).regions@.push((region, empty)),
        },
{
    match find_key_index(&reg.regions, region) {
        Some(ri) => {
            proof {
                lemma_find_pair_at(reg.regions@, ri as int);
                assert forall|rg: Region| #[trigger]
                    has_pair(reg.regions@, rg) == (has_pair(reg.regions@, rg) || rg
                        == region) by {
                    assert(reg.regions@[ri as int].0 == region);
                }
            }
            ri
        },
        None => {
            proof {
                lemma_find_pair_some(reg.regions@, region);
            }
            let ghost regs0 = reg.regions@;
            let n = reg.regions.len();
            reg.regions.push((region, empty));
            proof {
                assert forall|rg: Region| #[trigger] find_pair(reg.regions@, rg) == (if rg
                    == region {
                    Some(empty)
                } else {
                    find_pair(regs0, rg)
                }) by {
                    lemma_find_pair_push(regs0, region, empty, rg);
                }
                assert forall|m: int, n2: int|
                    0 <= m < n2 < reg.regions@.len() implies reg.regions@[m].0
                    != reg.regions@[n2].0 by {
                    if n2 < reg.regions@.len() - 1 {
                        assert(reg.regions@[m] == regs0[m]);
                        assert(reg.regions@[n2] == regs0[n2]);
                    } else {
                        assert(reg.regions@[m] == regs0[m]);
                    }
                }
                assert forall|rg: Region| #[trigger]
                    has_pair(reg.regions@, rg) == (has_pair(regs0, rg) || rg == region) by {
                    if has_pair(reg.regions@, rg) {
                        let j = choose|j: int|
                            0 <= j < reg.regions@.len() && reg.regions@[j].0 == rg;
                        if j < reg.regions@.len() - 1 {
                            assert(regs0[j].0 == rg);
                        }
                    }
                    if has_pair(regs0, rg) {
                        let j = choose|j: int| 0 <= j < regs0.len() && regs0[j].0 == rg;
                        assert(reg.regions@[j].0 == rg);
                    }
                    if rg == region {
                        assert(reg.regions@[reg.regions@.len() - 1].0 == rg);
                    }
                }
                assert(reg.regions@[n as int].0 == region);
            }
            n
        },
    }
}

/// Accumulates `cmd.count` at the addressed coordinate of one unordered
/// region shard, saturating rather than overflowing.
#[verifier::loop_isolation(false)]
fn create_unordered_pieces(cmd: &CreatePieces, shard: &mut UnorderedShard) -> (r: Result<
    (),
    CmdError,
>)
    requires
        unique_keys(old(shard).counts@),
    ensures
        r is Ok,
        final(shard).pos == old(shard).pos,
        final(shard).region == old(shard).region,
        unique_keys(final(shard).counts@),
        ({
            let key = Key { pos_suffix: cmd.pos.suffix, kind: cmd.kind };
            &&& find_pair(final(shard).counts@, key) == Some(
                created_count(find_pair(old(shard).counts@, key), cmd.count),
            )
            &&& forall|k: Key|
                k != key ==> #[trigger] find_pair(final(shard).counts@, k) == find_pair(
                    old(shard).counts@,
                    k,
                )
        }),
{
    let key = Key { pos_suffix: cmd.pos.suffix, kind: cmd.kind };
    let n = shard.counts.len();
    let mut i: usize = 0;
    while i < n
        invariant
            n == shard.counts@.len(),
            *shard == *old(shard),
            0 <= i <= n,
            forall|j: int| 0 <= j < i ==> shard.counts@[j].0 != key,
        decreases n - i,
    {
        if shard.counts[i].0 == key {
            let e = &mut shard.counts[i];
            e.1 = e.1.saturating_add(cmd.count);
            proof {
                let pre = old(shard).counts@;
                assert(shard.counts@ =~= pre.update(i as int, (pre[i as int].0, shard.counts@[i as int].1)));
                lemma_find_pair_at(pre, i as int);
                assert forall|k: Key| #[trigger] find_pair(shard.counts@, k) == (if k == key {
                    Some(created_count(find_pair(pre, k), cmd.count))
                } else {
                    find_pair(pre, k)
                }) by {
                    lemma_find_pair_update(pre, i as int, shard.counts@[i as int].1, k);
                }
                assert forall|m: int, n2: int|
                    0 <= m < n2 < shard.counts@.len() implies shard.counts@[m].0
                    != shard.counts@[n2].0 by {
                    assert(shard.counts@[m].0 == pre[m].0);
                    assert(shard.counts@[n2].0 == pre[n2].0);
                }
            }
            return Ok(());
        }
        i += 1;
    }
    proof {
        assert(!has_pair(shard.counts@, key));
        lemma_find_pair_some(shard.counts@, key);
    }
    shard.counts.push((key, cmd.count));
    proof {
        let pre = old(shard).counts@;
        assert forall|k: Key| #[trigger] find_pair(shard.counts@, k) == (if k == key {
            Some(created_count(find_pair(pre, k), cmd.count))
        } else {
            find_pair(pre, k)
        }) by {
            lemma_find_pair_push(pre, key, cmd.count, k);
        }
        assert forall|m: int, n2: int|
            0 <= m < n2 < shard.counts@.len() implies shard.counts@[m].0
            != shard.counts@[n2].0 by {
            if n2 < shard.counts@.len() - 1 {
                assert(shard.counts@[m].0 == pre[m].0);
                assert(shard.counts@[n2].0 == pre[n2].0);
            } else {
                assert(shard.counts@[m].0 == pre[m].0);
            }
        }
    }
    Ok(())
}

/// Writes `cmd.kind` into the addressed slot of one ordered region shard,
/// overwriting an occupied slot.
#[verifier::loop_isolation(false)]
fn create_ordered_pieces(cmd: &CreatePieces, shard: &mut OrderedShard) -> (r: Result<(), CmdError>)
    requires
        unique_keys(old(shard).slots@),
    ensures
        r is Ok,
        final(shard).pos == old(shard).pos,
        final(shard).region == old(shard).region,
        unique_keys(final(shard).slots@),
        find_pair(final(shard).slots@, cmd.pos.suffix) == Some(cmd.kind),
        forall|s: Suffix|
            s != cmd.pos.suffix ==> #[trigger] find_pair(final(shard).slots@, s) == find_pair(
                old(shard).slots@,
                s,
            ),
{
    let n = shard.slots.len();
    let mut i: usize = 0;
    while i < n
        invariant
            n == shard.slots@.len(),
            *shard == *old(shard),
            0 <= i <= n,
            forall|j: int| 0 <= j < i ==> shard.slots@[j].0 != cmd.pos.suffix,
        decreases n - i,
    {
        if shard.slots[i].0 == cmd.pos.suffix {
            let e = &mut shard.slots[i];
            e.1 = cmd.kind;
            proof {
                let pre = old(shard).slots@;
                assert(shard.slots@ =~= pre.update(i as int, (pre[i as int].0, cmd.kind)));
                assert forall|s: Suffix| #[trigger] find_pair(shard.slots@, s) == (if s
                    == cmd.pos.suffix {
                    Some(cmd.kind)
                } else {
                    find_pair(pre, s)
                }) by {
                    lemma_find_pair_update(pre, i as int, cmd.kind, s);
                }
                assert forall|m: int, n2: int|
                    0 <= m < n2 < shard.slots@.len() implies shard.slots@[m].0
                    != shard.slots@[n2].0 by {
                    assert(shard.slots@[m].0 == pre[m].0);
                    assert(shard.slots@[n2].0 == pre[n2].0);
                }
            }
            return Ok(());
        }
        i += 1;
    }
    proof {
        assert(!has_pair(shard.slots@, cmd.pos.suffix));
        lemma_find_pair_some(shard.slots@, cmd.pos.suffix);
    }
    shard.slots.push((cmd.pos.suffix, cmd.kind));
    proof {
        let pre = old(shard).slots@;
        assert forall|s: Suffix| #[trigger] find_pair(shard.slots@, s) == (if s == cmd.pos.suffix {
            Some(cmd.kind)
        } else {
            find_pair(pre, s)
        }) by {
            lemma_find_pair_push(pre, cmd.pos.suffix, cmd.kind, s);
        }
        assert forall|m: int, n2: int|
            0 <= m < n2 < shard.slots@.len() implies shard.slots@[m].0 != shard.slots@[n2].0 by {
            if n2 < shard.slots@.len() - 1 {
                assert(shard.slots@[m].0 == pre[m].0);
                assert(shard.slots@[n2].0 == pre[n2].0);
            } else {
                assert(shard.slots@[m].0 == pre[m].0);
            }
        }
    }
    Ok(())
}

impl Transaction {
    /// Applies one command, dispatching on its kind. A command addressing a
    /// position the compiled specification never declared is refused and the
    /// state is untouched; any other `CreatePieces` succeeds, creating its
    /// region on first use. Suffix legality stays a query-time concern of
    /// `SuffixSpec::is_valid`: no command is refused over it, so the error
    /// taxonomy stays at `NoSuchPos`.
    pub fn apply(&mut self, cmd: &Cmd) -> (r: Result<(), CmdError>)
        requires
            old(self).state.wf(),
        ensures
            final(self).state.wf(),
            ({
                let c = cmd->CreatePieces_0;
                &&& !old(self).state.has_pos(c.pos.pos) ==> (r matches Err(e) && e == (
                CmdError::NoSuchPos(c.pos.pos)) && final(self).state == old(self).state)
                &&& old(self).state.has_pos(c.pos.pos) ==> r is Ok && create_effect(
                    old(self).state,
                    final(self).state,
                    c,
                )
            }),
    {
        match cmd {
            Cmd::CreatePieces(c) => self.create_pieces(c),
        }
    }

    /// Places pieces: locates the shard, locates or creates the region
    /// partition, then accumulates (unordered) or assigns the slot (ordered).
    #[verifier::loop_isolation(false)]
    fn create_pieces(&mut self, cmd: &CreatePieces) -> (r: Result<(), CmdError>)
        requires
            old(self).state.wf(),
        ensures
            final(self).state.wf(),
            !old(self).state.has_pos(cmd.pos.pos) ==> (r matches Err(e) && e == (
            CmdError::NoSuchPos(cmd.pos.pos)) && final(self).state == old(self).state),
            old(self).state.has_pos(cmd.pos.pos) ==> r is Ok && create_effect(
                old(self).state,
                final(self).state,
                *cmd,
            ),
    {
        let ghost pre = old(self).state;
        let pi = match find_key_index(&self.state.shards, cmd.pos.pos) {
            Some(pi) => pi,
            None => {
                proof {
                    lemma_find_pair_some(pre.shards@, cmd.pos.pos);
                }
                return Err(CmdError::NoSuchPos(cmd.pos.pos));
            },
        };
        proof {
            lemma_find_pair_at(pre.shards@, pi as int);
            lemma_find_pair_some(pre.shards@, cmd.pos.pos);
            assert(shard_wf(pre.shards@[pi as int].0, pre.shards@[pi as int].1));
        }
        match &mut self.state.shards[pi].1 {
            Shard::Unordered(reg) => {
                let ghost u_regs0 = reg.regions@;
                proof {
                    assert(pre.shards@[pi as int].1 == Shard::Unordered(*reg));
                }
                let fresh = UnorderedShard::new(cmd.pos.pos, cmd.pos.region);
                let ghost freshg = fresh;
                let ri = find_or_create_region(reg, cmd.pos.region, fresh);
                let ghost regs1 = reg.regions@;
                let ghost ush1 = regs1[ri as int].1;
                proof {
                    if find_pair(u_regs0, cmd.pos.region) is None {
                        assert(regs1 == u_regs0.push((cmd.pos.region, freshg)));
                        assert(regs1[regs1.len() - 1] == (cmd.pos.region, freshg));
                        if ri < regs1.len() - 1 {
                            assert(regs1[ri as int].0 == regs1[regs1.len() - 1].0);
                            assert(false);
                        }
                        assert(ush1 == freshg);
                    }
                }
                proof {
                    // Entry fields and key uniqueness carry over from the
                    // pre-state shard, or come fresh from the new partition.
                    assert forall|i: int| 0 <= i < regs1.len() implies {
                        &&& (#[trigger] regs1[i]).1.pos == cmd.pos.pos
                        &&& regs1[i].1.region == regs1[i].0
                        &&& unique_keys(regs1[i].1.counts@)
                    } by {
                        if find_pair(u_regs0, cmd.pos.region) is Some {
                            assert(regs1[i] == u_regs0[i]);
                        } else {
                            if i < regs1.len() - 1 {
                                assert(regs1[i] == u_regs0[i]);
                            }
                        }
                    }
                    // What the pre-state stored at the written coordinate.
                    if find_pair(u_regs0, cmd.pos.region) is Some {
                        assert(find_pair(u_regs0, cmd.pos.region) == Some(ush1));
                    } else {
                        assert(ush1.counts@ == Seq::<(Key, u32)>::empty());
                    }
                }
                let res = create_unordered_pieces(cmd, &mut reg.regions[ri].1);
                let ghost u_regs2 = reg.regions@;
                proof {
                    let ush2 = u_regs2[ri as int].1;
                    assert(u_regs2 =~= regs1.update(ri as int, (cmd.pos.region, ush2)));
                    assert forall|rg: Region| #[trigger] find_pair(u_regs2, rg) == (if rg
                        == cmd.pos.region {
                        Some(u_regs2[ri as int].1)
                    } else {
                        find_pair(u_regs0, rg)
                    }) by {
                        lemma_find_pair_update(regs1, ri as int, ush2, rg);
                    }
                    assert forall|rg: Region| #[trigger]
                        has_pair(u_regs2, rg) == (has_pair(u_regs0, rg) || rg
                            == cmd.pos.region) by {
                        assert forall|j: int| 0 <= j < u_regs2.len() implies u_regs2[j].0
                            == regs1[j].0 by {}
                        assert(has_pair(u_regs2, rg) == has_pair(regs1, rg));
                    }
                    assert forall|m: int, n2: int|
                        0 <= m < n2 < u_regs2.len() implies u_regs2[m].0 != u_regs2[n2].0 by {
                        assert(u_regs2[m].0 == regs1[m].0);
                        assert(u_regs2[n2].0 == regs1[n2].0);
                    }
                    assert forall|i: int| 0 <= i < u_regs2.len() implies {
                        &&& (#[trigger] u_regs2[i]).1.pos == cmd.pos.pos
                        &&& u_regs2[i].1.region == u_regs2[i].0
                        &&& unique_keys(u_regs2[i].1.counts@)
                    } by {
                        if i != ri {
                            assert(u_regs2[i] == regs1[i]);
                        }
                    }
                }
                match res {
                    Ok(()) => {},
                    Err(e) => {
                        return Err(e);
                    },
                }
            },
            Shard::Ordered(reg) => {
                proof {
                    assert(pre.shards@[pi as int].1 == Shard::Ordered(*reg));
                }
                let ghost regs0 = reg.regions@;
                let fresh = OrderedShard::new(cmd.pos.pos, cmd.pos.region);
                let ghost freshg = fresh;
                let ri = find_or_create_region(reg, cmd.pos.region, fresh);
                let ghost regs1 = reg.regions@;
                let ghost osh1 = regs1[ri as int].1;
                proof {
                    if find_pair(regs0, cmd.pos.region) is None {
                        assert(regs1 == regs0.push((cmd.pos.region, freshg)));
                        assert(regs1[regs1.len() - 1] == (cmd.pos.region, freshg));
                        if ri < regs1.len() - 1 {
                            assert(regs1[ri as int].0 == regs1[regs1.len() - 1].0);
                            assert(false);
                        }
                        assert(osh1 == freshg);
                    }
                }
                proof {
                    assert forall|i: int| 0 <= i < regs1.len() implies {
                        &&& (#[trigger] regs1[i]).1.pos == cmd.pos.pos
                        &&& regs1[i].1.region == regs1[i].0
                        &&& unique_keys(regs1[i].1.slots@)
                    } by {
                        if find_pair(regs0, cmd.pos.region) is Some {
                            assert(regs1[i] == regs0[i]);
                        } else {
                            if i < regs1.len() - 1 {
                                assert(regs1[i] == regs0[i]);
                            }
                        }
                    }
                    if find_pair(regs0, cmd.pos.region) is Some {
                        assert(find_pair(regs0, cmd.pos.region) == Some(osh1));
                    } else {
                        assert(osh1.slots@ == Seq::<(Suffix, QKind)>::empty());
                    }
                }
                let res = create_ordered_pieces(cmd, &mut reg.regions[ri].1);
                proof {
                    let regs2 = reg.regions@;
                    let osh2 = regs2[ri as int].1;
                    assert(regs2 =~= regs1.update(ri as int, (cmd.pos.region, osh2)));
                    assert forall|rg: Region| #[trigger] find_pair(regs2, rg) == (if rg
                        == cmd.pos.region {
                        Some(regs2[ri as int].1)
                    } else {
                        find_pair(regs0, rg)
                    }) by {
                        lemma_find_pair_update(regs1, ri as int, osh2, rg);
                    }
                    assert forall|rg: Region| #[trigger]
                        has_pair(regs2, rg) == (has_pair(regs0, rg) || rg == cmd.pos.region) by {
                        assert forall|j: int| 0 <= j < regs2.len() implies regs2[j].0
                            == regs1[j].0 by {}
                        assert(has_pair(regs2, rg) == has_pair(regs1, rg));
                    }
                    assert forall|m: int, n2: int|
                        0 <= m < n2 < regs2.len() implies regs2[m].0 != regs2[n2].0 by {
                        assert(regs2[m].0 == regs1[m].0);
                        assert(regs2[n2].0 == regs1[n2].0);
                    }
                    assert forall|i: int| 0 <= i < regs2.len() implies {
                        &&& (#[trigger] regs2[i]).1.pos == cmd.pos.pos
                        &&& regs2[i].1.region == regs2[i].0
                        &&& unique_keys(regs2[i].1.slots@)
                    } by {
                        if i != ri {
                            assert(regs2[i] == regs1[i]);
                        }
                    }
                }
                match res {
                    Ok(()) => {},
                    Err(e) => {
                        return Err(e);
                    },
                }
            },
        }
        proof {
            let post = self.state;
            assert(post.shards@ =~= pre.shards@.update(
                pi as int,
                (pre.shards@[pi as int].0, post.shards@[pi as int].1),
            ));
            assert forall|p: Pos| #[trigger] find_pair(post.shards@, p) == (if p == cmd.pos.pos {
                Some(post.shards@[pi as int].1)
            } else {
                find_pair(pre.shards@, p)
            }) by {
                lemma_find_pair_update(pre.shards@, pi as int, post.shards@[pi as int].1, p);
            }
            assert(final(self).state.wf()) by {
                assert forall|i: int| 0 <= i < post.shards@.len() implies shard_wf(
                    (#[trigger] post.shards@[i]).0,
                    post.shards@[i].1,
                ) by {
                    if i != pi {
                        assert(post.shards@[i] == pre.shards@[i]);
                    }
                }
                assert forall|m: int, n2: int|
                    0 <= m < n2 < post.shards@.len() implies post.shards@[m].0
                    != post.shards@[n2].0 by {
                    assert(post.shards@[m].0 == pre.shards@[m].0);
                    assert(post.shards@[n2].0 == pre.shards@[n2].0);
                }
            }
            assert(create_effect(pre, post, *cmd)) by {
                assert forall|p: Pos| #[trigger] post.pos_ordered(p) == pre.pos_ordered(p) by {}
                assert forall|p: Pos, rg: Region| #[trigger]
                    post.has_region(p, rg) == (pre.has_region(p, rg) || (p == cmd.pos.pos && rg
                        == cmd.pos.region)) by {}
                if pre.pos_ordered(cmd.pos.pos) == Some(false) {
                    assert(post.row_at(cmd.pos, cmd.kind) == Some(
                        created_count(pre.row_at(cmd.pos, cmd.kind), cmd.count),
                    ));
                    assert forall|q: QPos, k: QKind|
                        !(q == cmd.pos && k == cmd.kind) implies #[trigger] post.row_at(q, k)
                        == pre.row_at(q, k) by {}
                } else {
                    assert(post.row_at(cmd.pos, cmd.kind) == Some(1u32));
                    assert forall|q: QPos, k: QKind| q != cmd.pos implies #[trigger] post.row_at(
                        q,
                        k,
                    ) == pre.row_at(q, k) by {}
                    assert forall|k: QKind| k != cmd.kind implies #[trigger] post.row_at(
                        cmd.pos,
                        k,
                    ) is None by {}
                }
            }
        }
        Ok(())
    }

    /// Finalizes the transaction and hands the state back. Performs no other
    /// work today; the designated extension point for write-ahead logging or
    /// version checks.
    pub fn commit(self) -> (r: State)
        ensures
            r == self.state,
    {
        self.state
    }
}

/// The snapshot order: rows compare lexicographically by qualified position,
/// then qualified kind, then count.
pub open spec fn row_le(a: ExportRow, b: ExportRow) -> bool {
    if a.pos.pos.value() != b.pos.pos.value() {
        a.pos.pos.value() < b.pos.pos.value()
    } else if a.pos.region.0 != b.pos.region.0 {
        a.pos.region.0 < b.pos.region.0
    } else if a.pos.suffix.0 != b.pos.suffix.0 {
        a.pos.suffix.0 < b.pos.suffix.0
    } else if a.kind.kind.value() != b.kind.kind.value() {
        a.kind.kind.value() < b.kind.kind.value()
    } else if a.kind.suffix.0 != b.kind.suffix.0 {
        a.kind.suffix.0 < b.kind.suffix.0
    } else {
        a.count <= b.count
    }
}

/// The snapshot order as a relation value, for `sorted_by`.
pub open spec fn row_leq() -> spec_fn(ExportRow, ExportRow) -> bool {
    |a: ExportRow, b: ExportRow| row_le(a, b)
}

/// The snapshot order is total: reflexive, transitive, antisymmetric and
/// strongly connected.
pub proof fn lemma_row_le_total_ordering()
    ensures
        vstd::relations::total_ordering(row_leq()),
{
    let leq = row_leq();
    assert forall|a: ExportRow, b: ExportRow| #[trigger] leq(a, b) && leq(b, a) implies a == b by {
        crate::coords::lemma_kind_value_injective(a.kind.kind, b.kind.kind);
        crate::coords::lemma_pos_value_injective(a.pos.pos, b.pos.pos);
    }
}

/// Decides the snapshot order.
fn row_le_exec(a: &ExportRow, b: &ExportRow) -> (r: bool)
    ensures
        r == row_le(*a, *b),
{
    if a.pos.pos.as_u32() != b.pos.pos.as_u32() {
        a.pos.pos.as_u32() < b.pos.pos.as_u32()
    } else if a.pos.region.0 != b.pos.region.0 {
        a.pos.region.0 < b.pos.region.0
    } else if a.pos.suffix.0 != b.pos.suffix.0 {
        a.pos.suffix.0 < b.pos.suffix.0
    } else if a.kind.kind.as_u32() != b.kind.kind.as_u32() {
        a.kind.kind.as_u32() < b.kind.kind.as_u32()
    } else if a.kind.suffix.0 != b.kind.suffix.0 {
        a.kind.suffix.0 < b.kind.suffix.0
    } else {
        a.count <= b.count
    }
}

/// Sorts rows into the snapshot order, keeping exactly the same rows.
#[verifier::loop_isolation(false)]
fn sort_rows(input: Vec<ExportRow>) -> (out: Vec<ExportRow>)
    ensures
        out@.to_multiset() == input@.to_multiset(),
        vstd::relations::sorted_by(out@, row_leq()),
{
    broadcast use vstd::seq_lib::group_to_multiset_ensures;
    broadcast use vstd::multiset::group_multiset_axioms;

    let ghost all = input@;
    let n = input.len();
    let mut out: Vec<ExportRow> = Vec::with_capacity(n);
    let mut rest = input;
    let mut idx: usize = 0;
    proof {
        assert(all.take(0) =~= Seq::<ExportRow>::empty());
        assert(Seq::<ExportRow>::empty().to_multiset() =~= out@.to_multiset());
    }
    while idx < n
        invariant
            n == all.len(),
            input@ == all,
            0 <= idx <= n,
            rest@ =~= all.skip(idx as int),
            vstd::relations::sorted_by(out@, row_leq()),
            out@.to_multiset() == all.take(idx as int).to_multiset(),
        decreases n - idx,
    {
        proof {
            assert(rest@[0] == all[idx as int]);
        }
        let e = rest.remove(0);
        let ghost pre = out@;
        let m = out.len();
        let mut k: usize = 0;
        while k < m && !row_le_exec(&e, &out[k])
            invariant
                m == out@.len(),
                0 <= k <= m,
                out@ == pre,
                forall|t: int| 0 <= t < k ==> row_le(#[trigger] out@[t], e),
            decreases m - k,
        {
            k += 1;
        }
        out.insert(k, e);
        proof {
            assert(out@ == pre.insert(k as int, e));
            assert(vstd::relations::sorted_by(out@, row_leq())) by {
                assert forall|i2: int, j2: int| 0 <= i2 < j2 < out@.len() implies row_leq()(
                    out@[i2],
                    out@[j2],
                ) by {
                    if j2 < k {
                        assert(out@[i2] == pre[i2] && out@[j2] == pre[j2]);
                    } else if i2 > k {
                        assert(out@[i2] == pre[i2 - 1] && out@[j2] == pre[j2 - 1]);
                    } else if i2 == k && j2 > k {
                        assert(out@[j2] == pre[j2 - 1]);
                        assert(out@[i2] == e);
                        assert(k < pre.len());
                        assert(row_le(e, pre[k as int]));
                        if k as int != j2 - 1 {
                            assert(row_leq()(pre[k as int], pre[j2 - 1]));
                        }
                    } else if j2 == k {
                        assert(out@[i2] == pre[i2]);
                        assert(row_le(pre[i2], e));
                    } else {
                        assert(i2 < k && j2 > k);
                        assert(out@[i2] == pre[i2] && out@[j2] == pre[j2 - 1]);
                        assert(row_le(pre[i2], e));
                        assert(k < pre.len());
                        assert(row_le(e, pre[k as int]));
                        if k as int != j2 - 1 {
                            assert(row_leq()(pre[k as int], pre[j2 - 1]));
                        }
                    }
                }
            }
            assert(out@.to_multiset() =~= pre.to_multiset().insert(e)) by {
                assert(out@.remove(k as int) =~= pre);
                assert(out@[k as int] == e);
                assert(out@.remove(k as int).to_multiset() =~= out@.to_multiset().remove(e));
                assert(out@.contains(e));
                assert(out@.to_multiset().count(e) > 0);
            }
            assert(all.take(idx as int + 1) =~= all.take(idx as int).push(e));
            assert(all.take(idx as int + 1).to_multiset() =~= all.take(
                idx as int,
            ).to_multiset().insert(e));
            assert(rest@ =~= all.skip(idx as int + 1));
        }
        idx += 1;
    }
    proof {
        assert(all.take(n as int) =~= all);
    }
    out
}

/// The rows one unordered region shard contributes: its accumulated count at
/// each occupied coordinate.
#[verifier::loop_isolation(false)]
fn rows_of_unordered(ush: &UnorderedShard) -> (out: Vec<ExportRow>)
    requires
        unique_keys(ush.counts@),
    ensures
        forall|r: ExportRow| #[trigger]
            out@.contains(r) <==> (r.pos.pos == ush.pos && r.pos.region == ush.region && find_pair(
                ush.counts@,
                Key { pos_suffix: r.pos.suffix, kind: r.kind },
            ) == Some(r.count)),
        out@.no_duplicates(),
{
    let n = ush.counts.len();
    let mut out: Vec<ExportRow> = Vec::with_capacity(n);
    let mut i: usize = 0;
    while i < n
        invariant
            n == ush.counts@.len(),
            0 <= i <= n,
            out@.len() == i,
            forall|m: int|
                0 <= m < i ==> #[trigger] out@[m] == (ExportRow {
                    pos: QPos {
                        pos: ush.pos,
                        region: ush.region,
                        suffix: ush.counts@[m].0.pos_suffix,
                    },
                    kind: ush.counts@[m].0.kind,
                    count: ush.counts@[m].1,
                }),
        decreases n - i,
    {
        let (key, count) = ush.counts[i];
        out.push(
            ExportRow {
                pos: QPos { pos: ush.pos, region: ush.region, suffix: key.pos_suffix },
                kind: key.kind,
                count,
            },
        );
        i += 1;
    }
    proof {
        assert forall|r: ExportRow| #[trigger]
            out@.contains(r) <==> (r.pos.pos == ush.pos && r.pos.region == ush.region && find_pair(
                ush.counts@,
                Key { pos_suffix: r.pos.suffix, kind: r.kind },
            ) == Some(r.count)) by {
            if out@.contains(r) {
                let m = choose|m: int| 0 <= m < out@.len() && out@[m] == r;
                assert(ush.counts@[m].0 == Key { pos_suffix: r.pos.suffix, kind: r.kind });
                lemma_find_pair_at(ush.counts@, m);
            }
            if r.pos.pos == ush.pos && r.pos.region == ush.region && find_pair(
                ush.counts@,
                Key { pos_suffix: r.pos.suffix, kind: r.kind },
            ) == Some(r.count) {
                lemma_find_pair_some(ush.counts@, Key { pos_suffix: r.pos.suffix, kind: r.kind });
                let j = choose|j: int|
                    0 <= j < ush.counts@.len() && ush.counts@[j] == (
                    Key { pos_suffix: r.pos.suffix, kind: r.kind },
                    r.count,
                );
                assert(out@[j] == r);
            }
        }
        assert forall|i2: int, j2: int|
            0 <= i2 < j2 < out@.len() implies out@[i2] != out@[j2] by {
            assert(ush.counts@[i2].0 != ush.counts@[j2].0);
        }
    }
    out
}

/// The rows one ordered region shard contributes: count one per occupied
/// slot.
#[verifier::loop_isolation(false)]
fn rows_of_ordered(osh: &OrderedShard) -> (out: Vec<ExportRow>)
    requires
        unique_keys(osh.slots@),
    ensures
        forall|r: ExportRow| #[trigger]
            out@.contains(r) <==> (r.pos.pos == osh.pos && r.pos.region == osh.region && find_pair(
                osh.slots@,
                r.pos.suffix,
            ) == Some(r.kind) && r.count == 1),
        out@.no_duplicates(),
{
    let n = osh.slots.len();
    let mut out: Vec<ExportRow> = Vec::with_capacity(n);
    let mut i: usize = 0;
    while i < n
        invariant
            n == osh.slots@.len(),
            0 <= i <= n,
            out@.len() == i,
            forall|m: int|
                0 <= m < i ==> #[trigger] out@[m] == (ExportRow {
                    pos: QPos { pos: osh.pos, region: osh.region, suffix: osh.slots@[m].0 },
                    kind: osh.slots@[m].1,
                    count: 1u32,
                }),
        decreases n - i,
    {
        let (suffix, kind) = osh.slots[i];
        out.push(
            ExportRow {
                pos: QPos { pos: osh.pos, region: osh.region, suffix },
                kind,
                count: 1,
            },
        );
        i += 1;
    }
    proof {
        assert forall|r: ExportRow| #[trigger]
            out@.contains(r) <==> (r.pos.pos == osh.pos && r.pos.region == osh.region && find_pair(
                osh.slots@,
                r.pos.suffix,
            ) == Some(r.kind) && r.count == 1) by {
            if out@.contains(r) {
                let m = choose|m: int| 0 <= m < out@.len() && out@[m] == r;
                assert(osh.slots@[m].0 == r.pos.suffix);
                lemma_find_pair_at(osh.slots@, m);
            }
            if r.pos.pos == osh.pos && r.pos.region == osh.region && find_pair(
                osh.slots@,
                r.pos.suffix,
            ) == Some(r.kind) && r.count == 1 {
                lemma_find_pair_some(osh.slots@, r.pos.suffix);
                let j = choose|j: int|
                    0 <= j < osh.slots@.len() && osh.slots@[j] == (r.pos.suffix, r.kind);
                assert(out@[j] == r);
            }
        }
        assert forall|i2: int, j2: int|
            0 <= i2 < j2 < out@.len() implies out@[i2] != out@[j2] by {
            assert(osh.slots@[i2].0 != osh.slots@[j2].0);
        }
    }
    out
}

/// Concatenation holds exactly the elements of its parts.
proof fn lemma_contains_append<A>(a: Seq<A>, b: Seq<A>, x: A)
    ensures
        (a + b).contains(x) == (a.contains(x) || b.contains(x)),
{
    if (a + b).contains(x) {
        let i = choose|i: int| 0 <= i < (a + b).len() && (a + b)[i] == x;
        if i < a.len() {
            assert(a[i] == x);
        } else {
            assert(b[i - a.len()] == x);
        }
    }
    if a.contains(x) {
        let i = choose|i: int| 0 <= i < a.len() && a[i] == x;
        assert((a + b)[i] == x);
    }
    if b.contains(x) {
        let i = choose|i: int| 0 <= i < b.len() && b[i] == x;
        assert((a + b)[a.len() + i] == x);
    }
}

/// Concatenating duplicate-free parts that share nothing stays
/// duplicate-free.
proof fn lemma_no_dup_append<A>(a: Seq<A>, b: Seq<A>)
    requires
        a.no_duplicates(),
        b.no_duplicates(),
        forall|x: A| a.contains(x) ==> !b.contains(x),
    ensures
        (a + b).no_duplicates(),
{
    assert forall|i: int, j: int|
        0 <= i < (a + b).len() && 0 <= j < (a + b).len() && i != j implies (a + b)[i] != (a
        + b)[j] by {
        if i < a.len() && j < a.len() {
            assert((a + b)[i] == a[i] && (a + b)[j] == a[j]);
        } else if i >= a.len() && j >= a.len() {
            assert((a + b)[i] == b[i - a.len()] && (a + b)[j] == b[j - a.len()]);
        } else if i < a.len() && j >= a.len() {
            assert((a + b)[i] == a[i] && (a + b)[j] == b[j - a.len()]);
            assert(a.contains(a[i]));
            assert(b.contains(b[j - a.len()]));
        } else {
            assert((a + b)[i] == b[i - a.len()] && (a + b)[j] == a[j]);
            assert(a.contains(a[j]));
            assert(b.contains(b[i - a.len()]));
        }
    }
}

/// The rows one position's whole shard contributes, across its regions.
#[verifier::loop_isolation(false)]
fn rows_of_shard(pos: Pos, shard: &Shard) -> (out: Vec<ExportRow>)
    requires
        shard_wf(pos, *shard),
    ensures
        forall|r: ExportRow| #[trigger]
            out@.contains(r) <==> (r.pos.pos == pos && shard_row_at(*shard, r.pos, r.kind) == Some(
                r.count,
            )),
        out@.no_duplicates(),
{
    let mut out: Vec<ExportRow> = Vec::new();
    match shard {
        Shard::Unordered(reg) => {
            let n = reg.regions.len();
            let mut i: usize = 0;
            while i < n
                invariant
                    n == reg.regions@.len(),
                    0 <= i <= n,
                    forall|r: ExportRow| #[trigger]
                        out@.contains(r) <==> (r.pos.pos == pos && exists|j: int|
                            0 <= j < i && (#[trigger] reg.regions@[j]).0 == r.pos.region
                                && find_pair(
                                reg.regions@[j].1.counts@,
                                Key { pos_suffix: r.pos.suffix, kind: r.kind },
                            ) == Some(r.count)),
                    out@.no_duplicates(),
                decreases n - i,
            {
                let ghost pre = out@;
                let mut batch = rows_of_unordered(&reg.regions[i].1);
                let ghost batchv = batch@;
                out.append(&mut batch);
                proof {
                    assert(out@ == pre + batchv);
                    assert forall|x: ExportRow| pre.contains(x) implies !batchv.contains(x) by {
                        if batchv.contains(x) {
                            let j = choose|j: int|
                                0 <= j < i && (#[trigger] reg.regions@[j]).0 == x.pos.region
                                    && find_pair(
                                    reg.regions@[j].1.counts@,
                                    Key { pos_suffix: x.pos.suffix, kind: x.kind },
                                ) == Some(x.count);
                            assert(reg.regions@[j].0 != reg.regions@[i as int].0);
                        }
                    }
                    lemma_no_dup_append(pre, batchv);
                    assert forall|r: ExportRow| #[trigger]
                        out@.contains(r) <==> (r.pos.pos == pos && exists|j: int|
                            0 <= j < i + 1 && (#[trigger] reg.regions@[j]).0 == r.pos.region
                                && find_pair(
                                reg.regions@[j].1.counts@,
                                Key { pos_suffix: r.pos.suffix, kind: r.kind },
                            ) == Some(r.count)) by {
                        lemma_contains_append(pre, batchv, r);
                        if batchv.contains(r) {
                            assert(reg.regions@[i as int].0 == r.pos.region && find_pair(
                                reg.regions@[i as int].1.counts@,
                                Key { pos_suffix: r.pos.suffix, kind: r.kind },
                            ) == Some(r.count));
                        }
                        if r.pos.pos == pos && exists|j: int|
                            0 <= j < i + 1 && (#[trigger] reg.regions@[j]).0 == r.pos.region
                                && find_pair(
                                reg.regions@[j].1.counts@,
                                Key { pos_suffix: r.pos.suffix, kind: r.kind },
                            ) == Some(r.count) {
                            let j = choose|j: int|
                                0 <= j < i + 1 && (#[trigger] reg.regions@[j]).0 == r.pos.region
                                    && find_pair(
                                    reg.regions@[j].1.counts@,
                                    Key { pos_suffix: r.pos.suffix, kind: r.kind },
                                ) == Some(r.count);
                            if j == i {
                                assert(batchv.contains(r));
                            }
                        }
                    }
                }
                i += 1;
            }
            proof {
                assert forall|r: ExportRow| #[trigger]
                    out@.contains(r) <==> (r.pos.pos == pos && shard_row_at(
                        *shard,
                        r.pos,
                        r.kind,
                    ) == Some(r.count)) by {
                    lemma_find_pair_some(reg.regions@, r.pos.region);
                    if out@.contains(r) {
                        let j = choose|j: int|
                            0 <= j < n && (#[trigger] reg.regions@[j]).0 == r.pos.region
                                && find_pair(
                                reg.regions@[j].1.counts@,
                                Key { pos_suffix: r.pos.suffix, kind: r.kind },
                            ) == Some(r.count);
                        lemma_find_pair_at(reg.regions@, j);
                    }
                    if r.pos.pos == pos && shard_row_at(*shard, r.pos, r.kind) == Some(r.count) {
                        let ush = find_pair(reg.regions@, r.pos.region)->Some_0;
                        let j = choose|j: int|
                            0 <= j < reg.regions@.len() && reg.regions@[j] == (r.pos.region, ush);
                    }
                }
            }
        },
        Shard::Ordered(reg) => {
            let n = reg.regions.len();
            let mut i: usize = 0;
            while i < n
                invariant
                    n == reg.regions@.len(),
                    0 <= i <= n,
                    forall|r: ExportRow| #[trigger]
                        out@.contains(r) <==> (r.pos.pos == pos && r.count == 1 && exists|j: int|
                            0 <= j < i && (#[trigger] reg.regions@[j]).0 == r.pos.region
                                && find_pair(reg.regions@[j].1.slots@, r.pos.suffix) == Some(
                                r.kind,
                            )),
                    out@.no_duplicates(),
                decreases n - i,
            {
                let ghost pre = out@;
                let mut batch = rows_of_ordered(&reg.regions[i].1);
                let ghost batchv = batch@;
                out.append(&mut batch);
                proof {
                    assert(out@ == pre + batchv);
                    assert forall|x: ExportRow| pre.contains(x) implies !batchv.contains(x) by {
                        if batchv.contains(x) {
                            let j = choose|j: int|
                                0 <= j < i && (#[trigger] reg.regions@[j]).0 == x.pos.region
                                    && find_pair(reg.regions@[j].1.slots@, x.pos.suffix) == Some(
                                    x.kind,
                                );
                            assert(reg.regions@[j].0 != reg.regions@[i as int].0);
                        }
                    }
                    lemma_no_dup_append(pre, batchv);
                    assert forall|r: ExportRow| #[trigger]
                        out@.contains(r) <==> (r.pos.pos == pos && r.count == 1 && exists|j: int|
                            0 <= j < i + 1 && (#[trigger] reg.regions@[j]).0 == r.pos.region
                                && find_pair(reg.regions@[j].1.slots@, r.pos.suffix) == Some(
                                r.kind,
                            )) by {
                        lemma_contains_append(pre, batchv, r);
                        if batchv.contains(r) {
                            assert(reg.regions@[i as int].0 == r.pos.region && find_pair(
                                reg.regions@[i as int].1.slots@,
                                r.pos.suffix,
                            ) == Some(r.kind));
                        }
                        if r.pos.pos == pos && r.count == 1 && exists|j: int|
                            0 <= j < i + 1 && (#[trigger] reg.regions@[j]).0 == r.pos.region
                                && find_pair(reg.regions@[j].1.slots@, r.pos.suffix) == Some(
                                r.kind,
                            ) {
                            let j = choose|j: int|
                                0 <= j < i + 1 && (#[trigger] reg.regions@[j]).0 == r.pos.region
                                    && find_pair(reg.regions@[j].1.slots@, r.pos.suffix) == Some(
                                    r.kind,
                                );
                            if j == i {
                                assert(batchv.contains(r));
                            }
                        }
                    }
                }
                i += 1;
            }
            proof {
                assert forall|r: ExportRow| #[trigger]
                    out@.contains(r) <==> (r.pos.pos == pos && shard_row_at(
                        *shard,
                        r.pos,
                        r.kind,
                    ) == Some(r.count)) by {
                    lemma_find_pair_some(reg.regions@, r.pos.region);
                    if out@.contains(r) {
                        let j = choose|j: int|
                            0 <= j < n && (#[trigger] reg.regions@[j]).0 == r.pos.region
                                && find_pair(reg.regions@[j].1.slots@, r.pos.suffix) == Some(
                                r.kind,
                            );
                        lemma_find_pair_at(reg.regions@, j);
                    }
                    if r.pos.pos == pos && shard_row_at(*shard, r.pos, r.kind) == Some(r.count) {
                        let osh = find_pair(reg.regions@, r.pos.region)->Some_0;
                        let j = choose|j: int|
                            0 <= j < reg.regions@.len() && reg.regions@[j] == (r.pos.region, osh);
                    }
                }
            }
        },
    }
    out
}

impl State {
    /// One row per occupied coordinate — an unordered shard's accumulated
    /// count, count one per occupied ordered slot — sorted by coordinate
    /// before being handed over, so equal contents always export equal
    /// snapshots whatever the insertion order.
    #[verifier::loop_isolation(false)]
    pub fn export_rows(&self) -> (rows: Vec<ExportRow>)
        requires
            self.wf(),
        ensures
            forall|r: ExportRow| #[trigger]
                rows@.contains(r) <==> self.row_at(r.pos, r.kind) == Some(r.count),
            vstd::relations::sorted_by(rows@, row_leq()),
            rows@.no_duplicates(),
    {
        broadcast use vstd::seq_lib::group_to_multiset_ensures;

        let mut out: Vec<ExportRow> = Vec::new();
        let n = self.shards.len();
        let mut i: usize = 0;
        while i < n
            invariant
                n == self.shards@.len(),
                0 <= i <= n,
                forall|r: ExportRow| #[trigger]
                    out@.contains(r) <==> exists|j: int|
                        0 <= j < i && (#[trigger] self.shards@[j]).0 == r.pos.pos && shard_row_at(
                            self.shards@[j].1,
                            r.pos,
                            r.kind,
                        ) == Some(r.count),
                out@.no_duplicates(),
            decreases n - i,
        {
            let ghost pre = out@;
            let pos = self.shards[i].0;
            let mut batch = rows_of_shard(pos, &self.shards[i].1);
            let ghost batchv = batch@;
            out.append(&mut batch);
            proof {
                assert(out@ == pre + batchv);
                assert forall|x: ExportRow| pre.contains(x) implies !batchv.contains(x) by {
                    if batchv.contains(x) {
                        let j = choose|j: int|
                            0 <= j < i && (#[trigger] self.shards@[j]).0 == x.pos.pos
                                && shard_row_at(self.shards@[j].1, x.pos, x.kind) == Some(x.count);
                        assert(self.shards@[j].0 != self.shards@[i as int].0);
                    }
                }
                lemma_no_dup_append(pre, batchv);
                assert forall|r: ExportRow| #[trigger]
                    out@.contains(r) <==> exists|j: int|
                        0 <= j < i + 1 && (#[trigger] self.shards@[j]).0 == r.pos.pos
                            && shard_row_at(self.shards@[j].1, r.pos, r.kind) == Some(
                            r.count,
                        ) by {
                    lemma_contains_append(pre, batchv, r);
                    if batchv.contains(r) {
                        assert(self.shards@[i as int].0 == r.pos.pos && shard_row_at(
                            self.shards@[i as int].1,
                            r.pos,
                            r.kind,
                        ) == Some(r.count));
                    }
                    if exists|j: int|
                        0 <= j < i + 1 && (#[trigger] self.shards@[j]).0 == r.pos.pos
                            && shard_row_at(self.shards@[j].1, r.pos, r.kind) == Some(r.count) {
                        let j = choose|j: int|
                            0 <= j < i + 1 && (#[trigger] self.shards@[j]).0 == r.pos.pos
                                && shard_row_at(self.shards@[j].1, r.pos, r.kind) == Some(r.count);
                        if j == i {
                            assert(batchv.contains(r));
                        }
                    }
                }
            }
            i += 1;
        }
        proof {
            assert forall|r: ExportRow| #[trigger]
                out@.contains(r) <==> self.row_at(r.pos, r.kind) == Some(r.count) by {
                lemma_find_pair_some(self.shards@, r.pos.pos);
                if out@.contains(r) {
                    let j = choose|j: int|
                        0 <= j < n && (#[trigger] self.shards@[j]).0 == r.pos.pos && shard_row_at(
                            self.shards@[j].1,
                            r.pos,
                            r.kind,
                        ) == Some(r.count);
                    lemma_find_pair_at(self.shards@, j);
                }
                if self.row_at(r.pos, r.kind) == Some(r.count) {
                    let shard = find_pair(self.shards@, r.pos.pos)->Some_0;
                    let j = choose|j: int|
                        0 <= j < self.shards@.len() && self.shards@[j] == (r.pos.pos, shard);
                }
            }
        }
        let ghost collected = out@;
        let rows = sort_rows(out);
        proof {
            assert forall|r: ExportRow| #[trigger]
                rows@.contains(r) == collected.contains(r) by {
                assert(rows@.contains(r) <==> rows@.to_multiset().count(r) > 0);
                assert(collected.contains(r) <==> collected.to_multiset().count(r) > 0);
            }
            collected.lemma_multiset_has_no_duplicates();
            rows@.lemma_multiset_has_no_duplicates_conv();
        }
        rows
    }
}

/// A state that stores nothing — a fresh one, before any region exists —
/// exports no rows at all.
pub proof fn lemma_empty_state_exports_nothing(s: State, rows: Seq<ExportRow>)
    requires
        forall|qpos: QPos, qkind: QKind| s.row_at(qpos, qkind) is None,
        forall|r: ExportRow| #[trigger] rows.contains(r) <==> s.row_at(r.pos, r.kind) == Some(
            r.count,
        ),
    ensures
        rows == Seq::<ExportRow>::empty(),
{
    if rows.len() > 0 {
        assert(rows.contains(rows[0]));
    }
    assert(rows =~= Seq::<ExportRow>::empty());
}

/// Snapshots are deterministic: two sorted, duplicate-free row sequences that
/// report the same facts are one sequence, so what `export_rows` hands out
/// depends only on what the state stores, never on insertion order.
pub proof fn lemma_export_rows_deterministic(a: Seq<ExportRow>, b: Seq<ExportRow>)
    requires
        vstd::relations::sorted_by(a, row_leq()),
        vstd::relations::sorted_by(b, row_leq()),
        a.no_duplicates(),
        b.no_duplicates(),
        forall|r: ExportRow| a.contains(r) == b.contains(r),
    ensures
        a == b,
{
    broadcast use vstd::seq_lib::group_to_multiset_ensures;
    broadcast use vstd::multiset::group_multiset_axioms;

    a.lemma_multiset_has_no_duplicates();
    b.lemma_multiset_has_no_duplicates();
    assert(a.to_multiset() =~= b.to_multiset()) by {
        assert forall|x: ExportRow| a.to_multiset().count(x) == b.to_multiset().count(x) by {
            if a.contains(x) {
                assert(a.to_multiset().count(x) == 1 && b.to_multiset().count(x) == 1);
            } else {
                assert(a.to_multiset().count(x) == 0 && b.to_multiset().count(x) == 0);
            }
        }
    }
    lemma_row_le_total_ordering();
    vstd::seq_lib::lemma_sorted_unique(a, b, row_leq());
    assert(a =~= b);
}

} // verus!
