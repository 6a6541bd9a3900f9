use vstd::prelude::*;
use vstd::seq_lib::group_to_multiset_ensures;
use crate::transform::TransformSet;

verus! {

/// Highest element identifier the draw-order cache accepts. Its index
/// set refuses indices past its capacity, which spans at least this
/// far on every machine.
pub const MAX_INDEX: u32 = 1048576;

/// The type of the index set the draw-order cache keeps beside its
/// ordered entries, to tell members from newcomers in constant time.
#[verifier::external_type_specification]
#[verifier::external_body]
pub struct ExBitSet(hibitset::BitSet);

/// The indices a hierarchical bit set holds.
pub uninterp spec fn bitset_elems(b: hibitset::BitSet) -> Set<u32>;

/// Relies on hibitset::BitSet::new: the new set holds no index.
#[verifier::external_body]
fn bitset_new() -> (r: hibitset::BitSet)
    ensures
        bitset_elems(r) == Set::<u32>::empty(),
{
    hibitset::BitSet::new()
}

/// Relies on hibitset::BitSet::add: puts the index into the set and
/// reports whether it was already there. The set refuses indices past
/// its capacity, which reaches `MAX_INDEX` on every machine.
#[verifier::external_body]
fn bitset_add(b: &mut hibitset::BitSet, id: u32) -> (r: bool)
    requires
        id < MAX_INDEX,
    ensures
        bitset_elems(*final(b)) == bitset_elems(*old(b)).insert(id),
        r == bitset_elems(*old(b)).contains(id),
{
    b.add(id)
}

/// Relies on hibitset::BitSet::remove: takes the index out of the set
/// and reports whether it was there.
#[verifier::external_body]
fn bitset_remove(b: &mut hibitset::BitSet, id: u32) -> (r: bool)
    ensures
        bitset_elems(*final(b)) == bitset_elems(*old(b)).remove(id),
        r == bitset_elems(*old(b)).contains(id),
{
    b.remove(id)
}

/// Relies on hibitset::BitSet::contains: whether the index is in the
/// set.
#[verifier::external_body]
fn bitset_contains(b: &hibitset::BitSet, id: u32) -> (r: bool)
    ensures
        r == bitset_elems(*b).contains(id),
{
    b.contains(id)
}

/// One entry of the ordered draw list: an element identifier and the
/// depth key it was last seen with.
#[derive(Clone, Copy, PartialEq, Eq, Structural, Debug)]
pub struct ZEntry {
    pub z: i64,
    pub id: u32,
}

/// No element identifier appears twice.
pub open spec fn ids_distinct(s: Seq<ZEntry>) -> bool {
    forall|i: int, j: int| 0 <= i < j < s.len() ==> s[i].id != s[j].id
}

/// Whether some entry carries the identifier.
pub open spec fn has_id(s: Seq<ZEntry>, id: u32) -> bool {
    exists|i: int| 0 <= i < s.len() && s[i].id == id
}

/// Entries run from the largest depth key down.
pub open spec fn sorted_desc(s: Seq<ZEntry>) -> bool {
    forall|i: int, j: int| 0 <= i <= j < s.len() ==> s[i].z >= s[j].z
}

/// Every entry names an element that holds a transform, and carries
/// that transform's current depth key.
pub open spec fn zs_current(s: Seq<ZEntry>, ts: TransformSet) -> bool {
    forall|i: int|
        0 <= i < s.len() ==> ts.spec_contains(s[i].id) && s[i].z == ts.spec_at(s[i].id).z
}

/// What a maintenance pass leaves behind: one entry per element that
/// holds a transform, no identifier twice, each entry carrying the
/// transform's current depth key, from the largest key down.
pub open spec fn consistent(s: Seq<ZEntry>, ts: TransformSet) -> bool {
    &&& ids_distinct(s)
    &&& forall|id: u32| has_id(s, id) <==> ts.spec_contains(id)
    &&& zs_current(s, ts)
    &&& sorted_desc(s)
}

/// Inserting an entry shifts the tail right and adds one identifier.
proof fn lemma_insert_entry(s: Seq<ZEntry>, p: int, e: ZEntry)
    requires
        0 <= p <= s.len(),
    ensures
        s.insert(p, e).len() == s.len() + 1,
        forall|k: int| 0 <= k < p ==> #[trigger] s.insert(p, e)[k] == s[k],
        s.insert(p, e)[p] == e,
        forall|k: int| p < k < s.len() + 1 ==> #[trigger] s.insert(p, e)[k] == s[k - 1],
        forall|x: u32| has_id(s.insert(p, e), x) <==> (has_id(s, x) || e.id == x),
        ids_distinct(s) && !has_id(s, e.id) ==> ids_distinct(s.insert(p, e)),
{
    s.insert_ensures(p, e);
    let t = s.insert(p, e);
    assert forall|x: u32| has_id(t, x) implies (has_id(s, x) || e.id == x) by {
        let k = choose|k: int| 0 <= k < t.len() && t[k].id == x;
        if k < p {
            assert(s[k].id == x);
        } else if k == p {
        } else {
            assert(s[k - 1].id == x);
        }
    }
    assert forall|x: u32| (has_id(s, x) || e.id == x) implies has_id(t, x) by {
        if e.id == x {
            assert(t[p].id == x);
        } else {
            let k = choose|k: int| 0 <= k < s.len() && s[k].id == x;
            if k < p {
                assert(t[k].id == x);
            } else {
                assert(t[k + 1].id == x);
            }
        }
    }
    if ids_distinct(s) && !has_id(s, e.id) {
        assert forall|i: int, j: int| 0 <= i < j < t.len() implies t[i].id != t[j].id by {
            if i == p {
                assert(t[j] == s[j - 1]);
                assert(s[j - 1].id != e.id) by {
                    if s[j - 1].id == e.id {
                        assert(has_id(s, e.id));
                    }
                }
            } else if j == p {
                assert(t[i] == s[i]);
                if s[i].id == e.id {
                    assert(has_id(s, e.id));
                }
            } else {
                let si = if i < p {
                    i
                } else {
                    i - 1
                };
                let sj = if j < p {
                    j
                } else {
                    j - 1
                };
                assert(t[i] == s[si] && t[j] == s[sj]);
                assert(si < sj);
            }
        }
    }
}

/// Inserting an entry anywhere adds exactly it to the multiset.
proof fn lemma_insert_multiset(s: Seq<ZEntry>, p: int, e: ZEntry)
    requires
        0 <= p <= s.len(),
    ensures
        s.insert(p, e).to_multiset() == s.to_multiset().insert(e),
{
    broadcast use group_to_multiset_ensures;
    broadcast use vstd::multiset::group_multiset_axioms;

    s.insert_ensures(p, e);
    let t = s.insert(p, e);
    assert(t.remove(p) =~= s);
    assert(t.remove(p).to_multiset() =~= t.to_multiset().remove(t[p]));
    assert(t.contains(t[p]));
    assert(t.to_multiset().count(e) > 0);
    assert forall|x: ZEntry| t.to_multiset().count(x) == s.to_multiset().insert(e).count(
        x,
    ) by {
        if x == e {
            assert(s.to_multiset().count(x) == t.to_multiset().remove(e).count(x));
        } else {
            assert(s.to_multiset().count(x) == t.to_multiset().remove(e).count(x));
        }
    }
    assert(t.to_multiset() =~= s.to_multiset().insert(e));
}

/// An entry inserted between the larger and the strictly smaller
/// depth keys keeps the run ordered.
proof fn lemma_insert_sorted(s: Seq<ZEntry>, p: int, e: ZEntry)
    requires
        sorted_desc(s),
        0 <= p <= s.len(),
        forall|k: int| 0 <= k < p ==> s[k].z >= e.z,
        forall|k: int| p <= k < s.len() ==> s[k].z < e.z,
    ensures
        sorted_desc(s.insert(p, e)),
{
    s.insert_ensures(p, e);
    let t = s.insert(p, e);
    assert forall|i: int, j: int| 0 <= i <= j < t.len() implies t[i].z >= t[j].z by {
        let si = if i < p {
            i
        } else {
            i - 1
        };
        let sj = if j < p {
            j
        } else {
            j - 1
        };
        if i == p && j == p {
        } else if i == p {
            assert(t[j] == s[sj]);
        } else if j == p {
            assert(t[i] == s[si]);
        } else {
            assert(t[i] == s[si] && t[j] == s[sj]);
        }
    }
}

/// Runs with one multiset of entries carry the same entries, the same
/// identifiers, and the one's identifiers are distinct when the
/// other's are.
proof fn lemma_same_multiset_entries(a: Seq<ZEntry>, b: Seq<ZEntry>)
    requires
        a.to_multiset() == b.to_multiset(),
    ensures
        forall|e: ZEntry| a.contains(e) <==> b.contains(e),
        forall|x: u32| has_id(a, x) <==> has_id(b, x),
        ids_distinct(a) ==> ids_distinct(b),
{
    broadcast use group_to_multiset_ensures;
    broadcast use vstd::multiset::group_multiset_axioms;

    assert forall|e: ZEntry| a.contains(e) <==> b.contains(e) by {
        if a.contains(e) {
            assert(a.to_multiset().count(e) > 0);
            assert(b.to_multiset().count(e) > 0);
            assert(b.contains(e));
        }
        if b.contains(e) {
            assert(b.to_multiset().count(e) > 0);
            assert(a.to_multiset().count(e) > 0);
            assert(a.contains(e));
        }
    }
    assert forall|x: u32| has_id(a, x) implies has_id(b, x) by {
        let k = choose|k: int| 0 <= k < a.len() && a[k].id == x;
        assert(a.contains(a[k]));
        assert(a.to_multiset().count(a[k]) > 0);
        assert(b.to_multiset().count(a[k]) > 0);
        assert(b.contains(a[k]));
        let j = choose|j: int| 0 <= j < b.len() && b[j] == a[k];
        assert(b[j].id == x);
    }
    assert forall|x: u32| has_id(b, x) implies has_id(a, x) by {
        let k = choose|k: int| 0 <= k < b.len() && b[k].id == x;
        assert(b.contains(b[k]));
        assert(b.to_multiset().count(b[k]) > 0);
        assert(a.to_multiset().count(b[k]) > 0);
        assert(a.contains(b[k]));
        let j = choose|j: int| 0 <= j < a.len() && a[j] == b[k];
        assert(a[j].id == x);
    }
    if ids_distinct(a) {
        assert(a.no_duplicates()) by {
            assert forall|i: int, j: int|
                0 <= i < a.len() && 0 <= j < a.len() && i != j implies a[i] != a[j] by {
                if i < j {
                    assert(a[i].id != a[j].id);
                } else {
                    assert(a[j].id != a[i].id);
                }
            }
        }
        a.lemma_multiset_has_no_duplicates();
        b.lemma_multiset_has_no_duplicates_conv();
        assert forall|i: int, j: int| 0 <= i < j < b.len() implies b[i].id != b[j].id by {
            if b[i] == b[j] {
                assert(!b.no_duplicates() || b[i] != b[j]);
            } else {
                if b[i].id == b[j].id {
                    assert(b.contains(b[i]));
                    assert(b.contains(b[j]));
                    assert(b.to_multiset().count(b[i]) > 0);
                    assert(b.to_multiset().count(b[j]) > 0);
                    assert(a.to_multiset().count(b[i]) > 0);
                    assert(a.to_multiset().count(b[j]) > 0);
                    assert(a.contains(b[i]));
                    assert(a.contains(b[j]));
                    let k1 = choose|k: int| 0 <= k < a.len() && a[k] == b[i];
                    let k2 = choose|k: int| 0 <= k < a.len() && a[k] == b[j];
                    assert(k1 != k2);
                    if k1 < k2 {
                        assert(a[k1].id != a[k2].id);
                    } else {
                        assert(a[k2].id != a[k1].id);
                    }
                }
            }
        }
    }
}

/// The position a stable descending insertion gives an entry: right
/// after the run of keys at least as large.
#[verifier::loop_isolation(false)]
fn stable_pos(out: &Vec<ZEntry>, z: i64) -> (p: usize)
    requires
        sorted_desc(out@),
    ensures
        p <= out@.len(),
        forall|k: int| 0 <= k < p ==> out@[k].z >= z,
        forall|k: int| p <= k < out@.len() ==> out@[k].z < z,
{
    let n = out.len();
    let mut p: usize = 0;
    while p < n
        invariant
            0 <= p <= n,
            forall|k: int| 0 <= k < p ==> out@[k].z >= z,
        decreases n - p,
    {
        if out[p].z < z {
            return p;
        }
        p += 1;
    }
    n
}

/// Sorts the draw list from the largest depth key down, by stable
/// insertion: it keeps the multiset of entries, and an already sorted
/// list comes back unchanged.
#[verifier::loop_isolation(false)]
fn sort_cache(v: &mut Vec<ZEntry>)
    ensures
        sorted_desc(final(v)@),
        final(v)@.to_multiset() == old(v)@.to_multiset(),
        sorted_desc(old(v)@) ==> final(v)@ == old(v)@,
{
    broadcast use group_to_multiset_ensures;

    let ghost orig = v@;
    let mut out: Vec<ZEntry> = Vec::new();
    let n = v.len();
    let mut i: usize = 0;
    proof {
        assert(orig.take(0) =~= Seq::<ZEntry>::empty());
        assert(out@.to_multiset() =~= orig.take(0).to_multiset());
    }
    while i < n
        invariant
            0 <= i <= n,
            n == orig.len(),
            v@ == orig,
            sorted_desc(out@),
            out@.to_multiset() == orig.take(i as int).to_multiset(),
            sorted_desc(orig) ==> out@ == orig.take(i as int),
        decreases n - i,
    {
        let e = v[i];
        let ghost pre = out@;
        let p = stable_pos(&out, e.z);
        out.insert(p, e);
        proof {
            lemma_insert_entry(pre, p as int, e);
            lemma_insert_multiset(pre, p as int, e);
            lemma_insert_sorted(pre, p as int, e);
            assert(orig.take(i as int).push(e) =~= orig.take(i + 1));
            assert(out@.to_multiset() == orig.take(i + 1).to_multiset());
            if sorted_desc(orig) {
                assert(pre == orig.take(i as int));
                assert forall|k: int| 0 <= k < pre.len() implies pre[k].z >= e.z by {
                    assert(orig[k].z >= orig[i as int].z);
                }
                if (p as int) < pre.len() {
                    assert(pre[p as int].z < e.z);
                    assert(false);
                }
                assert(p == pre.len());
                assert(out@ =~= pre.push(e));
                assert(out@ =~= orig.take(i + 1));
            }
        }
        i += 1;
    }
    proof {
        assert(orig.take(n as int) =~= orig);
    }
    *v = out;
}

/// The position the pass first tries for a new entry: before the
/// first cached key not above the new one, or at the end.
#[verifier::loop_isolation(false)]
fn scan_pos(cache: &Vec<ZEntry>, z: i64) -> (p: usize)
    ensures
        p <= cache@.len(),
        forall|k: int| 0 <= k < p ==> z < cache@[k].z,
        p < cache@.len() ==> z >= cache@[p as int].z,
{
    let n = cache.len();
    let mut p: usize = 0;
    while p < n
        invariant
            0 <= p <= n,
            forall|k: int| 0 <= k < p ==> z < cache@[k].z,
        decreases n - p,
    {
        if z >= cache[p].z {
            return p;
        }
        p += 1;
    }
    n
}

/// The UI draw pass: it owns the handle of the shared unit-quad mesh
/// and the incrementally maintained draw-order cache — an index set
/// of the elements represented, beside the list of entries ordered by
/// depth.
pub struct DrawUi {
    mesh: u64,
    cached: hibitset::BitSet,
    cache: Vec<ZEntry>,
}

impl DrawUi {
    /// The ordered draw list, largest depth key first.
    pub closed spec fn ordered_seq(&self) -> Seq<ZEntry> {
        self.cache@
    }

    /// The handle of the shared unit-quad mesh.
    pub closed spec fn spec_mesh(&self) -> u64 {
        self.mesh
    }

    /// The index set holds exactly the ordered list's identifiers,
    /// and no identifier appears twice.
    pub closed spec fn wf(&self) -> bool {
        &&& ids_distinct(self.cache@)
        &&& forall|x: u32| bitset_elems(self.cached).contains(x) <==> has_id(self.cache@, x)
    }

    /// Makes the pass for one shared unit-quad mesh, with an empty
    /// cache.
    pub fn new(mesh: u64) -> (r: DrawUi)
        ensures
            r.wf(),
            r.spec_mesh() == mesh,
            r.ordered_seq().len() == 0,
    {
        let cached = bitset_new();
        let r = DrawUi { mesh, cached, cache: Vec::new() };
        proof {
            assert(forall|x: u32| !bitset_elems(r.cached).contains(x));
        }
        r
    }

    /// The handle the unit-quad mesh was loaded under.
    pub fn mesh(&self) -> (r: u64)
        ensures
            r == self.spec_mesh(),
    {
        self.mesh
    }

    /// The ordered draw list the last maintenance pass left.
    pub fn ordered(&self) -> (r: &Vec<ZEntry>)
        ensures
            r@ == self.ordered_seq(),
    {
        &self.cache
    }

    /// One maintenance pass over the draw-order cache: entries whose
    /// element lost its transform leave, every remaining entry takes
    /// its transform's current depth key, elements seen for the first
    /// time enter at a scanned position, and the whole list is then
    /// sorted from the largest depth key down. A pass over an already
    /// consistent cache leaves it exactly as it was.
    #[verifier::loop_isolation(false)]
    pub fn maintain(&mut self, ts: &TransformSet)
        requires
            old(self).wf(),
            ts.wf(),
            forall|id: u32| ts.spec_contains(id) ==> id < MAX_INDEX,
        ensures
            final(self).wf(),
            final(self).spec_mesh() == old(self).spec_mesh(),
            consistent(final(self).ordered_seq(), *ts),
            consistent(old(self).ordered_seq(), *ts) ==> final(self).ordered_seq() == old(
                self,
            ).ordered_seq(),
    {
        let ghost pre_cache = self.cache@;
        // Prune entries whose element no longer holds a transform,
        // clearing each dropped identifier from the index set.
        let mut kept: Vec<ZEntry> = Vec::new();
        let n0 = self.cache.len();
        let mut i: usize = 0;
        while i < n0
            invariant
                0 <= i <= n0,
                n0 == pre_cache.len(),
                self.cache@ == pre_cache,
                self.mesh == old(self).mesh,
                forall|k: int| 0 <= k < kept@.len() ==> ts.spec_contains(#[trigger] kept@[k].id),
                forall|x: u32|
                    has_id(kept@, x) ==> exists|j: int| 0 <= j < i && pre_cache[j].id == x,
                ids_distinct(kept@),
                (forall|j: int| 0 <= j < i ==> ts.spec_contains(#[trigger] pre_cache[j].id))
                    ==> kept@ == pre_cache.take(i as int),
                forall|x: u32| #![trigger bitset_elems(self.cached).contains(x)]
                    bitset_elems(self.cached).contains(x) <==> (has_id(kept@, x) || exists|j: int|
                        i <= j < n0 && pre_cache[j].id == x),
            decreases n0 - i,
        {
            let e = self.cache[i];
            let ghost kpre = kept@;
            if ts.get(e.id).is_some() {
                kept.push(e);
                proof {
                    lemma_insert_entry(kpre, kpre.len() as int, e);
                    assert(kpre.insert(kpre.len() as int, e) =~= kpre.push(e));
                    assert(kept@ == kpre.push(e));
                    assert(!has_id(kpre, e.id)) by {
                        if has_id(kpre, e.id) {
                            let j = choose|j: int| 0 <= j < i && pre_cache[j].id == e.id;
                            assert(pre_cache[j].id == pre_cache[i as int].id);
                        }
                    }
                    assert(ids_distinct(kept@));
                    assert(pre_cache.take(i + 1) =~= pre_cache.take(i as int).push(e));
                    assert forall|x: u32|
                        has_id(kept@, x) implies exists|j: int|
                        0 <= j < i + 1 && pre_cache[j].id == x by {
                        if has_id(kpre, x) {
                            let j = choose|j: int| 0 <= j < i && pre_cache[j].id == x;
                            assert(0 <= j < i + 1 && pre_cache[j].id == x);
                        } else {
                            assert(x == e.id);
                            assert(pre_cache[i as int].id == x);
                        }
                    }
                    assert forall|x: u32|
                        bitset_elems(self.cached).contains(x) <==> (has_id(kept@, x) || exists|
                        j: int|
                            i + 1 <= j < n0 && pre_cache[j].id == x) by {
                        if bitset_elems(self.cached).contains(x) {
                            if has_id(kpre, x) {
                                assert(has_id(kept@, x));
                            } else {
                                let j = choose|j: int| i <= j < n0 && pre_cache[j].id == x;
                                if j == i {
                                    assert(x == e.id);
                                    assert(has_id(kept@, x));
                                } else {
                                    assert(i + 1 <= j < n0 && pre_cache[j].id == x);
                                }
                            }
                        }
                        if has_id(kept@, x) {
                            if has_id(kpre, x) {
                                assert(bitset_elems(self.cached).contains(x));
                            } else {
                                assert(x == e.id);
                                assert(i <= i < n0 && pre_cache[i as int].id == x);
                                assert(exists|j: int| i <= j < n0 && pre_cache[j].id == x);
                                assert(bitset_elems(self.cached).contains(x));
                            }
                        }
                        if exists|j: int| i + 1 <= j < n0 && pre_cache[j].id == x {
                            let j = choose|j: int| i + 1 <= j < n0 && pre_cache[j].id == x;
                            assert(i <= j < n0 && pre_cache[j].id == x);
                            assert(bitset_elems(self.cached).contains(x));
                        }
                    }
                }
            } else {
                bitset_remove(&mut self.cached, e.id);
                proof {
                    assert(!ts.spec_contains(e.id));
                    assert forall|x: u32|
                        bitset_elems(self.cached).contains(x) <==> (has_id(kept@, x) || exists|
                        j: int|
                            i + 1 <= j < n0 && pre_cache[j].id == x) by {
                        if x == e.id {
                            assert(!bitset_elems(self.cached).contains(x));
                            if has_id(kept@, x) {
                                let k = choose|k: int|
                                    0 <= k < kept@.len() && kept@[k].id == x;
                                assert(ts.spec_contains(kept@[k].id));
                                assert(false);
                            }
                            if exists|j: int| i + 1 <= j < n0 && pre_cache[j].id == x {
                                let j = choose|j: int|
                                    i + 1 <= j < n0 && pre_cache[j].id == x;
                                assert(pre_cache[j].id == pre_cache[i as int].id);
                                assert(false);
                            }
                        } else {
                            if bitset_elems(self.cached).contains(x) {
                                if !has_id(kept@, x) {
                                    let j = choose|j: int|
                                        i <= j < n0 && pre_cache[j].id == x;
                                    assert(j != i);
                                    assert(i + 1 <= j < n0 && pre_cache[j].id == x);
                                }
                            }
                            if exists|j: int| i + 1 <= j < n0 && pre_cache[j].id == x {
                                let j = choose|j: int|
                                    i + 1 <= j < n0 && pre_cache[j].id == x;
                                assert(i <= j < n0 && pre_cache[j].id == x);
                                assert(exists|j2: int| i <= j2 < n0 && pre_cache[j2].id == x);
                                assert(bitset_elems(self.cached).contains(x));
                            }
                        }
                    }
                    assert(!ts.spec_contains(pre_cache[i as int].id));
                }
            }
            i += 1;
        }
        self.cache = kept;
        proof {
            assert forall|x: u32|
                bitset_elems(self.cached).contains(x) <==> has_id(self.cache@, x) by {
                if exists|j: int| n0 <= j < n0 && pre_cache[j].id == x {
                    let j = choose|j: int| n0 <= j < n0 && pre_cache[j].id == x;
                    assert(false);
                }
            }
        }
        // Refresh: every surviving entry takes its transform's
        // current depth key, which may have moved since last frame.
        let ghost mid = self.cache@;
        let ghost bset = self.cached;
        let n1 = self.cache.len();
        let mut r: usize = 0;
        while r < n1
            invariant
                0 <= r <= n1,
                n1 == mid.len(),
                self.cache@.len() == mid.len(),
                self.mesh == old(self).mesh,
                self.cached == bset,
                forall|k: int| 0 <= k < n1 ==> ts.spec_contains(#[trigger] mid[k].id),
                forall|k: int| r <= k < n1 ==> self.cache@[k] == mid[k],
                forall|k: int|
                    0 <= k < r ==> self.cache@[k].id == mid[k].id && self.cache@[k].z == ts.spec_at(
                        mid[k].id,
                    ).z,
            decreases n1 - r,
        {
            let e = self.cache[r];
            proof {
                assert(e == mid[r as int]);
                assert(ts.spec_contains(mid[r as int].id));
            }
            let t = ts.get(e.id).unwrap();
            self.cache[r] = ZEntry { z: t.z, id: e.id };
            r += 1;
        }
        proof {
            assert(zs_current(self.cache@, *ts)) by {
                assert forall|k: int|
                    0 <= k < self.cache@.len() implies ts.spec_contains(self.cache@[k].id)
                    && self.cache@[k].z == ts.spec_at(self.cache@[k].id).z by {
                    assert(self.cache@[k].id == mid[k].id);
                }
            }
            assert(ids_distinct(self.cache@)) by {
                assert forall|a: int, b: int| 0 <= a < b < self.cache@.len() implies (
                self.cache@[a].id != self.cache@[b].id) by {
                    assert(self.cache@[a].id == mid[a].id && self.cache@[b].id == mid[b].id);
                }
            }
            assert forall|x: u32| has_id(self.cache@, x) <==> has_id(mid, x) by {
                if has_id(self.cache@, x) {
                    let k = choose|k: int|
                        0 <= k < self.cache@.len() && self.cache@[k].id == x;
                    assert(mid[k].id == x);
                }
                if has_id(mid, x) {
                    let k = choose|k: int| 0 <= k < mid.len() && mid[k].id == x;
                    assert(self.cache@[k].id == x);
                }
            }
            if zs_current(mid, *ts) {
                assert(self.cache@ =~= mid);
            }
        }
        // Diff and insert: an element with a transform but no cache
        // entry enters at the first position whose key is not above
        // its own, or at the end.
        let ghost mid2 = self.cache@;
        let tn = ts.len();
        let mut t: usize = 0;
        while t < tn
            invariant
                0 <= t <= tn,
                self.mesh == old(self).mesh,
                ids_distinct(self.cache@),
                zs_current(self.cache@, *ts),
                forall|x: u32| bitset_elems(self.cached).contains(x) <==> has_id(self.cache@, x),
                forall|x: u32| #![trigger has_id(self.cache@, x)]
                    has_id(self.cache@, x) <==> (has_id(mid2, x) || (exists|j: int|
                        0 <= j < t && ts.entries_seq()[j].id == x)),
                (forall|x: u32| has_id(mid2, x) <==> ts.spec_contains(x)) ==> self.cache@ == mid2,
            decreases tn - t,
        {
            let ent = ts.entry_at(t);
            proof {
                ts.lemma_at_index(t as int);
            }
            if !bitset_contains(&self.cached, ent.id) {
                proof {
                    assert(!has_id(self.cache@, ent.id));
                    if forall|x: u32| has_id(mid2, x) <==> ts.spec_contains(x) {
                        assert(ts.spec_contains(ent.id));
                        assert(has_id(mid2, ent.id));
                        assert(has_id(self.cache@, ent.id));
                        assert(false);
                    }
                }
                let ghost cpre = self.cache@;
                let p = scan_pos(&self.cache, ent.transform.z);
                let e = ZEntry { z: ent.transform.z, id: ent.id };
                self.cache.insert(p, e);
                bitset_add(&mut self.cached, ent.id);
                proof {
                    lemma_insert_entry(cpre, p as int, e);
                    assert(self.cache@ == cpre.insert(p as int, e));
                    assert forall|x2: u32|
                        has_id(self.cache@, x2) <==> (has_id(cpre, x2) || x2 == ent.id) by {
                        assert(has_id(cpre.insert(p as int, e), x2) <==> (has_id(cpre, x2)
                            || e.id == x2));
                    }
                    assert forall|x2: u32|
                        has_id(cpre, x2) <==> (has_id(mid2, x2) || (exists|j: int|
                            0 <= j < t && ts.entries_seq()[j].id == x2)) by {
                        assert(has_id(cpre, x2) <==> (has_id(mid2, x2) || (exists|j: int|
                            0 <= j < t && ts.entries_seq()[j].id == x2)));
                    }
                    assert(ids_distinct(self.cache@));
                    assert(zs_current(self.cache@, *ts)) by {
                        assert forall|k: int|
                            0 <= k < self.cache@.len() implies ts.spec_contains(
                            self.cache@[k].id,
                        ) && self.cache@[k].z == ts.spec_at(self.cache@[k].id).z by {
                            if k < p {
                                assert(self.cache@[k] == cpre[k]);
                            } else if k == p {
                                assert(self.cache@[k] == e);
                            } else {
                                assert(self.cache@[k] == cpre[k - 1]);
                            }
                        }
                    }
                    assert forall|x: u32| #![trigger has_id(self.cache@, x)]
                        has_id(self.cache@, x) <==> (has_id(mid2, x) || (exists|j: int|
                            0 <= j < t + 1 && ts.entries_seq()[j].id == x)) by {
                        if has_id(self.cache@, x) {
                            assert(has_id(cpre, x) || x == ent.id);
                            if x == ent.id {
                                assert(ts.entries_seq()[t as int].id == x);
                                assert(exists|j: int|
                                    0 <= j < t + 1 && ts.entries_seq()[j].id == x);
                            } else {
                                if !has_id(mid2, x) {
                                    let j = choose|j: int|
                                        0 <= j < t && ts.entries_seq()[j].id == x;
                                    assert(
                                        0 <= j < t + 1 && ts.entries_seq()[j].id == x
                                    );
                                }
                            }
                        }
                        if has_id(mid2, x) || (exists|j: int|
                            0 <= j < t + 1 && ts.entries_seq()[j].id == x) {
                            if x == ent.id {
                                assert(has_id(self.cache@, x));
                            } else if has_id(mid2, x) {
                                assert(has_id(self.cache@, x));
                            } else {
                                let j = choose|j: int|
                                    0 <= j < t + 1 && ts.entries_seq()[j].id == x;
                                assert(j < t);
                                assert(has_id(self.cache@, x));
                            }
                        }
                    }
                }
            } else {
                proof {
                    assert(has_id(self.cache@, ent.id));
                    assert forall|x: u32| #![trigger has_id(self.cache@, x)]
                        has_id(self.cache@, x) <==> (has_id(mid2, x) || (exists|j: int|
                            0 <= j < t + 1 && ts.entries_seq()[j].id == x)) by {
                        if has_id(self.cache@, x) {
                            if !has_id(mid2, x) {
                                let j = choose|j: int|
                                    0 <= j < t && ts.entries_seq()[j].id == x;
                                assert(0 <= j < t + 1 && ts.entries_seq()[j].id == x);
                            }
                        }
                        if has_id(mid2, x) || (exists|j: int|
                            0 <= j < t + 1 && ts.entries_seq()[j].id == x) {
                            if x == ent.id {
                                assert(has_id(self.cache@, x));
                            } else if has_id(mid2, x) {
                            } else {
                                let j = choose|j: int|
                                    0 <= j < t + 1 && ts.entries_seq()[j].id == x;
                                assert(j < t);
                            }
                        }
                    }
                }
            }
            t += 1;
        }
        proof {
            assert forall|x: u32| has_id(self.cache@, x) <==> ts.spec_contains(x) by {
                if has_id(self.cache@, x) {
                    let k = choose|k: int|
                        0 <= k < self.cache@.len() && self.cache@[k].id == x;
                }
                if ts.spec_contains(x) {
                    let j = ts.lemma_contains_index(x);
                    assert(0 <= j < t && ts.entries_seq()[j].id == x);
                    assert(exists|j2: int| 0 <= j2 < t && ts.entries_seq()[j2].id == x);
                    assert(has_id(self.cache@, x));
                }
            }
        }
        // Full sort from the largest depth key down: refreshed keys
        // may have moved entries anywhere.
        let ghost before_sort = self.cache@;
        sort_cache(&mut self.cache);
        proof {
            lemma_same_multiset_entries(before_sort, self.cache@);
            assert(zs_current(self.cache@, *ts)) by {
                assert forall|k: int|
                    0 <= k < self.cache@.len() implies ts.spec_contains(self.cache@[k].id)
                    && self.cache@[k].z == ts.spec_at(self.cache@[k].id).z by {
                    let e = self.cache@[k];
                    assert(self.cache@.contains(e));
                    assert(before_sort.contains(e));
                    let j = choose|j: int| 0 <= j < before_sort.len() && before_sort[j] == e;
                }
            }
            if consistent(pre_cache, *ts) {
                assert(kept@ == pre_cache) by {
                    assert forall|j: int|
                        0 <= j < n0 implies ts.spec_contains(#[trigger] pre_cache[j].id) by {
                        assert(has_id(pre_cache, pre_cache[j].id));
                    }
                    assert(kept@ == pre_cache.take(n0 as int));
                }
                assert(mid == pre_cache);
                assert(mid2 == pre_cache) by {
                    assert(zs_current(mid, *ts));
                }
                assert(before_sort == pre_cache) by {
                    assert(forall|x: u32| has_id(mid2, x) <==> ts.spec_contains(x));
                }
                assert(sorted_desc(before_sort));
                assert(self.cache@ == pre_cache);
            }
        }
    }
}

} // verus!
