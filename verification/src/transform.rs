use vstd::prelude::*;

verus! {

/// Layout state for one visible element: position, size, and the depth
/// key that decides draw order (larger `z` is drawn first).
///
/// Coordinates and the depth key are integer units chosen by the caller;
/// `width` and `height` are texel counts.
#[derive(Clone, Copy, PartialEq, Eq, Structural, Debug)]
pub struct UiTransform {
    pub x: i64,
    pub y: i64,
    pub width: u32,
    pub height: u32,
    pub z: i64,
}

/// One element identifier paired with its transform.
#[derive(Clone, Copy, PartialEq, Eq, Structural, Debug)]
pub struct TransformEntry {
    pub id: u32,
    pub transform: UiTransform,
}

/// The elements that currently have a transform, keyed by element
/// identifier. Holding a transform is what makes an element visible
/// to the draw pass.
pub struct TransformSet {
    entries: Vec<TransformEntry>,
}

impl TransformSet {
    /// Identifiers never repeat among the entries.
    pub closed spec fn wf(&self) -> bool {
        forall|i: int, j: int|
            0 <= i < j < self.entries@.len() ==> self.entries@[i].id != self.entries@[j].id
    }

    pub closed spec fn entries_seq(&self) -> Seq<TransformEntry> {
        self.entries@
    }

    /// Whether some element holds a transform.
    pub closed spec fn spec_contains(&self, id: u32) -> bool {
        exists|i: int| 0 <= i < self.entries@.len() && self.entries@[i].id == id
    }

    /// The transform of an element known to hold one.
    pub closed spec fn spec_at(&self, id: u32) -> UiTransform {
        let i = choose|i: int| 0 <= i < self.entries@.len() && self.entries@[i].id == id;
        self.entries@[i].transform
    }

    /// A well-formed set reads each present identifier's transform off
    /// the one entry that carries it.
    pub proof fn lemma_at_index(&self, i: int)
        requires
            self.wf(),
            0 <= i < self.entries_seq().len(),
        ensures
            self.spec_contains(self.entries_seq()[i].id),
            self.spec_at(self.entries_seq()[i].id) == self.entries_seq()[i].transform,
    {
        let id = self.entries@[i].id;
        assert(self.spec_contains(id));
        let j = choose|j: int| 0 <= j < self.entries@.len() && self.entries@[j].id == id;
        if i < j {
            assert(self.entries@[i].id != self.entries@[j].id);
        } else if j < i {
            assert(self.entries@[j].id != self.entries@[i].id);
        }
    }

    /// Each identifier the set contains names one entry, which holds
    /// the transform the set reads for it.
    pub proof fn lemma_contains_index(&self, id: u32) -> (i: int)
        requires
            self.spec_contains(id),
        ensures
            0 <= i < self.entries_seq().len(),
            self.entries_seq()[i].id == id,
            self.entries_seq()[i].transform == self.spec_at(id),
    {
        choose|i: int| 0 <= i < self.entries@.len() && self.entries@[i].id == id
    }

    pub fn new() -> (r: TransformSet)
        ensures
            r.wf(),
            r.entries_seq().len() == 0,
            forall|id: u32| !r.spec_contains(id),
    {
        TransformSet { entries: Vec::new() }
    }

    pub fn len(&self) -> (r: usize)
        ensures
            r == self.entries_seq().len(),
    {
        self.entries.len()
    }

    /// The entry at a position, for callers that walk the set.
    pub fn entry_at(&self, i: usize) -> (r: TransformEntry)
        requires
            i < self.entries_seq().len(),
        ensures
            r == self.entries_seq()[i as int],
    {
        self.entries[i]
    }

    /// Looks an element's transform up by identifier.
    #[verifier::loop_isolation(false)]
    pub fn get(&self, id: u32) -> (r: Option<UiTransform>)
        requires
            self.wf(),
        ensures
            r is Some <==> self.spec_contains(id),
            r is Some ==> r->0 == self.spec_at(id),
    {
        let n = self.entries.len();
        let mut i: usize = 0;
        while i < n
            invariant
                n == self.entries_seq().len(),
                0 <= i <= n,
                self.wf(),
                forall|k: int| 0 <= k < i ==> self.entries_seq()[k].id != id,
            decreases n - i,
        {
            if self.entries[i].id == id {
                proof {
                    self.lemma_at_index(i as int);
                }
                return Some(self.entries[i].transform);
            }
            i += 1;
        }
        None
    }

    /// Adds an element's transform, or replaces the one it already has.
    #[verifier::loop_isolation(false)]
    pub fn insert(&mut self, id: u32, t: UiTransform)
        requires
            old(self).wf(),
        ensures
            final(self).wf(),
            forall|x: u32|
                final(self).spec_contains(x) <==> (old(self).spec_contains(x) || x == id),
            final(self).spec_at(id) == t,
            forall|x: u32|
                x != id && old(self).spec_contains(x) ==> final(self).spec_at(x) == old(
                    self,
                ).spec_at(x),
    {
        let ghost pre = *self;
        let n = self.entries.len();
        let mut i: usize = 0;
        while i < n
            invariant
                *self == pre,
                n == self.entries_seq().len(),
                0 <= i <= n,
                self.wf(),
                forall|k: int| 0 <= k < i ==> self.entries_seq()[k].id != id,
            decreases n - i,
        {
            if self.entries[i].id == id {
                proof {
                    assert(pre.entries@[i as int].id == id);
                }
                self.entries[i] = TransformEntry { id, transform: t };
                proof {
                    assert(forall|k: int|
                        0 <= k < self.entries@.len() && k != i ==> self.entries@[k]
                            == pre.entries@[k]);
                    assert(self.entries@[i as int].id == id);
                    assert(self.entries@.len() == pre.entries@.len());
                    assert(self.wf());
                    assert forall|x: u32|
                        self.spec_contains(x) implies (pre.spec_contains(x) || x == id) by {
                        let k = choose|k: int|
                            0 <= k < self.entries@.len() && self.entries@[k].id == x;
                        if k != i as int {
                            assert(pre.entries@[k].id == x);
                            assert(pre.spec_contains(x));
                        } else {
                            assert(x == id);
                        }
                    }
                    assert forall|x: u32|
                        (pre.spec_contains(x) || x == id) implies self.spec_contains(x) by {
                        if x == id {
                            assert(self.entries@[i as int].id == x);
                            assert(self.spec_contains(x));
                        } else {
                            let k = choose|k: int|
                                0 <= k < pre.entries@.len() && pre.entries@[k].id == x;
                            assert(k != i as int);
                            assert(self.entries@[k].id == x);
                            assert(self.spec_contains(x));
                        }
                    }
                    self.lemma_at_index(i as int);
                    assert forall|x: u32|
                        x != id && pre.spec_contains(x) implies self.spec_at(x) == pre.spec_at(
                        x,
                    ) by {
                        let k = choose|k: int|
                            0 <= k < pre.entries@.len() && pre.entries@[k].id == x;
                        assert(self.entries@[k] == pre.entries@[k]);
                        self.lemma_at_index(k);
                        pre.lemma_at_index(k);
                    }
                }
                return;
            }
            i += 1;
        }
        self.entries.push(TransformEntry { id, transform: t });
        proof {
            assert(self.entries@.len() == n + 1);
            assert(forall|k: int| 0 <= k < n ==> self.entries@[k] == pre.entries@[k]);
            assert(self.entries@[n as int] == TransformEntry { id, transform: t });
            assert(self.wf());
            assert forall|x: u32|
                self.spec_contains(x) implies (pre.spec_contains(x) || x == id) by {
                let k = choose|k: int| 0 <= k < self.entries@.len() && self.entries@[k].id == x;
                if k < n {
                    assert(pre.entries@[k].id == x);
                    assert(pre.spec_contains(x));
                } else {
                    assert(x == id);
                }
            }
            assert forall|x: u32|
                (pre.spec_contains(x) || x == id) implies self.spec_contains(x) by {
                if x == id {
                    assert(self.entries@[n as int].id == x);
                    assert(self.spec_contains(x));
                } else {
                    let k = choose|k: int| 0 <= k < pre.entries@.len() && pre.entries@[k].id == x;
                    assert(self.entries@[k].id == x);
                    assert(self.spec_contains(x));
                }
            }
            self.lemma_at_index(n as int);
            assert forall|x: u32|
                x != id && pre.spec_contains(x) implies self.spec_at(x) == pre.spec_at(x) by {
                let k = choose|k: int| 0 <= k < pre.entries@.len() && pre.entries@[k].id == x;
                assert(self.entries@[k] == pre.entries@[k]);
                self.lemma_at_index(k);
                pre.lemma_at_index(k);
            }
        }
    }

    /// Takes an element's transform away, if it has one.
    #[verifier::loop_isolation(false)]
    pub fn remove(&mut self, id: u32)
        requires
            old(self).wf(),
        ensures
            final(self).wf(),
            forall|x: u32|
                final(self).spec_contains(x) <==> (old(self).spec_contains(x) && x != id),
            forall|x: u32|
                x != id && old(self).spec_contains(x) ==> final(self).spec_at(x) == old(
                    self,
                ).spec_at(x),
    {
        let ghost pre = *self;
        let n = self.entries.len();
        let mut i: usize = 0;
        while i < n
            invariant
                *self == pre,
                n == self.entries_seq().len(),
                0 <= i <= n,
                self.wf(),
                forall|k: int| 0 <= k < i ==> self.entries_seq()[k].id != id,
            decreases n - i,
        {
            if self.entries[i].id == id {
                self.entries.remove(i);
                proof {
                    assert(self.entries@.len() == pre.entries@.len() - 1);
                    assert(forall|k: int| 0 <= k < i ==> self.entries@[k] == pre.entries@[k]);
                    assert(forall|k: int|
                        i <= k < self.entries@.len() ==> self.entries@[k] == pre.entries@[k + 1]);
                    assert(self.wf());
                    assert forall|x: u32|
                        self.spec_contains(x) <==> (pre.spec_contains(x) && x != id) by {
                        if self.spec_contains(x) {
                            let k = choose|k: int|
                                0 <= k < self.entries@.len() && self.entries@[k].id == x;
                            if k < i {
                                assert(pre.entries@[k].id == x);
                            } else {
                                assert(pre.entries@[k + 1].id == x);
                            }
                        }
                        if pre.spec_contains(x) && x != id {
                            let k = choose|k: int|
                                0 <= k < pre.entries@.len() && pre.entries@[k].id == x;
                            if k < i {
                                assert(self.entries@[k].id == x);
                            } else {
                                assert(k != i);
                                assert(self.entries@[k - 1].id == x);
                            }
                        }
                    }
                    assert forall|x: u32|
                        x != id && pre.spec_contains(x) implies self.spec_at(x) == pre.spec_at(
                        x,
                    ) by {
                        let k = choose|k: int|
                            0 <= k < pre.entries@.len() && pre.entries@[k].id == x;
                        pre.lemma_at_index(k);
                        if k < i {
                            assert(self.entries@[k] == pre.entries@[k]);
                            self.lemma_at_index(k);
                        } else {
                            assert(k != i);
                            assert(self.entries@[k - 1] == pre.entries@[k]);
                            self.lemma_at_index(k - 1);
                        }
                    }
                }
                return;
            }
            i += 1;
        }
    }
}

} // verus!
