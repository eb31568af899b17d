//! The in-flight set: the catalog indices for which a decode task has been
//! dispatched but has not yet completed. Membership is checked before every
//! dispatch, so no index ever has two tasks running at once.

use vstd::prelude::*;

verus! {

/// A set of catalog indices, held as a duplicate-free vector.
pub struct InFlightSet {
    items: Vec<usize>,
}

impl InFlightSet {
    /// The indices currently in flight.
    pub closed spec fn view(&self) -> Set<usize> {
        Set::new(|i: usize| self.items@.contains(i))
    }

    /// The internal vector holds each index at most once.
    pub closed spec fn inv(&self) -> bool {
        forall|j1: int, j2: int|
            0 <= j1 < j2 < self.items@.len() ==> self.items@[j1] != self.items@[j2]
    }

    pub fn new() -> (r: InFlightSet)
        ensures
            r@ == Set::<usize>::empty(),
            r.inv(),
    {
        let r = InFlightSet { items: Vec::new() };
        proof {
            assert(r@ =~= Set::<usize>::empty());
        }
        r
    }

    pub fn clear(&mut self)
        ensures
            final(self)@ == Set::<usize>::empty(),
            final(self).inv(),
    {
        self.items.clear();
        proof {
            assert(self@ =~= Set::<usize>::empty());
        }
    }

    pub fn is_empty(&self) -> (r: bool)
        ensures
            r == (self@ =~= Set::<usize>::empty()),
    {
        let r = self.items.len() == 0;
        proof {
            if self.items@.len() == 0 {
                assert(self@ =~= Set::<usize>::empty());
            } else {
                assert(self@.contains(self.items@[0]));
            }
        }
        r
    }

    pub fn contains(&self, index: usize) -> (r: bool)
        ensures
            r == self@.contains(index),
    {
        let mut j: usize = 0;
        while j < self.items.len()
            invariant
                j <= self.items@.len(),
                forall|jj: int| 0 <= jj < j ==> self.items@[jj] != index,
            decreases self.items@.len() - j,
        {
            if self.items[j] == index {
                return true;
            }
            j += 1;
        }
        false
    }

    /// Records a dispatched index; a no-op when it is already in flight.
    pub fn insert(&mut self, index: usize)
        requires
            old(self).inv(),
        ensures
            final(self)@ == old(self)@.insert(index),
            final(self).inv(),
    {
        if !self.contains(index) {
            self.items.push(index);
            proof {
                assert forall|i: usize| old(self)@.insert(index).contains(i) implies self@.contains(
                    i,
                ) by {
                    if i == index {
                        assert(self.items@[self.items@.len() - 1] == i);
                    } else {
                        let jj = choose|jj: int|
                            0 <= jj < old(self).items@.len() && old(self).items@[jj] == i;
                        assert(self.items@[jj] == i);
                    }
                }
                assert forall|i: usize| self@.contains(i) implies old(self)@.insert(
                    index,
                ).contains(i) by {
                    let jj = choose|jj: int|
                        0 <= jj < self.items@.len() && self.items@[jj] == i;
                    if jj < old(self).items@.len() {
                        assert(old(self).items@[jj] == i);
                    }
                }
                assert(self@ =~= old(self)@.insert(index));
            }
        } else {
            proof {
                assert(self@ =~= old(self)@.insert(index));
            }
        }
    }

    /// Removes a completed (or abandoned) index; a no-op when absent.
    pub fn remove(&mut self, index: usize)
        requires
            old(self).inv(),
        ensures
            final(self)@ == old(self)@.remove(index),
            final(self).inv(),
    {
        let mut j: usize = 0;
        while j < self.items.len()
            invariant
                self.inv(),
                j <= self.items@.len(),
                self.items@ == old(self).items@,
                forall|jj: int| 0 <= jj < j ==> self.items@[jj] != index,
            decreases self.items@.len() - j,
        {
            if self.items[j] == index {
                self.items.remove(j);
                proof {
                    assert forall|i: usize| self@.contains(i) implies old(self)@.remove(index).contains(i) by {
                        let jj = choose|jj: int|
                            0 <= jj < self.items@.len() && self.items@[jj] == i;
                        if jj < j {
                            assert(old(self).items@[jj] == i);
                        } else {
                            assert(old(self).items@[jj + 1] == i);
                        }
                    }
                    assert forall|i: usize| old(self)@.remove(index).contains(i) implies self@.contains(i) by {
                        let jj = choose|jj: int|
                            0 <= jj < old(self).items@.len() && old(self).items@[jj] == i;
                        if jj < j {
                            assert(self.items@[jj] == i);
                        } else {
                            assert(jj != j);
                            assert(self.items@[jj - 1] == i);
                        }
                    }
                    assert(self@ =~= old(self)@.remove(index));
                }
                return ;
            }
            j += 1;
        }
        proof {
            assert(!old(self)@.contains(index));
            assert(self@ =~= old(self)@.remove(index));
        }
    }

    /// Drops every in-flight index at or above `bound`: after a deletion those
    /// indices no longer name the item their task was dispatched for, so their
    /// results will be discarded on arrival.
    pub fn drop_at_or_above(&mut self, bound: usize)
        requires
            old(self).inv(),
        ensures
            forall|i: usize| final(self)@.contains(i) <==> old(self)@.contains(i) && i < bound,
            final(self).inv(),
    {
        let mut kept: Vec<usize> = Vec::new();
        let mut j: usize = 0;
        while j < self.items.len()
            invariant
                j <= self.items@.len(),
                self.items@ == old(self).items@,
                self.inv(),
                forall|k1: int, k2: int| 0 <= k1 < k2 < kept@.len() ==> kept@[k1] != kept@[k2],
                forall|k: int|
                    0 <= k < kept@.len() ==> kept@[k] < bound && exists|jj: int|
                        0 <= jj < j && self.items@[jj] == kept@[k],
                forall|jj: int|
                    0 <= jj < j && self.items@[jj] < bound ==> kept@.contains(self.items@[jj]),
            decreases self.items@.len() - j,
        {
            let ghost kept_before = kept@;
            let v = self.items[j];
            if v < bound {
                proof {
                    assert forall|k: int| 0 <= k < kept_before.len() implies kept_before[k]
                        != v by {
                        let jj = choose|jj: int|
                            0 <= jj < j && self.items@[jj] == kept_before[k];
                        assert(self.items@[jj] != self.items@[j as int]);
                    }
                }
                kept.push(v);
                proof {
                    assert forall|jj: int|
                        0 <= jj < j + 1 && self.items@[jj] < bound implies kept@.contains(
                        self.items@[jj],
                    ) by {
                        if jj < j {
                            let kk = choose|kk: int|
                                0 <= kk < kept_before.len() && kept_before[kk] == self.items@[jj];
                            assert(kept@[kk] == self.items@[jj]);
                        } else {
                            assert(kept@[kept@.len() - 1] == self.items@[jj]);
                        }
                    }
                }
            }
            j += 1;
        }
        self.items = kept;
        proof {
            assert forall|i: usize| self@.contains(i) implies old(self)@.contains(i) && i
                < bound by {
                let k = choose|k: int| 0 <= k < self.items@.len() && self.items@[k] == i;
                let jj = choose|jj: int|
                    0 <= jj < old(self).items@.len() && old(self).items@[jj] == i;
                assert(old(self).items@[jj] == i);
            }
            assert forall|i: usize| old(self)@.contains(i) && i < bound implies self@.contains(
                i,
            ) by {
                let jj = choose|jj: int|
                    0 <= jj < old(self).items@.len() && old(self).items@[jj] == i;
                assert(self.items@.contains(i));
            }
        }
    }
}

} // verus!
