//! A finite set of addresses, the persistent membership flags of a list
//! (denylist, allowlist) kept by the authorizer.
use vstd::prelude::*;

use crate::address::Address;

verus! {

/// A finite set of addresses.
pub struct AddressSet {
    items: Vec<Address>,
}

impl View for AddressSet {
    type V = Set<Address>;

    closed spec fn view(&self) -> Set<Address> {
        self.items@.to_set()
    }
}

impl AddressSet {
    /// The empty set.
    pub fn new() -> (s: AddressSet)
        ensures
            s@ == Set::<Address>::empty(),
    {
        let s = AddressSet { items: Vec::new() };
        assert(s.items@.to_set() =~= Set::<Address>::empty());
        s
    }

    /// Whether `a` is in the set.
    pub fn contains(&self, a: &Address) -> (r: bool)
        ensures
            r == self@.contains(*a),
    {
        let n = self.items.len();
        for i in 0..n
            invariant
                n == self.items@.len(),
                forall|j: int| 0 <= j < i ==> self.items@[j] != *a,
        {
            if self.items[i] == *a {
                proof {
                    assert(self.items@.contains(*a));
                }
                return true;
            }
        }
        proof {
            if self.items@.contains(*a) {
                let j = choose|j: int| 0 <= j < self.items@.len() && self.items@[j] == *a;
                assert(self.items@[j] != *a);
            }
        }
        false
    }

    /// Adds `a` to the set.
    pub fn insert(&mut self, a: &Address)
        ensures
            final(self)@ == old(self)@.insert(*a),
    {
        if !self.contains(a) {
            self.items.push(*a);
            proof {
                assert forall|x: Address| #[trigger] self.items@.contains(x) <==> (old(self).items@.contains(x) || x == *a) by {
                    if old(self).items@.contains(x) {
                        let j = choose|j: int| 0 <= j < old(self).items@.len() && old(self).items@[j] == x;
                        assert(self.items@[j] == x);
                    }
                    if self.items@.contains(x) && x != *a {
                        let j = choose|j: int| 0 <= j < self.items@.len() && self.items@[j] == x;
                        assert(j < old(self).items@.len());
                        assert(old(self).items@[j] == x);
                    }
                    if x == *a {
                        assert(self.items@[self.items@.len() - 1] == x);
                    }
                }
                assert(self.items@.to_set() =~= old(self).items@.to_set().insert(*a));
            }
        } else {
            proof {
                assert(old(self).items@.to_set() =~= old(self).items@.to_set().insert(*a));
            }
        }
    }

    /// Takes `a` out of the set.
    pub fn remove(&mut self, a: &Address)
        ensures
            final(self)@ == old(self)@.remove(*a),
    {
        let ghost before = self.items@;
        let mut kept: Vec<Address> = Vec::new();
        let n = self.items.len();
        for i in 0..n
            invariant
                n == before.len(),
                self.items@ == before,
                forall|x: Address| #[trigger] kept@.contains(x) <==> (x != *a && exists|j: int| 0 <= j < i && before[j] == x),
        {
            let item = self.items[i];
            if item != *a {
                let ghost prev = kept@;
                kept.push(item);
                proof {
                    assert forall|x: Address| #[trigger] kept@.contains(x) <==> (x != *a && exists|j: int| 0 <= j < i + 1 && before[j] == x) by {
                        if kept@.contains(x) {
                            let k = choose|k: int| 0 <= k < kept@.len() && kept@[k] == x;
                            if k < prev.len() {
                                assert(prev[k] == x);
                                assert(prev.contains(x));
                            } else {
                                assert(before[i as int] == x);
                            }
                        }
                        if x != *a && exists|j: int| 0 <= j < i + 1 && before[j] == x {
                            if x == item {
                                assert(kept@[kept@.len() - 1] == x);
                            } else {
                                let j = choose|j: int| 0 <= j < i + 1 && before[j] == x;
                                assert(j < i);
                                assert(prev.contains(x));
                                let k = choose|k: int| 0 <= k < prev.len() && prev[k] == x;
                                assert(kept@[k] == x);
                            }
                        }
                    }
                }
            } else {
                proof {
                    assert forall|x: Address| #[trigger] kept@.contains(x) <==> (x != *a && exists|j: int| 0 <= j < i + 1 && before[j] == x) by {
                        if x != *a && exists|j: int| 0 <= j < i + 1 && before[j] == x {
                            let j = choose|j: int| 0 <= j < i + 1 && before[j] == x;
                            assert(j < i);
                        }
                    }
                }
            }
        }
        self.items = kept;
        proof {
            assert forall|x: Address| #[trigger] self.items@.contains(x) <==> (before.contains(x) && x != *a) by {
                if before.contains(x) && x != *a {
                    let j = choose|j: int| 0 <= j < before.len() && before[j] == x;
                    assert(exists|j: int| 0 <= j < n && before[j] == x);
                }
            }
            assert(self.items@.to_set() =~= before.to_set().remove(*a));
        }
    }
}

} // verus!
