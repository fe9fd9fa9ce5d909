//! Core data model: interface kinds, raw counter samples, and the set of
//! interface names selected for sampling.

use vstd::prelude::*;

verus! {

/// Where a counter sample came from: a local host interface or the
/// remote router's WAN interface.
#[derive(Clone, Copy, Debug, PartialEq, Eq)]
pub enum InterfaceType {
    Net,
    Wan,
}

/// One raw cumulative counter sample for a named interface, produced
/// fresh by a collector and never mutated afterwards.
#[derive(Clone, Debug)]
pub struct InterfaceStats {
    pub interface: String,
    pub rx_bytes: u64,
    pub tx_bytes: u64,
    pub kind: InterfaceType,
}

/// Mathematical image of an [`InterfaceStats`]: the name as a character
/// sequence beside the two counters and the kind.
pub ghost struct StatView {
    pub interface: Seq<char>,
    pub rx_bytes: u64,
    pub tx_bytes: u64,
    pub kind: InterfaceType,
}

impl View for InterfaceStats {
    type V = StatView;

    open spec fn view(&self) -> StatView {
        StatView {
            interface: self.interface@,
            rx_bytes: self.rx_bytes,
            tx_bytes: self.tx_bytes,
            kind: self.kind,
        }
    }
}

/// The views of a batch of samples.
pub open spec fn stats_views(ss: Seq<InterfaceStats>) -> Seq<StatView> {
    ss.map_values(|s: InterfaceStats| s@)
}

/// The set of interface names selected for local sampling.  Only
/// membership matters; the view is the set of selected names.
pub struct InterfaceSet {
    names: Vec<String>,
}

impl View for InterfaceSet {
    type V = Set<Seq<char>>;

    closed spec fn view(&self) -> Set<Seq<char>> {
        Set::new(|n: Seq<char>| exists|i: int| 0 <= i < self.names@.len() && self.names@[i]@ == n)
    }
}

impl InterfaceSet {
    /// An empty selection.
    pub fn new() -> (r: Self)
        ensures
            r@ == Set::<Seq<char>>::empty(),
    {
        let r = InterfaceSet { names: Vec::new() };
        proof {
            assert(r@ =~= Set::<Seq<char>>::empty());
        }
        r
    }

    /// Whether `name` is one of the selected names.
    pub fn contains(&self, name: &String) -> (r: bool)
        ensures
            r == self@.contains(name@),
    {
        let n = self.names.len();
        let mut i: usize = 0;
        while i < n
            invariant
                0 <= i <= n,
                n == self.names@.len(),
                forall|j: int| 0 <= j < i ==> self.names@[j]@ != name@,
            decreases n - i,
        {
            if self.names[i] == *name {
                return true;
            }
            i += 1;
        }
        false
    }

    /// Adds `name` to the selection.
    pub fn insert(&mut self, name: String)
        ensures
            final(self)@ == old(self)@.insert(name@),
    {
        let ghost name_seq = name@;
        if !self.contains(&name) {
            self.names.push(name);
            proof {
                assert forall|n: Seq<char>| self@.contains(n)
                    implies old(self)@.insert(name_seq).contains(n) by {
                    let i = choose|i: int|
                        0 <= i < self.names@.len() && self.names@[i]@ == n;
                    if i < old(self).names@.len() {
                        assert(old(self)@.contains(n));
                    }
                }
                assert forall|n: Seq<char>| old(self)@.insert(name_seq).contains(n)
                    implies self@.contains(n) by {
                    if n == name_seq {
                        assert(self.names@[old(self).names@.len() as int]@ == n);
                    } else {
                        let i = choose|i: int|
                            0 <= i < old(self).names@.len() && old(self).names@[i]@ == n;
                        assert(self.names@[i]@ == n);
                    }
                }
                assert(self@ =~= old(self)@.insert(name_seq));
            }
        } else {
            proof {
                assert(self@ =~= old(self)@.insert(name_seq));
            }
        }
    }

    /// Removes `name` from the selection.
    pub fn remove(&mut self, name: &String)
        ensures
            final(self)@ == old(self)@.remove(name@),
    {
        let n = self.names.len();
        let mut kept: Vec<String> = Vec::new();
        let mut i: usize = 0;
        while i < n
            invariant
                0 <= i <= n,
                n == self.names@.len(),
                forall|k: int| 0 <= k < kept@.len()
                    ==> kept@[k]@ != name@
                        && (exists|j: int| 0 <= j < i && self.names@[j]@ == #[trigger] kept@[k]@),
                forall|j: int| 0 <= j < i && self.names@[j]@ != name@
                    ==> exists|k: int| 0 <= k < kept@.len() && kept@[k]@ == #[trigger] self.names@[j]@,
            decreases n - i,
        {
            let ghost kept_before = kept@;
            if !(self.names[i] == *name) {
                let entry = self.names[i].clone();
                kept.push(entry);
            }
            proof {
                assert forall|j: int| 0 <= j < i + 1 && self.names@[j]@ != name@
                    implies exists|k: int|
                        0 <= k < kept@.len() && kept@[k]@ == #[trigger] self.names@[j]@ by {
                    if j < i {
                        let k = choose|k: int|
                            0 <= k < kept_before.len() && kept_before[k]@ == self.names@[j]@;
                        assert(kept@[k]@ == self.names@[j]@);
                    } else {
                        assert(kept@[kept@.len() - 1]@ == self.names@[j]@);
                    }
                }
            }
            i += 1;
        }
        self.names = kept;
        proof {
            assert forall|m: Seq<char>| self@.contains(m)
                implies old(self)@.remove(name@).contains(m) by {
                let k = choose|k: int| 0 <= k < self.names@.len() && self.names@[k]@ == m;
                let j = choose|j: int|
                    0 <= j < old(self).names@.len() && old(self).names@[j]@ == self.names@[k]@;
                assert(old(self)@.contains(m));
            }
            assert forall|m: Seq<char>| old(self)@.remove(name@).contains(m)
                implies self@.contains(m) by {
                let j = choose|j: int|
                    0 <= j < old(self).names@.len() && old(self).names@[j]@ == m;
                let k = choose|k: int|
                    0 <= k < self.names@.len() && self.names@[k]@ == old(self).names@[j]@;
                assert(self@.contains(m));
            }
            assert(self@ =~= old(self)@.remove(name@));
        }
    }

    /// Whether no name at all is selected.
    pub fn is_empty(&self) -> (r: bool)
        ensures
            r == self@.is_empty(),
    {
        if self.names.len() == 0 {
            proof {
                assert(self@ =~= Set::<Seq<char>>::empty());
            }
            true
        } else {
            proof {
                assert(self@.contains(self.names@[0]@));
            }
            false
        }
    }
}

} // verus!
