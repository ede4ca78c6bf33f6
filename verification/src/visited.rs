use vstd::prelude::*;

verus! {

/// The digests under verification in one top-level call. It lives for that
/// call only and breaks cycles among events and credentials that refer to
/// each other.
///
/// The digests are kept in a vector: the set stays small, and vstd states
/// what a hash set holds only for keys whose hashing it has a model of,
/// which it has not for `String`.
#[derive(Debug)]
pub struct VisitedSet {
    items: Vec<String>,
}

impl View for VisitedSet {
    type V = Set<Seq<char>>;

    closed spec fn view(&self) -> Set<Seq<char>> {
        Set::new(|s: Seq<char>| exists|i: int| 0 <= i < self.items@.len() && self.items@[i]@ == s)
    }
}

impl VisitedSet {
    /// The empty set.
    pub fn new() -> (r: VisitedSet)
        ensures
            r@ == Set::<Seq<char>>::empty(),
    {
        let r = VisitedSet { items: Vec::new() };
        assert(r@ =~= Set::<Seq<char>>::empty());
        r
    }

    /// Whether `said` is in the set.
    pub fn contains(&self, said: &str) -> (r: bool)
        ensures
            r == self@.contains(said@),
    {
        let owned = said.to_owned();
        let mut i: usize = 0;
        while i < self.items.len()
            invariant
                i <= self.items.len(),
                owned@ == said@,
                forall|j: int| 0 <= j < i ==> self.items@[j]@ != said@,
            decreases self.items.len() - i,
        {
            if self.items[i] == owned {
                return true;
            }
            i = i + 1;
        }
        false
    }

    /// Puts `said` into the set. Returns whether it was new.
    pub fn insert(&mut self, said: String) -> (r: bool)
        ensures
            final(self)@ == old(self)@.insert(said@),
            r == !old(self)@.contains(said@),
    {
        if self.contains(said.as_str()) {
            assert(self@ =~= self@.insert(said@));
            false
        } else {
            let ghost before = self.items@;
            self.items.push(said);
            assert(self@ =~= old(self)@.insert(said@)) by {
                assert forall|s: Seq<char>| self@.contains(s) <==> old(self)@.insert(
                    said@,
                ).contains(s) by {
                    if self@.contains(s) {
                        let i = choose|i: int| 0 <= i < self.items@.len() && self.items@[i]@ == s;
                        if i < before.len() {
                            assert(before[i]@ == s);
                        }
                    }
                    if old(self)@.contains(s) {
                        let i = choose|i: int| 0 <= i < before.len() && before[i]@ == s;
                        assert(self.items@[i]@ == s);
                    }
                    if s == said@ {
                        assert(self.items@[before.len() as int]@ == s);
                    }
                }
            }
            true
        }
    }
}

} // verus!
