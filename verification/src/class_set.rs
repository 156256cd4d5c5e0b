//! Sets of class names.

use crate::text::str_eq;
use vstd::prelude::*;
use vstd::string::*;

verus! {

/// A finite set of class names. Only membership is observable: the order in
/// which names were inserted means nothing.
#[derive(Clone, Debug)]
pub struct ClassSet {
    names: Vec<String>,
}

impl View for ClassSet {
    type V = Set<Seq<char>>;

    closed spec fn view(&self) -> Set<Seq<char>> {
        self.names.deep_view().to_set()
    }
}

impl ClassSet {
    /// The empty set.
    pub fn new() -> (r: ClassSet)
        ensures
            r@ == Set::<Seq<char>>::empty(),
    {
        let r = ClassSet { names: Vec::new() };
        assert(r.names.deep_view() =~= Seq::<Seq<char>>::empty());
        assert(r@ =~= Set::<Seq<char>>::empty());
        r
    }

    /// Tells whether the set holds `name`.
    pub fn contains(&self, name: &str) -> (r: bool)
        ensures
            r == self@.contains(name@),
    {
        let mut i: usize = 0;
        while i < self.names.len()
            invariant
                i <= self.names.len(),
                forall|k: int| 0 <= k < i ==> self.names.deep_view()[k] != name@,
            decreases self.names.len() - i,
        {
            assert(self.names.deep_view()[i as int] == self.names@[i as int]@);
            if str_eq(self.names[i].as_str(), name) {
                assert(self.names.deep_view().contains(name@));
                return true;
            }
            i += 1;
        }
        assert(!self.names.deep_view().contains(name@));
        false
    }

    /// Adds `name` to the set.
    pub fn insert(&mut self, name: String)
        ensures
            final(self)@ == old(self)@.insert(name@),
    {
        if !self.contains(name.as_str()) {
            let ghost before = self.names.deep_view();
            self.names.push(name);
            assert(self.names.deep_view() =~= before.push(name@));
            assert(before.push(name@).to_set() =~= before.to_set().insert(name@)) by {
                assert forall|x: Seq<char>|
                    before.push(name@).contains(x) <==> (before.contains(x) || x == name@) by {
                    if before.push(name@).contains(x) {
                        let k = choose|k: int|
                            0 <= k < before.push(name@).len() && before.push(name@)[k] == x;
                        if k < before.len() {
                            assert(before[k] == x);
                        }
                    }
                    if before.contains(x) {
                        let k = choose|k: int| 0 <= k < before.len() && before[k] == x;
                        assert(before.push(name@)[k] == x);
                    }
                    if x == name@ {
                        assert(before.push(name@)[before.len() as int] == x);
                    }
                }
            }
        } else {
            assert(self@.insert(name@) =~= self@);
        }
    }

    /// The names of the set, in no meaningful order.
    pub fn names(&self) -> (r: &Vec<String>)
        ensures
            r.deep_view().to_set() == self@,
    {
        &self.names
    }
}

} // verus!
