//! A finite set of variable names.

use vstd::prelude::*;

verus! {

/// A finite set of names. Its view is the set of the names it holds, each
/// taken as a `Seq<char>`.
///
/// The names are kept in a list in which none occurs twice.
#[derive(Debug)]
pub struct NameSet {
    names: Vec<String>,
}

impl View for NameSet {
    type V = Set<Seq<char>>;

    closed spec fn view(&self) -> Set<Seq<char>> {
        self.names.deep_view().to_set()
    }
}

impl NameSet {
    #[verifier::type_invariant]
    spec fn distinct(self) -> bool {
        self.names.deep_view().no_duplicates()
    }

    /// The empty set.
    pub fn new() -> (set: NameSet)
        ensures
            set@ == Set::<Seq<char>>::empty(),
    {
        let set = NameSet { names: Vec::new() };
        assert(set.names.deep_view() =~= Seq::empty());
        assert(set@ =~= Set::empty());
        set
    }

    /// Moves the list out and leaves the set empty.
    fn take_names(&mut self) -> (names: Vec<String>)
        ensures
            names == old(self).names,
            final(self).names@.len() == 0,
    {
        let mut names: Vec<String> = Vec::new();
        assert(names.deep_view() =~= Seq::empty());
        core::mem::swap(&mut self.names, &mut names);
        names
    }

    /// The position of `name` in the list, if it is there.
    fn position(&self, name: &String) -> (at: Option<usize>)
        ensures
            match at {
                Some(i) => i < self.names.len() && self.names[i as int]@ == name@,
                None => !self@.contains(name@),
            },
    {
        let mut i: usize = 0;
        while i < self.names.len()
            invariant
                i <= self.names.len(),
                forall|k: int| 0 <= k < i ==> self.names[k]@ != name@,
            decreases self.names.len() - i,
        {
            if self.names[i] == *name {
                return Some(i);
            }
            i += 1;
        }
        assert(!self.names.deep_view().contains(name@));
        None
    }

    /// Whether `name` is in the set.
    pub fn contains(&self, name: &String) -> (found: bool)
        ensures
            found == self@.contains(name@),
    {
        match self.position(name) {
            Some(i) => {
                assert(self.names.deep_view()[i as int] == name@);
                true
            },
            None => false,
        }
    }

    /// Adds `name` to the set.
    pub fn insert(&mut self, name: String)
        ensures
            final(self)@ == old(self)@.insert(name@),
    {
        match self.position(&name) {
            Some(i) => {
                proof {
                    assert(self.names.deep_view()[i as int] == name@);
                    assert(self@ =~= self@.insert(name@));
                }
            },
            None => {
                proof {
                    use_type_invariant(&*self);
                }
                let ghost before = self.names.deep_view();
                let mut names = self.take_names();
                names.push(name);
                proof {
                    let after = names.deep_view();
                    assert(after =~= before.push(name@));
                    assert(!before.contains(name@));
                    assert forall|n: Seq<char>|
                        after.contains(n) <==> (before.contains(n) || n == name@) by {
                        if before.contains(n) {
                            let k = choose|k: int| 0 <= k < before.len() && before[k] == n;
                            assert(after[k] == n);
                        }
                        if n == name@ {
                            assert(after[before.len() as int] == n);
                        }
                    }
                    assert(after.to_set() =~= before.to_set().insert(name@));
                    assert(after.no_duplicates()) by {
                        assert forall|a: int, b: int|
                            0 <= a < after.len() && 0 <= b < after.len() && a != b implies after[a]
                            != after[b] by {
                            if a < before.len() && b < before.len() {
                                assert(before[a] != before[b]);
                            } else if a < before.len() {
                                assert(before.contains(before[a]));
                            } else {
                                assert(before.contains(before[b]));
                            }
                        }
                    }
                }
                self.names = names;
            },
        }
    }

    /// Takes `name` out of the set.
    pub fn remove(&mut self, name: &String)
        ensures
            final(self)@ == old(self)@.remove(name@),
    {
        match self.position(name) {
            Some(i) => {
                proof {
                    use_type_invariant(&*self);
                }
                let ghost before = self.names.deep_view();
                let mut names = self.take_names();
                names.swap_remove(i);
                proof {
                    let after = names.deep_view();
                    let last = before.len() - 1;
                    assert(before[i as int] == name@);
                    assert(after =~= before.update(i as int, before.last()).drop_last());
                    assert forall|k: int| 0 <= k < after.len() implies after[k] == before[if k
                        == i {
                        last
                    } else {
                        k
                    }] by {}
                    assert forall|n: Seq<char>|
                        after.contains(n) <==> (before.contains(n) && n != name@) by {
                        if after.contains(n) {
                            let k = choose|k: int| 0 <= k < after.len() && after[k] == n;
                            let origin = if k == i {
                                last
                            } else {
                                k
                            };
                            assert(before[origin] == n);
                            assert(origin != i);
                            assert(before[origin] != before[i as int]);
                        }
                        if before.contains(n) && n != name@ {
                            let k = choose|k: int| 0 <= k < before.len() && before[k] == n;
                            if k == last {
                                assert(after[i as int] == n);
                            } else {
                                assert(after[k] == n);
                            }
                        }
                    }
                    assert(after.to_set() =~= before.to_set().remove(name@));
                    assert(after.no_duplicates()) by {
                        assert forall|a: int, b: int|
                            0 <= a < after.len() && 0 <= b < after.len() && a != b implies after[a]
                            != after[b] by {
                            let oa = if a == i {
                                last
                            } else {
                                a
                            };
                            let ob = if b == i {
                                last
                            } else {
                                b
                            };
                            assert(before[oa] != before[ob]);
                        }
                    }
                }
                self.names = names;
            },
            None => {
                assert(self@ =~= self@.remove(name@));
            },
        }
    }

    /// Takes every name of `names` out of the set.
    pub fn remove_all(&mut self, names: &Vec<String>)
        ensures
            final(self)@ == old(self)@.difference(names.deep_view().to_set()),
    {
        let ghost all = names.deep_view();
        let mut a: usize = 0;
        assert(self@ =~= self@.difference(all.take(0).to_set()));
        while a < names.len()
            invariant
                a <= names.len(),
                all == names.deep_view(),
                self@ == old(self)@.difference(all.take(a as int).to_set()),
            decreases names.len() - a,
        {
            self.remove(&names[a]);
            proof {
                let shorter = all.take(a as int);
                let longer = all.take(a + 1);
                assert forall|n: Seq<char>|
                    longer.contains(n) <==> (shorter.contains(n) || n == all[a as int]) by {
                    if longer.contains(n) {
                        let k = choose|k: int| 0 <= k < longer.len() && longer[k] == n;
                        if k < a {
                            assert(shorter[k] == n);
                        }
                    }
                    if shorter.contains(n) {
                        let k = choose|k: int| 0 <= k < shorter.len() && shorter[k] == n;
                        assert(longer[k] == n);
                    }
                    if n == all[a as int] {
                        assert(longer[a as int] == n);
                    }
                }
                assert(self@ =~= old(self)@.difference(longer.to_set()));
            }
            a += 1;
        }
        assert(all.take(all.len() as int) =~= all);
    }
}

} // verus!
