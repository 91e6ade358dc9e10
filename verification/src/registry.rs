//! Ordered, deduplicated registries of names (keyboard devices and layout
//! long names), modeled as a `Seq<Seq<char>>` in first-appearance order.

use vstd::prelude::*;

use crate::text::str_eq;

verus! {

/// The views of a sequence of owned strings.
pub open spec fn names_of(v: Seq<String>) -> Seq<Seq<char>> {
    v.map_values(|s: String| s@)
}

/// `ks` with every name that occurs in `bad` taken out, survivors in order.
pub open spec fn without_names(ks: Seq<Seq<char>>, bad: Seq<Seq<char>>) -> Seq<Seq<char>> {
    ks.filter(|k: Seq<char>| !bad.contains(k))
}

/// Unfolds one `push` step of `Seq::filter`.
pub proof fn lemma_filter_push<A>(s: Seq<A>, x: A, pred: spec_fn(A) -> bool)
    ensures
        s.push(x).filter(pred) == if pred(x) {
            s.filter(pred).push(x)
        } else {
            s.filter(pred)
        },
{
    reveal(Seq::filter);
    assert(s.push(x).drop_last() =~= s);
    assert(s.push(x).last() == x);
}

/// Every element of a filtered sequence occurs in the unfiltered one.
pub proof fn lemma_filter_membership<A>(s: Seq<A>, pred: spec_fn(A) -> bool, i: int)
    requires
        0 <= i < s.filter(pred).len(),
    ensures
        s.contains(s.filter(pred)[i]),
    decreases s.len(),
{
    reveal(Seq::filter);
    if s.len() > 0 {
        let sub = s.drop_last().filter(pred);
        if pred(s.last()) && i == sub.len() {
            assert(s[s.len() - 1] == s.filter(pred)[i]);
        } else {
            lemma_filter_membership(s.drop_last(), pred, i);
            let j = choose|j: int| 0 <= j < s.drop_last().len() && s.drop_last()[j] == s.filter(
                pred,
            )[i];
            assert(s[j] == s.filter(pred)[i]);
        }
    }
}

/// An ordered registry of distinct names.  The position at which a name is
/// first recorded is stable for the life of the registry, except that
/// names may be dropped again through `remove_names`.
pub struct NameRegistry {
    names: Vec<String>,
}

impl View for NameRegistry {
    type V = Seq<Seq<char>>;

    closed spec fn view(&self) -> Seq<Seq<char>> {
        names_of(self.names@)
    }
}

impl NameRegistry {
    /// Names are pairwise distinct.
    pub open spec fn wf(self) -> bool {
        forall|i: int, j: int|
            0 <= i < j < self@.len() ==> (#[trigger] self@[i]) != (#[trigger] self@[j])
    }

    /// An empty registry.
    pub fn new() -> (r: NameRegistry)
        ensures
            r.wf(),
            r@ == Seq::<Seq<char>>::empty(),
    {
        let r = NameRegistry { names: Vec::new() };
        proof {
            assert(r@ =~= Seq::<Seq<char>>::empty());
        }
        r
    }

    /// How many names are registered.
    pub fn len(&self) -> (n: usize)
        ensures
            n == self@.len(),
    {
        self.names.len()
    }

    /// Whether `name` is registered.
    pub fn contains_name(&self, name: &str) -> (r: bool)
        ensures
            r == self@.contains(name@),
    {
        let n = self.names.len();
        let mut i: usize = 0;
        while i < n
            invariant
                n == self.names@.len(),
                forall|j: int| 0 <= j < i ==> (#[trigger] self.names@[j]@) != name@,
            decreases n - i,
        {
            if str_eq(self.names[i].as_str(), name) {
                assert(self@[i as int] == name@);
                return true;
            }
            i = i + 1;
        }
        proof {
            assert forall|j: int| 0 <= j < self@.len() implies (#[trigger] self@[j]) != name@ by {
                assert(self.names@[j]@ != name@);
            }
        }
        false
    }

    /// The position of `name` in the registry, if it is registered.
    pub fn index_of(&self, name: &str) -> (r: Option<usize>)
        ensures
            match r {
                Some(i) => i < self@.len() && self@[i as int] == name@,
                None => !self@.contains(name@),
            },
    {
        let n = self.names.len();
        let mut i: usize = 0;
        while i < n
            invariant
                n == self.names@.len(),
                forall|j: int| 0 <= j < i ==> (#[trigger] self.names@[j]@) != name@,
            decreases n - i,
        {
            if str_eq(self.names[i].as_str(), name) {
                assert(self@[i as int] == name@);
                return Some(i);
            }
            i = i + 1;
        }
        proof {
            assert forall|j: int| 0 <= j < self@.len() implies (#[trigger] self@[j]) != name@ by {
                assert(self.names@[j]@ != name@);
            }
        }
        None
    }

    /// The name registered at position `i`.
    pub fn get_at(&self, i: usize) -> (r: &String)
        requires
            i < self@.len(),
        ensures
            r@ == self@[i as int],
    {
        &self.names[i]
    }

    /// A copy of the registered names, in registration order.
    pub fn to_names(&self) -> (r: Vec<String>)
        ensures
            names_of(r@) == self@,
    {
        let n = self.names.len();
        let mut r: Vec<String> = Vec::new();
        let mut i: usize = 0;
        proof {
            assert(names_of(r@) =~= self@.subrange(0, 0));
        }
        while i < n
            invariant
                n == self.names@.len(),
                0 <= i <= n,
                names_of(r@) == self@.subrange(0, i as int),
            decreases n - i,
        {
            let ghost ghost_r = r@;
            r.push(self.names[i].clone());
            proof {
                assert(names_of(r@) =~= names_of(ghost_r).push(r@.last()@));
                assert(self@.subrange(0, i + 1) =~= self@.subrange(0, i as int).push(
                    self@[i as int],
                ));
                assert(r@.last()@ == self@[i as int]);
            }
            i = i + 1;
        }
        proof {
            assert(self@.subrange(0, n as int) =~= self@);
        }
        r
    }

    /// Registers `name` unless it is already present.
    pub fn push_if_absent(&mut self, name: String)
        requires
            old(self).wf(),
        ensures
            final(self).wf(),
            final(self)@ == if old(self)@.contains(name@) {
                old(self)@
            } else {
                old(self)@.push(name@)
            },
    {
        if !self.contains_name(name.as_str()) {
            let ghost oldv = self@;
            self.names.push(name);
            proof {
                assert(self@ =~= oldv.push(name@));
                assert forall|i: int, j: int| 0 <= i < j < self@.len() implies (#[trigger] self@[i])
                    != (#[trigger] self@[j]) by {
                    if j == self@.len() - 1 && self@[i] == name@ {
                        assert(oldv[i] == name@);
                        assert(oldv.contains(name@));
                    }
                }
            }
        }
    }

    /// Removes every registered name that occurs in `bad`, keeping the
    /// survivors in their relative order.
    pub fn remove_names(&mut self, bad: &Vec<String>)
        requires
            old(self).wf(),
        ensures
            final(self).wf(),
            final(self)@ == without_names(old(self)@, names_of(bad@)),
    {
        let n = self.names.len();
        let mut kept: Vec<String> = Vec::new();
        let mut i: usize = 0;
        proof {
            assert(old(self)@.subrange(0, 0) =~= Seq::<Seq<char>>::empty());
            assert(without_names(old(self)@.subrange(0, 0), names_of(bad@)) =~= Seq::<
                Seq<char>,
            >::empty());
            assert(names_of(kept@) =~= Seq::<Seq<char>>::empty());
        }
        while i < n
            invariant
                n == self.names@.len(),
                self.names@ == old(self).names@,
                old(self).wf(),
                self@ == old(self)@,
                0 <= i <= n,
                names_of(kept@) == without_names(old(self)@.subrange(0, i as int), names_of(bad@)),
                forall|a: int, b: int|
                    0 <= a < b < kept@.len() ==> (#[trigger] kept@[a]@) != (#[trigger] kept@[b]@),
            decreases n - i,
        {
            let ghost prefix = old(self)@.subrange(0, i as int);
            let name: &String = &self.names[i];
            assert(self@[i as int] == name@);
            let keep = !vec_contains_str(bad, name.as_str());
            proof {
                assert(old(self)@.subrange(0, i + 1) =~= prefix.push(name@));
                lemma_filter_push(prefix, name@, |k: Seq<char>| !names_of(bad@).contains(k));
            }
            if keep {
                let ghost ghost_kept = kept@;
                proof {
                    assert forall|a: int| 0 <= a < ghost_kept.len() implies (
                    #[trigger] ghost_kept[a]@) != name@ by {
                        assert(names_of(ghost_kept)[a] == ghost_kept[a]@);
                        lemma_filter_membership(
                            prefix,
                            |k: Seq<char>| !names_of(bad@).contains(k),
                            a,
                        );
                        let w = choose|w: int|
                            0 <= w < prefix.len() && prefix[w] == names_of(ghost_kept)[a];
                        assert(old(self)@[w] == ghost_kept[a]@);
                        assert(old(self)@[w] != old(self)@[i as int]);
                    }
                }
                kept.push(name.clone());
                proof {
                    assert(names_of(kept@) =~= names_of(ghost_kept).push(kept@.last()@));
                }
            }
            i = i + 1;
        }
        proof {
            assert(old(self)@.subrange(0, n as int) =~= old(self)@);
        }
        self.names = kept;
        proof {
            assert forall|a: int, b: int| 0 <= a < b < self@.len() implies (#[trigger] self@[a])
                != (#[trigger] self@[b]) by {
                assert(self@[a] == self.names@[a]@);
                assert(self@[b] == self.names@[b]@);
            }
        }
    }
}

/// Whether `name` occurs in `v`.
pub fn vec_contains_str(v: &Vec<String>, name: &str) -> (r: bool)
    ensures
        r == names_of(v@).contains(name@),
{
    let n = v.len();
    let mut i: usize = 0;
    while i < n
        invariant
            n == v@.len(),
            forall|j: int| 0 <= j < i ==> (#[trigger] v@[j]@) != name@,
        decreases n - i,
    {
        if str_eq(v[i].as_str(), name) {
            assert(names_of(v@)[i as int] == name@);
            return true;
        }
        i = i + 1;
    }
    proof {
        assert forall|j: int| 0 <= j < names_of(v@).len() implies (#[trigger] names_of(v@)[j])
            != name@ by {
            assert(v@[j]@ != name@);
        }
    }
    false
}

} // verus!
