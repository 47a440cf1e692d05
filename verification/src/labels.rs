//! Sets of label texts.

use crate::text::same_text;
use vstd::prelude::*;

verus! {

/// A set of label texts. It keeps each text once, in the order in which the
/// texts were first put in.
#[derive(Debug)]
pub struct LabelSet {
    items: Vec<String>,
}

/// The texts of a sequence of strings.
pub open spec fn texts_of(items: Seq<String>) -> Seq<Seq<char>> {
    items.map_values(|s: String| s@)
}

impl View for LabelSet {
    type V = Set<Seq<char>>;

    closed spec fn view(&self) -> Set<Seq<char>> {
        self.texts().to_set()
    }
}

impl LabelSet {
    /// No text is held twice.
    #[verifier::type_invariant]
    spec fn distinct(&self) -> bool {
        self.texts().no_duplicates()
    }

    /// The texts of the set, in the order in which they were put in.
    pub closed spec fn texts(&self) -> Seq<Seq<char>> {
        texts_of(self.items@)
    }

    /// The empty set.
    pub fn new() -> (r: LabelSet)
        ensures
            r@ == Set::<Seq<char>>::empty(),
            r.texts() == Seq::<Seq<char>>::empty(),
    {
        let r = LabelSet { items: Vec::new() };
        assert(r.texts() =~= Seq::<Seq<char>>::empty());
        assert(r@ =~= Set::<Seq<char>>::empty());
        r
    }

    /// How many texts the set holds. Each text of the set is counted once.
    pub fn len(&self) -> (n: usize)
        ensures
            n == self.texts().len(),
            n == self@.len(),
            self@.finite(),
            self.texts().no_duplicates(),
            self.texts().to_set() == self@,
    {
        proof {
            use_type_invariant(self);
            self.texts().unique_seq_to_set();
            vstd::seq_lib::seq_to_set_is_finite(self.texts());
        }
        self.items.len()
    }

    /// The text in place `i`.
    pub fn get(&self, i: usize) -> (r: &String)
        requires
            i < self.texts().len(),
        ensures
            r@ == self.texts()[i as int],
            self@.contains(r@),
    {
        assert(self.texts().contains(self.texts()[i as int]));
        &self.items[i]
    }

    /// Whether the set holds `text`.
    pub fn contains(&self, text: &str) -> (b: bool)
        ensures
            b == self@.contains(text@),
    {
        let mut i: usize = 0;
        while i < self.items.len()
            invariant
                i <= self.items@.len(),
                forall|j: int| 0 <= j < i ==> self.texts()[j] != text@,
            decreases self.items@.len() - i,
        {
            if same_text(self.items[i].as_str(), text) {
                assert(self.texts()[i as int] == text@);
                return true;
            }
            i = i + 1;
        }
        false
    }

    /// Puts `text` into the set. Returns whether the set did not hold it yet.
    pub fn insert(&mut self, text: String) -> (fresh: bool)
        ensures
            final(self)@ == old(self)@.insert(text@),
            fresh == !old(self)@.contains(text@),
            final(self).texts() == if fresh {
                old(self).texts().push(text@)
            } else {
                old(self).texts()
            },
    {
        proof {
            use_type_invariant(&*self);
        }
        let ghost before = *self;
        if self.contains(text.as_str()) {
            assert(self@ =~= before@.insert(text@));
            false
        } else {
            let mut items: Vec<String> = Vec::new();
            core::mem::swap(&mut self.items, &mut items);
            items.push(text);
            proof {
                assert(texts_of(items@) =~= before.texts().push(text@));
                assert forall|a: int, b: int|
                    0 <= a < texts_of(items@).len() && 0 <= b < texts_of(items@).len() && a
                        != b implies texts_of(items@)[a] != texts_of(items@)[b] by {
                    if a < before.texts().len() {
                        assert(before.texts().contains(before.texts()[a]));
                    }
                    if b < before.texts().len() {
                        assert(before.texts().contains(before.texts()[b]));
                    }
                }
            }
            self.items = items;
            proof {
                assert(self.texts() == before.texts().push(text@));
                assert forall|t: Seq<char>| self@.contains(t) <==> before@.insert(text@).contains(
                    t,
                ) by {
                    if self.texts().contains(t) {
                        let a = self.texts().index_of(t);
                        if a < before.texts().len() {
                            assert(before.texts()[a] == t);
                        }
                    }
                    if before.texts().contains(t) {
                        let a = before.texts().index_of(t);
                        assert(self.texts()[a] == t);
                    }
                    assert(self.texts()[before.texts().len() as int] == text@);
                }
                assert(self@ =~= before@.insert(text@));
            }
            true
        }
    }

    /// The set of the given texts, each held once.
    pub fn from_vec(items: Vec<String>) -> (r: LabelSet)
        ensures
            r@ == texts_of(items@).to_set(),
            r.texts().no_duplicates(),
            r.texts().to_set() == r@,
    {
        let mut r: LabelSet = LabelSet::new();
        let mut i: usize = 0;
        while i < items.len()
            invariant
                i <= items@.len(),
                r@ == texts_of(items@).take(i as int).to_set(),
            decreases items@.len() - i,
        {
            let ghost seen = texts_of(items@).take(i as int);
            let text: String = items[i].clone();
            r.insert(text);
            proof {
                let next = texts_of(items@).take(i + 1);
                assert(next =~= seen.push(items@[i as int]@));
                assert(next.to_set() =~= seen.to_set().insert(items@[i as int]@)) by {
                    assert forall|t: Seq<char>| next.contains(t) <==> seen.contains(t) || t
                        == items@[i as int]@ by {
                        if next.contains(t) {
                            let a = next.index_of(t);
                            if a < i {
                                assert(seen[a] == t);
                            }
                        }
                        if seen.contains(t) {
                            let a = seen.index_of(t);
                            assert(next[a] == t);
                        }
                        assert(next[i as int] == items@[i as int]@);
                    }
                }
            }
            i = i + 1;
        }
        assert(texts_of(items@).take(i as int) =~= texts_of(items@));
        proof {
            use_type_invariant(&r);
        }
        r
    }

    /// The texts of `self` that `other` does not hold, each once and in the
    /// order in which `self` has them.
    pub fn difference(&self, other: &LabelSet) -> (r: LabelSet)
        ensures
            r@ == self@.difference(other@),
            r.texts() == self.texts().filter(|t: Seq<char>| !other@.contains(t)),
            r.texts().no_duplicates(),
            r.texts().to_set() == r@,
    {
        let ghost keep = |t: Seq<char>| !other@.contains(t);
        let mut r: LabelSet = LabelSet::new();
        let mut i: usize = 0;
        proof {
            assert(self.texts().take(0).filter(keep) =~= Seq::<Seq<char>>::empty()) by {
                reveal(Seq::filter);
            }
        }
        while i < self.items.len()
            invariant
                i <= self.items@.len(),
                keep == |t: Seq<char>| !other@.contains(t),
                r.texts() == self.texts().take(i as int).filter(keep),
                r@ == self.texts().take(i as int).to_set().difference(other@),
            decreases self.items@.len() - i,
        {
            let ghost seen = self.texts().take(i as int);
            let ghost t = self.texts()[i as int];
            proof {
                use_type_invariant(self);
                let next = self.texts().take(i + 1);
                assert(next =~= seen.push(t));
                seen.lemma_filter_push(t, keep);
                assert forall|u: Seq<char>| next.contains(u) <==> seen.contains(u) || u == t by {
                    if next.contains(u) {
                        let a = next.index_of(u);
                        if a < i {
                            assert(seen[a] == u);
                        }
                    }
                    if seen.contains(u) {
                        let a = seen.index_of(u);
                        assert(next[a] == u);
                    }
                    assert(next[i as int] == t);
                }
                assert(next.to_set() =~= seen.to_set().insert(t));
            }
            if !other.contains(self.items[i].as_str()) {
                let text: String = self.items[i].clone();
                proof {
                    assert(!r@.contains(t)) by {
                        if seen.contains(t) {
                            let a = seen.index_of(t);
                            assert(self.texts()[a] == t);
                        }
                    }
                }
                r.insert(text);
                assert(r@ =~= self.texts().take(i + 1).to_set().difference(other@));
            } else {
                assert(r@ =~= self.texts().take(i + 1).to_set().difference(other@));
            }
            i = i + 1;
        }
        assert(self.texts().take(i as int) =~= self.texts());
        proof {
            use_type_invariant(&r);
        }
        r
    }
}

} // verus!
