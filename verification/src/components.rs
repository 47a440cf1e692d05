//! The registry of components, keyed by slug.

use crate::status::ComponentStatus;
use crate::text::same_text;
use crate::types::Component;
use crate::types::ComponentView;
use vstd::prelude::*;

verus! {

/// A registered component with the slug it is found by.
#[derive(Debug)]
struct Entry {
    slug: String,
    component: Component,
}

/// The components of one run, each under its own slug, in the order in which
/// they were registered.
#[derive(Debug)]
pub struct ComponentMap {
    entries: Vec<Entry>,
}

impl View for ComponentMap {
    type V = Map<Seq<char>, ComponentView>;

    /// The component registered under each slug.
    closed spec fn view(&self) -> Map<Seq<char>, ComponentView> {
        Map::new(
            |slug: Seq<char>| self.slugs().contains(slug),
            |slug: Seq<char>| self.entries[self.slugs().index_of(slug)].component@,
        )
    }
}

impl ComponentMap {
    /// No slug is registered twice.
    #[verifier::type_invariant]
    spec fn distinct(&self) -> bool {
        self.slugs().no_duplicates()
    }

    /// The slugs, in the order in which they were registered.
    pub closed spec fn slugs(&self) -> Seq<Seq<char>> {
        slugs_of(self.entries@)
    }

    /// The slugs are the keys of the view, each once.
    pub proof fn lemma_slugs_are_the_keys(&self)
        ensures
            self@.dom() == self.slugs().to_set(),
            self@.dom().finite(),
    {
        assert(self@.dom() =~= self.slugs().to_set());
        vstd::seq_lib::seq_to_set_is_finite(self.slugs());
    }

    /// An empty registry.
    pub fn new() -> (r: ComponentMap)
        ensures
            r@ == Map::<Seq<char>, ComponentView>::empty(),
            r.slugs() == Seq::<Seq<char>>::empty(),
    {
        let r = ComponentMap { entries: Vec::new() };
        assert(r@ =~= Map::<Seq<char>, ComponentView>::empty());
        assert(r.slugs() =~= Seq::<Seq<char>>::empty());
        r
    }

    /// How many components are registered. Each slug is counted once.
    pub fn len(&self) -> (n: usize)
        ensures
            n == self.slugs().len(),
            n == self@.dom().len(),
            self.slugs().no_duplicates(),
            self@.dom() == self.slugs().to_set(),
    {
        proof {
            use_type_invariant(self);
            self.lemma_slugs_are_the_keys();
            self.slugs().unique_seq_to_set();
        }
        self.entries.len()
    }

    /// The slug that was registered in place `i`.
    pub fn slug_at(&self, i: usize) -> (r: &String)
        requires
            i < self.slugs().len(),
        ensures
            r@ == self.slugs()[i as int],
    {
        &self.entries[i].slug
    }

    /// The component that was registered in place `i`.
    pub fn component_at(&self, i: usize) -> (r: &Component)
        requires
            i < self.slugs().len(),
        ensures
            self@.contains_key(self.slugs()[i as int]),
            r@ == self@[self.slugs()[i as int]],
    {
        proof {
            use_type_invariant(self);
            assert(self.slugs().contains(self.slugs()[i as int]));
        }
        &self.entries[i].component
    }

    /// The place of `slug` among the registered slugs.
    fn find(&self, slug: &str) -> (r: Option<usize>)
        ensures
            match r {
                Some(i) => i < self.slugs().len() && self.slugs()[i as int] == slug@,
                None => !self.slugs().contains(slug@),
            },
    {
        let mut i: usize = 0;
        while i < self.entries.len()
            invariant
                i <= self.entries@.len(),
                forall|j: int| 0 <= j < i ==> self.slugs()[j] != slug@,
            decreases self.entries@.len() - i,
        {
            if same_text(self.entries[i].slug.as_str(), slug) {
                return Some(i);
            }
            i = i + 1;
        }
        None
    }

    /// Whether a component is registered under `slug`.
    pub fn contains_key(&self, slug: &str) -> (b: bool)
        ensures
            b == self@.contains_key(slug@),
    {
        self.find(slug).is_some()
    }

    /// The component registered under `slug`.
    pub fn get(&self, slug: &str) -> (r: Option<&Component>)
        ensures
            r is Some <==> self@.contains_key(slug@),
            r matches Some(component) ==> component@ == self@[slug@],
    {
        match self.find(slug) {
            Some(i) => {
                proof {
                    use_type_invariant(self);
                }
                Some(&self.entries[i].component)
            },
            None => None,
        }
    }

    /// Registers `component` under `slug`. A component that was registered
    /// under the same slug before is replaced and keeps its place.
    pub fn insert(&mut self, slug: String, component: Component)
        ensures
            final(self)@ == old(self)@.insert(slug@, component@),
            final(self).slugs() == if old(self)@.contains_key(slug@) {
                old(self).slugs()
            } else {
                old(self).slugs().push(slug@)
            },
    {
        proof {
            use_type_invariant(&*self);
        }
        let ghost before = *self;
        match self.find(slug.as_str()) {
            Some(i) => {
                let mut entries: Vec<Entry> = Vec::new();
                core::mem::swap(&mut self.entries, &mut entries);
                entries.set(i, Entry { slug, component });
                proof {
                    assert(slugs_of(entries@) =~= before.slugs());
                }
                self.entries = entries;
                proof {
                    assert(self.slugs() =~= before.slugs());
                    assert(self@ =~= before@.insert(slug@, component@));
                }
            },
            None => {
                let mut entries: Vec<Entry> = Vec::new();
                core::mem::swap(&mut self.entries, &mut entries);
                entries.push(Entry { slug, component });
                proof {
                    assert(slugs_of(entries@) =~= before.slugs().push(slug@));
                    assert forall|a: int, b: int|
                        0 <= a < slugs_of(entries@).len() && 0 <= b < slugs_of(entries@).len() && a
                            != b implies slugs_of(entries@)[a] != slugs_of(entries@)[b] by {
                        if a < before.slugs().len() {
                            assert(before.slugs().contains(before.slugs()[a]));
                        }
                        if b < before.slugs().len() {
                            assert(before.slugs().contains(before.slugs()[b]));
                        }
                    }
                }
                self.entries = entries;
                proof {
                    assert(self.slugs() =~= before.slugs().push(slug@));
                    let n = before.slugs().len() as int;
                    lemma_index_of_unique(self.slugs(), n);
                    assert forall|k: Seq<char>|
                        before.slugs().contains(k) implies self.slugs().index_of(k)
                        == before.slugs().index_of(k) by {
                        let a = before.slugs().index_of(k);
                        lemma_index_of_unique(self.slugs(), a);
                    }
                    assert forall|k: Seq<char>| self.slugs().contains(k) implies k == slug@
                        || before.slugs().contains(k) by {
                        let a = self.slugs().index_of(k);
                        if a < n {
                            assert(before.slugs()[a] == k);
                        }
                    }
                    assert(self.slugs().contains(slug@));
                    assert forall|k: Seq<char>|
                        before.slugs().contains(k) implies self.slugs().contains(k) by {
                        let a = before.slugs().index_of(k);
                        assert(self.slugs()[a] == k);
                    }
                    assert(self@ =~= before@.insert(slug@, component@));
                }
            },
        }
    }

    /// Raises the status of the component under `slug` to `status` where that
    /// is more severe. A slug that is not registered changes nothing.
    pub fn bump_status(&mut self, slug: &str, status: ComponentStatus)
        ensures
            final(self).slugs() == old(self).slugs(),
            final(self)@ == bumped(old(self)@, slug@, status),
    {
        proof {
            use_type_invariant(&*self);
        }
        let ghost before = *self;
        match self.find(slug) {
            Some(i) => {
                let mut entries: Vec<Entry> = Vec::new();
                core::mem::swap(&mut self.entries, &mut entries);
                let mut entry: Entry = entries.remove(i);
                entry.component.bump_status(status);
                entries.insert(i, entry);
                proof {
                    assert(slugs_of(entries@) =~= before.slugs());
                }
                self.entries = entries;
                proof {
                    assert(self.slugs() =~= before.slugs());
                    assert(self@ =~= bumped(before@, slug@, status));
                }
            },
            None => {},
        }
    }
}

/// In a sequence without duplicates every item is found in its own place.
proof fn lemma_index_of_unique(s: Seq<Seq<char>>, i: int)
    requires
        s.no_duplicates(),
        0 <= i < s.len(),
    ensures
        s.contains(s[i]),
        s.index_of(s[i]) == i,
{
    assert(s.contains(s[i]));
}

/// The slugs of a sequence of entries.
spec fn slugs_of(entries: Seq<Entry>) -> Seq<Seq<char>> {
    entries.map_values(|e: Entry| e.slug@)
}

/// The registry after the component under `slug` has met `status`: its status
/// is the more severe of the two, and all else is as before.
pub open spec fn bumped(
    components: Map<Seq<char>, ComponentView>,
    slug: Seq<char>,
    status: ComponentStatus,
) -> Map<Seq<char>, ComponentView> {
    if components.contains_key(slug) {
        components.insert(
            slug,
            ComponentView {
                name: components[slug].name,
                status: components[slug].status.worse_of(status),
            },
        )
    } else {
        components
    }
}

} // verus!
