//! A finite map from names to values, with no name occurring twice.

use vstd::prelude::*;
use crate::css::views;
use crate::strings::str_eq;

verus! {

/// A map keyed by name. Its view is the mathematical map from each name
/// to the view of the value stored under it.
#[derive(Debug)]
pub struct NameMap<V> {
    names: Vec<String>,
    values: Vec<V>,
}

/// No two places of `names` hold the same name.
pub open spec fn distinct(names: Seq<Seq<char>>) -> bool {
    forall|i: int, j: int| 0 <= i < j < names.len() ==> names[i] != names[j]
}

/// A place of `names` that holds `name`.
pub open spec fn place_of(names: Seq<Seq<char>>, name: Seq<char>) -> int {
    choose|i: int| 0 <= i < names.len() && names[i] == name
}

/// Among distinct names, the place of a name is the one place that holds
/// it.
pub proof fn lemma_place_of(names: Seq<Seq<char>>, name: Seq<char>, i: int)
    requires
        distinct(names),
        0 <= i < names.len(),
        names[i] == name,
    ensures
        place_of(names, name) == i,
{
    let p = place_of(names, name);
    assert(0 <= p < names.len() && names[p] == name);
    if p < i {
        assert(names[p] != names[i]);
    } else if i < p {
        assert(names[i] != names[p]);
    }
}

impl<V> NameMap<V> {
    /// The names are distinct, and each has one stored value. Every map
    /// that executable code holds is well formed.
    #[verifier::type_invariant]
    pub closed spec fn wf(&self) -> bool {
        &&& self.names.len() == self.values.len()
        &&& distinct(views(self.names@))
    }

    /// The names of the map, in the order in which `name_at` hands them
    /// out.
    pub closed spec fn names(&self) -> Seq<Seq<char>> {
        views(self.names@)
    }

    /// The stored values, each at the place of its name in `names`.
    pub closed spec fn stored(&self) -> Seq<V> {
        self.values@
    }

    /// What being well formed means for the names and the stored values.
    pub proof fn lemma_wf(&self)
        requires
            self.wf(),
        ensures
            distinct(self.names()),
            self.names().len() == self.stored().len(),
    {
    }

    /// A map without entries.
    pub fn new() -> (m: Self)
        ensures
            m.wf(),
            m.names() == Seq::<Seq<char>>::empty(),
            m.stored() == Seq::<V>::empty(),
    {
        NameMap { names: Vec::new(), values: Vec::new() }
    }

    /// The name of the entry at place `i`.
    pub fn name_at(&self, i: usize) -> (name: &String)
        requires
            i < self.names().len(),
        ensures
            name@ == self.names()[i as int],
    {
        &self.names[i]
    }

    /// The value of the entry at place `i`.
    pub fn value_at(&self, i: usize) -> (value: &V)
        requires
            i < self.names().len(),
        ensures
            *value == self.stored()[i as int],
    {
        proof {
            use_type_invariant(self);
        }
        &self.values[i]
    }

    /// The place of `name` among the names, if it is one of them.
    pub fn find(&self, name: &str) -> (r: Option<usize>)
        ensures
            match r {
                Some(i) => i < self.names().len() && self.names()[i as int] == name@,
                None => !self.names().contains(name@),
            },
    {
        let mut i: usize = 0;
        while i < self.names.len()
            invariant
                i <= self.names.len(),
                forall|k: int| 0 <= k < i ==> self.names()[k] != name@,
            decreases self.names.len() - i,
        {
            if str_eq(self.names[i].as_str(), name) {
                return Some(i);
            }
            i += 1;
        }
        None
    }

}

impl<V: View> NameMap<V> {
    /// The number of entries.
    pub fn len(&self) -> (n: usize)
        ensures
            self.wf(),
            n == self.names().len(),
            self@.dom().finite(),
            n == self@.dom().len(),
    {
        proof {
            use_type_invariant(self);
            let names = self.names();
            assert(names.no_duplicates());
            names.unique_seq_to_set();
            assert(self@.dom() =~= names.to_set());
        }
        self.names.len()
    }

    /// Stores `value` under `name`, in place of the value that was stored
    /// under it, if there was one; that value is returned. The places of
    /// the other entries do not change, and a new name takes the last
    /// place.
    pub fn insert(&mut self, name: String, value: V) -> (previous: Option<V>)
        ensures
            final(self).wf(),
            final(self)@ == old(self)@.insert(name@, value@),
            match previous {
                Some(v) => {
                    &&& old(self).names().contains(name@)
                    &&& v == old(self).stored()[place_of(old(self).names(), name@)]
                    &&& final(self).names() == old(self).names()
                    &&& final(self).stored() == old(self).stored().update(
                        place_of(old(self).names(), name@),
                        value,
                    )
                },
                None => {
                    &&& !old(self).names().contains(name@)
                    &&& final(self).names() == old(self).names().push(name@)
                    &&& final(self).stored() == old(self).stored().push(value)
                },
            },
    {
        proof {
            use_type_invariant(&*self);
        }
        let found = self.find(name.as_str());
        let mut taken = NameMap::new();
        core::mem::swap(self, &mut taken);
        let NameMap { mut names, mut values } = taken;
        let previous = match found {
            Some(i) => {
                values.push(value);
                let v = values.swap_remove(i);
                assert(values@ =~= old(self).values@.update(i as int, value));
                proof {
                    lemma_place_of(old(self).names(), name@, i as int);
                }
                Some(v)
            },
            None => {
                names.push(name);
                values.push(value);
                assert(views(names@) =~= views(old(self).names@).push(name@));
                None
            },
        };
        *self = NameMap { names, values };
        proof {
            lemma_insert_view(old(self).names(), old(self).stored(), self.names(), self.stored(), name@, value);
        }
        previous
    }

    /// The value stored under `name`, if there is one.
    pub fn get(&self, name: &str) -> (r: Option<&V>)
        ensures
            match r {
                Some(v) => self@.contains_key(name@) && v@ == self@[name@],
                None => !self@.contains_key(name@),
            },
    {
        proof {
            use_type_invariant(self);
        }
        match self.find(name) {
            Some(i) => {
                proof {
                    lemma_place_of(self.names(), name@, i as int);
                }
                Some(&self.values[i])
            },
            None => None,
        }
    }

    /// Whether a value is stored under `name`.
    pub fn contains_key(&self, name: &str) -> (r: bool)
        ensures
            r == self@.contains_key(name@),
    {
        self.find(name).is_some()
    }
}

/// Names and values that differ from distinct `names` and `stored` by one
/// `insert` make the map that differs by that insertion.
proof fn lemma_insert_view<V: View>(
    names: Seq<Seq<char>>,
    stored: Seq<V>,
    names2: Seq<Seq<char>>,
    stored2: Seq<V>,
    name: Seq<char>,
    value: V,
)
    requires
        distinct(names),
        distinct(names2),
        names.len() == stored.len(),
        names.contains(name) ==> names2 == names && stored2 == stored.update(
            place_of(names, name),
            value,
        ),
        !names.contains(name) ==> names2 == names.push(name) && stored2 == stored.push(value),
    ensures
        map_of(names2, stored2) == map_of(names, stored).insert(name, value@),
{
    let m = map_of(names, stored).insert(name, value@);
    let m2 = map_of(names2, stored2);
    assert forall|k: Seq<char>| m2.contains_key(k) <==> m.contains_key(k) by {
        if names2.contains(k) {
            let j = choose|j: int| 0 <= j < names2.len() && names2[j] == k;
            if j < names.len() {
                assert(names[j] == k);
            }
        }
        if names.contains(k) {
            let j = choose|j: int| 0 <= j < names.len() && names[j] == k;
            assert(names2[j] == k);
        }
        if k == name && !names.contains(name) {
            assert(names2[names.len() as int] == k);
        }
    }
    assert forall|k: Seq<char>| m2.contains_key(k) implies m2[k] == m[k] by {
        let j = place_of(names2, k);
        assert(0 <= j < names2.len() && names2[j] == k);
        if names.contains(name) {
            lemma_place_of(names, k, j);
        } else if j < names.len() {
            assert(names[j] == k);
            lemma_place_of(names, k, j);
        }
    }
    assert(m2 =~= m);
}

/// The map from each of `names` to the view of the value stored at its
/// place.
pub open spec fn map_of<V: View>(names: Seq<Seq<char>>, stored: Seq<V>) -> Map<Seq<char>, V::V> {
    Map::new(
        |name: Seq<char>| names.contains(name),
        |name: Seq<char>| stored[place_of(names, name)]@,
    )
}

impl<V: View> View for NameMap<V> {
    type V = Map<Seq<char>, V::V>;

    open spec fn view(&self) -> Map<Seq<char>, V::V> {
        map_of(self.names(), self.stored())
    }
}

} // verus!
