//! Values kept by name, which can also be walked one after the other.

use vstd::hash_map::StringHashMap;
use vstd::prelude::*;

verus! {

/// A map from names to values. It finds a value by hashing its name, and walks its
/// entries by position. The order of the walk is the order in which the names came,
/// until a name is taken out: then the last one takes its place.
#[verifier::reject_recursive_types(V)]
pub struct NameMap<V> {
    index: StringHashMap<usize>,
    keys: Vec<String>,
    values: Vec<V>,
}

impl<V> View for NameMap<V> {
    type V = Map<Seq<char>, V>;

    closed spec fn view(&self) -> Map<Seq<char>, V> {
        Map::new(
            |name: Seq<char>| self.index@.contains_key(name),
            |name: Seq<char>| self.values@[self.index@[name] as int],
        )
    }
}

impl<V> NameMap<V> {
    /// The index holds each name with its position, and nothing else.
    #[verifier::type_invariant]
    closed spec fn indexed(self) -> bool {
        &&& self.index@.dom().finite()
        &&& self.keys@.len() == self.values@.len()
        &&& forall|name: Seq<char>| #[trigger]
            self.index@.contains_key(name) ==> {
                &&& self.index@[name] < self.keys@.len()
                &&& self.keys@[self.index@[name] as int]@ == name
            }
        &&& forall|i: int|
            0 <= i < self.keys@.len() ==> {
                &&& self.index@.contains_key(#[trigger] self.keys@[i]@)
                &&& self.index@[self.keys@[i]@] == i
            }
    }

    /// The names of the map in the order of the walk.
    pub closed spec fn names(self) -> Seq<Seq<char>> {
        self.keys@.map_values(|key: String| key@)
    }

    /// A map that holds nothing.
    pub fn new() -> (map: Self)
        ensures
            map@ == Map::<Seq<char>, V>::empty(),
            map.names() == Seq::<Seq<char>>::empty(),
    {
        let map = NameMap { index: StringHashMap::new(), keys: Vec::new(), values: Vec::new() };
        assert(map@ =~= Map::<Seq<char>, V>::empty());
        map
    }

    /// How many names the map holds. The walk meets each of them once.
    pub fn len(&self) -> (count: usize)
        ensures
            count == self@.len(),
            count == self.names().len(),
            self@.dom().finite(),
            self.names().no_duplicates(),
            self.names().to_set() == self@.dom(),
    {
        proof {
            use_type_invariant(self);
            assert(self@.dom() =~= self.index@.dom());
            assert forall|name: Seq<char>| self@.contains_key(name) implies
                #[trigger] self.names().contains(name) by {
                assert(self.names()[self.index@[name] as int] == name);
            }
            assert(self.names().to_set() =~= self@.dom());
            assert forall|i: int, j: int|
                0 <= i < self.names().len() && 0 <= j < self.names().len() && i != j implies
                self.names()[i] != self.names()[j] by {
                assert(self.names()[i] == self.keys@[i]@);
                assert(self.names()[j] == self.keys@[j]@);
            }
            self.names().unique_seq_to_set();
        }
        self.keys.len()
    }

    /// Whether the map holds a value for `name`.
    pub fn contains_key(&self, name: &str) -> (held: bool)
        ensures
            held == self@.contains_key(name@),
    {
        self.index.contains_key(name)
    }

    /// The value for `name`, if there is one.
    pub fn get(&self, name: &str) -> (value: Option<&V>)
        ensures
            match value {
                Some(v) => self@.contains_key(name@) && *v == self@[name@],
                None => !self@.contains_key(name@),
            },
    {
        proof {
            use_type_invariant(self);
        }
        match self.index.get(name) {
            Some(i) => Some(&self.values[*i]),
            None => None,
        }
    }

    /// The place of the value for `name`, if there is one.
    pub fn get_mut(&mut self, name: &str) -> (place: Option<&mut V>)
        ensures
            match place {
                Some(v) => {
                    &&& old(self)@.contains_key(name@)
                    &&& *v == old(self)@[name@]
                    &&& final(self)@ == old(self)@.insert(name@, *final(v))
                },
                None => !old(self)@.contains_key(name@) && final(self)@ == old(self)@,
            },
    {
        proof {
            use_type_invariant(&*self);
        }
        match self.index.get(name) {
            Some(i) => {
                let place = &mut self.values[*i];
                Some(place)
            },
            None => None,
        }
    }

    /// The name at position `i` of the walk.
    pub fn name_at(&self, i: usize) -> (name: &String)
        requires
            i < self.names().len(),
        ensures
            name@ == self.names()[i as int],
            self@.contains_key(name@),
    {
        proof {
            use_type_invariant(self);
        }
        &self.keys[i]
    }

    /// The value at position `i` of the walk.
    pub fn value_at(&self, i: usize) -> (value: &V)
        requires
            i < self.names().len(),
        ensures
            self@.contains_key(self.names()[i as int]),
            *value == self@[self.names()[i as int]],
    {
        proof {
            use_type_invariant(self);
        }
        &self.values[i]
    }

    /// Gives `name` the value `value`, in place of the one that it had.
    pub fn insert(&mut self, name: String, value: V)
        ensures
            final(self)@ == old(self)@.insert(name@, value),
    {
        proof {
            use_type_invariant(&*self);
        }
        let mut map: NameMap<V> = NameMap::new();
        core::mem::swap(self, &mut map);
        let NameMap { mut index, mut keys, mut values } = map;
        let at: Option<usize> = match index.get(name.as_str()) {
            Some(i) => Some(*i),
            None => None,
        };
        match at {
            Some(i) => {
                values.set(i, value);
            },
            None => {
                index.insert(name.clone(), keys.len());
                keys.push(name);
                values.push(value);
            },
        }
        let mut map = NameMap { index, keys, values };
        core::mem::swap(self, &mut map);
        assert(self@ =~= old(self)@.insert(name@, value));
    }

    /// Takes the value of `name` out of the map.
    pub fn remove(&mut self, name: &str) -> (value: Option<V>)
        ensures
            final(self)@ == old(self)@.remove(name@),
            match value {
                Some(v) => old(self)@.contains_key(name@) && v == old(self)@[name@],
                None => !old(self)@.contains_key(name@),
            },
    {
        proof {
            use_type_invariant(&*self);
        }
        let mut map: NameMap<V> = NameMap::new();
        core::mem::swap(self, &mut map);
        let NameMap { mut index, mut keys, mut values } = map;
        let at: Option<usize> = match index.get(name) {
            Some(i) => Some(*i),
            None => None,
        };
        let value = match at {
            Some(i) => {
                index.remove(name);
                keys.swap_remove(i);
                if i < keys.len() {
                    index.insert(keys[i].clone(), i);
                }
                Some(values.swap_remove(i))
            },
            None => None,
        };
        let mut map = NameMap { index, keys, values };
        core::mem::swap(self, &mut map);
        assert(self@ =~= old(self)@.remove(name@));
        value
    }
}

} // verus!
