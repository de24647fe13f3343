use crate::error::{DomainError, DomainErrorView};
use crate::state::State;
use vstd::prelude::*;

verus! {

/// The characters of each text of a pair.
pub open spec fn pair_view(pair: (String, String)) -> (Seq<char>, Seq<char>) {
    (pair.0@, pair.1@)
}

/// The characters of each text of each pair, in the same order.
pub open spec fn pairs_view(pairs: Seq<(String, String)>) -> Seq<(Seq<char>, Seq<char>)> {
    pairs.map_values(|pair: (String, String)| pair_view(pair))
}

/// The mapping that a list of pairs stands for: under each name the value of
/// the last pair that holds the name.
pub open spec fn pairs_map(pairs: Seq<(Seq<char>, Seq<char>)>) -> Map<Seq<char>, Seq<char>>
    decreases pairs.len(),
{
    if pairs.len() == 0 {
        Map::empty()
    } else {
        pairs_map(pairs.drop_last()).insert(pairs.last().0, pairs.last().1)
    }
}

/// `name` stands at `i` and nowhere after it.
pub open spec fn last_at(pairs: Seq<(Seq<char>, Seq<char>)>, name: Seq<char>, i: int) -> bool {
    &&& 0 <= i < pairs.len()
    &&& pairs[i].0 == name
    &&& forall|j: int| i < j < pairs.len() ==> pairs[j].0 != name
}

/// A name that no pair holds is not in the mapping.
pub proof fn lemma_pairs_map_absent(pairs: Seq<(Seq<char>, Seq<char>)>, name: Seq<char>)
    requires
        forall|j: int| 0 <= j < pairs.len() ==> pairs[j].0 != name,
    ensures
        !pairs_map(pairs).dom().contains(name),
    decreases pairs.len(),
{
    if pairs.len() > 0 {
        lemma_pairs_map_absent(pairs.drop_last(), name);
    }
}

/// The mapping holds under a name the value of the last pair with that name.
pub proof fn lemma_pairs_map_last(pairs: Seq<(Seq<char>, Seq<char>)>, name: Seq<char>, i: int)
    requires
        last_at(pairs, name, i),
    ensures
        pairs_map(pairs).dom().contains(name),
        pairs_map(pairs)[name] == pairs[i].1,
    decreases pairs.len(),
{
    if i < pairs.len() - 1 {
        lemma_pairs_map_last(pairs.drop_last(), name, i);
    }
}

/// Replacing the value of the last pair with a name replaces what the mapping
/// holds under that name, and nothing else.
pub proof fn lemma_pairs_map_update(
    pairs: Seq<(Seq<char>, Seq<char>)>,
    name: Seq<char>,
    i: int,
    value: Seq<char>,
)
    requires
        last_at(pairs, name, i),
    ensures
        pairs_map(pairs.update(i, (name, value))) == pairs_map(pairs).insert(name, value),
    decreases pairs.len(),
{
    let updated = pairs.update(i, (name, value));
    if i < pairs.len() - 1 {
        lemma_pairs_map_update(pairs.drop_last(), name, i, value);
        assert(updated.drop_last() =~= pairs.drop_last().update(i, (name, value)));
        assert(pairs_map(updated) =~= pairs_map(pairs).insert(name, value));
    } else {
        assert(updated.drop_last() =~= pairs.drop_last());
        assert(pairs_map(updated) =~= pairs_map(pairs).insert(name, value));
    }
}

/// The attributes of an object: a value under each of some names.
#[derive(Debug)]
pub struct Attributes {
    entries: Vec<(String, String)>,
}

impl View for Attributes {
    type V = Map<Seq<char>, Seq<char>>;

    closed spec fn view(&self) -> Map<Seq<char>, Seq<char>> {
        pairs_map(pairs_view(self.entries@))
    }
}

impl Attributes {
    /// No attributes at all.
    pub fn new() -> (attributes: Self)
        ensures
            attributes@ == Map::<Seq<char>, Seq<char>>::empty(),
    {
        let attributes = Attributes { entries: Vec::new() };
        assert(pairs_view(attributes.entries@) =~= Seq::empty());
        attributes
    }

    /// The attributes that a list of pairs stands for; of two pairs with one
    /// name the later one counts.
    pub fn from_pairs(pairs: Vec<(String, String)>) -> (attributes: Self)
        ensures
            attributes@ == pairs_map(pairs_view(pairs@)),
    {
        let mut attributes = Attributes::new();
        let mut i: usize = 0;
        while i < pairs.len()
            invariant
                i <= pairs@.len(),
                attributes@ == pairs_map(pairs_view(pairs@).take(i as int)),
            decreases pairs@.len() - i,
        {
            let name = pairs[i].0.clone();
            let value = pairs[i].1.clone();
            attributes.insert(name, value);
            proof {
                let all = pairs_view(pairs@);
                assert(all.take(i + 1).drop_last() =~= all.take(i as int));
            }
            i += 1;
        }
        proof {
            let all = pairs_view(pairs@);
            assert(all.take(i as int) =~= all);
        }
        attributes
    }

    /// A list of pairs that stands for the attributes.
    pub fn to_pairs(&self) -> (pairs: Vec<(String, String)>)
        ensures
            pairs_map(pairs_view(pairs@)) == self@,
    {
        let mut pairs: Vec<(String, String)> = Vec::new();
        let mut i: usize = 0;
        while i < self.entries.len()
            invariant
                i <= self.entries@.len(),
                pairs@.len() == i,
                pairs_view(pairs@) == pairs_view(self.entries@).take(i as int),
            decreases self.entries@.len() - i,
        {
            let name = self.entries[i].0.clone();
            let value = self.entries[i].1.clone();
            let ghost copied = pairs_view(pairs@);
            pairs.push((name, value));
            proof {
                let all = pairs_view(self.entries@);
                assert forall|k: int| 0 <= k < i + 1 implies pairs_view(pairs@)[k] == all[k] by {
                    if k < i {
                        assert(pairs_view(pairs@)[k] == copied[k]);
                    }
                }
                assert(pairs_view(pairs@) =~= all.take(i + 1));
            }
            i += 1;
        }
        proof {
            let all = pairs_view(self.entries@);
            assert(all.take(i as int) =~= all);
        }
        pairs
    }

    /// Where `name` stands last among the entries, if it stands there at all.
    fn position(&self, name: &String) -> (found: Option<usize>)
        ensures
            match found {
                Some(i) => last_at(pairs_view(self.entries@), name@, i as int),
                None => forall|j: int|
                    0 <= j < self.entries@.len() ==> pairs_view(self.entries@)[j].0 != name@,
            },
    {
        let mut i: usize = self.entries.len();
        while i > 0
            invariant
                i <= self.entries@.len(),
                forall|j: int| i <= j < self.entries@.len() ==> pairs_view(self.entries@)[j].0 != name@,
            decreases i,
        {
            i -= 1;
            if self.entries[i].0 == *name {
                return Some(i);
            }
        }
        None
    }

    /// The value under `name`, if there is one.
    pub fn get(&self, name: &String) -> (value: Option<&String>)
        ensures
            match value {
                Some(text) => self@.dom().contains(name@) && self@[name@] == text@,
                None => !self@.dom().contains(name@),
            },
    {
        match self.position(name) {
            Some(i) => {
                proof {
                    lemma_pairs_map_last(pairs_view(self.entries@), name@, i as int);
                }
                Some(&self.entries[i].1)
            },
            None => {
                proof {
                    lemma_pairs_map_absent(pairs_view(self.entries@), name@);
                }
                None
            },
        }
    }

    /// Whether a value stands under `name`.
    pub fn contains_key(&self, name: &String) -> (held: bool)
        ensures
            held == self@.dom().contains(name@),
    {
        self.get(name).is_some()
    }

    /// Puts `value` under `name`, in place of what stood there.
    pub fn insert(&mut self, name: String, value: String)
        ensures
            final(self)@ == old(self)@.insert(name@, value@),
    {
        let ghost before = pairs_view(self.entries@);
        match self.position(&name) {
            Some(i) => {
                self.entries.set(i, (name, value));
                proof {
                    lemma_pairs_map_update(before, name@, i as int, value@);
                    assert(pairs_view(self.entries@) =~= before.update(i as int, (name@, value@)));
                }
            },
            None => {
                self.entries.push((name, value));
                proof {
                    let after = pairs_view(self.entries@);
                    assert(after.drop_last() =~= before);
                }
            },
        }
    }
}

/// The name of every pair is a name that the mapping holds.
pub proof fn lemma_pairs_map_has(pairs: Seq<(Seq<char>, Seq<char>)>, i: int)
    requires
        0 <= i < pairs.len(),
    ensures
        pairs_map(pairs).dom().contains(pairs[i].0),
    decreases pairs.len(),
{
    if i < pairs.len() - 1 {
        lemma_pairs_map_has(pairs.drop_last(), i);
    }
}

/// A name that the mapping holds stands in one of the pairs.
pub proof fn lemma_pairs_map_present(pairs: Seq<(Seq<char>, Seq<char>)>, name: Seq<char>)
    requires
        pairs_map(pairs).dom().contains(name),
    ensures
        exists|j: int| 0 <= j < pairs.len() && (#[trigger] pairs[j]).0 == name,
{
    if forall|j: int| 0 <= j < pairs.len() ==> (#[trigger] pairs[j]).0 != name {
        lemma_pairs_map_absent(pairs, name);
    }
}

impl Attributes {
    /// Whether `other` holds under every name of these attributes the value
    /// that stands here.
    fn within(&self, other: &Attributes) -> (held: bool)
        ensures
            held == (forall|name: Seq<char>| #[trigger]
                self@.dom().contains(name) ==> other@.dom().contains(name) && other@[name]
                    == self@[name]),
    {
        let ghost pairs = pairs_view(self.entries@);
        let mut i: usize = 0;
        while i < self.entries.len()
            invariant
                i <= self.entries@.len(),
                pairs == pairs_view(self.entries@),
                forall|j: int|
                    0 <= j < i ==> other@.dom().contains((#[trigger] pairs[j]).0) && other@[pairs[j].0]
                        == self@[pairs[j].0],
            decreases self.entries@.len() - i,
        {
            let name = &self.entries[i].0;
            assert(name@ == pairs[i as int].0);
            match (self.get(name), other.get(name)) {
                (Some(here), Some(there)) => {
                    if *here != *there {
                        return false;
                    }
                },
                (Some(_), None) => {
                    return false;
                },
                (None, _) => {
                    proof {
                        lemma_pairs_map_has(pairs, i as int);
                    }
                },
            }
            i += 1;
        }
        proof {
            assert forall|name: Seq<char>| #[trigger]
                self@.dom().contains(name) implies other@.dom().contains(name) && other@[name]
                == self@[name] by {
                lemma_pairs_map_present(pairs, name);
            }
        }
        true
    }
}

impl PartialEq for Attributes {
    /// Attributes are equal where they hold the same values under the same
    /// names.
    fn eq(&self, other: &Attributes) -> (equal: bool) {
        let equal = self.within(other) && other.within(self);
        proof {
            if equal {
                assert(self@ =~= other@);
            }
        }
        equal
    }
}

impl Eq for Attributes {

}

impl vstd::std_specs::cmp::PartialEqSpecImpl for Attributes {
    open spec fn obeys_eq_spec() -> bool {
        true
    }

    open spec fn eq_spec(&self, other: &Attributes) -> bool {
        self@ == other@
    }
}

impl Clone for Attributes {
    fn clone(&self) -> (copy: Self)
        ensures
            copy@ == self@,
    {
        Attributes { entries: self.to_pairs() }
    }
}

/// Something that carries attributes, known by its identifier.
#[derive(Debug, PartialEq, Eq)]
pub struct Object {
    pub id: String,
    pub attributes: Attributes,
}

/// An [`Object`] as a mathematical value.
pub struct ObjectView {
    pub id: Seq<char>,
    pub attributes: Map<Seq<char>, Seq<char>>,
}

impl View for Object {
    type V = ObjectView;

    open spec fn view(&self) -> ObjectView {
        ObjectView { id: self.id@, attributes: self.attributes@ }
    }
}

impl Clone for Object {
    fn clone(&self) -> (copy: Self)
        ensures
            copy@ == self@,
    {
        Object { id: self.id.clone(), attributes: self.attributes.clone() }
    }
}

/// The objects of a list as mathematical values, in the same order.
pub open spec fn objects_view(objects: Seq<Object>) -> Seq<ObjectView> {
    objects.map_values(|object: Object| object@)
}

/// An object that was or was not found, as a mathematical value.
pub open spec fn found_object_view(found: Option<Object>) -> Option<ObjectView> {
    match found {
        Some(object) => Some(object@),
        None => None,
    }
}

/// Access to the objects of a store. What changes an object changes its
/// keys with it, so that a store in which every rule has exactly one key
/// for every object stays such a store; what fails changes nothing.
pub trait ObjectRepository {
    /// What the store holds.
    spec fn state(&self) -> State;

    /// Whether calls fail only where the rules of the store refuse them.
    spec fn reliable(&self) -> bool;

    /// All objects, oldest first.
    fn find_all(&self) -> (result: Result<Vec<Object>, DomainError>)
        ensures
            match result {
                Ok(objects) => self.state().objects_read() == Ok::<Seq<ObjectView>, DomainErrorView>(
                    objects_view(objects@),
                ),
                Err(error) => self.reliable() ==> self.state().objects_read() == Err::<
                    Seq<ObjectView>,
                    DomainErrorView,
                >(error@),
            },
    ;

    /// The object with the identifier.
    fn get(&self, id: String) -> (result: Result<Option<Object>, DomainError>)
        ensures
            match result {
                Ok(found) => self.state().object(id@) == Ok::<Option<ObjectView>, DomainErrorView>(
                    found_object_view(found),
                ),
                Err(error) => self.reliable() ==> self.state().object(id@) == Err::<
                    Option<ObjectView>,
                    DomainErrorView,
                >(error@),
            },
    ;

    /// Creates an object under a new identifier, and its key under every
    /// rule.
    fn create(&mut self, attributes: Attributes) -> (result: Result<Object, DomainError>)
        ensures
            match result {
                Ok(object) => {
                    &&& object@.attributes == attributes@
                    &&& old(self).state().object_created(object@.id, attributes@) == Ok::<
                        State,
                        DomainErrorView,
                    >(final(self).state())
                },
                Err(error) => {
                    &&& final(self).state() == old(self).state()
                    &&& old(self).reliable() ==> exists|id: Seq<char>| #[trigger]
                        old(self).state().object_created(id, attributes@) == Err::<
                            State,
                            DomainErrorView,
                        >(error@)
                },
            },
            old(self).state().complete() ==> final(self).state().complete(),
            old(self).state().consistent() ==> final(self).state().consistent(),
            final(self).reliable() == old(self).reliable(),
    ;

    /// Gives the object with the identifier other attributes, and other
    /// keys with them.
    fn update(&mut self, id: String, attributes: Attributes) -> (result: Result<Object, DomainError>)
        ensures
            match result {
                Ok(object) => {
                    &&& object@ == (ObjectView { id: id@, attributes: attributes@ })
                    &&& old(self).state().object_updated(id@, attributes@) == Ok::<
                        State,
                        DomainErrorView,
                    >(final(self).state())
                },
                Err(error) => {
                    &&& final(self).state() == old(self).state()
                    &&& old(self).reliable() ==> old(self).state().object_updated(id@, attributes@)
                        == Err::<State, DomainErrorView>(error@)
                },
            },
            old(self).reliable() && old(self).state().consistent() && old(self).state().object_row(
                id@,
            ) is Some && old(self).state().has_keys_for(attributes@) ==> result is Ok,
            old(self).state().complete() ==> final(self).state().complete(),
            old(self).state().consistent() ==> final(self).state().consistent(),
            final(self).reliable() == old(self).reliable(),
    ;

    /// Removes the object with the identifier, and its keys.
    fn delete(&mut self, id: String) -> (result: Result<(), DomainError>)
        ensures
            match result {
                Ok(()) => final(self).state() == old(self).state().object_deleted(id@),
                Err(_) => final(self).state() == old(self).state() && !old(self).reliable(),
            },
            old(self).state().complete() ==> final(self).state().complete(),
            old(self).state().consistent() ==> final(self).state().consistent(),
            final(self).reliable() == old(self).reliable(),
    ;
}

} // verus!
