use crate::database::client::duplicate_key_error;
use crate::database::entities::{Document, ObjectModel};
use crate::error::{DomainError, DomainErrorView};
use crate::sequences::{first, lemma_position_is, position};
use crate::state::{duplicate_key, object_with, object_without, ObjectRow};
use vstd::prelude::*;

verus! {

/// The stored objects of a list as mathematical values, in the same order.
pub open spec fn object_rows(objects: Seq<ObjectModel>) -> Seq<ObjectRow> {
    objects.map_values(|object: ObjectModel| object@)
}

/// The table of objects: its rows in the order in which they were created.
#[derive(Debug)]
pub struct ObjectTable {
    rows: Vec<ObjectModel>,
}

impl View for ObjectTable {
    type V = Seq<ObjectRow>;

    closed spec fn view(&self) -> Seq<ObjectRow> {
        object_rows(self.rows@)
    }
}

impl Clone for ObjectTable {
    fn clone(&self) -> (copy: Self)
        ensures
            copy@ == self@,
    {
        ObjectTable { rows: self.find_all() }
    }
}

impl ObjectTable {
    /// A table without rows.
    pub fn new() -> (table: Self)
        ensures
            table@ == Seq::<ObjectRow>::empty(),
    {
        let table = ObjectTable { rows: Vec::new() };
        assert(table@ =~= Seq::<ObjectRow>::empty());
        table
    }

    /// Where the first row with the identifier stands, or the number of
    /// rows where none has it.
    fn index_of(&self, id: &String) -> (i: usize)
        ensures
            i == position(self@, object_with(id@)),
            i <= self.rows@.len(),
    {
        let mut i: usize = 0;
        while i < self.rows.len()
            invariant
                i <= self.rows@.len(),
                forall|j: int| 0 <= j < i ==> !object_with(id@)(#[trigger] self@[j]),
            decreases self.rows@.len() - i,
        {
            if self.rows[i].id == *id {
                proof {
                    lemma_position_is(self@, object_with(id@), i as int);
                }
                return i;
            }
            i += 1;
        }
        proof {
            lemma_position_is(self@, object_with(id@), i as int);
        }
        i
    }

    /// The row with the identifier.
    pub fn find_by_id(&self, id: String) -> (found: Option<ObjectModel>)
        ensures
            match found {
                Some(object) => first(self@, object_with(id@)) == Some(object@),
                None => first(self@, object_with(id@)) is None,
            },
    {
        let i = self.index_of(&id);
        if i < self.rows.len() {
            Some(self.rows[i].clone())
        } else {
            None
        }
    }

    /// All rows, oldest first.
    pub fn find_all(&self) -> (objects: Vec<ObjectModel>)
        ensures
            object_rows(objects@) == self@,
    {
        let mut objects: Vec<ObjectModel> = Vec::new();
        let mut i: usize = 0;
        assert(object_rows(objects@) =~= self@.take(0));
        while i < self.rows.len()
            invariant
                i <= self.rows@.len(),
                objects@.len() == i,
                object_rows(objects@) == self@.take(i as int),
            decreases self.rows@.len() - i,
        {
            let ghost before = object_rows(objects@);
            objects.push(self.rows[i].clone());
            proof {
                assert forall|j: int| 0 <= j < i + 1 implies object_rows(objects@)[j] == self@[j] by {
                    if j < i {
                        assert(object_rows(objects@)[j] == before[j]);
                    }
                }
                assert(object_rows(objects@) =~= self@.take(i + 1));
            }
            i += 1;
        }
        assert(self@.take(i as int) =~= self@);
        objects
    }

    /// Adds the row, unless a row has its identifier already.
    pub fn insert(&mut self, object: ObjectModel) -> (result: Result<(), DomainError>)
        ensures
            match result {
                Ok(()) => {
                    &&& first(old(self)@, object_with(object@.id)) is None
                    &&& final(self)@ == old(self)@.push(object@)
                },
                Err(error) => first(old(self)@, object_with(object@.id)) is Some && final(self)@
                    == old(self)@ && error@ == duplicate_key(),
            },
    {
        let i = self.index_of(&object.id);
        if i < self.rows.len() {
            return Err(duplicate_key_error());
        }
        self.rows.push(object);
        assert(self@ =~= old(self)@.push(object@));
        Ok(())
    }

    /// Gives the object with the identifier another document.
    pub fn update(&mut self, id: String, attributes: Document) -> (result: Result<
        ObjectModel,
        DomainError,
    >)
        ensures
            match result {
                Ok(object) => object@ == (ObjectRow { id: id@, attributes: attributes@ }) && first(
                    old(self)@,
                    object_with(id@),
                ) is Some && final(self)@ == old(self)@.update(
                    position(old(self)@, object_with(id@)),
                    object@,
                ),
                Err(error) => {
                    &&& first(old(self)@, object_with(id@)) is None
                    &&& final(self)@ == old(self)@
                    &&& error@ == DomainErrorView::NotFound(id@)
                },
            },
    {
        let i = self.index_of(&id);
        if i >= self.rows.len() {
            return Err(DomainError::NotFound(id));
        }
        let object = ObjectModel { id, attributes };
        self.rows.set(i, object.clone());
        assert(self@ =~= old(self)@.update(i as int, object@));
        Ok(object)
    }

    /// Removes the object with the identifier.
    pub fn delete(&mut self, id: String)
        ensures
            final(self)@ == old(self)@.filter(object_without(id@)),
    {
        let ghost stored = self@;
        let ghost kept_if = object_without(id@);
        let mut kept: Vec<ObjectModel> = Vec::new();
        let mut i: usize = 0;
        proof {
            assert(stored.take(0) =~= Seq::empty());
            stored.take(0).lemma_filter_len(kept_if);
            assert(object_rows(kept@) =~= stored.take(0).filter(kept_if));
        }
        while i < self.rows.len()
            invariant
                i <= self.rows@.len(),
                stored == object_rows(self.rows@),
                kept_if == object_without(id@),
                object_rows(kept@) == stored.take(i as int).filter(kept_if),
            decreases self.rows@.len() - i,
        {
            let ghost before = object_rows(kept@);
            proof {
                assert(stored.take(i + 1) =~= stored.take(i as int).push(stored[i as int]));
                stored.take(i as int).lemma_filter_push(stored[i as int], kept_if);
            }
            if self.rows[i].id != id {
                kept.push(self.rows[i].clone());
                assert(object_rows(kept@) =~= before.push(stored[i as int]));
            }
            i += 1;
        }
        assert(stored.take(i as int) =~= stored);
        self.rows = kept;
    }
}

} // verus!
