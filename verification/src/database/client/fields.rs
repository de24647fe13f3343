use crate::database::client::duplicate_key_error;
use crate::error::{DomainError, DomainErrorView};
use crate::fields::{fields_view, Field, FieldView};
use crate::sequences::{first, lemma_position, lemma_position_is, position};
use crate::state::{duplicate_key, field_with};
use vstd::prelude::*;

verus! {

/// The table of fields: its rows in the order in which they were created.
#[derive(Debug)]
pub struct FieldTable {
    rows: Vec<Field>,
}

impl View for FieldTable {
    type V = Seq<FieldView>;

    closed spec fn view(&self) -> Seq<FieldView> {
        fields_view(self.rows@)
    }
}

impl Clone for FieldTable {
    fn clone(&self) -> (copy: Self)
        ensures
            copy@ == self@,
    {
        FieldTable { rows: self.find_all() }
    }
}

impl FieldTable {
    /// A table without rows.
    pub fn new() -> (table: Self)
        ensures
            table@ == Seq::<FieldView>::empty(),
    {
        let table = FieldTable { rows: Vec::new() };
        assert(table@ =~= Seq::<FieldView>::empty());
        table
    }

    /// Where the first row with the identifier stands, or the number of
    /// rows where none has it.
    fn index_of(&self, id: &String) -> (i: usize)
        ensures
            i == position(self@, field_with(id@)),
            i <= self.rows@.len(),
    {
        let mut i: usize = 0;
        while i < self.rows.len()
            invariant
                i <= self.rows@.len(),
                forall|j: int| 0 <= j < i ==> !field_with(id@)(#[trigger] self@[j]),
            decreases self.rows@.len() - i,
        {
            if self.rows[i].id == *id {
                proof {
                    lemma_position_is(self@, field_with(id@), i as int);
                }
                return i;
            }
            i += 1;
        }
        proof {
            lemma_position_is(self@, field_with(id@), i as int);
        }
        i
    }

    /// The row with the identifier.
    pub fn find_by_id(&self, id: String) -> (found: Option<Field>)
        ensures
            match found {
                Some(field) => first(self@, field_with(id@)) == Some(field@),
                None => first(self@, field_with(id@)) is None,
            },
    {
        let i = self.index_of(&id);
        if i < self.rows.len() {
            Some(self.rows[i].clone())
        } else {
            None
        }
    }

    /// All rows, oldest first.
    pub fn find_all(&self) -> (fields: Vec<Field>)
        ensures
            fields_view(fields@) == self@,
    {
        let mut fields: Vec<Field> = Vec::new();
        let mut i: usize = 0;
        while i < self.rows.len()
            invariant
                i <= self.rows@.len(),
                fields@ == self.rows@.take(i as int),
            decreases self.rows@.len() - i,
        {
            fields.push(self.rows[i].clone());
            assert(fields@ =~= self.rows@.take(i + 1));
            i += 1;
        }
        assert(self.rows@.take(i as int) =~= self.rows@);
        fields
    }

    /// Adds the row, unless a row has its identifier already.
    pub fn insert(&mut self, field: Field) -> (result: Result<(), DomainError>)
        ensures
            match result {
                Ok(()) => {
                    &&& first(old(self)@, field_with(field@.id)) is None
                    &&& final(self)@ == old(self)@.push(field@)
                },
                Err(error) => first(old(self)@, field_with(field@.id)) is Some && final(self)@
                    == old(self)@ && error@ == duplicate_key(),
            },
    {
        let i = self.index_of(&field.id);
        if i < self.rows.len() {
            return Err(duplicate_key_error());
        }
        self.rows.push(field);
        assert(self@ =~= old(self)@.push(field@));
        Ok(())
    }

    /// Gives the field with the identifier another label.
    pub fn update(&mut self, id: String, label: String) -> (result: Result<Field, DomainError>)
        ensures
            match result {
                Ok(field) => first(old(self)@, field_with(id@)) matches Some(before) && field@ == (
                FieldView { id: id@, data_label: before.data_label, label: label@ }) && final(self)@
                    == old(self)@.update(position(old(self)@, field_with(id@)), field@),
                Err(error) => {
                    &&& first(old(self)@, field_with(id@)) is None
                    &&& final(self)@ == old(self)@
                    &&& error@ == DomainErrorView::NotFound(id@)
                },
            },
    {
        let i = self.index_of(&id);
        if i >= self.rows.len() {
            return Err(DomainError::NotFound(id));
        }
        proof {
            lemma_position(self@, field_with(id@));
        }
        let field = Field { id, data_label: self.rows[i].data_label.clone(), label };
        self.rows.set(i, field.clone());
        assert(self@ =~= old(self)@.update(i as int, field@));
        Ok(field)
    }
}

} // verus!
