use crate::consistency::{lemma_field_inserted_consistent, lemma_field_relabelled_consistent};
use crate::database::client::new_id;
use crate::database::Database;
use crate::error::{DomainError, DomainErrorView};
use crate::fields::{Field, FieldRepository, FieldView};
use crate::sequences::{lemma_position, lemma_position_is, position};
use crate::state::{field_with, State};
use vstd::prelude::*;

verus! {

/// The fields of a store.
#[derive(Debug)]
pub struct FieldRepositoryImpl {
    conn: Database,
}

impl FieldRepositoryImpl {
    /// Access to the fields of the store.
    pub fn new(conn: Database) -> (repository: Self)
        ensures
            repository.state() == conn@,
            repository.reliable(),
    {
        Self { conn }
    }

    /// The store itself.
    pub fn into_connection(self) -> (conn: Database)
        ensures
            conn@ == self.state(),
    {
        self.conn
    }

    /// Creates a field under the given identifier, unless a field has it.
    pub fn create_with_id(&mut self, id: String, data_label: String, label: String) -> (result: Result<
        Field,
        DomainError,
    >)
        ensures
            match result {
                Ok(field) => field@ == (FieldView {
                    id: id@,
                    data_label: data_label@,
                    label: label@,
                }) && old(self).state().field_inserted(field@) == Ok::<State, DomainErrorView>(
                    final(self).state(),
                ),
                Err(error) => old(self).state().field_inserted(
                    FieldView { id: id@, data_label: data_label@, label: label@ },
                ) == Err::<State, DomainErrorView>(error@) && final(self).state() == old(self).state(),
            },
            final(self).reliable() == old(self).reliable(),
            old(self).state().consistent() ==> final(self).state().consistent(),
    {
        let mut txn = self.conn.clone();
        let field = Field { id, data_label, label };
        txn.fields.insert(field.clone())?;
        proof {
            if self.conn@.consistent() {
                lemma_field_inserted_consistent(self.conn@, field@);
            }
        }
        self.conn = txn;
        Ok(field)
    }
}

impl FieldRepository for FieldRepositoryImpl {
    closed spec fn state(&self) -> State {
        self.conn@
    }

    closed spec fn reliable(&self) -> bool {
        true
    }

    fn find_all(&self) -> (result: Result<Vec<Field>, DomainError>) {
        Ok(self.conn.fields.find_all())
    }

    fn create(&mut self, data_label: String, label: String) -> (result: Result<Field, DomainError>) {
        self.create_with_id(new_id(), data_label, label)
    }

    fn update(&mut self, id: String, label: String) -> (result: Result<Field, DomainError>) {
        proof {
            if self.conn@.consistent() && self.conn@.field_relabelled(id@, label@) is Ok {
                lemma_field_relabelled_consistent(self.conn@, id@, label@);
            }
        }
        let mut txn = self.conn.clone();
        let field = txn.fields.update(id, label)?;
        proof {
            lemma_position(self.conn@.fields, field_with(id@));
            lemma_position(txn@.fields, field_with(id@));
            lemma_position_is(
                txn@.fields,
                field_with(id@),
                position(self.conn@.fields, field_with(id@)),
            );
        }
        self.conn = txn;
        Ok(field)
    }
}

} // verus!
