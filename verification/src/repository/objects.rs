use crate::consistency::{
    lemma_object_created_consistent, lemma_object_created_succeeds,
    lemma_object_deleted_consistent, lemma_object_updated_consistent,
    lemma_object_updated_succeeds,
};
use crate::database::client::new_id;
use crate::database::entities::ObjectModel;
use crate::database::{to_document, to_object, Database};
use crate::error::{DomainError, DomainErrorView};
use crate::laws::{
    lemma_object_created_complete, lemma_object_deleted_complete, lemma_object_updated_complete,
};
use crate::objects::{Attributes, Object, ObjectRepository, ObjectView};
use crate::repository::commands::{lemma_create_for_object, lemma_replace_for_object};
use crate::repository::sync::{sync_created_object, sync_deleted_object, sync_updated_object};
use crate::state::State;
use vstd::prelude::*;

verus! {

/// The objects of a store, and with them their keys.
#[derive(Debug)]
pub struct ObjectRepositoryImpl {
    conn: Database,
}

impl ObjectRepositoryImpl {
    /// Access to the objects of the store.
    pub fn new(conn: Database) -> (repository: Self)
        ensures
            repository.state() == conn@,
            repository.reliable(),
    {
        Self { conn }
    }

    /// The store itself.
    pub fn into_connection(self) -> (conn: Database)
        ensures
            conn@ == self.state(),
    {
        self.conn
    }

    /// Creates an object under the given identifier, and its key under
    /// every rule: all of it or nothing.
    pub fn create_with_id(&mut self, id: String, attributes: Attributes) -> (result: Result<
        Object,
        DomainError,
    >)
        ensures
            match result {
                Ok(object) => object@ == (ObjectView { id: id@, attributes: attributes@ }) && old(
                    self,
                ).state().object_created(id@, attributes@) == Ok::<State, DomainErrorView>(
                    final(self).state(),
                ),
                Err(error) => old(self).state().object_created(id@, attributes@) == Err::<
                    State,
                    DomainErrorView,
                >(error@) && final(self).state() == old(self).state(),
            },
            old(self).state().consistent() && old(self).state().object_row(id@) is None && old(
                self,
            ).state().has_keys_for(attributes@) ==> result is Ok,
            final(self).reliable() == old(self).reliable(),
            old(self).state().complete() ==> final(self).state().complete(),
            old(self).state().consistent() ==> final(self).state().consistent(),
    {
        proof {
            if self.conn@.complete() && self.conn@.object_created(id@, attributes@) is Ok {
                lemma_object_created_complete(self.conn@, id@, attributes@);
            }
            if self.conn@.consistent() && self.conn@.object_created(id@, attributes@) is Ok {
                lemma_object_created_consistent(self.conn@, id@, attributes@);
            }
            if self.conn@.consistent() && self.conn@.object_row(id@) is None
                && self.conn@.has_keys_for(attributes@) {
                lemma_object_created_succeeds(self.conn@, id@, attributes@);
            }
        }
        let rules = self.conn.find_all_rules()?;

        let mut txn = self.conn.clone();
        let row = ObjectModel { id, attributes: to_document(&attributes) };
        txn.objects.insert(row.clone())?;
        let (object, commands) = sync_created_object(&rules, row)?;
        proof {
            let pairs = crate::derivation::keys_for_object(
                self.conn@.rules_joined()->Ok_0,
                attributes@,
            )->Ok_0;
            lemma_create_for_object(txn@, id@, pairs);
        }
        txn.execute_all(commands)?;
        self.conn = txn;
        Ok(object)
    }
}

impl ObjectRepository for ObjectRepositoryImpl {
    closed spec fn state(&self) -> State {
        self.conn@
    }

    closed spec fn reliable(&self) -> bool {
        true
    }

    fn find_all(&self) -> (result: Result<Vec<Object>, DomainError>) {
        self.conn.read_objects()
    }

    fn get(&self, id: String) -> (result: Result<Option<Object>, DomainError>) {
        match self.conn.objects.find_by_id(id) {
            None => Ok(None),
            Some(row) => {
                let object = to_object(row)?;
                Ok(Some(object))
            },
        }
    }

    fn create(&mut self, attributes: Attributes) -> (result: Result<Object, DomainError>) {
        self.create_with_id(new_id(), attributes)
    }

    fn update(&mut self, id: String, attributes: Attributes) -> (result: Result<Object, DomainError>) {
        proof {
            if self.conn@.complete() && self.conn@.object_updated(id@, attributes@) is Ok {
                lemma_object_updated_complete(self.conn@, id@, attributes@);
            }
            if self.conn@.consistent() && self.conn@.object_updated(id@, attributes@) is Ok {
                lemma_object_updated_consistent(self.conn@, id@, attributes@);
            }
            if self.conn@.consistent() && self.conn@.object_row(id@) is Some
                && self.conn@.has_keys_for(attributes@) {
                lemma_object_updated_succeeds(self.conn@, id@, attributes@);
            }
        }
        let rules = self.conn.find_all_rules()?;

        let mut txn = self.conn.clone();
        let row = txn.objects.update(id, to_document(&attributes))?;
        let (object, commands) = sync_updated_object(&rules, row)?;
        proof {
            let pairs = crate::derivation::keys_for_object(
                self.conn@.rules_joined()->Ok_0,
                attributes@,
            )->Ok_0;
            lemma_replace_for_object(txn@, id@, pairs);
        }
        txn.execute_all(commands)?;
        self.conn = txn;
        Ok(object)
    }

    fn delete(&mut self, id: String) -> (result: Result<(), DomainError>) {
        proof {
            if self.conn@.complete() {
                lemma_object_deleted_complete(self.conn@, id@);
            }
            if self.conn@.consistent() {
                lemma_object_deleted_consistent(self.conn@, id@);
            }
        }
        let mut txn = self.conn.clone();
        txn.objects.delete(id.clone());
        let commands = sync_deleted_object(id);
        proof {
            let command = crate::repository::commands::KeyCommandView::DeleteByObjectId(id@);
            assert(seq![command].drop_first() =~= Seq::empty());
            assert(txn@.executed(command)->Ok_0.executed_all(Seq::empty()) == txn@.executed(command));
        }
        txn.execute_all(commands)?;
        self.conn = txn;
        Ok(())
    }
}

} // verus!
