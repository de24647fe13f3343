use crate::database::Database;
use crate::error::DomainError;
use crate::keys::KeyRepository;
use crate::objects::pairs_view;
use crate::repository::commands::{lemma_replace_for_rule, replace_rule_keys};
use crate::state::State;
use vstd::prelude::*;

verus! {

/// The keys of a store, rule by rule.
#[derive(Debug)]
pub struct KeyRepositoryImpl {
    conn: Database,
}

impl KeyRepositoryImpl {
    /// Access to the keys of the store.
    pub fn new(conn: Database) -> (repository: Self)
        ensures
            repository.state() == conn@,
            repository.reliable(),
    {
        Self { conn }
    }

    /// The store itself.
    pub fn into_connection(self) -> (conn: Database)
        ensures
            conn@ == self.state(),
    {
        self.conn
    }
}

impl KeyRepository for KeyRepositoryImpl {
    closed spec fn state(&self) -> State {
        self.conn@
    }

    closed spec fn reliable(&self) -> bool {
        true
    }

    fn create_by_rule(&mut self, rule_id: String, keys: Vec<(String, String)>) -> (result: Result<
        (),
        DomainError,
    >) {
        let mut txn = self.conn.clone();
        proof {
            lemma_replace_for_rule(txn@, rule_id@, pairs_view(keys@));
        }
        txn.execute_all(replace_rule_keys(rule_id, keys))?;
        self.conn = txn;
        Ok(())
    }

    fn update_by_rule(&mut self, rule_id: String, keys: Vec<(String, String)>) -> (result: Result<
        (),
        DomainError,
    >) {
        let mut txn = self.conn.clone();
        proof {
            lemma_replace_for_rule(txn@, rule_id@, pairs_view(keys@));
        }
        txn.execute_all(replace_rule_keys(rule_id, keys))?;
        self.conn = txn;
        Ok(())
    }

    fn delete_by_rule(&mut self, rule_id: String) -> (result: Result<(), DomainError>) {
        let mut txn = self.conn.clone();
        txn.keys.delete_by_rule_id(rule_id);
        self.conn = txn;
        Ok(())
    }
}

} // verus!
