use crate::consistency::{
    lemma_rule_created_consistent, lemma_rule_created_succeeds, lemma_rule_deleted_consistent,
    lemma_rule_updated_consistent, lemma_rule_updated_succeeds,
};
use crate::database::client::new_id;
use crate::database::client::rules::RuleValues;
use crate::database::entities::RuleModel;
use crate::database::{to_rule, to_rules, Database};
use crate::error::{DomainError, DomainErrorView};
use crate::laws::{
    lemma_rule_created_complete, lemma_rule_deleted_complete, lemma_rule_updated_complete,
};
use crate::repository::commands::{lemma_create_for_rule, lemma_replace_for_rule};
use crate::repository::sync::{sync_created_rule, sync_deleted_rule, sync_updated_rule};
use crate::rules::{GenerationRule, Rule, RuleRepository, RuleView};
use crate::sequences::lemma_position;
use crate::state::{field_with, RuleRow, State};
use vstd::prelude::*;

verus! {

/// The rules of a store, and with them their keys.
#[derive(Debug)]
pub struct RuleRepositoryImpl {
    conn: Database,
}

impl RuleRepositoryImpl {
    /// Access to the rules of the store.
    pub fn new(conn: Database) -> (repository: Self)
        ensures
            repository.state() == conn@,
            repository.reliable(),
    {
        Self { conn }
    }

    /// The store itself.
    pub fn into_connection(self) -> (conn: Database)
        ensures
            conn@ == self.state(),
    {
        self.conn
    }

    /// Creates a rule under the given identifier, and its key for every
    /// object: all of it or nothing.
    pub fn create_with_id(&mut self, id: String, field_id: String, rule_type: GenerationRule) -> (result:
        Result<Rule, DomainError>)
        ensures
            match result {
                Ok(rule) => rule@.row() == (RuleRow {
                    id: id@,
                    field_id: field_id@,
                    rule_type: rule_type@,
                }) && old(self).state().rule_created(rule@.row()) == Ok::<State, DomainErrorView>(
                    final(self).state(),
                ) && final(self).state().joined(rule@.row()) == Ok::<RuleView, DomainErrorView>(rule@),
                Err(error) => old(self).state().rule_created(
                    RuleRow { id: id@, field_id: field_id@, rule_type: rule_type@ },
                ) == Err::<State, DomainErrorView>(error@) && final(self).state() == old(self).state(),
            },
            ({
                let row = RuleRow { id: id@, field_id: field_id@, rule_type: rule_type@ };
                old(self).state().consistent() && old(self).state().rule_row(id@) is None && old(
                    self,
                ).state().joined(row) is Ok && old(self).state().has_keys_of(
                    old(self).state().joined(row)->Ok_0,
                ) ==> result is Ok
            }),
            final(self).reliable() == old(self).reliable(),
            old(self).state().complete() ==> final(self).state().complete(),
            old(self).state().consistent() ==> final(self).state().consistent(),
    {
        proof {
            let row = RuleRow { id: id@, field_id: field_id@, rule_type: rule_type@ };
            if self.conn@.complete() && self.conn@.rule_created(row) is Ok {
                lemma_rule_created_complete(self.conn@, row);
            }
            if self.conn@.consistent() && self.conn@.rule_created(row) is Ok {
                lemma_rule_created_consistent(self.conn@, row);
            }
            if self.conn@.consistent() && self.conn@.rule_row(id@) is None && self.conn@.joined(
                row,
            ) is Ok && self.conn@.has_keys_of(self.conn@.joined(row)->Ok_0) {
                lemma_rule_created_succeeds(self.conn@, row);
            }
        }
        let objects = self.conn.read_objects()?;

        let mut txn = self.conn.clone();
        let values = RuleValues::from(rule_type);
        let row = RuleModel {
            id,
            field_id,
            generation_type: values.generation_type,
            regex_pattern: values.regex_pattern,
            regex_replacer: values.regex_replacer,
        };
        let pair = txn.insert_rule(row)?;
        proof {
            lemma_position(txn@.fields, field_with(field_id@));
        }
        let (rule, commands) = sync_created_rule(pair, &objects)?;
        proof {
            let pairs = crate::derivation::keys_for_rule(
                rule@,
                self.conn@.objects_read()->Ok_0,
            )->Ok_0;
            lemma_create_for_rule(txn@, id@, pairs);
        }
        txn.execute_all(commands)?;
        self.conn = txn;
        Ok(rule)
    }
}

impl RuleRepository for RuleRepositoryImpl {
    closed spec fn state(&self) -> State {
        self.conn@
    }

    closed spec fn reliable(&self) -> bool {
        true
    }

    fn find_all(&self) -> (result: Result<Vec<Rule>, DomainError>) {
        Ok(to_rules(&self.conn.find_all_rules()?))
    }

    fn get(&self, id: String) -> (result: Result<Option<Rule>, DomainError>) {
        match self.conn.find_rule_by_id(id)? {
            None => Ok(None),
            Some(pair) => Ok(Some(to_rule(pair.0, pair.1))),
        }
    }

    fn create(&mut self, field_id: String, rule_type: GenerationRule) -> (result: Result<
        Rule,
        DomainError,
    >) {
        self.create_with_id(new_id(), field_id, rule_type)
    }

    fn update(&mut self, id: String, field_id: String, rule_type: GenerationRule) -> (result: Result<
        Rule,
        DomainError,
    >) {
        proof {
            let row = RuleRow { id: id@, field_id: field_id@, rule_type: rule_type@ };
            if self.conn@.complete() && self.conn@.rule_updated(row) is Ok {
                lemma_rule_updated_complete(self.conn@, row);
            }
            if self.conn@.consistent() && self.conn@.rule_updated(row) is Ok {
                lemma_rule_updated_consistent(self.conn@, row);
            }
            if self.conn@.consistent() && self.conn@.rule_row(id@) is Some && self.conn@.joined(
                row,
            ) is Ok && self.conn@.has_keys_of(self.conn@.joined(row)->Ok_0) {
                lemma_rule_updated_succeeds(self.conn@, row);
            }
        }
        let objects = self.conn.read_objects()?;

        let mut txn = self.conn.clone();
        let pair = txn.update_rule(id, field_id, rule_type)?;
        proof {
            lemma_position(txn@.fields, field_with(field_id@));
        }
        let (rule, commands) = sync_updated_rule(pair, &objects)?;
        proof {
            let pairs = crate::derivation::keys_for_rule(
                rule@,
                self.conn@.objects_read()->Ok_0,
            )->Ok_0;
            lemma_replace_for_rule(txn@, id@, pairs);
        }
        txn.execute_all(commands)?;
        self.conn = txn;
        Ok(rule)
    }

    fn delete(&mut self, id: String) -> (result: Result<(), DomainError>) {
        proof {
            if self.conn@.complete() {
                lemma_rule_deleted_complete(self.conn@, id@);
            }
            if self.conn@.consistent() {
                lemma_rule_deleted_consistent(self.conn@, id@);
            }
        }
        let mut txn = self.conn.clone();
        txn.rules.delete(id.clone());
        let commands = sync_deleted_rule(id);
        proof {
            let command = crate::repository::commands::KeyCommandView::DeleteByRuleId(id@);
            assert(seq![command].drop_first() =~= Seq::empty());
            assert(txn@.executed(command)->Ok_0.executed_all(Seq::empty()) == txn@.executed(command));
        }
        txn.execute_all(commands)?;
        self.conn = txn;
        Ok(())
    }
}

} // verus!
