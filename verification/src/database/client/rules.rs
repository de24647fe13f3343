use crate::database::client::duplicate_key_error;
use crate::database::entities::{GenerationType, RuleModel};
use crate::error::DomainError;
use crate::rules::GenerationRule;
use crate::sequences::{first, lemma_position_is, position};
use crate::state::{duplicate_key, rule_with, rule_without, RuleRow};
use vstd::prelude::*;

verus! {

/// The stored rules of a list as mathematical values, in the same order.
pub open spec fn rule_rows(rules: Seq<RuleModel>) -> Seq<RuleRow> {
    rules.map_values(|rule: RuleModel| rule@)
}

/// A way to make keys, laid out in the columns of the store.
pub struct RuleValues {
    pub generation_type: GenerationType,
    pub regex_pattern: Option<String>,
    pub regex_replacer: Option<String>,
}

impl RuleValues {
    /// The columns for a way to make keys: a regex rule fills the columns
    /// for pattern and replacer, the other leaves them empty.
    pub fn from(value: GenerationRule) -> (values: Self)
        ensures
            match value {
                GenerationRule::Equals => values.generation_type == GenerationType::Equals
                    && values.regex_pattern is None && values.regex_replacer is None,
                GenerationRule::Regex { pattern, replacer } => values.generation_type
                    == GenerationType::Regex && values.regex_pattern == Some(pattern)
                    && values.regex_replacer == Some(replacer),
            },
    {
        match value {
            GenerationRule::Equals => RuleValues {
                generation_type: GenerationType::Equals,
                regex_pattern: None,
                regex_replacer: None,
            },
            GenerationRule::Regex { pattern, replacer } => RuleValues {
                generation_type: GenerationType::Regex,
                regex_pattern: Some(pattern),
                regex_replacer: Some(replacer),
            },
        }
    }
}

/// The table of rules: its rows in the order in which they were created.
#[derive(Debug)]
pub struct RuleTable {
    rows: Vec<RuleModel>,
}

impl View for RuleTable {
    type V = Seq<RuleRow>;

    closed spec fn view(&self) -> Seq<RuleRow> {
        rule_rows(self.rows@)
    }
}

impl Clone for RuleTable {
    fn clone(&self) -> (copy: Self)
        ensures
            copy@ == self@,
    {
        RuleTable { rows: self.find_all() }
    }
}

impl RuleTable {
    /// A table without rows.
    pub fn new() -> (table: Self)
        ensures
            table@ == Seq::<RuleRow>::empty(),
    {
        let table = RuleTable { rows: Vec::new() };
        assert(table@ =~= Seq::<RuleRow>::empty());
        table
    }

    /// Where the first row with the identifier stands, or the number of
    /// rows where none has it.
    fn index_of(&self, id: &String) -> (i: usize)
        ensures
            i == position(self@, rule_with(id@)),
            i <= self.rows@.len(),
    {
        let mut i: usize = 0;
        while i < self.rows.len()
            invariant
                i <= self.rows@.len(),
                forall|j: int| 0 <= j < i ==> !rule_with(id@)(#[trigger] self@[j]),
            decreases self.rows@.len() - i,
        {
            if self.rows[i].id == *id {
                proof {
                    lemma_position_is(self@, rule_with(id@), i as int);
                }
                return i;
            }
            i += 1;
        }
        proof {
            lemma_position_is(self@, rule_with(id@), i as int);
        }
        i
    }

    /// The row with the identifier.
    pub fn find_by_id(&self, id: String) -> (found: Option<RuleModel>)
        ensures
            match found {
                Some(rule) => first(self@, rule_with(id@)) == Some(rule@),
                None => first(self@, rule_with(id@)) is None,
            },
    {
        let i = self.index_of(&id);
        if i < self.rows.len() {
            Some(self.rows[i].clone())
        } else {
            None
        }
    }

    /// All rows, oldest first.
    pub fn find_all(&self) -> (rules: Vec<RuleModel>)
        ensures
            rule_rows(rules@) == self@,
    {
        let mut rules: Vec<RuleModel> = Vec::new();
        let mut i: usize = 0;
        while i < self.rows.len()
            invariant
                i <= self.rows@.len(),
                rules@ == self.rows@.take(i as int),
            decreases self.rows@.len() - i,
        {
            rules.push(self.rows[i].clone());
            assert(rules@ =~= self.rows@.take(i + 1));
            i += 1;
        }
        assert(self.rows@.take(i as int) =~= self.rows@);
        rules
    }

    /// Adds the row, unless a row has its identifier already.
    pub fn insert(&mut self, rule: RuleModel) -> (result: Result<(), DomainError>)
        ensures
            match result {
                Ok(()) => {
                    &&& first(old(self)@, rule_with(rule@.id)) is None
                    &&& final(self)@ == old(self)@.push(rule@)
                },
                Err(error) => {
                    &&& first(old(self)@, rule_with(rule@.id)) is Some
                    &&& final(self)@ == old(self)@
                    &&& error@ == duplicate_key()
                },
            },
    {
        let i = self.index_of(&rule.id);
        if i < self.rows.len() {
            return Err(duplicate_key_error());
        }
        self.rows.push(rule);
        assert(self@ =~= old(self)@.push(rule@));
        Ok(())
    }

    /// Puts the row in the place of the row with its identifier, and tells
    /// whether there was one.
    pub fn replace(&mut self, rule: RuleModel) -> (replaced: bool)
        ensures
            replaced == first(old(self)@, rule_with(rule@.id)) is Some,
            final(self)@ == if replaced {
                old(self)@.update(position(old(self)@, rule_with(rule@.id)), rule@)
            } else {
                old(self)@
            },
    {
        let i = self.index_of(&rule.id);
        if i >= self.rows.len() {
            return false;
        }
        self.rows.set(i, rule);
        assert(self@ =~= old(self)@.update(i as int, rule@));
        true
    }

    /// Removes the rule with the identifier.
    pub fn delete(&mut self, id: String)
        ensures
            final(self)@ == old(self)@.filter(rule_without(id@)),
    {
        let ghost stored = self@;
        let ghost kept_if = rule_without(id@);
        let mut kept: Vec<RuleModel> = Vec::new();
        let mut i: usize = 0;
        proof {
            assert(stored.take(0) =~= Seq::empty());
            stored.take(0).lemma_filter_len(kept_if);
            assert(rule_rows(kept@) =~= stored.take(0).filter(kept_if));
        }
        while i < self.rows.len()
            invariant
                i <= self.rows@.len(),
                stored == rule_rows(self.rows@),
                kept_if == rule_without(id@),
                rule_rows(kept@) == stored.take(i as int).filter(kept_if),
            decreases self.rows@.len() - i,
        {
            let ghost before = rule_rows(kept@);
            proof {
                assert(stored.take(i + 1) =~= stored.take(i as int).push(stored[i as int]));
                stored.take(i as int).lemma_filter_push(stored[i as int], kept_if);
            }
            if self.rows[i].id != id {
                kept.push(self.rows[i].clone());
                assert(rule_rows(kept@) =~= before.push(stored[i as int]));
            }
            i += 1;
        }
        assert(stored.take(i as int) =~= stored);
        self.rows = kept;
    }
}

} // verus!
