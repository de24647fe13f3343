use crate::error::{DomainError, DomainErrorView};
use crate::fields::Field;
use crate::objects::{objects_view, pairs_view, Attributes, Object, ObjectView};
use crate::rules::{rules_view, GenerationRule, Rule, RuleView};
use crate::sequences::{collect, lemma_collect_prefix_err, lemma_collect_step};
use crate::state::{object_of, State};
use vstd::prelude::*;

pub mod client;
pub mod entities;

use client::fields::FieldTable;
use client::keys::KeyTable;
use client::objects::ObjectTable;
use client::rules::{RuleTable, RuleValues};
use client::duplicate_key_error;
use entities::{all_scalar, texts, AttributeValue, Document, GenerationType, ObjectModel, RuleModel};

verus! {

/// An object, or an error, as mathematical values.
pub open spec fn object_result_view(result: Result<Object, DomainError>) -> Result<
    ObjectView,
    DomainErrorView,
> {
    match result {
        Ok(object) => Ok(object@),
        Err(error) => Err(error@),
    }
}

/// The object that a stored row stands for. A document that is no flat
/// record of scalars stands for none.
pub fn to_object(object: ObjectModel) -> (result: Result<Object, DomainError>)
    ensures
        object_result_view(result) == object_of(object@),
{
    match &object.attributes {
        Document::Other => Err(DomainError::Unexpected(String::new())),
        Document::Record(entries) => {
            let mut attributes = Attributes::new();
            let mut i: usize = 0;
            assert(texts(entries@).take(0) =~= Seq::empty());
            while i < entries.len()
                invariant
                    i <= entries@.len(),
                    object.attributes == Document::Record(*entries),
                    all_scalar(entries@.take(i as int)),
                    attributes@ == crate::objects::pairs_map(texts(entries@).take(i as int)),
                decreases entries@.len() - i,
            {
                match &entries[i].1 {
                    AttributeValue::Composite => {
                        assert(!((#[trigger] entries@[i as int]).1 is Scalar));
                        return Err(DomainError::Unexpected(String::new()));
                    },
                    AttributeValue::Scalar(text) => {
                        attributes.insert(entries[i].0.clone(), text.clone());
                        proof {
                            let all = texts(entries@);
                            assert(all.take(i + 1).drop_last() =~= all.take(i as int));
                            assert forall|j: int| 0 <= j < i + 1 implies (#[trigger] entries@.take(
                                i + 1,
                            )[j]).1 is Scalar by {
                                if j < i {
                                    assert(entries@.take(i as int)[j] == entries@[j]);
                                }
                            }
                        }
                    },
                }
                i += 1;
            }
            proof {
                assert(entries@.take(i as int) =~= entries@);
                assert(texts(entries@).take(i as int) =~= texts(entries@));
            }
            Ok(Object { id: object.id, attributes })
        },
    }
}

/// The document in which the attributes are stored.
pub fn to_document(attributes: &Attributes) -> (document: Document)
    ensures
        document@ == Some(attributes@),
{
    let pairs = attributes.to_pairs();
    let mut entries: Vec<(String, AttributeValue)> = Vec::new();
    let mut i: usize = 0;
    while i < pairs.len()
        invariant
            i <= pairs@.len(),
            entries@.len() == i,
            all_scalar(entries@),
            texts(entries@) == pairs_view(pairs@).take(i as int),
        decreases pairs@.len() - i,
    {
        let ghost before = entries@;
        entries.push((pairs[i].0.clone(), AttributeValue::Scalar(pairs[i].1.clone())));
        proof {
            assert forall|j: int| 0 <= j < entries@.len() implies (
            #[trigger] entries@[j]).1 is Scalar by {
                if j < i {
                    assert(entries@[j] == before[j]);
                }
            }
            assert forall|j: int| 0 <= j < i + 1 implies texts(entries@)[j] == pairs_view(pairs@)[j] by {
                if j < i {
                    assert(texts(entries@)[j] == texts(before)[j]);
                }
            }
            assert(texts(entries@) =~= pairs_view(pairs@).take(i + 1));
        }
        i += 1;
    }
    assert(pairs_view(pairs@).take(i as int) =~= pairs_view(pairs@));
    Document::Record(entries)
}

/// The text of a column, or the empty text where the column holds nothing.
fn column_text(column: Option<String>) -> (text: String)
    ensures
        text@ == entities::text_or_empty(column),
{
    match column {
        Some(text) => text,
        None => String::new(),
    }
}

/// The rule that a stored row and its field stand for.
pub fn to_rule(rule: RuleModel, field: Field) -> (result: Rule)
    ensures
        result@ == (RuleView { id: rule@.id, field: field@, rule_type: rule@.rule_type }),
{
    let rule_type = match rule.generation_type {
        GenerationType::Equals => GenerationRule::Equals,
        GenerationType::Regex => GenerationRule::Regex {
            pattern: column_text(rule.regex_pattern),
            replacer: column_text(rule.regex_replacer),
        },
    };
    Rule { id: rule.id, field, rule_type }
}

/// The rule that a stored row stands for beside its field.
pub open spec fn joined_pair(pair: (RuleModel, Field)) -> RuleView {
    RuleView { id: pair.0@.id, field: pair.1@, rule_type: pair.0@.rule_type }
}

/// The rules that stored rows stand for beside their fields.
pub open spec fn joined_pairs(pairs: Seq<(RuleModel, Field)>) -> Seq<RuleView> {
    pairs.map_values(|pair: (RuleModel, Field)| joined_pair(pair))
}

/// The rules that stored rows and their fields stand for, in the same
/// order.
pub fn to_rules(pairs: &Vec<(RuleModel, Field)>) -> (rules: Vec<Rule>)
    ensures
        rules_view(rules@) == joined_pairs(pairs@),
{
    let mut rules: Vec<Rule> = Vec::new();
    let mut i: usize = 0;
    assert(rules_view(rules@) =~= joined_pairs(pairs@).take(0));
    while i < pairs.len()
        invariant
            i <= pairs@.len(),
            rules@.len() == i,
            rules_view(rules@) == joined_pairs(pairs@).take(i as int),
        decreases pairs@.len() - i,
    {
        let ghost before = rules_view(rules@);
        rules.push(to_rule(pairs[i].0.clone(), pairs[i].1.clone()));
        proof {
            assert forall|j: int| 0 <= j < i + 1 implies rules_view(rules@)[j] == joined_pairs(
                pairs@,
            )[j] by {
                if j < i {
                    assert(rules_view(rules@)[j] == before[j]);
                }
            }
            assert(rules_view(rules@) =~= joined_pairs(pairs@).take(i + 1));
        }
        i += 1;
    }
    assert(joined_pairs(pairs@).take(i as int) =~= joined_pairs(pairs@));
    rules
}

/// A list of objects, or an error, as mathematical values.
pub open spec fn objects_result_view(result: Result<Vec<Object>, DomainError>) -> Result<
    Seq<ObjectView>,
    DomainErrorView,
> {
    match result {
        Ok(objects) => Ok(objects_view(objects@)),
        Err(error) => Err(error@),
    }
}

/// The store: four tables.
#[derive(Debug)]
pub struct Database {
    pub fields: FieldTable,
    pub objects: ObjectTable,
    pub rules: RuleTable,
    pub keys: KeyTable,
}

impl View for Database {
    type V = State;

    open spec fn view(&self) -> State {
        State { fields: self.fields@, objects: self.objects@, rules: self.rules@, keys: self.keys@ }
    }
}

impl Clone for Database {
    fn clone(&self) -> (copy: Self)
        ensures
            copy@ == self@,
    {
        Database {
            fields: self.fields.clone(),
            objects: self.objects.clone(),
            rules: self.rules.clone(),
            keys: self.keys.clone(),
        }
    }
}

impl Database {
    /// A store in which nothing was ever created.
    pub fn new() -> (database: Self)
        ensures
            database@ == State::empty(),
    {
        Database {
            fields: FieldTable::new(),
            objects: ObjectTable::new(),
            rules: RuleTable::new(),
            keys: KeyTable::new(),
        }
    }

    /// All objects, oldest first; none where the document of one is no
    /// flat record of scalars.
    pub fn read_objects(&self) -> (result: Result<Vec<Object>, DomainError>)
        ensures
            objects_result_view(result) == self@.objects_read(),
    {
        let models = self.objects.find_all();
        let ghost outcomes = self@.read_outcomes();
        let mut objects: Vec<Object> = Vec::new();
        let mut i: usize = 0;
        proof {
            assert(outcomes.take(0) =~= Seq::empty());
            assert(objects_view(objects@) =~= Seq::empty());
        }
        while i < models.len()
            invariant
                i <= models@.len(),
                client::objects::object_rows(models@) == self@.objects,
                outcomes == self@.read_outcomes(),
                collect(outcomes.take(i as int)) == Ok::<Seq<ObjectView>, DomainErrorView>(
                    objects_view(objects@),
                ),
            decreases models@.len() - i,
        {
            proof {
                lemma_collect_step(outcomes, i as int);
                assert(client::objects::object_rows(models@)[i as int] == models@[i as int]@);
            }
            match to_object(models[i].clone()) {
                Ok(object) => {
                    let ghost before = objects_view(objects@);
                    objects.push(object);
                    assert(objects_view(objects@) =~= before.push(object@));
                },
                Err(error) => {
                    proof {
                        lemma_collect_prefix_err(outcomes, i + 1);
                    }
                    return Err(error);
                },
            }
            i += 1;
        }
        proof {
            assert(client::objects::object_rows(models@).len() == models@.len());
            assert(outcomes.take(i as int) =~= outcomes);
        }
        Ok(objects)
    }

    /// The stored rule beside its field.
    fn join(&self, rule: RuleModel) -> (result: Result<(RuleModel, Field), DomainError>)
        ensures
            match result {
                Ok(pair) => pair.0 == rule && self@.joined(rule@) == Ok::<RuleView, DomainErrorView>(
                    joined_pair(pair),
                ),
                Err(error) => self@.joined(rule@) == Err::<RuleView, DomainErrorView>(error@),
            },
    {
        match self.fields.find_by_id(rule.field_id.clone()) {
            Some(field) => Ok((rule, field)),
            None => Err(DomainError::NotFound(rule.field_id)),
        }
    }

    /// The rule with the identifier, beside its field.
    pub fn find_rule_by_id(&self, id: String) -> (result: Result<
        Option<(RuleModel, Field)>,
        DomainError,
    >)
        ensures
            match result {
                Ok(Some(pair)) => self@.rule(id@) == Ok::<Option<RuleView>, DomainErrorView>(
                    Some(joined_pair(pair)),
                ),
                Ok(None) => self@.rule(id@) == Ok::<Option<RuleView>, DomainErrorView>(None),
                Err(error) => self@.rule(id@) == Err::<Option<RuleView>, DomainErrorView>(error@),
            },
    {
        match self.rules.find_by_id(id) {
            None => Ok(None),
            Some(rule) => {
                let pair = self.join(rule)?;
                Ok(Some(pair))
            },
        }
    }

    /// All rules, each beside its field, oldest first.
    pub fn find_all_rules(&self) -> (result: Result<Vec<(RuleModel, Field)>, DomainError>)
        ensures
            match result {
                Ok(pairs) => self@.rules_joined() == Ok::<Seq<RuleView>, DomainErrorView>(
                    joined_pairs(pairs@),
                ),
                Err(error) => self@.rules_joined() == Err::<Seq<RuleView>, DomainErrorView>(error@),
            },
    {
        let rules = self.rules.find_all();
        let ghost outcomes = self@.join_outcomes();
        let mut pairs: Vec<(RuleModel, Field)> = Vec::new();
        let mut i: usize = 0;
        proof {
            assert(outcomes.take(0) =~= Seq::empty());
            assert(joined_pairs(pairs@) =~= Seq::empty());
        }
        while i < rules.len()
            invariant
                i <= rules@.len(),
                client::rules::rule_rows(rules@) == self@.rules,
                outcomes == self@.join_outcomes(),
                collect(outcomes.take(i as int)) == Ok::<Seq<RuleView>, DomainErrorView>(
                    joined_pairs(pairs@),
                ),
            decreases rules@.len() - i,
        {
            proof {
                lemma_collect_step(outcomes, i as int);
                assert(client::rules::rule_rows(rules@)[i as int] == rules@[i as int]@);
            }
            match self.join(rules[i].clone()) {
                Ok(pair) => {
                    let ghost before = joined_pairs(pairs@);
                    pairs.push(pair);
                    assert(joined_pairs(pairs@) =~= before.push(joined_pair(pair)));
                },
                Err(error) => {
                    proof {
                        lemma_collect_prefix_err(outcomes, i + 1);
                    }
                    return Err(error);
                },
            }
            i += 1;
        }
        proof {
            assert(rules@.len() == outcomes.len()) by {
                assert(client::rules::rule_rows(rules@).len() == rules@.len());
            }
            assert(outcomes.take(i as int) =~= outcomes);
        }
        Ok(pairs)
    }

    /// Adds the rule, unless a rule has its identifier already or its field
    /// is not there.
    pub fn insert_rule(&mut self, rule: RuleModel) -> (result: Result<(RuleModel, Field), DomainError>)
        ensures
            match result {
                Ok(pair) => pair.0 == rule && old(self)@.rule_inserted(rule@) == Ok::<
                    State,
                    DomainErrorView,
                >(final(self)@) && final(self)@.joined(rule@) == Ok::<RuleView, DomainErrorView>(
                    joined_pair(pair),
                ),
                Err(error) => old(self)@.rule_inserted(rule@) == Err::<State, DomainErrorView>(
                    error@,
                ) && final(self)@ == old(self)@,
            },
    {
        if self.rules.find_by_id(rule.id.clone()).is_some() {
            return Err(duplicate_key_error());
        }
        let pair = self.join(rule.clone())?;
        self.rules.insert(rule)?;
        Ok(pair)
    }

    /// Gives the rule with the identifier another field and another way to
    /// make keys.
    pub fn update_rule(&mut self, id: String, field_id: String, rule_type: GenerationRule) -> (result:
        Result<(RuleModel, Field), DomainError>)
        ensures
            match result {
                Ok(pair) => pair.0@ == (crate::state::RuleRow {
                    id: id@,
                    field_id: field_id@,
                    rule_type: rule_type@,
                }) && old(self)@.rule_replaced(pair.0@) == Ok::<State, DomainErrorView>(final(self)@)
                    && final(self)@.joined(pair.0@) == Ok::<RuleView, DomainErrorView>(
                    joined_pair(pair),
                ),
                Err(error) => old(self)@.rule_replaced(
                    crate::state::RuleRow { id: id@, field_id: field_id@, rule_type: rule_type@ },
                ) == Err::<State, DomainErrorView>(error@) && final(self)@ == old(self)@,
            },
    {
        if self.rules.find_by_id(id.clone()).is_none() {
            return Err(DomainError::NotFound(id));
        }
        let values = RuleValues::from(rule_type);
        let rule = RuleModel {
            id,
            field_id,
            generation_type: values.generation_type,
            regex_pattern: values.regex_pattern,
            regex_replacer: values.regex_replacer,
        };
        let pair = self.join(rule.clone())?;
        self.rules.replace(rule);
        Ok(pair)
    }
}

} // verus!
