use crate::error::{DomainError, DomainErrorView};
use crate::evaluator::RuleEvaluator;
use crate::objects::{objects_view, pairs_view, Object, ObjectView};
use crate::rules::{key_result_view, rules_view, Rule, RuleView};
use crate::sequences::{collect, lemma_collect_prefix_err, lemma_collect_step};
use vstd::prelude::*;

verus! {

/// A derived key beside the identifier it is listed under, or the error of
/// the derivation.
pub open spec fn keyed(id: Seq<char>, outcome: Result<Seq<char>, DomainErrorView>) -> Result<
    (Seq<char>, Seq<char>),
    DomainErrorView,
> {
    match outcome {
        Ok(key) => Ok((id, key)),
        Err(error) => Err(error),
    }
}

/// What each rule in turn makes of the attributes, under the rule's
/// identifier.
pub open spec fn outcomes_for_object(rules: Seq<RuleView>, attributes: Map<Seq<char>, Seq<char>>) -> Seq<
    Result<(Seq<char>, Seq<char>), DomainErrorView>,
> {
    rules.map_values(|rule: RuleView| keyed(rule.id, rule.key_for(attributes)))
}

/// What the rule makes of each object in turn, under the object's
/// identifier.
pub open spec fn outcomes_for_rule(rule: RuleView, objects: Seq<ObjectView>) -> Seq<
    Result<(Seq<char>, Seq<char>), DomainErrorView>,
> {
    objects.map_values(|object: ObjectView| keyed(object.id, rule.key_for(object.attributes)))
}

/// The keys of one object under every rule: a pair of rule identifier and
/// key for each rule, in the order of the rules; or the error of the first
/// rule that has no key for the object.
pub open spec fn keys_for_object(rules: Seq<RuleView>, attributes: Map<Seq<char>, Seq<char>>) -> Result<
    Seq<(Seq<char>, Seq<char>)>,
    DomainErrorView,
> {
    collect(outcomes_for_object(rules, attributes))
}

/// The keys of every object under one rule: a pair of object identifier and
/// key for each object, in the order of the objects; or the error of the
/// first object that the rule has no key for.
pub open spec fn keys_for_rule(rule: RuleView, objects: Seq<ObjectView>) -> Result<
    Seq<(Seq<char>, Seq<char>)>,
    DomainErrorView,
> {
    collect(outcomes_for_rule(rule, objects))
}

/// A list of pairs, or an error, with the characters of each text.
pub open spec fn pairs_result_view(result: Result<Vec<(String, String)>, DomainError>) -> Result<
    Seq<(Seq<char>, Seq<char>)>,
    DomainErrorView,
> {
    match result {
        Ok(pairs) => Ok(pairs_view(pairs@)),
        Err(error) => Err(error@),
    }
}

/// Evaluates every rule against the object. Any failure fails the whole.
pub fn derive_keys_for_object(rules: &Vec<Rule>, object: &Object) -> (keys: Result<
    Vec<(String, String)>,
    DomainError,
>)
    ensures
        pairs_result_view(keys) == keys_for_object(rules_view(rules@), object@.attributes),
{
    let ghost outcomes = outcomes_for_object(rules_view(rules@), object@.attributes);
    let mut keys: Vec<(String, String)> = Vec::new();
    let mut i: usize = 0;
    assert(outcomes.take(0) =~= Seq::empty());
    assert(pairs_view(keys@) =~= Seq::empty());
    while i < rules.len()
        invariant
            i <= rules@.len(),
            outcomes == outcomes_for_object(rules_view(rules@), object@.attributes),
            collect(outcomes.take(i as int)) == Ok::<Seq<(Seq<char>, Seq<char>)>, DomainErrorView>(
                pairs_view(keys@),
            ),
        decreases rules@.len() - i,
    {
        proof {
            lemma_collect_step(outcomes, i as int);
        }
        let outcome = rules[i].generate_key(object.clone());
        assert(key_result_view(outcome) == rules_view(rules@)[i as int].key_for(object@.attributes));
        match outcome {
            Ok(key) => {
                let ghost before = pairs_view(keys@);
                keys.push((rules[i].id.clone(), key));
                assert(pairs_view(keys@) =~= before.push((rules@[i as int].id@, key@)));
            },
            Err(error) => {
                proof {
                    lemma_collect_prefix_err(outcomes, i + 1);
                }
                return Err(error);
            },
        }
        i += 1;
    }
    assert(outcomes.take(i as int) =~= outcomes);
    Ok(keys)
}

/// Evaluates the rule against every object. Any failure fails the whole.
pub fn derive_keys_for_rule(rule: &Rule, objects: &Vec<Object>) -> (keys: Result<
    Vec<(String, String)>,
    DomainError,
>)
    ensures
        pairs_result_view(keys) == keys_for_rule(rule@, objects_view(objects@)),
{
    let ghost outcomes = outcomes_for_rule(rule@, objects_view(objects@));
    let mut evaluator = RuleEvaluator::new(rule.clone());
    let mut keys: Vec<(String, String)> = Vec::new();
    let mut i: usize = 0;
    assert(outcomes.take(0) =~= Seq::empty());
    assert(pairs_view(keys@) =~= Seq::empty());
    while i < objects.len()
        invariant
            i <= objects@.len(),
            evaluator.rule() == rule@,
            outcomes == outcomes_for_rule(rule@, objects_view(objects@)),
            collect(outcomes.take(i as int)) == Ok::<Seq<(Seq<char>, Seq<char>)>, DomainErrorView>(
                pairs_view(keys@),
            ),
        decreases objects@.len() - i,
    {
        proof {
            lemma_collect_step(outcomes, i as int);
        }
        let outcome = evaluator.generate_key(&objects[i]);
        assert(key_result_view(outcome) == rule@.key_for(objects_view(objects@)[i as int].attributes));
        match outcome {
            Ok(key) => {
                let ghost before = pairs_view(keys@);
                keys.push((objects[i].id.clone(), key));
                assert(pairs_view(keys@) =~= before.push((objects@[i as int].id@, key@)));
            },
            Err(error) => {
                proof {
                    lemma_collect_prefix_err(outcomes, i + 1);
                }
                return Err(error);
            },
        }
        i += 1;
    }
    assert(outcomes.take(i as int) =~= outcomes);
    Ok(keys)
}

} // verus!
