use crate::error::DomainError;
use crate::objects::Object;
use crate::rules::{
    compile, compiled_or_invalid, key_result_view, pattern_compiles, regex_plain, regex_source,
    replace_all, GenerationRule, GenerationRuleView, Rule, RuleView,
};
use vstd::prelude::*;

verus! {

/// A rule at work on many objects. The pattern of a regex rule is compiled
/// when the first key is made with it, and kept for the keys that follow.
pub struct RuleEvaluator {
    rule: Rule,
    compiled: Option<regex::Regex>,
}

impl RuleEvaluator {
    /// What is kept was compiled plainly from the pattern of the rule,
    /// which compiles.
    #[verifier::type_invariant]
    spec fn kept(&self) -> bool {
        match (self.compiled, self.rule@.rule_type) {
            (Some(regex), GenerationRuleView::Regex { pattern, replacer }) => pattern_compiles(
                pattern,
            ) && regex_plain(regex) && regex_source(regex) == pattern,
            (Some(_), GenerationRuleView::Equals) => false,
            (None, _) => true,
        }
    }

    /// The rule at work.
    pub closed spec fn rule(&self) -> RuleView {
        self.rule@
    }

    /// Sets the rule to work. Nothing is compiled yet.
    pub fn new(rule: Rule) -> (evaluator: Self)
        ensures
            evaluator.rule() == rule@,
    {
        RuleEvaluator { rule, compiled: None }
    }

    /// Derives the key of `object` under the rule, as [`Rule::generate_key`]
    /// does.
    pub fn generate_key(&mut self, object: &Object) -> (key: Result<String, DomainError>)
        ensures
            key_result_view(key) == old(self).rule().key_for(object@.attributes),
            final(self).rule() == old(self).rule(),
    {
        proof {
            use_type_invariant(&*self);
        }
        let value = match object.attributes.get(&self.rule.field.data_label) {
            Some(value) => value,
            None => {
                return Err(DomainError::MissingAttribute(self.rule.field.data_label.clone()));
            },
        };
        match &self.rule.rule_type {
            GenerationRule::Equals => Ok(value.clone()),
            GenerationRule::Regex { pattern, replacer } => {
                if let Some(regex) = &self.compiled {
                    return Ok(replace_all(regex, value.as_str(), replacer.as_str()));
                }
                let regex = compiled_or_invalid(compile(pattern.as_str()), pattern)?;
                let key = replace_all(&regex, value.as_str(), replacer.as_str());
                self.compiled = Some(regex);
                Ok(key)
            },
        }
    }
}

} // verus!
