use crate::error::{DomainError, DomainErrorView};
use crate::fields::{Field, FieldView};
use crate::objects::Object;
use crate::state::{RuleRow, State};
use vstd::prelude::*;

verus! {

/// A compiled regular expression of the `regex` crate.
#[verifier::external_type_specification]
#[verifier::external_body]
pub struct ExRegex(regex::Regex);

/// The error with which the `regex` crate refuses a pattern.
#[verifier::external_type_specification]
#[verifier::external_body]
pub struct ExRegexError(regex::Error);

/// Whether `regex::Regex::new` accepts the pattern.
pub uninterp spec fn pattern_compiles(pattern: Seq<char>) -> bool;

/// The pattern that a compiled expression was made from, as
/// `regex::Regex::as_str` gives it.
pub uninterp spec fn regex_source(regex: regex::Regex) -> Seq<char>;

/// Whether the compiled expression is as `regex::Regex::new` makes it of
/// its pattern: with no option set that a builder could set, so that the
/// pattern alone says what the expression matches.
pub uninterp spec fn regex_plain(regex: regex::Regex) -> bool;

/// What `regex::Regex::replace_all` makes of `haystack` for the expression
/// that `regex::Regex::new` compiles from `pattern`, and the replacement
/// text `replacer`.
pub uninterp spec fn replaced_all(pattern: Seq<char>, haystack: Seq<char>, replacer: Seq<char>) -> Seq<
    char,
>;

/// Calls `regex::Regex::new`. Trusted: the call succeeds exactly on the
/// patterns that [`pattern_compiles`] names, and the expression it gives
/// is plain and remembers the pattern it was made from.
#[verifier::external_body]
pub(crate) fn compile(pattern: &str) -> (compiled: Result<regex::Regex, regex::Error>)
    ensures
        compiled.is_ok() == pattern_compiles(pattern@),
        compiled matches Ok(regex) ==> regex_plain(regex) && regex_source(regex) == pattern@,
{
    regex::Regex::new(pattern)
}

/// Calls `regex::Regex::replace_all` with a replacement text, in which `$`
/// refers to capture groups. Trusted: for a plain expression the result is
/// the text that [`replaced_all`] names for the expression's pattern, the
/// haystack and the replacement. Of an expression that a builder shaped
/// with options nothing is claimed.
#[verifier::external_body]
pub(crate) fn replace_all(regex: &regex::Regex, haystack: &str, replacer: &str) -> (replaced: String)
    ensures
        regex_plain(*regex) ==> replaced@ == replaced_all(
            regex_source(*regex),
            haystack@,
            replacer@,
        ),
{
    regex.replace_all(haystack, replacer).into_owned()
}

/// How a key is made from the value of an attribute.
#[derive(Debug, PartialEq, Eq)]
pub enum GenerationRule {
    /// The key is the value itself.
    Equals,
    /// The key is the value with every match of `pattern` replaced by
    /// `replacer`, which may refer to capture groups.
    Regex { pattern: String, replacer: String },
}

/// A [`GenerationRule`] with its texts as sequences of characters.
pub enum GenerationRuleView {
    Equals,
    Regex { pattern: Seq<char>, replacer: Seq<char> },
}

impl View for GenerationRule {
    type V = GenerationRuleView;

    open spec fn view(&self) -> GenerationRuleView {
        match self {
            GenerationRule::Equals => GenerationRuleView::Equals,
            GenerationRule::Regex { pattern, replacer } => GenerationRuleView::Regex {
                pattern: pattern@,
                replacer: replacer@,
            },
        }
    }
}

impl Clone for GenerationRule {
    fn clone(&self) -> (copy: Self)
        ensures
            copy == *self,
    {
        match self {
            GenerationRule::Equals => GenerationRule::Equals,
            GenerationRule::Regex { pattern, replacer } => GenerationRule::Regex {
                pattern: pattern.clone(),
                replacer: replacer.clone(),
            },
        }
    }
}

impl GenerationRuleView {
    /// The key that the rule makes from `value`, or the error with which it
    /// refuses its own pattern.
    pub open spec fn apply(self, value: Seq<char>) -> Result<Seq<char>, DomainErrorView> {
        match self {
            GenerationRuleView::Equals => Ok(value),
            GenerationRuleView::Regex { pattern, replacer } => if pattern_compiles(pattern) {
                Ok(replaced_all(pattern, value, replacer))
            } else {
                Err(DomainErrorView::InvalidPattern(pattern))
            },
        }
    }
}

/// A rule that derives a key from the attribute that its field names.
#[derive(Debug, PartialEq, Eq)]
pub struct Rule {
    pub id: String,
    pub field: Field,
    pub rule_type: GenerationRule,
}

/// A [`Rule`] as a mathematical value.
pub struct RuleView {
    pub id: Seq<char>,
    pub field: FieldView,
    pub rule_type: GenerationRuleView,
}

impl View for Rule {
    type V = RuleView;

    open spec fn view(&self) -> RuleView {
        RuleView { id: self.id@, field: self.field@, rule_type: self.rule_type@ }
    }
}

impl Clone for Rule {
    fn clone(&self) -> (copy: Self)
        ensures
            copy == *self,
    {
        Rule { id: self.id.clone(), field: self.field.clone(), rule_type: self.rule_type.clone() }
    }
}

impl RuleView {
    /// The key that the rule derives for an object with the given
    /// attributes: the attribute under the field's data label, passed
    /// through the generation rule. An object without that attribute has
    /// no key, whatever the rule.
    pub open spec fn key_for(self, attributes: Map<Seq<char>, Seq<char>>) -> Result<
        Seq<char>,
        DomainErrorView,
    > {
        if attributes.dom().contains(self.field.data_label) {
            self.rule_type.apply(attributes[self.field.data_label])
        } else {
            Err(DomainErrorView::MissingAttribute(self.field.data_label))
        }
    }
}

/// A result with the characters of its text, on either side.
pub open spec fn key_result_view(result: Result<String, DomainError>) -> Result<
    Seq<char>,
    DomainErrorView,
> {
    match result {
        Ok(key) => Ok(key@),
        Err(error) => Err(error@),
    }
}

/// Tells what the attempt to compile `pattern` came to: the expression, or
/// the pattern as an invalid one.
pub fn compiled_or_invalid(compiled: Result<regex::Regex, regex::Error>, pattern: &String) -> (outcome:
    Result<regex::Regex, DomainError>)
    ensures
        match compiled {
            Ok(regex) => outcome == Ok::<regex::Regex, DomainError>(regex),
            Err(_) => outcome matches Err(error) && error@ == DomainErrorView::InvalidPattern(
                pattern@,
            ),
        },
{
    match compiled {
        Ok(regex) => Ok(regex),
        Err(_) => Err(DomainError::InvalidPattern(pattern.clone())),
    }
}

impl GenerationRule {
    /// Makes the key from the value of the attribute.
    pub fn apply(&self, value: &String) -> (key: Result<String, DomainError>)
        ensures
            key_result_view(key) == self@.apply(value@),
    {
        match self {
            GenerationRule::Equals => Ok(value.clone()),
            GenerationRule::Regex { pattern, replacer } => {
                let regex = compiled_or_invalid(compile(pattern.as_str()), pattern)?;
                Ok(replace_all(&regex, value.as_str(), replacer.as_str()))
            },
        }
    }
}

impl Rule {
    /// Derives the key of `object` under this rule.
    pub fn generate_key(&self, object: Object) -> (key: Result<String, DomainError>)
        ensures
            key_result_view(key) == self@.key_for(object@.attributes),
    {
        match object.attributes.get(&self.field.data_label) {
            Some(value) => self.rule_type.apply(value),
            None => Err(DomainError::MissingAttribute(self.field.data_label.clone())),
        }
    }
}

/// The rules of a list as mathematical values, in the same order.
pub open spec fn rules_view(rules: Seq<Rule>) -> Seq<RuleView> {
    rules.map_values(|rule: Rule| rule@)
}

/// A rule that was or was not found, as a mathematical value.
pub open spec fn found_rule_view(found: Option<Rule>) -> Option<RuleView> {
    match found {
        Some(rule) => Some(rule@),
        None => None,
    }
}

impl RuleView {
    /// The rule as a store holds it.
    pub open spec fn row(self) -> RuleRow {
        RuleRow { id: self.id, field_id: self.field.id, rule_type: self.rule_type }
    }
}

/// Access to the rules of a store. What changes a rule changes its keys
/// with it, so that a store in which every rule has exactly one key for
/// every object stays such a store; what fails changes nothing.
pub trait RuleRepository {
    /// What the store holds.
    spec fn state(&self) -> State;

    /// Whether calls fail only where the rules of the store refuse them.
    spec fn reliable(&self) -> bool;

    /// All rules, each with its field, oldest first.
    fn find_all(&self) -> (result: Result<Vec<Rule>, DomainError>)
        ensures
            match result {
                Ok(rules) => self.state().rules_joined() == Ok::<Seq<RuleView>, DomainErrorView>(
                    rules_view(rules@),
                ),
                Err(error) => self.reliable() ==> self.state().rules_joined() == Err::<
                    Seq<RuleView>,
                    DomainErrorView,
                >(error@),
            },
    ;

    /// The rule with the identifier, with its field.
    fn get(&self, id: String) -> (result: Result<Option<Rule>, DomainError>)
        ensures
            match result {
                Ok(found) => self.state().rule(id@) == Ok::<Option<RuleView>, DomainErrorView>(
                    found_rule_view(found),
                ),
                Err(error) => self.reliable() ==> self.state().rule(id@) == Err::<
                    Option<RuleView>,
                    DomainErrorView,
                >(error@),
            },
    ;

    /// Creates a rule under a new identifier, and its key for every object.
    fn create(&mut self, field_id: String, rule_type: GenerationRule) -> (result: Result<
        Rule,
        DomainError,
    >)
        ensures
            match result {
                Ok(rule) => {
                    &&& rule@.field.id == field_id@
                    &&& rule@.rule_type == rule_type@
                    &&& old(self).state().rule_created(rule@.row()) == Ok::<State, DomainErrorView>(
                        final(self).state(),
                    )
                    &&& final(self).state().joined(rule@.row()) == Ok::<RuleView, DomainErrorView>(
                        rule@,
                    )
                },
                Err(error) => {
                    &&& final(self).state() == old(self).state()
                    &&& old(self).reliable() ==> exists|id: Seq<char>| #[trigger]
                        old(self).state().rule_created(
                            RuleRow { id, field_id: field_id@, rule_type: rule_type@ },
                        ) == Err::<State, DomainErrorView>(error@)
                },
            },
            old(self).state().complete() ==> final(self).state().complete(),
            old(self).state().consistent() ==> final(self).state().consistent(),
            final(self).reliable() == old(self).reliable(),
    ;

    /// Gives the rule with the identifier another field and another way to
    /// make keys, and other keys with them.
    fn update(&mut self, id: String, field_id: String, rule_type: GenerationRule) -> (result: Result<
        Rule,
        DomainError,
    >)
        ensures
            match result {
                Ok(rule) => {
                    &&& rule@.row() == (RuleRow { id: id@, field_id: field_id@, rule_type: rule_type@ })
                    &&& old(self).state().rule_updated(rule@.row()) == Ok::<State, DomainErrorView>(
                        final(self).state(),
                    )
                    &&& final(self).state().joined(rule@.row()) == Ok::<RuleView, DomainErrorView>(
                        rule@,
                    )
                },
                Err(error) => {
                    &&& final(self).state() == old(self).state()
                    &&& old(self).reliable() ==> old(self).state().rule_updated(
                        RuleRow { id: id@, field_id: field_id@, rule_type: rule_type@ },
                    ) == Err::<State, DomainErrorView>(error@)
                },
            },
            ({
                let row = RuleRow { id: id@, field_id: field_id@, rule_type: rule_type@ };
                old(self).reliable() && old(self).state().consistent() && old(self).state().rule_row(
                    id@,
                ) is Some && old(self).state().joined(row) is Ok && old(self).state().has_keys_of(
                    old(self).state().joined(row)->Ok_0,
                ) ==> result is Ok
            }),
            old(self).state().complete() ==> final(self).state().complete(),
            old(self).state().consistent() ==> final(self).state().consistent(),
            final(self).reliable() == old(self).reliable(),
    ;

    /// Removes the rule with the identifier, and its keys.
    fn delete(&mut self, id: String) -> (result: Result<(), DomainError>)
        ensures
            match result {
                Ok(()) => final(self).state() == old(self).state().rule_deleted(id@),
                Err(_) => final(self).state() == old(self).state() && !old(self).reliable(),
            },
            old(self).state().complete() ==> final(self).state().complete(),
            old(self).state().consistent() ==> final(self).state().consistent(),
            final(self).reliable() == old(self).reliable(),
    ;
}

} // verus!
