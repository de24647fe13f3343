use key_sync::derivation::{derive_keys_for_object, derive_keys_for_rule};
use key_sync::error::DomainError;
use key_sync::evaluator::RuleEvaluator;
use key_sync::fields::Field;
use key_sync::objects::{Attributes, Object};
use key_sync::rules::{GenerationRule, Rule};

fn text(s: &str) -> String {
    s.to_string()
}

fn field(data_label: &str) -> Field {
    Field { id: text("field-1"), data_label: text(data_label), label: text("Label") }
}

fn object(pairs: Vec<(&str, &str)>) -> Object {
    let pairs = pairs.into_iter().map(|(k, v)| (text(k), text(v))).collect();
    Object { id: text("object-1"), attributes: Attributes::from_pairs(pairs) }
}

#[test]
fn equals_rule_copies_the_attribute() {
    let rule = Rule { id: text("rule-1"), field: field("email"), rule_type: GenerationRule::Equals };
    let key = rule.generate_key(object(vec![("email", "a@b.com")]));
    assert_eq!(key, Ok(text("a@b.com")));
}

#[test]
fn regex_rule_rewrites_the_attribute() {
    let rule = Rule {
        id: text("rule-1"),
        field: field("phone"),
        rule_type: GenerationRule::Regex { pattern: text("^(\\d{3})-.*$"), replacer: text("$1") },
    };
    let key = rule.generate_key(object(vec![("phone", "555-1234")]));
    assert_eq!(key, Ok(text("555")));
}

#[test]
fn regex_rule_replaces_every_match() {
    let rule = Rule {
        id: text("rule-1"),
        field: field("code"),
        rule_type: GenerationRule::Regex { pattern: text("[0-9]+"), replacer: text("#") },
    };
    let key = rule.generate_key(object(vec![("code", "a1b22c333")]));
    assert_eq!(key, Ok(text("a#b#c#")));
}

#[test]
fn missing_attribute_is_an_error() {
    let rule = Rule { id: text("rule-1"), field: field("email"), rule_type: GenerationRule::Equals };
    let key = rule.generate_key(object(vec![("name", "x")]));
    assert_eq!(key, Err(DomainError::MissingAttribute(text("email"))));
}

#[test]
fn invalid_pattern_is_an_error() {
    let rule = Rule {
        id: text("rule-1"),
        field: field("email"),
        rule_type: GenerationRule::Regex { pattern: text("foo(bar"), replacer: text("") },
    };
    let key = rule.generate_key(object(vec![("email", "x")]));
    assert_eq!(key, Err(DomainError::InvalidPattern(text("foo(bar"))));
}

#[test]
fn missing_attribute_comes_before_invalid_pattern() {
    let rule = Rule {
        id: text("rule-1"),
        field: field("email"),
        rule_type: GenerationRule::Regex { pattern: text("foo(bar"), replacer: text("") },
    };
    let key = rule.generate_key(object(vec![]));
    assert_eq!(key, Err(DomainError::MissingAttribute(text("email"))));
}

fn phone_rule(id: &str, pattern: &str, replacer: &str) -> Rule {
    Rule {
        id: text(id),
        field: field("phone"),
        rule_type: GenerationRule::Regex { pattern: text(pattern), replacer: text(replacer) },
    }
}

fn phone(id: &str, value: &str) -> Object {
    Object { id: text(id), attributes: Attributes::from_pairs(vec![(text("phone"), text(value))]) }
}

#[test]
fn evaluator_makes_the_keys_of_the_rule() {
    let mut evaluator = RuleEvaluator::new(phone_rule("r1", "^(\\d{3})-.*$", "$1"));
    assert_eq!(evaluator.generate_key(&phone("o1", "555-1234")), Ok(text("555")));
    assert_eq!(evaluator.generate_key(&object(vec![])), Err(DomainError::MissingAttribute(text("phone"))));
    assert_eq!(evaluator.generate_key(&phone("o2", "777-0000")), Ok(text("777")));
    assert_eq!(evaluator.generate_key(&phone("o3", "none")), Ok(text("none")));

    let mut copying = RuleEvaluator::new(Rule {
        id: text("r2"),
        field: field("phone"),
        rule_type: GenerationRule::Equals,
    });
    assert_eq!(copying.generate_key(&phone("o1", "555-1234")), Ok(text("555-1234")));

    let mut invalid = RuleEvaluator::new(phone_rule("r3", "foo(bar", ""));
    assert_eq!(invalid.generate_key(&object(vec![])), Err(DomainError::MissingAttribute(text("phone"))));
    assert_eq!(invalid.generate_key(&phone("o1", "x")), Err(DomainError::InvalidPattern(text("foo(bar"))));
    assert_eq!(invalid.generate_key(&phone("o1", "x")), Err(DomainError::InvalidPattern(text("foo(bar"))));
}

#[test]
fn keys_of_all_objects_under_one_rule() {
    let rule = phone_rule("r1", "-", "");
    let objects = vec![phone("o1", "555-12-34"), phone("o2", "777"), phone("o3", "-")];
    assert_eq!(
        derive_keys_for_rule(&rule, &objects),
        Ok(vec![(text("o1"), text("5551234")), (text("o2"), text("777")), (text("o3"), text(""))])
    );
    assert_eq!(derive_keys_for_rule(&rule, &vec![]), Ok(vec![]));
    assert_eq!(derive_keys_for_rule(&phone_rule("r1", "(", ""), &vec![]), Ok(vec![]));
    let objects = vec![phone("o1", "555"), object(vec![("name", "x")]), phone("o3", "777")];
    assert_eq!(derive_keys_for_rule(&rule, &objects), Err(DomainError::MissingAttribute(text("phone"))));
}

#[test]
fn keys_of_one_object_under_all_rules() {
    let rules = vec![
        phone_rule("r1", "-", ""),
        Rule { id: text("r2"), field: field("phone"), rule_type: GenerationRule::Equals },
    ];
    assert_eq!(
        derive_keys_for_object(&rules, &phone("o1", "555-1234")),
        Ok(vec![(text("r1"), text("5551234")), (text("r2"), text("555-1234"))])
    );
    assert_eq!(derive_keys_for_object(&vec![], &phone("o1", "555-1234")), Ok(vec![]));
    let rules = vec![phone_rule("r1", "-", ""), phone_rule("r2", "(", ""), phone_rule("r3", "[", "")];
    assert_eq!(
        derive_keys_for_object(&rules, &phone("o1", "555-1234")),
        Err(DomainError::InvalidPattern(text("(")))
    );
}
