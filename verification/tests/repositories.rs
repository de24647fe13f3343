use key_sync::database::entities::{
    attribute_value_of, document_of, AttributeValue, Document, GenerationType, JsonValueKind,
    ObjectModel, RuleModel,
};
use key_sync::database::{to_document, to_object, to_rule, Database};
use key_sync::error::DomainError;
use key_sync::fields::{Field, FieldRepository};
use key_sync::keys::{Key, KeyRepository};
use key_sync::objects::{Attributes, Object, ObjectRepository};
use key_sync::repository::commands::{
    create_object_keys, create_rule_keys, replace_object_keys, replace_rule_keys, KeyCommand,
};
use key_sync::repository::fields::FieldRepositoryImpl;
use key_sync::repository::keys::KeyRepositoryImpl;
use key_sync::repository::objects::ObjectRepositoryImpl;
use key_sync::repository::rules::RuleRepositoryImpl;
use key_sync::repository::sync::{
    sync_created_object, sync_created_rule, sync_deleted_object, sync_deleted_rule,
    sync_updated_object, sync_updated_rule,
};
use key_sync::rules::{GenerationRule, Rule, RuleRepository};

fn text(s: &str) -> String {
    s.to_string()
}

fn attributes(pairs: &[(&str, &str)]) -> Attributes {
    Attributes::from_pairs(pairs.iter().map(|(k, v)| (text(k), text(v))).collect())
}

fn key(rule_id: &str, object_id: &str, key: &str) -> Key {
    Key { rule_id: text(rule_id), object_id: text(object_id), key: text(key) }
}

fn create_field(conn: Database, data_label: &str) -> (Database, Field) {
    let mut fields = FieldRepositoryImpl::new(conn);
    let field = fields.create(text(data_label), text("Label")).unwrap();
    (fields.into_connection(), field)
}

fn create_rule(conn: Database, id: &str, field_id: &str, rule_type: GenerationRule) -> (Database, Rule) {
    let mut rules = RuleRepositoryImpl::new(conn);
    let rule = rules.create_with_id(text(id), text(field_id), rule_type).unwrap();
    (rules.into_connection(), rule)
}

fn create_object(conn: Database, id: &str, pairs: &[(&str, &str)]) -> (Database, Object) {
    let mut objects = ObjectRepositoryImpl::new(conn);
    let object = objects.create_with_id(text(id), attributes(pairs)).unwrap();
    (objects.into_connection(), object)
}

fn digits() -> GenerationRule {
    GenerationRule::Regex { pattern: text("^(\\d{3})-.*$"), replacer: text("$1") }
}

#[test]
fn round_trip_field_rule_object_key() {
    let (conn, field) = create_field(Database::new(), "email");
    assert_eq!(field.data_label, "email");

    let mut rules = RuleRepositoryImpl::new(conn);
    let rule = rules.create(field.id.clone(), GenerationRule::Equals).unwrap();
    assert_eq!(rule.field, field);
    assert_eq!(rule.rule_type, GenerationRule::Equals);

    let mut objects = ObjectRepositoryImpl::new(rules.into_connection());
    let object = objects.create(attributes(&[("email", "a@b.com")])).unwrap();
    assert_eq!(object.attributes.get(&text("email")), Some(&text("a@b.com")));

    let conn = objects.into_connection();
    assert_eq!(
        conn.keys.find_all(),
        vec![Key { rule_id: rule.id.clone(), object_id: object.id.clone(), key: text("a@b.com") }]
    );
    assert_eq!(
        conn.keys.find_by_id(rule.id, object.id).map(|k| k.key),
        Some(text("a@b.com"))
    );
}

#[test]
fn new_identifiers_differ() {
    let (conn, first) = create_field(Database::new(), "email");
    let (conn, second) = create_field(conn, "phone");
    assert_ne!(first.id, second.id);
    assert_eq!(first.id.len(), 36);
    let fields = FieldRepositoryImpl::new(conn);
    assert_eq!(fields.find_all().unwrap(), vec![first, second]);
}

#[test]
fn field_update_changes_the_label_only() {
    let (conn, field) = create_field(Database::new(), "email");
    let mut fields = FieldRepositoryImpl::new(conn);
    let updated = fields.update(field.id.clone(), text("E-mail")).unwrap();
    assert_eq!(updated, Field { id: field.id.clone(), data_label: text("email"), label: text("E-mail") });
    assert_eq!(fields.find_all().unwrap(), vec![updated]);
    assert_eq!(fields.update(text("nowhere"), text("x")), Err(DomainError::NotFound(text("nowhere"))));
}

#[test]
fn object_create_derives_a_key_for_every_rule() {
    let (conn, email) = create_field(Database::new(), "email");
    let (conn, phone) = create_field(conn, "phone");
    let (conn, _) = create_rule(conn, "r1", &email.id, GenerationRule::Equals);
    let (conn, _) = create_rule(conn, "r2", &phone.id, digits());
    let (conn, _) = create_object(conn, "o1", &[("email", "a@b.com"), ("phone", "555-1234")]);
    let (conn, _) = create_object(conn, "o2", &[("phone", "777-0000"), ("email", "c@d.org")]);
    assert_eq!(
        conn.keys.find_all(),
        vec![
            key("r1", "o1", "a@b.com"),
            key("r2", "o1", "555"),
            key("r1", "o2", "c@d.org"),
            key("r2", "o2", "777"),
        ]
    );
}

#[test]
fn object_create_fails_whole_when_a_rule_fails() {
    let (conn, email) = create_field(Database::new(), "email");
    let (conn, phone) = create_field(conn, "phone");
    let (conn, _) = create_rule(conn, "r1", &email.id, GenerationRule::Equals);
    let (conn, _) = create_rule(conn, "r2", &phone.id, digits());
    let mut objects = ObjectRepositoryImpl::new(conn);
    let result = objects.create_with_id(text("o1"), attributes(&[("email", "a@b.com")]));
    assert_eq!(result.err(), Some(DomainError::MissingAttribute(text("phone"))));
    assert_eq!(objects.find_all().unwrap().len(), 0);
    assert_eq!(objects.get(text("o1")).unwrap().map(|o| o.id), None);
    let conn = objects.into_connection();
    assert_eq!(conn.keys.find_all(), vec![]);
}

#[test]
fn object_create_refuses_a_taken_identifier() {
    let (conn, _) = create_object(Database::new(), "o1", &[("a", "1")]);
    let mut objects = ObjectRepositoryImpl::new(conn);
    let result = objects.create_with_id(text("o1"), attributes(&[("a", "2")]));
    assert_eq!(
        result.err(),
        Some(DomainError::Unexpected(text("duplicate key value violates unique constraint")))
    );
    let found = objects.get(text("o1")).unwrap().unwrap();
    assert_eq!(found.attributes.get(&text("a")), Some(&text("1")));
}

#[test]
fn object_update_replaces_its_keys_and_no_others() {
    let (conn, email) = create_field(Database::new(), "email");
    let (conn, _) = create_rule(conn, "r1", &email.id, GenerationRule::Equals);
    let (conn, _) = create_rule(conn, "r2", &email.id, GenerationRule::Regex {
        pattern: text("@.*$"),
        replacer: text(""),
    });
    let (conn, _) = create_object(conn, "o1", &[("email", "a@b.com")]);
    let (conn, _) = create_object(conn, "o2", &[("email", "c@d.org")]);
    let mut objects = ObjectRepositoryImpl::new(conn);
    let updated = objects.update(text("o1"), attributes(&[("email", "x@y.net")])).unwrap();
    assert_eq!(updated.id, "o1");
    assert_eq!(updated.attributes.get(&text("email")), Some(&text("x@y.net")));
    let conn = objects.into_connection();
    assert_eq!(
        conn.keys.find_all(),
        vec![
            key("r1", "o2", "c@d.org"),
            key("r2", "o2", "c"),
            key("r1", "o1", "x@y.net"),
            key("r2", "o1", "x"),
        ]
    );
}

#[test]
fn object_update_fails_whole_when_a_rule_fails() {
    let (conn, email) = create_field(Database::new(), "email");
    let (conn, _) = create_rule(conn, "r1", &email.id, GenerationRule::Equals);
    let (conn, _) = create_object(conn, "o1", &[("email", "a@b.com")]);
    let mut objects = ObjectRepositoryImpl::new(conn);
    let result = objects.update(text("o1"), attributes(&[("name", "x")]));
    assert_eq!(result.err(), Some(DomainError::MissingAttribute(text("email"))));
    let found = objects.get(text("o1")).unwrap().unwrap();
    assert_eq!(found.attributes.get(&text("email")), Some(&text("a@b.com")));
    let conn = objects.into_connection();
    assert_eq!(conn.keys.find_all(), vec![key("r1", "o1", "a@b.com")]);
}

#[test]
fn object_update_of_a_missing_object_is_not_found() {
    let mut objects = ObjectRepositoryImpl::new(Database::new());
    let result = objects.update(text("o9"), attributes(&[]));
    assert_eq!(result.err(), Some(DomainError::NotFound(text("o9"))));
}

#[test]
fn object_delete_removes_its_keys() {
    let (conn, email) = create_field(Database::new(), "email");
    let (conn, _) = create_rule(conn, "r1", &email.id, GenerationRule::Equals);
    let (conn, _) = create_object(conn, "o1", &[("email", "a@b.com")]);
    let (conn, _) = create_object(conn, "o2", &[("email", "c@d.org")]);
    let mut objects = ObjectRepositoryImpl::new(conn);
    assert_eq!(objects.delete(text("o1")), Ok(()));
    assert_eq!(objects.find_all().unwrap().iter().map(|o| o.id.clone()).collect::<Vec<_>>(), vec![text("o2")]);
    let conn = objects.into_connection();
    assert_eq!(conn.keys.find_all(), vec![key("r1", "o2", "c@d.org")]);
}

#[test]
fn rule_create_derives_a_key_for_every_object() {
    let (conn, phone) = create_field(Database::new(), "phone");
    let (conn, _) = create_object(conn, "o1", &[("phone", "555-1234")]);
    let (conn, _) = create_object(conn, "o2", &[("phone", "777-0000")]);
    let (conn, rule) = create_rule(conn, "r1", &phone.id, digits());
    assert_eq!(rule, Rule { id: text("r1"), field: phone, rule_type: digits() });
    assert_eq!(conn.keys.find_all(), vec![key("r1", "o1", "555"), key("r1", "o2", "777")]);
}

#[test]
fn rule_create_without_objects_creates_no_keys() {
    let (conn, phone) = create_field(Database::new(), "phone");
    let (conn, _) = create_rule(conn, "r1", &phone.id, GenerationRule::Regex {
        pattern: text("foo(bar"),
        replacer: text(""),
    });
    assert_eq!(conn.keys.find_all(), vec![]);
    assert_eq!(conn.rules.find_all().len(), 1);
}

#[test]
fn rule_create_fails_whole_when_an_object_fails() {
    let (conn, phone) = create_field(Database::new(), "phone");
    let (conn, _) = create_object(conn, "o1", &[("phone", "555-1234")]);
    let (conn, _) = create_object(conn, "o2", &[("email", "c@d.org")]);
    let mut rules = RuleRepositoryImpl::new(conn);
    let result = rules.create_with_id(text("r1"), phone.id.clone(), digits());
    assert_eq!(result.err(), Some(DomainError::MissingAttribute(text("phone"))));
    assert_eq!(rules.find_all().unwrap(), vec![]);
    let result = rules.create_with_id(text("r1"), phone.id, GenerationRule::Regex {
        pattern: text("foo(bar"),
        replacer: text(""),
    });
    assert_eq!(result.err(), Some(DomainError::InvalidPattern(text("foo(bar"))));
    let conn = rules.into_connection();
    assert_eq!(conn.keys.find_all(), vec![]);
}

#[test]
fn rule_create_needs_its_field() {
    let mut rules = RuleRepositoryImpl::new(Database::new());
    let result = rules.create(text("f9"), GenerationRule::Equals);
    assert_eq!(result.err(), Some(DomainError::NotFound(text("f9"))));
    assert_eq!(rules.find_all().unwrap(), vec![]);
}

#[test]
fn rule_update_replaces_its_keys_and_no_others() {
    let (conn, phone) = create_field(Database::new(), "phone");
    let (conn, email) = create_field(conn, "email");
    let (conn, _) = create_rule(conn, "r1", &phone.id, digits());
    let (conn, _) = create_rule(conn, "r2", &email.id, GenerationRule::Equals);
    let (conn, _) = create_object(conn, "o1", &[("phone", "555-1234"), ("email", "a@b.com")]);
    let mut rules = RuleRepositoryImpl::new(conn);
    let updated = rules.update(text("r1"), email.id.clone(), GenerationRule::Equals).unwrap();
    assert_eq!(updated, Rule { id: text("r1"), field: email.clone(), rule_type: GenerationRule::Equals });
    assert_eq!(rules.get(text("r1")).unwrap(), Some(updated));
    assert_eq!(rules.get(text("r7")).unwrap(), None);
    let conn = rules.into_connection();
    assert_eq!(conn.keys.find_all(), vec![key("r2", "o1", "a@b.com"), key("r1", "o1", "a@b.com")]);
}

#[test]
fn rule_update_of_a_missing_rule_names_the_rule() {
    let (conn, phone) = create_field(Database::new(), "phone");
    let mut rules = RuleRepositoryImpl::new(conn);
    let result = rules.update(text("r9"), phone.id.clone(), GenerationRule::Equals);
    assert_eq!(result.err(), Some(DomainError::NotFound(text("r9"))));
    let result = rules.update(text("r9"), text("f9"), GenerationRule::Equals);
    assert_eq!(result.err(), Some(DomainError::NotFound(text("r9"))));
    assert_eq!(rules.find_all().unwrap(), vec![]);
}

#[test]
fn rule_update_to_a_missing_field_names_the_field() {
    let (conn, phone) = create_field(Database::new(), "phone");
    let (conn, rule) = create_rule(conn, "r1", &phone.id, GenerationRule::Equals);
    let (conn, _) = create_object(conn, "o1", &[("phone", "555")]);
    let mut rules = RuleRepositoryImpl::new(conn);
    let result = rules.update(text("r1"), text("f9"), GenerationRule::Equals);
    assert_eq!(result.err(), Some(DomainError::NotFound(text("f9"))));
    assert_eq!(rules.find_all().unwrap(), vec![rule]);
    let conn = rules.into_connection();
    assert_eq!(conn.keys.find_all(), vec![key("r1", "o1", "555")]);
}

#[test]
fn values_of_a_stored_document() {
    let scalar = |s: &str| AttributeValue::Scalar(text(s));
    assert_eq!(attribute_value_of(JsonValueKind::Text(text("a@b.com"))), scalar("a@b.com"));
    assert_eq!(attribute_value_of(JsonValueKind::Text(text(""))), scalar(""));
    assert_eq!(attribute_value_of(JsonValueKind::Number(text("42"))), scalar("42"));
    assert_eq!(attribute_value_of(JsonValueKind::Number(text("-1.5"))), scalar("-1.5"));
    assert_eq!(attribute_value_of(JsonValueKind::Bool(true)), scalar("true"));
    assert_eq!(attribute_value_of(JsonValueKind::Bool(false)), scalar("false"));
    assert_eq!(attribute_value_of(JsonValueKind::Null), AttributeValue::Composite);
    assert_eq!(attribute_value_of(JsonValueKind::Array), AttributeValue::Composite);
    assert_eq!(attribute_value_of(JsonValueKind::Object), AttributeValue::Composite);

    assert_eq!(document_of(None), Document::Other);
    assert_eq!(document_of(Some(vec![])), Document::Record(vec![]));
    let document = document_of(Some(vec![
        (text("a"), JsonValueKind::Text(text("x"))),
        (text("b"), JsonValueKind::Number(text("7"))),
        (text("c"), JsonValueKind::Bool(true)),
    ]));
    assert_eq!(
        document,
        Document::Record(vec![(text("a"), scalar("x")), (text("b"), scalar("7")), (text("c"), scalar("true"))])
    );
    let object = to_object(ObjectModel { id: text("o1"), attributes: document }).unwrap();
    assert_eq!(object.attributes, attributes(&[("a", "x"), ("b", "7"), ("c", "true")]));
    let refused = document_of(Some(vec![
        (text("a"), JsonValueKind::Text(text("x"))),
        (text("b"), JsonValueKind::Null),
    ]));
    assert_eq!(
        to_object(ObjectModel { id: text("o1"), attributes: refused }).err(),
        Some(DomainError::Unexpected(text("")))
    );
}

#[test]
fn rule_delete_removes_its_keys_and_no_others() {
    let (conn, phone) = create_field(Database::new(), "phone");
    let (conn, _) = create_rule(conn, "r1", &phone.id, digits());
    let (conn, _) = create_rule(conn, "r2", &phone.id, GenerationRule::Equals);
    let (conn, _) = create_object(conn, "o1", &[("phone", "555-1234")]);
    let mut rules = RuleRepositoryImpl::new(conn);
    assert_eq!(rules.delete(text("r1")), Ok(()));
    assert_eq!(rules.find_all().unwrap().iter().map(|r| r.id.clone()).collect::<Vec<_>>(), vec![text("r2")]);
    let conn = rules.into_connection();
    assert_eq!(conn.keys.find_all(), vec![key("r2", "o1", "555-1234")]);
}

#[test]
fn key_repository_creates_updates_and_deletes() {
    let mut keys = KeyRepositoryImpl::new(Database::new());
    assert_eq!(keys.create_by_rule(text("r1"), vec![(text("o1"), text("a")), (text("o2"), text("b"))]), Ok(()));
    assert_eq!(keys.create_by_rule(text("r2"), vec![(text("o1"), text("c"))]), Ok(()));
    assert_eq!(keys.create_by_rule(text("r1"), vec![(text("o1"), text("a")), (text("o2"), text("b"))]), Ok(()));
    assert_eq!(keys.create_by_rule(text("r1"), vec![(text("o3"), text("x")), (text("o2"), text("y"))]), Ok(()));
    assert_eq!(
        keys.create_by_rule(text("r3"), vec![(text("o3"), text("x")), (text("o3"), text("y"))]),
        Err(DomainError::Unexpected(text("duplicate key value violates unique constraint")))
    );
    assert_eq!(
        keys.update_by_rule(text("r3"), vec![(text("o3"), text("x")), (text("o3"), text("y"))]),
        Err(DomainError::Unexpected(text("duplicate key value violates unique constraint")))
    );
    assert_eq!(keys.update_by_rule(text("r1"), vec![(text("o2"), text("z"))]), Ok(()));
    let mut conn = keys.into_connection();
    assert_eq!(conn.keys.find_all(), vec![key("r2", "o1", "c"), key("r1", "o2", "z")]);
    assert_eq!(conn.keys.update(text("r1"), text("o2"), text("w")), Ok(key("r1", "o2", "w")));
    assert_eq!(conn.keys.update(text("r1"), text("o9"), text("w")), Err(DomainError::NotFound(text("r1"))));
    assert_eq!(conn.keys.create(text("r5"), text("o5"), text("k")), Ok(key("r5", "o5", "k")));
    assert!(conn.keys.create(text("r5"), text("o5"), text("k")).is_err());
    let mut keys = KeyRepositoryImpl::new(conn);
    assert_eq!(keys.delete_by_rule(text("r1")), Ok(()));
    let conn = keys.into_connection();
    assert_eq!(conn.keys.find_all(), vec![key("r2", "o1", "c"), key("r5", "o5", "k")]);
}

#[test]
fn stored_documents_are_flat_records_of_scalars() {
    let record = |entries: Vec<(&str, AttributeValue)>| ObjectModel {
        id: text("o1"),
        attributes: Document::Record(entries.into_iter().map(|(k, v)| (text(k), v)).collect()),
    };
    let object = to_object(record(vec![
        ("a", AttributeValue::Scalar(text("1"))),
        ("b", AttributeValue::Scalar(text("2"))),
        ("a", AttributeValue::Scalar(text("3"))),
    ]))
    .unwrap();
    assert_eq!(object.id, "o1");
    assert_eq!(object.attributes.get(&text("a")), Some(&text("3")));
    assert_eq!(object.attributes.get(&text("b")), Some(&text("2")));
    assert_eq!(object.attributes.get(&text("c")), None);
    assert_eq!(object.attributes.to_pairs().len(), 2);

    let refused = to_object(record(vec![
        ("a", AttributeValue::Scalar(text("1"))),
        ("b", AttributeValue::Composite),
    ]));
    assert_eq!(refused.err(), Some(DomainError::Unexpected(text(""))));
    let refused = to_object(ObjectModel { id: text("o1"), attributes: Document::Other });
    assert_eq!(refused.err(), Some(DomainError::Unexpected(text(""))));

    let stored = to_document(&attributes(&[("x", "1"), ("y", "2")]));
    let back = to_object(ObjectModel { id: text("o2"), attributes: stored }).unwrap();
    assert_eq!(back.attributes.get(&text("x")), Some(&text("1")));
    assert_eq!(back.attributes.get(&text("y")), Some(&text("2")));
}

#[test]
fn stored_rules_become_rules() {
    let field = Field { id: text("f1"), data_label: text("phone"), label: text("Phone") };
    let stored = RuleModel {
        id: text("r1"),
        field_id: text("f1"),
        generation_type: GenerationType::Regex,
        regex_pattern: Some(text("a+")),
        regex_replacer: None,
    };
    assert_eq!(
        to_rule(stored, field.clone()),
        Rule {
            id: text("r1"),
            field: field.clone(),
            rule_type: GenerationRule::Regex { pattern: text("a+"), replacer: text("") },
        }
    );
    let stored = RuleModel {
        id: text("r2"),
        field_id: text("f1"),
        generation_type: GenerationType::Equals,
        regex_pattern: Some(text("a+")),
        regex_replacer: None,
    };
    assert_eq!(to_rule(stored, field.clone()), Rule { id: text("r2"), field, rule_type: GenerationRule::Equals });
}

#[test]
fn error_messages() {
    assert_eq!(DomainError::NotFound(text("42")).to_string(), "NotFound, id id 42");
    assert_eq!(DomainError::Unexpected(text("boom")).to_string(), "Unexpected Error: [boom]");
    assert_eq!(DomainError::MissingAttribute(text("email")).to_string(), "Missing Attribute: [email]");
    assert_eq!(DomainError::InvalidPattern(text("(")).to_string(), "Invalid Pattern: [(]");
}

#[test]
fn commands_are_carried_out_in_order() {
    let pair = |a: &str, b: &str| (text(a), text(b));
    assert_eq!(create_rule_keys(text("r1"), vec![]), vec![]);
    assert_eq!(create_object_keys(text("o1"), vec![]), vec![]);
    assert_eq!(replace_rule_keys(text("r1"), vec![]), vec![KeyCommand::DeleteByRuleId(text("r1"))]);
    assert_eq!(
        replace_object_keys(text("o1"), vec![pair("r1", "a")]),
        vec![
            KeyCommand::DeleteByObjectId(text("o1")),
            KeyCommand::CreateMany2 { object_id: text("o1"), keys: vec![pair("r1", "a")] },
        ]
    );

    let mut conn = Database::new();
    let commands = vec![
        KeyCommand::CreateMany { rule_id: text("r1"), keys: vec![pair("o1", "a"), pair("o2", "b")] },
        KeyCommand::CreateMany2 { object_id: text("o3"), keys: vec![pair("r1", "c"), pair("r2", "d")] },
        KeyCommand::DeleteByObjectId(text("o2")),
        KeyCommand::DeleteByRuleId(text("r2")),
        KeyCommand::CreateMany { rule_id: text("r2"), keys: vec![pair("o2", "e")] },
    ];
    assert_eq!(conn.execute_all(commands), Ok(()));
    assert_eq!(
        conn.keys.find_all(),
        vec![key("r1", "o1", "a"), key("r1", "o3", "c"), key("r2", "o2", "e")]
    );
    let commands = vec![
        KeyCommand::DeleteByRuleId(text("r2")),
        KeyCommand::CreateMany { rule_id: text("r1"), keys: vec![pair("o1", "z")] },
        KeyCommand::DeleteByRuleId(text("r1")),
    ];
    assert!(conn.execute_all(commands).is_err());
    assert_eq!(conn.keys.find_all(), vec![key("r1", "o1", "a"), key("r1", "o3", "c")]);
}

#[test]
fn sync_decisions() {
    let field = Field { id: text("f1"), data_label: text("phone"), label: text("Phone") };
    let stored = |id: &str| RuleModel {
        id: text(id),
        field_id: text("f1"),
        generation_type: GenerationType::Regex,
        regex_pattern: Some(text("^(\\d{3})-.*$")),
        regex_replacer: Some(text("$1")),
    };
    let rules = vec![(stored("r1"), field.clone()), (stored("r2"), field.clone())];
    let row = |id: &str, value: &str| ObjectModel {
        id: text(id),
        attributes: to_document(&attributes(&[("phone", value)])),
    };
    let (object, commands) = sync_created_object(&rules, row("o1", "555-1234")).unwrap();
    assert_eq!(object, Object { id: text("o1"), attributes: attributes(&[("phone", "555-1234")]) });
    assert_eq!(
        commands,
        vec![KeyCommand::CreateMany2 {
            object_id: text("o1"),
            keys: vec![(text("r1"), text("555")), (text("r2"), text("555"))],
        }]
    );
    let (_, commands) = sync_updated_object(&rules, row("o1", "777-1234")).unwrap();
    assert_eq!(
        commands,
        vec![
            KeyCommand::DeleteByObjectId(text("o1")),
            KeyCommand::CreateMany2 {
                object_id: text("o1"),
                keys: vec![(text("r1"), text("777")), (text("r2"), text("777"))],
            },
        ]
    );
    let (_, commands) = sync_created_object(&vec![], row("o1", "555-1234")).unwrap();
    assert_eq!(commands, vec![]);
    let (_, commands) = sync_updated_object(&vec![], row("o1", "555-1234")).unwrap();
    assert_eq!(commands, vec![KeyCommand::DeleteByObjectId(text("o1"))]);
    let malformed = ObjectModel { id: text("o1"), attributes: Document::Other };
    assert_eq!(sync_created_object(&rules, malformed).err(), Some(DomainError::Unexpected(text(""))));

    let objects = vec![
        Object { id: text("o1"), attributes: attributes(&[("phone", "555-1234")]) },
        Object { id: text("o2"), attributes: attributes(&[("phone", "none")]) },
    ];
    let (rule, commands) = sync_created_rule((stored("r1"), field.clone()), &objects).unwrap();
    assert_eq!(rule.id, "r1");
    assert_eq!(
        commands,
        vec![KeyCommand::CreateMany {
            rule_id: text("r1"),
            keys: vec![(text("o1"), text("555")), (text("o2"), text("none"))],
        }]
    );
    let (_, commands) = sync_updated_rule((stored("r1"), field.clone()), &vec![]).unwrap();
    assert_eq!(commands, vec![KeyCommand::DeleteByRuleId(text("r1"))]);
    let nameless = vec![Object { id: text("o3"), attributes: attributes(&[]) }];
    assert_eq!(
        sync_updated_rule((stored("r1"), field), &nameless).err(),
        Some(DomainError::MissingAttribute(text("phone")))
    );
    assert_eq!(sync_deleted_object(text("o1")), vec![KeyCommand::DeleteByObjectId(text("o1"))]);
    assert_eq!(sync_deleted_rule(text("r1")), vec![KeyCommand::DeleteByRuleId(text("r1"))]);
}

#[test]
fn field_create_refuses_a_taken_identifier() {
    let mut fields = FieldRepositoryImpl::new(Database::new());
    let field = fields.create_with_id(text("f1"), text("email"), text("Email")).unwrap();
    assert_eq!(field, Field { id: text("f1"), data_label: text("email"), label: text("Email") });
    assert_eq!(
        fields.create_with_id(text("f1"), text("phone"), text("Phone")),
        Err(DomainError::Unexpected(text("duplicate key value violates unique constraint")))
    );
    assert_eq!(fields.find_all().unwrap(), vec![field]);
}

#[test]
fn update_of_one_of_two_objects() {
    let mut fields = FieldRepositoryImpl::new(Database::new());
    fields.create_with_id(text("f1"), text("email"), text("E")).unwrap();
    let (conn, _) = create_rule(fields.into_connection(), "r1", "f1", GenerationRule::Equals);
    let (conn, _) = create_object(conn, "o1", &[("email", "a")]);
    let (conn, _) = create_object(conn, "o2", &[("email", "b")]);
    assert_eq!(conn.keys.find_all(), vec![key("r1", "o1", "a"), key("r1", "o2", "b")]);
    let mut objects = ObjectRepositoryImpl::new(conn);
    let updated = objects.update(text("o1"), attributes(&[("email", "c")]));
    assert_eq!(updated, Ok(Object { id: text("o1"), attributes: attributes(&[("email", "c")]) }));
    let conn = objects.into_connection();
    assert_eq!(conn.keys.find_by_id(text("r1"), text("o1")), Some(key("r1", "o1", "c")));
    assert_eq!(conn.keys.find_by_id(text("r1"), text("o2")), Some(key("r1", "o2", "b")));
    assert_eq!(conn.keys.find_all().len(), 2);
}

#[test]
fn delete_of_one_of_two_rules() {
    let mut fields = FieldRepositoryImpl::new(Database::new());
    fields.create_with_id(text("f1"), text("email"), text("E")).unwrap();
    let (conn, _) = create_rule(fields.into_connection(), "r1", "f1", GenerationRule::Equals);
    let (conn, _) = create_rule(conn, "r2", "f1", GenerationRule::Equals);
    let (conn, _) = create_object(conn, "o1", &[("email", "a")]);
    assert_eq!(conn.keys.find_all(), vec![key("r1", "o1", "a"), key("r2", "o1", "a")]);
    let mut rules = RuleRepositoryImpl::new(conn);
    assert_eq!(rules.delete(text("r1")), Ok(()));
    assert_eq!(rules.find_all().unwrap().iter().map(|r| r.id.clone()).collect::<Vec<_>>(), vec![text("r2")]);
    let conn = rules.into_connection();
    assert_eq!(conn.keys.find_all(), vec![key("r2", "o1", "a")]);
    assert_eq!(conn.objects.find_all().len(), 1);
}
