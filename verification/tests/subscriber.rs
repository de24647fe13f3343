use key_sync::database::Database;
use key_sync::error::DomainError;
use key_sync::fields::FieldRepository;
use key_sync::keys::Key;
use key_sync::objects::Attributes;
use key_sync::repository::fields::FieldRepositoryImpl;
use key_sync::repository::keys::KeyRepositoryImpl;
use key_sync::repository::objects::ObjectRepositoryImpl;
use key_sync::repository::rules::RuleRepositoryImpl;
use key_sync::rules::GenerationRule;
use key_sync::subscriber::keys::{delivery, found_rule, Delivery, KeysHandler};
use key_sync::subscriber::pubsub_schema::sync_keys::Payload;
use key_sync::subscriber::pubsub_schema::{
    CreateKeysRequest, DeleteKeysRequest, SyncKeys, UpdateKeysRequest,
};

fn text(s: &str) -> String {
    s.to_string()
}

fn key(rule_id: &str, object_id: &str, key: &str) -> Key {
    Key { rule_id: text(rule_id), object_id: text(object_id), key: text(key) }
}

/// A store with one field, the rule `r1` on it and the given objects, each
/// with one value of the field; the keys are left out.
fn store(values: &[(&str, &str)]) -> Database {
    let mut fields = FieldRepositoryImpl::new(Database::new());
    let field = fields.create(text("email"), text("Email")).unwrap();
    let mut objects = ObjectRepositoryImpl::new(fields.into_connection());
    for (id, value) in values {
        let attributes = Attributes::from_pairs(vec![(text("email"), text(value))]);
        objects.create_with_id(text(id), attributes).unwrap();
    }
    let mut conn = objects.into_connection();
    let rule = key_sync::database::entities::RuleModel {
        id: text("r1"),
        field_id: field.id,
        generation_type: key_sync::database::entities::GenerationType::Equals,
        regex_pattern: None,
        regex_replacer: None,
    };
    conn.insert_rule(rule).unwrap();
    conn
}

fn handler(conn: &Database) -> KeysHandler<RuleRepositoryImpl, ObjectRepositoryImpl, KeyRepositoryImpl> {
    KeysHandler::new(
        RuleRepositoryImpl::new(conn.clone()),
        ObjectRepositoryImpl::new(conn.clone()),
        KeyRepositoryImpl::new(conn.clone()),
    )
}

fn keys_of(handler: KeysHandler<RuleRepositoryImpl, ObjectRepositoryImpl, KeyRepositoryImpl>) -> Vec<Key> {
    handler.into_repositories().2.into_connection().keys.find_all()
}

fn create(rule_id: &str) -> SyncKeys {
    SyncKeys {
        message_type: 1,
        payload: Some(Payload::CreateKeysRequest(CreateKeysRequest { rule_id: text(rule_id) })),
    }
}

fn update(rule_id: &str) -> SyncKeys {
    SyncKeys {
        message_type: 2,
        payload: Some(Payload::UpdateKeysRequest(UpdateKeysRequest { rule_id: text(rule_id) })),
    }
}

fn delete(rule_id: &str) -> SyncKeys {
    SyncKeys {
        message_type: 3,
        payload: Some(Payload::DeleteKeysRequest(DeleteKeysRequest { rule_id: text(rule_id) })),
    }
}

#[test]
fn create_message_stores_the_keys_of_the_rule() {
    let conn = store(&[("o1", "a@b.com"), ("o2", "c@d.org")]);
    let mut handler = handler(&conn);
    assert_eq!(handler.main(create("r1")), Ok(()));
    assert_eq!(keys_of(handler), vec![key("r1", "o1", "a@b.com"), key("r1", "o2", "c@d.org")]);
}

#[test]
fn create_message_without_objects_stores_nothing() {
    let conn = store(&[]);
    let mut handler = handler(&conn);
    assert_eq!(handler.main(create("r1")), Ok(()));
    assert_eq!(keys_of(handler), vec![]);
}

#[test]
fn create_message_twice_leaves_the_keys_of_once() {
    let mut conn = store(&[("o1", "a@b.com"), ("o2", "c@d.org")]);
    conn.keys.create(text("r0"), text("o1"), text("other")).unwrap();
    let mut handler = handler(&conn);
    assert_eq!(handler.main(create("r1")), Ok(()));
    assert_eq!(handler.main(create("r1")), Ok(()));
    assert_eq!(handler.main(create("r1")), Ok(()));
    assert_eq!(
        keys_of(handler),
        vec![key("r0", "o1", "other"), key("r1", "o1", "a@b.com"), key("r1", "o2", "c@d.org")]
    );
}

#[test]
fn create_message_puts_stale_keys_of_the_rule_away() {
    let mut conn = store(&[("o1", "a@b.com")]);
    conn.keys.create(text("r1"), text("o1"), text("stale")).unwrap();
    conn.keys.create(text("r1"), text("o7"), text("gone")).unwrap();
    let mut handler = handler(&conn);
    assert_eq!(handler.main(create("r1")), Ok(()));
    assert_eq!(keys_of(handler), vec![key("r1", "o1", "a@b.com")]);
}

#[test]
fn steps_of_the_handler() {
    let conn = store(&[("o1", "a@b.com")]);
    let mut handler = handler(&conn);
    assert_eq!(handler.create_keys(CreateKeysRequest { rule_id: text("r1") }), Ok(()));
    assert_eq!(handler.update_keys(UpdateKeysRequest { rule_id: text("r1") }), Ok(()));
    assert_eq!(
        handler.create_keys(CreateKeysRequest { rule_id: text("r9") }),
        Err(DomainError::NotFound(text("r9")))
    );
    assert_eq!(handler.delete_keys(DeleteKeysRequest { rule_id: text("r9") }), Ok(()));
    let (rules, objects, keys) = handler.into_repositories();
    let mut handler = KeysHandler::new(rules, objects, keys);
    assert_eq!(handler.delete_keys(DeleteKeysRequest { rule_id: text("r1") }), Ok(()));
    assert_eq!(handler.delete_keys(DeleteKeysRequest { rule_id: text("r1") }), Ok(()));
    assert_eq!(keys_of(handler), vec![]);
}

#[test]
fn update_message_twice_leaves_the_keys_of_once() {
    let mut conn = store(&[("o1", "a@b.com"), ("o2", "c@d.org")]);
    conn.keys.create(text("r1"), text("o1"), text("stale")).unwrap();
    conn.keys.create(text("r0"), text("o1"), text("other")).unwrap();
    let mut handler = handler(&conn);
    assert_eq!(handler.main(update("r1")), Ok(()));
    assert_eq!(handler.main(update("r1")), Ok(()));
    assert_eq!(
        keys_of(handler),
        vec![key("r0", "o1", "other"), key("r1", "o1", "a@b.com"), key("r1", "o2", "c@d.org")]
    );
}

#[test]
fn update_message_without_objects_removes_the_keys_of_the_rule() {
    let mut conn = store(&[]);
    conn.keys.create(text("r1"), text("o1"), text("stale")).unwrap();
    conn.keys.create(text("r0"), text("o1"), text("other")).unwrap();
    let mut handler = handler(&conn);
    assert_eq!(handler.main(update("r1")), Ok(()));
    assert_eq!(keys_of(handler), vec![key("r0", "o1", "other")]);
}

#[test]
fn delete_message_removes_the_keys_of_the_rule() {
    let mut conn = store(&[]);
    conn.keys.create(text("r1"), text("o1"), text("a")).unwrap();
    conn.keys.create(text("r0"), text("o1"), text("b")).unwrap();
    conn.keys.create(text("r1"), text("o2"), text("c")).unwrap();
    let mut handler = handler(&conn);
    assert_eq!(handler.main(delete("r1")), Ok(()));
    assert_eq!(handler.main(delete("r1")), Ok(()));
    assert_eq!(keys_of(handler), vec![key("r0", "o1", "b")]);
}

#[test]
fn message_for_a_rule_that_is_gone_fails() {
    let conn = store(&[("o1", "a@b.com")]);
    let mut handler = handler(&conn);
    assert_eq!(handler.main(create("r9")), Err(DomainError::NotFound(text("r9"))));
    assert_eq!(handler.main(update("r9")), Err(DomainError::NotFound(text("r9"))));
    assert_eq!(keys_of(handler), vec![]);
}

#[test]
fn message_without_payload_fails() {
    let conn = store(&[("o1", "a@b.com")]);
    let mut handler = handler(&conn);
    let request = SyncKeys { message_type: 0, payload: None };
    assert_eq!(handler.main(request), Err(DomainError::Unexpected(text("invalid payload"))));
    assert_eq!(keys_of(handler), vec![]);
}

#[test]
fn message_fails_whole_when_an_object_has_no_key() {
    let conn = store(&[("o1", "a@b.com")]);
    let mut objects = ObjectRepositoryImpl::new(Database::new());
    objects.create_with_id(text("o1"), Attributes::from_pairs(vec![(text("email"), text("a"))])).unwrap();
    objects.create_with_id(text("o2"), Attributes::from_pairs(vec![(text("name"), text("b"))])).unwrap();
    let mut handler = KeysHandler::new(
        RuleRepositoryImpl::new(conn.clone()),
        objects,
        KeyRepositoryImpl::new(conn),
    );
    assert_eq!(handler.main(update("r1")), Err(DomainError::MissingAttribute(text("email"))));
    assert_eq!(keys_of(handler), vec![]);
}

#[test]
fn rule_that_was_sought() {
    assert_eq!(found_rule(Ok(None), text("r1")), Err(DomainError::NotFound(text("r1"))));
    assert_eq!(
        found_rule(Err(DomainError::Unexpected(text("down"))), text("r1")),
        Err(DomainError::Unexpected(text("down")))
    );
    let (rules, _, _) = handler(&store(&[])).into_repositories();
    let rule = key_sync::rules::RuleRepository::get(&rules, text("r1")).unwrap().unwrap();
    assert_eq!(rule.rule_type, GenerationRule::Equals);
    assert_eq!(found_rule(Ok(Some(rule.clone())), text("r1")), Ok(rule));
}

#[test]
fn what_becomes_of_a_message() {
    assert_eq!(delivery(&Ok(())), Delivery::Acknowledge);
    assert_eq!(delivery(&Err(DomainError::NotFound(text("r1")))), Delivery::Acknowledge);
    assert_eq!(delivery(&Err(DomainError::Unexpected(text("down")))), Delivery::Redeliver);
    assert_eq!(delivery(&Err(DomainError::MissingAttribute(text("email")))), Delivery::Redeliver);
    assert_eq!(delivery(&Err(DomainError::InvalidPattern(text("(")))), Delivery::Redeliver);
}
