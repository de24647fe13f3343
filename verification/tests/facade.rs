use key_sync::database::Database;
use key_sync::error::DomainError;
use key_sync::grpc::api::{
    AddFieldRequest, AddObjectRequest, AddRuleRequest, DeleteObjectRequest, DeleteRuleRequest,
    DeleteRuleResponse, GetFieldsRequest, GetObjectRequest, GetObjectsRequest, GetRuleRequest,
    GetRulesRequest, UpdateFieldRequest, UpdateObjectRequest, UpdateRuleRequest,
};
use key_sync::grpc::error::{handle_error, Code, Status};
use key_sync::grpc::fields::FieldsServerImpl;
use key_sync::grpc::objects::ObjectsServerImpl;
use key_sync::grpc::rules::RulesServerImpl;
use key_sync::keys::Key;
use key_sync::objects::{Attributes, Object};
use key_sync::repository::fields::FieldRepositoryImpl;
use key_sync::repository::objects::ObjectRepositoryImpl;
use key_sync::repository::rules::RuleRepositoryImpl;
use key_sync::rules::GenerationRule;

fn text(s: &str) -> String {
    s.to_string()
}

fn attributes(pairs: &[(&str, &str)]) -> Attributes {
    Attributes::from_pairs(pairs.iter().map(|(k, v)| (text(k), text(v))).collect())
}

#[test]
fn errors_become_statuses() {
    assert_eq!(
        handle_error(DomainError::NotFound(text("42"))),
        Status { code: Code::NotFound, message: text("42") }
    );
    assert_eq!(
        handle_error(DomainError::Unexpected(text("boom"))),
        Status { code: Code::Internal, message: text("boom") }
    );
    assert_eq!(
        handle_error(DomainError::MissingAttribute(text("email"))),
        Status { code: Code::Internal, message: text("Missing Attribute: [email]") }
    );
    assert_eq!(
        handle_error(DomainError::InvalidPattern(text("("))),
        Status { code: Code::Internal, message: text("Invalid Pattern: [(]") }
    );
}

#[test]
fn calls_through_the_three_servers() {
    let mut fields = FieldsServerImpl::new(FieldRepositoryImpl::new(Database::new()));
    let field = fields
        .add_field(AddFieldRequest { data_label: text("email"), label: text("Email") })
        .unwrap()
        .field
        .unwrap();
    let field = fields
        .update_field(UpdateFieldRequest { id: field.id.clone(), label: text("E-mail") })
        .unwrap()
        .field
        .unwrap();
    assert_eq!(field.label, "E-mail");
    assert_eq!(fields.get_fields(GetFieldsRequest {}).unwrap().fields, vec![field.clone()]);
    assert_eq!(
        fields.update_field(UpdateFieldRequest { id: text("f9"), label: text("x") }),
        Err(Status { code: Code::NotFound, message: text("f9") })
    );

    let conn = fields.into_repository().into_connection();
    let mut rules = RulesServerImpl::new(RuleRepositoryImpl::new(conn));
    assert_eq!(
        rules.add_rule(AddRuleRequest { field_id: field.id.clone(), rule_type: None }),
        Err(Status { code: Code::InvalidArgument, message: text("InvalidArgument") })
    );
    assert_eq!(
        rules.update_rule(UpdateRuleRequest { id: text("r"), field_id: field.id.clone(), rule_type: None }),
        Err(Status { code: Code::InvalidArgument, message: text("InvalidArgument") })
    );
    assert_eq!(
        rules.add_rule(AddRuleRequest { field_id: text("f9"), rule_type: Some(GenerationRule::Equals) }),
        Err(Status { code: Code::NotFound, message: text("f9") })
    );
    let rule = rules
        .add_rule(AddRuleRequest { field_id: field.id.clone(), rule_type: Some(GenerationRule::Equals) })
        .unwrap()
        .rule
        .unwrap();
    assert_eq!(rule.field, field);
    assert_eq!(rules.get_rules(GetRulesRequest {}).unwrap().rules, vec![rule.clone()]);
    assert_eq!(rules.get_rule(GetRuleRequest { id: rule.id.clone() }).unwrap().rule, Some(rule.clone()));
    assert_eq!(rules.get_rule(GetRuleRequest { id: text("r9") }).unwrap().rule, None);

    let conn = rules.into_repository().into_connection();
    let mut objects = ObjectsServerImpl::new(ObjectRepositoryImpl::new(conn));
    assert_eq!(
        objects.add_object(AddObjectRequest { attributes: attributes(&[("name", "x")]) }),
        Err(Status { code: Code::Internal, message: text("Missing Attribute: [email]") })
    );
    let object = objects
        .add_object(AddObjectRequest { attributes: attributes(&[("email", "a@b.com"), ("name", "x")]) })
        .unwrap()
        .object
        .unwrap();
    assert_eq!(object.attributes, attributes(&[("name", "x"), ("email", "a@b.com")]));
    assert_ne!(object.attributes, attributes(&[("email", "a@b.com")]));
    assert_ne!(object.attributes, attributes(&[("name", "x"), ("email", "a@b.org")]));
    assert_eq!(objects.get_objects(GetObjectsRequest {}).unwrap().objects.len(), 1);
    assert_eq!(
        objects.get_object(GetObjectRequest { id: object.id.clone() }).unwrap().object,
        Some(Object { id: object.id.clone(), attributes: attributes(&[("email", "a@b.com"), ("name", "x")]) })
    );
    let updated = objects
        .update_object(UpdateObjectRequest { id: object.id.clone(), attributes: attributes(&[("email", "c@d.org")]) })
        .unwrap()
        .object
        .unwrap();
    assert_eq!(updated, Object { id: object.id.clone(), attributes: attributes(&[("email", "c@d.org")]) });
    assert_eq!(
        objects.update_object(UpdateObjectRequest { id: text("o9"), attributes: attributes(&[]) }),
        Err(Status { code: Code::NotFound, message: text("o9") })
    );

    let conn = objects.into_repository().into_connection();
    assert_eq!(
        conn.keys.find_all(),
        vec![Key { rule_id: rule.id.clone(), object_id: object.id.clone(), key: text("c@d.org") }]
    );

    let mut rules = RulesServerImpl::new(RuleRepositoryImpl::new(conn));
    let changed = rules
        .update_rule(UpdateRuleRequest {
            id: rule.id.clone(),
            field_id: field.id.clone(),
            rule_type: Some(GenerationRule::Regex { pattern: text("@.*"), replacer: text("") }),
        })
        .unwrap()
        .rule
        .unwrap();
    assert_eq!(changed.id, rule.id);
    let conn = rules.into_repository().into_connection();
    assert_eq!(
        conn.keys.find_all(),
        vec![Key { rule_id: rule.id.clone(), object_id: object.id.clone(), key: text("c") }]
    );

    let mut objects = ObjectsServerImpl::new(ObjectRepositoryImpl::new(conn));
    objects.delete_object(DeleteObjectRequest { id: object.id }).unwrap();
    let conn = objects.into_repository().into_connection();
    assert_eq!(conn.keys.find_all(), vec![]);
    let mut rules = RulesServerImpl::new(RuleRepositoryImpl::new(conn));
    assert_eq!(rules.delete_rule(DeleteRuleRequest { id: rule.id }), Ok(DeleteRuleResponse {}));
    assert_eq!(rules.get_rules(GetRulesRequest {}).unwrap().rules, vec![]);
}
