use crate::fields::Field;
use crate::objects::{Attributes, Object};
use crate::rules::{GenerationRule, Rule};
use vstd::prelude::*;

verus! {

/// Asks for all fields.
#[derive(Debug, PartialEq, Eq)]
pub struct GetFieldsRequest {}

/// All fields, oldest first.
#[derive(Debug, PartialEq, Eq)]
pub struct GetFieldsResponse {
    pub fields: Vec<Field>,
}

/// Asks for a new field.
#[derive(Debug, PartialEq, Eq)]
pub struct AddFieldRequest {
    pub data_label: String,
    pub label: String,
}

/// The field that was created.
#[derive(Debug, PartialEq, Eq)]
pub struct AddFieldResponse {
    pub field: Option<Field>,
}

/// Asks for another label of a field.
#[derive(Debug, PartialEq, Eq)]
pub struct UpdateFieldRequest {
    pub id: String,
    pub label: String,
}

/// The field as it is now.
#[derive(Debug, PartialEq, Eq)]
pub struct UpdateFieldResponse {
    pub field: Option<Field>,
}

/// Asks for all objects.
#[derive(Debug, PartialEq, Eq)]
pub struct GetObjectsRequest {}

/// All objects, oldest first.
#[derive(Debug, PartialEq, Eq)]
pub struct GetObjectsResponse {
    pub objects: Vec<Object>,
}

/// Asks for one object.
#[derive(Debug, PartialEq, Eq)]
pub struct GetObjectRequest {
    pub id: String,
}

/// The object, where there is one.
#[derive(Debug, PartialEq, Eq)]
pub struct GetObjectResponse {
    pub object: Option<Object>,
}

/// Asks for a new object.
#[derive(Debug, PartialEq, Eq)]
pub struct AddObjectRequest {
    pub attributes: Attributes,
}

/// The object that was created.
#[derive(Debug, PartialEq, Eq)]
pub struct AddObjectResponse {
    pub object: Option<Object>,
}

/// Asks for other attributes of an object.
#[derive(Debug, PartialEq, Eq)]
pub struct UpdateObjectRequest {
    pub id: String,
    pub attributes: Attributes,
}

/// The object as it is now.
#[derive(Debug, PartialEq, Eq)]
pub struct UpdateObjectResponse {
    pub object: Option<Object>,
}

/// Asks for an object to be deleted.
#[derive(Debug, PartialEq, Eq)]
pub struct DeleteObjectRequest {
    pub id: String,
}

/// Tells that the object is gone.
#[derive(Debug, PartialEq, Eq)]
pub struct DeleteObjectResponse {}

/// Asks for all rules.
#[derive(Debug, PartialEq, Eq)]
pub struct GetRulesRequest {}

/// All rules, oldest first.
#[derive(Debug, PartialEq, Eq)]
pub struct GetRulesResponse {
    pub rules: Vec<Rule>,
}

/// Asks for one rule.
#[derive(Debug, PartialEq, Eq)]
pub struct GetRuleRequest {
    pub id: String,
}

/// The rule, where there is one.
#[derive(Debug, PartialEq, Eq)]
pub struct GetRuleResponse {
    pub rule: Option<Rule>,
}

/// Asks for a new rule on a field. A request may come without the way to
/// make keys; it is then refused.
#[derive(Debug, PartialEq, Eq)]
pub struct AddRuleRequest {
    pub field_id: String,
    pub rule_type: Option<GenerationRule>,
}

/// The rule that was created.
#[derive(Debug, PartialEq, Eq)]
pub struct AddRuleResponse {
    pub rule: Option<Rule>,
}

/// Asks for another field and another way to make keys of a rule. A
/// request may come without the way to make keys; it is then refused.
#[derive(Debug, PartialEq, Eq)]
pub struct UpdateRuleRequest {
    pub id: String,
    pub field_id: String,
    pub rule_type: Option<GenerationRule>,
}

/// The rule as it is now.
#[derive(Debug, PartialEq, Eq)]
pub struct UpdateRuleResponse {
    pub rule: Option<Rule>,
}

/// Asks for a rule to be deleted.
#[derive(Debug, PartialEq, Eq)]
pub struct DeleteRuleRequest {
    pub id: String,
}

/// Tells that the rule is gone.
#[derive(Debug, PartialEq, Eq)]
pub struct DeleteRuleResponse {}

} // verus!
