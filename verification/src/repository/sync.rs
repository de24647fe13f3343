use crate::database::entities::{ObjectModel, RuleModel};
use crate::database::{joined_pair, joined_pairs, to_object, to_rule, to_rules};
use crate::derivation::{derive_keys_for_object, derive_keys_for_rule, keys_for_object, keys_for_rule};
use crate::error::{DomainError, DomainErrorView};
use crate::fields::Field;
use crate::objects::{objects_view, Object, ObjectView};
use crate::repository::commands::{
    commands_view, create_for_object, create_for_rule, create_object_keys, create_rule_keys,
    replace_for_object, replace_for_rule, replace_object_keys, replace_rule_keys, KeyCommand,
    KeyCommandView,
};
use crate::rules::{Rule, RuleView};
use crate::state::{object_of, ObjectRow};
use vstd::prelude::*;

verus! {

/// What follows for the keys when an object was stored: its key under
/// every rule is to be stored too, where `replace` is set in the place of
/// the keys that it has. Nothing follows where the stored document is no
/// flat record of scalars, or where a rule has no key for the object.
pub open spec fn object_synced(rules: Seq<RuleView>, row: ObjectRow, replace: bool) -> Result<
    (ObjectView, Seq<KeyCommandView>),
    DomainErrorView,
> {
    match object_of(row) {
        Err(error) => Err(error),
        Ok(object) => match keys_for_object(rules, object.attributes) {
            Err(error) => Err(error),
            Ok(pairs) => Ok(
                (
                    object,
                    if replace {
                        replace_for_object(row.id, pairs)
                    } else {
                        create_for_object(row.id, pairs)
                    },
                ),
            ),
        },
    }
}

/// What follows for the keys when a rule was stored: its key for every
/// object is to be stored too, where `replace` is set in the place of the
/// keys that it has. Nothing follows where the rule has no key for an
/// object.
pub open spec fn rule_synced(rule: RuleView, objects: Seq<ObjectView>, replace: bool) -> Result<
    Seq<KeyCommandView>,
    DomainErrorView,
> {
    match keys_for_rule(rule, objects) {
        Err(error) => Err(error),
        Ok(pairs) => Ok(
            if replace {
                replace_for_rule(rule.id, pairs)
            } else {
                create_for_rule(rule.id, pairs)
            },
        ),
    }
}

/// An object with commands, or an error, as mathematical values.
pub open spec fn object_sync_view(result: Result<(Object, Vec<KeyCommand>), DomainError>) -> Result<
    (ObjectView, Seq<KeyCommandView>),
    DomainErrorView,
> {
    match result {
        Ok(synced) => Ok((synced.0@, commands_view(synced.1@))),
        Err(error) => Err(error@),
    }
}

/// A rule with commands, or an error, as mathematical values.
pub open spec fn rule_sync_view(result: Result<(Rule, Vec<KeyCommand>), DomainError>) -> Result<
    (RuleView, Seq<KeyCommandView>),
    DomainErrorView,
> {
    match result {
        Ok(synced) => Ok((synced.0@, commands_view(synced.1@))),
        Err(error) => Err(error@),
    }
}

/// An object was created and stored as `row`: tells the object, and what
/// is to be done to the keys.
pub fn sync_created_object(rules: &Vec<(RuleModel, Field)>, row: ObjectModel) -> (result: Result<
    (Object, Vec<KeyCommand>),
    DomainError,
>)
    ensures
        object_sync_view(result) == object_synced(joined_pairs(rules@), row@, false),
{
    let object = to_object(row)?;
    let keys = derive_keys_for_object(&to_rules(rules), &object)?;
    let commands = create_object_keys(object.id.clone(), keys);
    Ok((object, commands))
}

/// An object got other attributes and is now stored as `row`: tells the
/// object, and what is to be done to the keys.
pub fn sync_updated_object(rules: &Vec<(RuleModel, Field)>, row: ObjectModel) -> (result: Result<
    (Object, Vec<KeyCommand>),
    DomainError,
>)
    ensures
        object_sync_view(result) == object_synced(joined_pairs(rules@), row@, true),
{
    let object = to_object(row)?;
    let keys = derive_keys_for_object(&to_rules(rules), &object)?;
    let commands = replace_object_keys(object.id.clone(), keys);
    Ok((object, commands))
}

/// An object was deleted: tells what is to be done to the keys.
pub fn sync_deleted_object(id: String) -> (commands: Vec<KeyCommand>)
    ensures
        commands_view(commands@) == seq![KeyCommandView::DeleteByObjectId(id@)],
{
    let mut commands: Vec<KeyCommand> = Vec::new();
    commands.push(KeyCommand::DeleteByObjectId(id));
    assert(commands_view(commands@) =~= seq![KeyCommandView::DeleteByObjectId(id@)]);
    commands
}

/// A rule was created and stored as `rule`, beside its field: tells the
/// rule, and what is to be done to the keys.
pub fn sync_created_rule(rule: (RuleModel, Field), objects: &Vec<Object>) -> (result: Result<
    (Rule, Vec<KeyCommand>),
    DomainError,
>)
    ensures
        rule_sync_view(result) == match rule_synced(joined_pair(rule), objects_view(objects@), false) {
            Ok(commands) => Ok::<(RuleView, Seq<KeyCommandView>), DomainErrorView>(
                (joined_pair(rule), commands),
            ),
            Err(error) => Err(error),
        },
{
    let rule = to_rule(rule.0, rule.1);
    let keys = derive_keys_for_rule(&rule, objects)?;
    let commands = create_rule_keys(rule.id.clone(), keys);
    Ok((rule, commands))
}

/// A rule was changed and is now stored as `rule`, beside its field: tells
/// the rule, and what is to be done to the keys.
pub fn sync_updated_rule(rule: (RuleModel, Field), objects: &Vec<Object>) -> (result: Result<
    (Rule, Vec<KeyCommand>),
    DomainError,
>)
    ensures
        rule_sync_view(result) == match rule_synced(joined_pair(rule), objects_view(objects@), true) {
            Ok(commands) => Ok::<(RuleView, Seq<KeyCommandView>), DomainErrorView>(
                (joined_pair(rule), commands),
            ),
            Err(error) => Err(error),
        },
{
    let rule = to_rule(rule.0, rule.1);
    let keys = derive_keys_for_rule(&rule, objects)?;
    let commands = replace_rule_keys(rule.id.clone(), keys);
    Ok((rule, commands))
}

/// A rule was deleted: tells what is to be done to the keys.
pub fn sync_deleted_rule(id: String) -> (commands: Vec<KeyCommand>)
    ensures
        commands_view(commands@) == seq![KeyCommandView::DeleteByRuleId(id@)],
{
    let mut commands: Vec<KeyCommand> = Vec::new();
    commands.push(KeyCommand::DeleteByRuleId(id));
    assert(commands_view(commands@) =~= seq![KeyCommandView::DeleteByRuleId(id@)]);
    commands
}

} // verus!
