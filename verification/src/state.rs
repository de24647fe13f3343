use crate::derivation::{keys_for_object, keys_for_rule};
use crate::error::DomainErrorView;
use crate::fields::FieldView;
use crate::keys::KeyView;
use crate::objects::ObjectView;
use crate::rules::{GenerationRuleView, RuleView};
use crate::sequences::{collect, first, position};
use vstd::prelude::*;

verus! {

/// A stored object: its identifier and the attributes that its stored
/// document holds, where that document is a flat record of scalars.
pub struct ObjectRow {
    pub id: Seq<char>,
    pub attributes: Option<Map<Seq<char>, Seq<char>>>,
}

/// A stored rule: it names its field by identifier.
pub struct RuleRow {
    pub id: Seq<char>,
    pub field_id: Seq<char>,
    pub rule_type: GenerationRuleView,
}

/// What a store holds: the rows of its four tables, oldest first.
pub struct State {
    pub fields: Seq<FieldView>,
    pub objects: Seq<ObjectRow>,
    pub rules: Seq<RuleRow>,
    pub keys: Seq<KeyView>,
}

/// The error of a row whose primary key is taken.
pub open spec fn duplicate_key() -> DomainErrorView {
    DomainErrorView::Unexpected("duplicate key value violates unique constraint"@)
}

/// The error of a stored document that is no flat record of scalars.
pub open spec fn malformed_document() -> DomainErrorView {
    DomainErrorView::Unexpected(Seq::empty())
}

/// Picks the field with the identifier.
pub open spec fn field_with(id: Seq<char>) -> spec_fn(FieldView) -> bool {
    |field: FieldView| field.id == id
}

/// Picks the object with the identifier.
pub open spec fn object_with(id: Seq<char>) -> spec_fn(ObjectRow) -> bool {
    |row: ObjectRow| row.id == id
}

/// Picks every object but the one with the identifier.
pub open spec fn object_without(id: Seq<char>) -> spec_fn(ObjectRow) -> bool {
    |row: ObjectRow| row.id != id
}

/// Picks the rule with the identifier.
pub open spec fn rule_with(id: Seq<char>) -> spec_fn(RuleRow) -> bool {
    |row: RuleRow| row.id == id
}

/// Picks every rule but the one with the identifier.
pub open spec fn rule_without(id: Seq<char>) -> spec_fn(RuleRow) -> bool {
    |row: RuleRow| row.id != id
}

/// Picks the key of the rule for the object.
pub open spec fn key_with(rule_id: Seq<char>, object_id: Seq<char>) -> spec_fn(KeyView) -> bool {
    |key: KeyView| key.rule_id == rule_id && key.object_id == object_id
}

/// Picks the keys of all rules but one.
pub open spec fn not_of_rule(rule_id: Seq<char>) -> spec_fn(KeyView) -> bool {
    |key: KeyView| key.rule_id != rule_id
}

/// Picks the keys of all objects but one.
pub open spec fn not_of_object(object_id: Seq<char>) -> spec_fn(KeyView) -> bool {
    |key: KeyView| key.object_id != object_id
}

/// Some row is the key of the rule for the object.
pub open spec fn holds_key(keys: Seq<KeyView>, rule_id: Seq<char>, object_id: Seq<char>) -> bool {
    exists|i: int|
        0 <= i < keys.len() && (#[trigger] keys[i]).rule_id == rule_id && keys[i].object_id
            == object_id
}

/// No two rows are keys of one rule for one object.
pub open spec fn keys_unique(keys: Seq<KeyView>) -> bool {
    forall|i: int, j: int|
        0 <= i < keys.len() && 0 <= j < keys.len() && i != j ==> !((#[trigger] keys[i]).rule_id == (
        #[trigger] keys[j]).rule_id && keys[i].object_id == keys[j].object_id)
}

/// The rows can join the keys: none of them is there already, and no two of
/// them are keys of one rule for one object.
pub open spec fn insertable(keys: Seq<KeyView>, rows: Seq<KeyView>) -> bool {
    &&& forall|i: int|
        0 <= i < rows.len() ==> !holds_key(keys, (#[trigger] rows[i]).rule_id, rows[i].object_id)
    &&& keys_unique(rows)
}

/// The key rows of one rule: one for each pair of object identifier and key.
pub open spec fn rows_for_rule(rule_id: Seq<char>, pairs: Seq<(Seq<char>, Seq<char>)>) -> Seq<KeyView> {
    pairs.map_values(
        |pair: (Seq<char>, Seq<char>)| KeyView { rule_id, object_id: pair.0, key: pair.1 },
    )
}

/// The key rows of one object: one for each pair of rule identifier and key.
pub open spec fn rows_for_object(object_id: Seq<char>, pairs: Seq<(Seq<char>, Seq<char>)>) -> Seq<
    KeyView,
> {
    pairs.map_values(
        |pair: (Seq<char>, Seq<char>)| KeyView { rule_id: pair.0, object_id, key: pair.1 },
    )
}

/// The object that a stored row stands for, where its document is a flat
/// record of scalars.
pub open spec fn object_of(row: ObjectRow) -> Result<ObjectView, DomainErrorView> {
    match row.attributes {
        Some(attributes) => Ok(ObjectView { id: row.id, attributes }),
        None => Err(malformed_document()),
    }
}

/// The key that a stored rule derives for a stored object, where the field
/// of the rule is among the fields, the document of the object is a flat
/// record of scalars, and the rule has a key for the object.
pub open spec fn derived(fields: Seq<FieldView>, rule: RuleRow, object: ObjectRow) -> Option<KeyView> {
    match (first(fields, field_with(rule.field_id)), object.attributes) {
        (Some(field), Some(attributes)) => match (RuleView {
            id: rule.id,
            field,
            rule_type: rule.rule_type,
        }).key_for(attributes) {
            Ok(key) => Some(KeyView { rule_id: rule.id, object_id: object.id, key }),
            Err(_) => None,
        },
        _ => None,
    }
}

impl State {
    /// The store in which nothing was ever created.
    pub open spec fn empty() -> State {
        State { fields: Seq::empty(), objects: Seq::empty(), rules: Seq::empty(), keys: Seq::empty() }
    }

    /// The field with the identifier.
    pub open spec fn field(self, id: Seq<char>) -> Option<FieldView> {
        first(self.fields, field_with(id))
    }

    /// The stored object with the identifier.
    pub open spec fn object_row(self, id: Seq<char>) -> Option<ObjectRow> {
        first(self.objects, object_with(id))
    }

    /// The stored rule with the identifier.
    pub open spec fn rule_row(self, id: Seq<char>) -> Option<RuleRow> {
        first(self.rules, rule_with(id))
    }

    /// The key of the rule for the object.
    pub open spec fn key(self, rule_id: Seq<char>, object_id: Seq<char>) -> Option<KeyView> {
        first(self.keys, key_with(rule_id, object_id))
    }

    /// The rule that a stored row stands for: the row with its field. A row
    /// whose field is gone stands for no rule.
    pub open spec fn joined(self, row: RuleRow) -> Result<RuleView, DomainErrorView> {
        match self.field(row.field_id) {
            Some(field) => Ok(RuleView { id: row.id, field, rule_type: row.rule_type }),
            None => Err(DomainErrorView::NotFound(row.field_id)),
        }
    }

    /// What each stored rule in turn stands for.
    pub open spec fn join_outcomes(self) -> Seq<Result<RuleView, DomainErrorView>> {
        self.rules.map_values(|row: RuleRow| self.joined(row))
    }

    /// All rules, each with its field, oldest first.
    pub open spec fn rules_joined(self) -> Result<Seq<RuleView>, DomainErrorView> {
        collect(self.join_outcomes())
    }

    /// The rule with the identifier, with its field.
    pub open spec fn rule(self, id: Seq<char>) -> Result<Option<RuleView>, DomainErrorView> {
        match self.rule_row(id) {
            None => Ok(None),
            Some(row) => match self.joined(row) {
                Ok(rule) => Ok(Some(rule)),
                Err(error) => Err(error),
            },
        }
    }

    /// What each stored object in turn stands for.
    pub open spec fn read_outcomes(self) -> Seq<Result<ObjectView, DomainErrorView>> {
        self.objects.map_values(|row: ObjectRow| object_of(row))
    }

    /// All objects, oldest first.
    pub open spec fn objects_read(self) -> Result<Seq<ObjectView>, DomainErrorView> {
        collect(self.read_outcomes())
    }

    /// The object with the identifier.
    pub open spec fn object(self, id: Seq<char>) -> Result<Option<ObjectView>, DomainErrorView> {
        match self.object_row(id) {
            None => Ok(None),
            Some(row) => match object_of(row) {
                Ok(object) => Ok(Some(object)),
                Err(error) => Err(error),
            },
        }
    }

    /// The store with other keys in place of its own.
    pub open spec fn with_keys(self, keys: Seq<KeyView>) -> State {
        State { fields: self.fields, objects: self.objects, rules: self.rules, keys }
    }

    /// The store with other fields in place of its own.
    pub open spec fn with_fields(self, fields: Seq<FieldView>) -> State {
        State { fields, objects: self.objects, rules: self.rules, keys: self.keys }
    }

    /// The store with other objects in place of its own.
    pub open spec fn with_objects(self, objects: Seq<ObjectRow>) -> State {
        State { fields: self.fields, objects, rules: self.rules, keys: self.keys }
    }

    /// The store with other rules in place of its own.
    pub open spec fn with_rules(self, rules: Seq<RuleRow>) -> State {
        State { fields: self.fields, objects: self.objects, rules, keys: self.keys }
    }

    /// A new field joins the fields, unless its identifier is taken.
    pub open spec fn field_inserted(self, field: FieldView) -> Result<State, DomainErrorView> {
        if self.field(field.id) is Some {
            Err(duplicate_key())
        } else {
            Ok(self.with_fields(self.fields.push(field)))
        }
    }

    /// The field with the identifier gets another label.
    pub open spec fn field_relabelled(self, id: Seq<char>, label: Seq<char>) -> Result<
        State,
        DomainErrorView,
    > {
        match self.field(id) {
            None => Err(DomainErrorView::NotFound(id)),
            Some(field) => Ok(
                self.with_fields(
                    self.fields.update(
                        position(self.fields, field_with(id)),
                        FieldView { id, data_label: field.data_label, label },
                    ),
                ),
            ),
        }
    }

    /// A new object joins the objects, unless its identifier is taken.
    pub open spec fn object_inserted(self, row: ObjectRow) -> Result<State, DomainErrorView> {
        if self.object_row(row.id) is Some {
            Err(duplicate_key())
        } else {
            Ok(self.with_objects(self.objects.push(row)))
        }
    }

    /// The stored object with the identifier gets another document.
    pub open spec fn object_replaced(self, row: ObjectRow) -> Result<State, DomainErrorView> {
        if self.object_row(row.id) is Some {
            Ok(self.with_objects(self.objects.update(position(self.objects, object_with(row.id)), row)))
        } else {
            Err(DomainErrorView::NotFound(row.id))
        }
    }

    /// The stored object with the identifier leaves.
    pub open spec fn object_removed(self, id: Seq<char>) -> State {
        self.with_objects(self.objects.filter(object_without(id)))
    }

    /// A new rule joins the rules, unless its identifier is taken or its
    /// field is not there.
    pub open spec fn rule_inserted(self, row: RuleRow) -> Result<State, DomainErrorView> {
        if self.rule_row(row.id) is Some {
            Err(duplicate_key())
        } else if self.field(row.field_id) is None {
            Err(DomainErrorView::NotFound(row.field_id))
        } else {
            Ok(self.with_rules(self.rules.push(row)))
        }
    }

    /// The stored rule with the identifier gets another field and another
    /// way to make keys. Where the rule is not there, the error names the
    /// rule; where the rule is there and the field is not, it names the
    /// field.
    pub open spec fn rule_replaced(self, row: RuleRow) -> Result<State, DomainErrorView> {
        if self.rule_row(row.id) is None {
            Err(DomainErrorView::NotFound(row.id))
        } else if self.field(row.field_id) is None {
            Err(DomainErrorView::NotFound(row.field_id))
        } else {
            Ok(self.with_rules(self.rules.update(position(self.rules, rule_with(row.id)), row)))
        }
    }

    /// The stored rule with the identifier leaves.
    pub open spec fn rule_removed(self, id: Seq<char>) -> State {
        self.with_rules(self.rules.filter(rule_without(id)))
    }

    /// The rows join the keys, all of them or none.
    pub open spec fn keys_inserted(self, rows: Seq<KeyView>) -> Result<State, DomainErrorView> {
        if insertable(self.keys, rows) {
            Ok(self.with_keys(self.keys + rows))
        } else {
            Err(duplicate_key())
        }
    }

    /// The key of the rule for the object gets another value.
    pub open spec fn key_replaced(self, row: KeyView) -> Result<State, DomainErrorView> {
        if self.key(row.rule_id, row.object_id) is Some {
            Ok(
                self.with_keys(
                    self.keys.update(position(self.keys, key_with(row.rule_id, row.object_id)), row),
                ),
            )
        } else {
            Err(DomainErrorView::NotFound(row.rule_id))
        }
    }

    /// The keys of the rule leave.
    pub open spec fn without_keys_of_rule(self, rule_id: Seq<char>) -> State {
        self.with_keys(self.keys.filter(not_of_rule(rule_id)))
    }

    /// The keys of the object leave.
    pub open spec fn without_keys_of_object(self, object_id: Seq<char>) -> State {
        self.with_keys(self.keys.filter(not_of_object(object_id)))
    }

    /// An object is created: it joins the objects, and with it a key for
    /// every rule. Where a rule has no key for it, nothing happens.
    pub open spec fn object_created(
        self,
        id: Seq<char>,
        attributes: Map<Seq<char>, Seq<char>>,
    ) -> Result<State, DomainErrorView> {
        match self.rules_joined() {
            Err(error) => Err(error),
            Ok(rules) => match self.object_inserted(ObjectRow { id, attributes: Some(attributes) }) {
                Err(error) => Err(error),
                Ok(with_object) => match keys_for_object(rules, attributes) {
                    Err(error) => Err(error),
                    Ok(pairs) => with_object.keys_inserted(rows_for_object(id, pairs)),
                },
            },
        }
    }

    /// An object gets other attributes: its keys leave, and a key for every
    /// rule, made from the new attributes, comes in their place. Where a
    /// rule has no key for it, nothing happens.
    pub open spec fn object_updated(
        self,
        id: Seq<char>,
        attributes: Map<Seq<char>, Seq<char>>,
    ) -> Result<State, DomainErrorView> {
        match self.rules_joined() {
            Err(error) => Err(error),
            Ok(rules) => match self.object_replaced(ObjectRow { id, attributes: Some(attributes) }) {
                Err(error) => Err(error),
                Ok(with_object) => match keys_for_object(rules, attributes) {
                    Err(error) => Err(error),
                    Ok(pairs) => with_object.without_keys_of_object(id).keys_inserted(
                        rows_for_object(id, pairs),
                    ),
                },
            },
        }
    }

    /// An object is deleted, and its keys with it.
    pub open spec fn object_deleted(self, id: Seq<char>) -> State {
        self.object_removed(id).without_keys_of_object(id)
    }

    /// A rule is created: it joins the rules, and with it a key for every
    /// object. Where it has no key for an object, nothing happens.
    pub open spec fn rule_created(self, row: RuleRow) -> Result<State, DomainErrorView> {
        match self.objects_read() {
            Err(error) => Err(error),
            Ok(objects) => match self.rule_inserted(row) {
                Err(error) => Err(error),
                Ok(with_rule) => match keys_for_rule(with_rule.joined(row)->Ok_0, objects) {
                    Err(error) => Err(error),
                    Ok(pairs) => with_rule.keys_inserted(rows_for_rule(row.id, pairs)),
                },
            },
        }
    }

    /// A rule is changed: its keys leave, and a key for every object, made
    /// by the changed rule, comes in their place. Where it has no key for an
    /// object, nothing happens.
    pub open spec fn rule_updated(self, row: RuleRow) -> Result<State, DomainErrorView> {
        match self.objects_read() {
            Err(error) => Err(error),
            Ok(objects) => match self.rule_replaced(row) {
                Err(error) => Err(error),
                Ok(with_rule) => match keys_for_rule(with_rule.joined(row)->Ok_0, objects) {
                    Err(error) => Err(error),
                    Ok(pairs) => with_rule.without_keys_of_rule(row.id).keys_inserted(
                        rows_for_rule(row.id, pairs),
                    ),
                },
            },
        }
    }

    /// A rule is deleted, and its keys with it.
    pub open spec fn rule_deleted(self, id: Seq<char>) -> State {
        self.rule_removed(id).without_keys_of_rule(id)
    }

    /// The keys of a rule are stored. Keys that the rule has already make
    /// way for them, so that storing the same keys twice is storing them
    /// once.
    pub open spec fn keys_created_by_rule(
        self,
        rule_id: Seq<char>,
        pairs: Seq<(Seq<char>, Seq<char>)>,
    ) -> Result<State, DomainErrorView> {
        self.without_keys_of_rule(rule_id).keys_inserted(rows_for_rule(rule_id, pairs))
    }

    /// The keys of a rule are replaced by others.
    pub open spec fn keys_updated_by_rule(
        self,
        rule_id: Seq<char>,
        pairs: Seq<(Seq<char>, Seq<char>)>,
    ) -> Result<State, DomainErrorView> {
        self.without_keys_of_rule(rule_id).keys_inserted(rows_for_rule(rule_id, pairs))
    }

    /// No two rows of a table have one primary key.
    pub open spec fn keyed(self) -> bool {
        &&& forall|i: int, j: int|
            0 <= i < self.fields.len() && 0 <= j < self.fields.len() && i != j ==> (
            #[trigger] self.fields[i]).id != (#[trigger] self.fields[j]).id
        &&& forall|i: int, j: int|
            0 <= i < self.objects.len() && 0 <= j < self.objects.len() && i != j ==> (
            #[trigger] self.objects[i]).id != (#[trigger] self.objects[j]).id
        &&& forall|i: int, j: int|
            0 <= i < self.rules.len() && 0 <= j < self.rules.len() && i != j ==> (
            #[trigger] self.rules[i]).id != (#[trigger] self.rules[j]).id
        &&& keys_unique(self.keys)
    }

    /// The key is what some rule of the store derives for some object of
    /// the store.
    pub open spec fn derives(self, key: KeyView) -> bool {
        exists|r: int, o: int|
            0 <= r < self.rules.len() && 0 <= o < self.objects.len() && #[trigger] derived(
                self.fields,
                self.rules[r],
                self.objects[o],
            ) == Some(key)
    }

    /// Every rule of the store has a key for an object with the
    /// attributes.
    pub open spec fn has_keys_for(self, attributes: Map<Seq<char>, Seq<char>>) -> bool {
        forall|r: int|
            0 <= r < self.rules.len() ==> self.joined(#[trigger] self.rules[r]) is Ok && self.joined(
                self.rules[r],
            )->Ok_0.key_for(attributes) is Ok
    }

    /// The rule has a key for every object of the store.
    pub open spec fn has_keys_of(self, rule: RuleView) -> bool {
        forall|o: int|
            0 <= o < self.objects.len() ==> (#[trigger] self.objects[o]).attributes is Some
                && rule.key_for(self.objects[o].attributes->Some_0) is Ok
    }

    /// Every rule has its field among the fields, and the document of every
    /// object is a flat record of scalars.
    pub open spec fn sound(self) -> bool {
        &&& forall|r: int|
            0 <= r < self.rules.len() ==> self.field((#[trigger] self.rules[r]).field_id) is Some
        &&& forall|o: int|
            0 <= o < self.objects.len() ==> (#[trigger] self.objects[o]).attributes is Some
    }

    /// The keys are in line with the rules and the objects: the rows are
    /// sound, every rule derives a key for every object, that key is
    /// stored, and nothing else is stored as a key.
    pub open spec fn consistent(self) -> bool {
        &&& self.keyed()
        &&& self.sound()
        &&& forall|r: int, o: int|
            0 <= r < self.rules.len() && 0 <= o < self.objects.len() ==> (#[trigger] derived(
                self.fields,
                self.rules[r],
                self.objects[o],
            )) is Some && self.keys.contains(
                derived(self.fields, self.rules[r], self.objects[o])->Some_0,
            )
        &&& forall|k: int| 0 <= k < self.keys.len() ==> self.derives(#[trigger] self.keys[k])
    }

    /// Every rule has exactly one key for every object.
    pub open spec fn complete(self) -> bool {
        &&& keys_unique(self.keys)
        &&& forall|r: int, o: int|
            0 <= r < self.rules.len() && 0 <= o < self.objects.len() ==> holds_key(
                self.keys,
                (#[trigger] self.rules[r]).id,
                (#[trigger] self.objects[o]).id,
            )
    }
}

} // verus!
