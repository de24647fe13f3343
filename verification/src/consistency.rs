use crate::derivation::{
    keys_for_object, keys_for_rule, outcomes_for_object, outcomes_for_rule,
};
use crate::error::DomainErrorView;
use crate::objects::ObjectView;
use crate::rules::RuleView;
use crate::fields::FieldView;
use crate::keys::KeyView;
use crate::laws::{
    lemma_filtered_unique, lemma_inserted_unique, lemma_keys_for_object_per_rule,
    lemma_keys_for_rule_per_object,
};
use crate::sequences::{
    first, lemma_collect_all_ok, lemma_collect_ok, lemma_position, lemma_position_is, position,
};
use crate::state::{
    derived, field_with, holds_key, keys_unique, not_of_object, not_of_rule, object_of,
    object_with, object_without, rows_for_object, rows_for_rule, rule_with, rule_without,
    ObjectRow, RuleRow, State,
};
use vstd::prelude::*;

verus! {

/// A store in which the keys are in line with the rules and the objects is
/// one in which every rule has exactly one key for every object.
pub proof fn lemma_consistent_complete(state: State)
    requires
        state.consistent(),
    ensures
        state.complete(),
{
    assert forall|r: int, o: int|
        0 <= r < state.rules.len() && 0 <= o < state.objects.len() implies holds_key(
        state.keys,
        (#[trigger] state.rules[r]).id,
        (#[trigger] state.objects[o]).id,
    ) by {
        let key = derived(state.fields, state.rules[r], state.objects[o])->Some_0;
        assert(state.keys.contains(key));
        let k = choose|k: int| 0 <= k < state.keys.len() && state.keys[k] == key;
        assert(state.keys[k].rule_id == state.rules[r].id);
    }
}

/// In the store in which nothing was ever created the keys are in line
/// with the rules and the objects.
pub proof fn lemma_empty_consistent()
    ensures
        State::empty().consistent(),
{
}

/// A field that joins the fields under a new identifier is found under
/// that identifier, and every other field where it was.
proof fn lemma_first_pushed(fields: Seq<FieldView>, field: FieldView, id: Seq<char>)
    requires
        first(fields, field_with(field.id)) is None,
    ensures
        first(fields.push(field), field_with(id)) == if id == field.id {
            Some(field)
        } else {
            first(fields, field_with(id))
        },
{
    let wanted = field_with(id);
    let p = position(fields, wanted);
    let after = fields.push(field);
    lemma_position(fields, wanted);
    lemma_position(fields, field_with(field.id));
    if p < fields.len() {
        assert(after[p] == fields[p]);
        assert forall|j: int| 0 <= j < p implies !wanted(#[trigger] after[j]) by {
            assert(after[j] == fields[j]);
        }
        lemma_position_is(after, wanted, p);
        assert(fields[p].id == id);
        assert(!field_with(field.id)(fields[p]));
    } else {
        assert forall|j: int| 0 <= j < fields.len() implies !wanted(#[trigger] after[j]) by {
            assert(after[j] == fields[j]);
        }
        if id == field.id {
            lemma_position_is(after, wanted, fields.len() as int);
        } else {
            lemma_position_is(after, wanted, after.len() as int);
        }
    }
}

/// A field that takes the place of the first field with its identifier is
/// found under that identifier, and every other field where it was.
proof fn lemma_first_replaced(fields: Seq<FieldView>, field: FieldView, id: Seq<char>)
    requires
        first(fields, field_with(field.id)) is Some,
    ensures
        first(fields.update(position(fields, field_with(field.id)), field), field_with(id)) == if id
            == field.id {
            Some(field)
        } else {
            first(fields, field_with(id))
        },
{
    let at = position(fields, field_with(field.id));
    let wanted = field_with(id);
    let p = position(fields, wanted);
    let after = fields.update(at, field);
    lemma_position(fields, wanted);
    lemma_position(fields, field_with(field.id));
    assert forall|j: int| 0 <= j < p implies !wanted(#[trigger] after[j]) by {
        if j != at {
            assert(after[j] == fields[j]);
        } else {
            assert(fields[j].id == field.id);
        }
    }
    if p < fields.len() {
        if p != at {
            assert(after[p] == fields[p]);
            assert(fields[p].id == id);
            if id == field.id {
                assert(field_with(field.id)(fields[p]));
                assert(wanted(fields[at]));
            }
        }
    }
    lemma_position_is(after, wanted, p);
}

/// The keys stay in line when a field is created.
pub proof fn lemma_field_inserted_consistent(state: State, field: FieldView)
    requires
        state.consistent(),
        state.field_inserted(field) is Ok,
    ensures
        state.field_inserted(field)->Ok_0.consistent(),
{
    let after = state.field_inserted(field)->Ok_0;
    lemma_position(state.fields, field_with(field.id));
    assert forall|r: int, o: int| 0 <= r < after.rules.len() && 0 <= o < after.objects.len() implies (
    #[trigger] derived(after.fields, after.rules[r], after.objects[o])) == derived(
        state.fields,
        state.rules[r],
        state.objects[o],
    ) by {
        lemma_first_pushed(state.fields, field, state.rules[r].field_id);
        assert(derived(state.fields, state.rules[r], state.objects[o]) is Some);
    }
    assert forall|k: int| 0 <= k < after.keys.len() implies after.derives(#[trigger] after.keys[k]) by {
        assert(state.derives(state.keys[k]));
        let (r, o) = choose|r: int, o: int|
            0 <= r < state.rules.len() && 0 <= o < state.objects.len() && #[trigger] derived(
                state.fields,
                state.rules[r],
                state.objects[o],
            ) == Some(state.keys[k]);
        assert(derived(after.fields, after.rules[r], after.objects[o]) == Some(after.keys[k]));
    }
    assert forall|i: int, j: int|
        0 <= i < after.fields.len() && 0 <= j < after.fields.len() && i != j implies (
    #[trigger] after.fields[i]).id != (#[trigger] after.fields[j]).id by {
        if i < state.fields.len() && j < state.fields.len() {
            assert(after.fields[i] == state.fields[i] && after.fields[j] == state.fields[j]);
        } else {
            let other = if i < state.fields.len() {
                i
            } else {
                j
            };
            assert(!field_with(field.id)(state.fields[other]));
        }
    }
    assert forall|r: int| 0 <= r < after.rules.len() implies after.field(
        (#[trigger] after.rules[r]).field_id,
    ) is Some by {
        lemma_first_pushed(state.fields, field, state.rules[r].field_id);
        assert(state.field(state.rules[r].field_id) is Some);
    }
}

/// The keys stay in line when a field gets another label.
pub proof fn lemma_field_relabelled_consistent(state: State, id: Seq<char>, label: Seq<char>)
    requires
        state.consistent(),
        state.field_relabelled(id, label) is Ok,
    ensures
        state.field_relabelled(id, label)->Ok_0.consistent(),
{
    let after = state.field_relabelled(id, label)->Ok_0;
    let at = position(state.fields, field_with(id));
    let before = state.field(id)->Some_0;
    let field = FieldView { id, data_label: before.data_label, label };
    lemma_position(state.fields, field_with(id));
    assert forall|r: int, o: int| 0 <= r < after.rules.len() && 0 <= o < after.objects.len() implies (
    #[trigger] derived(after.fields, after.rules[r], after.objects[o])) == derived(
        state.fields,
        state.rules[r],
        state.objects[o],
    ) by {
        lemma_first_replaced(state.fields, field, state.rules[r].field_id);
    }
    assert forall|k: int| 0 <= k < after.keys.len() implies after.derives(#[trigger] after.keys[k]) by {
        assert(state.derives(state.keys[k]));
        let (r, o) = choose|r: int, o: int|
            0 <= r < state.rules.len() && 0 <= o < state.objects.len() && #[trigger] derived(
                state.fields,
                state.rules[r],
                state.objects[o],
            ) == Some(state.keys[k]);
        assert(derived(after.fields, after.rules[r], after.objects[o]) == Some(after.keys[k]));
    }
    assert forall|i: int, j: int|
        0 <= i < after.fields.len() && 0 <= j < after.fields.len() && i != j implies (
    #[trigger] after.fields[i]).id != (#[trigger] after.fields[j]).id by {
        assert(state.fields[i].id != state.fields[j].id);
        assert(state.fields[at].id == id);
    }
    assert forall|r: int| 0 <= r < after.rules.len() implies after.field(
        (#[trigger] after.rules[r]).field_id,
    ) is Some by {
        lemma_first_replaced(state.fields, field, state.rules[r].field_id);
        assert(state.field(state.rules[r].field_id) is Some);
    }
}

/// The rows that are made for an object are the keys that the rules derive
/// for it, rule by rule.
proof fn lemma_rows_for_object_derived(
    state: State,
    row: ObjectRow,
)
    requires
        row.attributes is Some,
        state.rules_joined() is Ok,
        keys_for_object(state.rules_joined()->Ok_0, row.attributes->Some_0) is Ok,
    ensures
        ({
            let rows = rows_for_object(
                row.id,
                keys_for_object(state.rules_joined()->Ok_0, row.attributes->Some_0)->Ok_0,
            );
            &&& rows.len() == state.rules.len()
            &&& forall|r: int|
                0 <= r < state.rules.len() ==> #[trigger] derived(state.fields, state.rules[r], row)
                    == Some(rows[r])
        }),
{
    lemma_keys_for_object_per_rule(state, row.attributes->Some_0);
}

/// The rows that are made for a rule are the keys that the rule derives
/// for the objects, object by object.
proof fn lemma_rows_for_rule_derived(state: State, row: RuleRow)
    requires
        state.joined(row) is Ok,
        state.objects_read() is Ok,
        keys_for_rule(state.joined(row)->Ok_0, state.objects_read()->Ok_0) is Ok,
    ensures
        ({
            let rows = rows_for_rule(
                row.id,
                keys_for_rule(state.joined(row)->Ok_0, state.objects_read()->Ok_0)->Ok_0,
            );
            &&& rows.len() == state.objects.len()
            &&& forall|o: int|
                0 <= o < state.objects.len() ==> #[trigger] derived(
                    state.fields,
                    row,
                    state.objects[o],
                ) == Some(rows[o])
        }),
{
    lemma_keys_for_rule_per_object(state, state.joined(row)->Ok_0);
}

/// A key that is stored and is to be kept is stored in what is left.
proof fn lemma_filtered_contains(keys: Seq<KeyView>, kept_if: spec_fn(KeyView) -> bool, key: KeyView)
    requires
        keys.contains(key),
        kept_if(key),
    ensures
        keys.filter(kept_if).contains(key),
{
    let i = choose|i: int| 0 <= i < keys.len() && keys[i] == key;
    keys.lemma_filter_contains(kept_if, i);
}

/// The keys stay in line when an object is created.
pub proof fn lemma_object_created_consistent(
    state: State,
    id: Seq<char>,
    attributes: Map<Seq<char>, Seq<char>>,
)
    requires
        state.consistent(),
        state.object_created(id, attributes) is Ok,
    ensures
        state.object_created(id, attributes)->Ok_0.consistent(),
{
    let after = state.object_created(id, attributes)->Ok_0;
    let row = ObjectRow { id, attributes: Some(attributes) };
    let rows = rows_for_object(id, keys_for_object(state.rules_joined()->Ok_0, attributes)->Ok_0);
    let n = state.objects.len() as int;
    lemma_rows_for_object_derived(state, row);
    lemma_inserted_unique(state.keys, rows);
    lemma_position(state.objects, object_with(id));
    assert forall|r: int, o: int| 0 <= r < after.rules.len() && 0 <= o < after.objects.len() implies (
    #[trigger] derived(after.fields, after.rules[r], after.objects[o])) is Some && after.keys.contains(
        derived(after.fields, after.rules[r], after.objects[o])->Some_0,
    ) by {
        if o < n {
            assert(after.objects[o] == state.objects[o]);
            let key = derived(state.fields, state.rules[r], state.objects[o])->Some_0;
            assert(state.keys.contains(key));
            let k = choose|k: int| 0 <= k < state.keys.len() && state.keys[k] == key;
            assert(after.keys[k] == key);
        } else {
            assert(after.objects[o] == row);
            assert(derived(state.fields, state.rules[r], row) == Some(rows[r]));
            assert(after.keys[state.keys.len() + r] == rows[r]);
        }
    }
    assert forall|k: int| 0 <= k < after.keys.len() implies after.derives(#[trigger] after.keys[k]) by {
        if k < state.keys.len() {
            assert(after.keys[k] == state.keys[k]);
            assert(state.derives(state.keys[k]));
            let (r, o) = choose|r: int, o: int|
                0 <= r < state.rules.len() && 0 <= o < state.objects.len() && #[trigger] derived(
                    state.fields,
                    state.rules[r],
                    state.objects[o],
                ) == Some(state.keys[k]);
            assert(after.objects[o] == state.objects[o]);
            assert(derived(after.fields, after.rules[r], after.objects[o]) == Some(after.keys[k]));
        } else {
            let r = k - state.keys.len();
            assert(after.keys[k] == rows[r]);
            assert(after.objects[n] == row);
            assert(derived(state.fields, state.rules[r], row) == Some(rows[r]));
            assert(derived(after.fields, after.rules[r], after.objects[n]) == Some(after.keys[k]));
        }
    }
    assert forall|i: int, j: int|
        0 <= i < after.objects.len() && 0 <= j < after.objects.len() && i != j implies (
    #[trigger] after.objects[i]).id != (#[trigger] after.objects[j]).id by {
        if i < n && j < n {
            assert(after.objects[i] == state.objects[i] && after.objects[j] == state.objects[j]);
        } else {
            let other = if i < n {
                i
            } else {
                j
            };
            assert(!object_with(id)(state.objects[other]));
        }
    }
    assert forall|o: int| 0 <= o < after.objects.len() implies (
    #[trigger] after.objects[o]).attributes is Some by {
        if o < n {
            assert(after.objects[o] == state.objects[o]);
        }
    }
}

/// The keys stay in line when an object gets other attributes.
pub proof fn lemma_object_updated_consistent(
    state: State,
    id: Seq<char>,
    attributes: Map<Seq<char>, Seq<char>>,
)
    requires
        state.consistent(),
        state.object_updated(id, attributes) is Ok,
    ensures
        state.object_updated(id, attributes)->Ok_0.consistent(),
{
    let after = state.object_updated(id, attributes)->Ok_0;
    let row = ObjectRow { id, attributes: Some(attributes) };
    let rows = rows_for_object(id, keys_for_object(state.rules_joined()->Ok_0, attributes)->Ok_0);
    let left = state.keys.filter(not_of_object(id));
    let at = position(state.objects, object_with(id));
    lemma_rows_for_object_derived(state, row);
    lemma_filtered_unique(state.keys, not_of_object(id));
    lemma_inserted_unique(left, rows);
    lemma_position(state.objects, object_with(id));
    assert(state.objects[at].id == id);
    assert forall|r: int, o: int| 0 <= r < after.rules.len() && 0 <= o < after.objects.len() implies (
    #[trigger] derived(after.fields, after.rules[r], after.objects[o])) is Some && after.keys.contains(
        derived(after.fields, after.rules[r], after.objects[o])->Some_0,
    ) by {
        if o == at {
            assert(after.objects[o] == row);
            assert(derived(state.fields, state.rules[r], row) == Some(rows[r]));
            assert(after.keys[left.len() + r] == rows[r]);
        } else {
            assert(after.objects[o] == state.objects[o]);
            assert(state.objects[o].id != state.objects[at].id);
            let key = derived(state.fields, state.rules[r], state.objects[o])->Some_0;
            lemma_filtered_contains(state.keys, not_of_object(id), key);
            let k = choose|k: int| 0 <= k < left.len() && left[k] == key;
            assert(after.keys[k] == key);
        }
    }
    assert forall|k: int| 0 <= k < after.keys.len() implies after.derives(#[trigger] after.keys[k]) by {
        if k < left.len() {
            let key = left[k];
            assert(after.keys[k] == key);
            state.keys.lemma_filter_pred(not_of_object(id), k);
            assert(left.contains(key));
            state.keys.lemma_filter_contains_rev(not_of_object(id), key);
            let j = choose|j: int| 0 <= j < state.keys.len() && state.keys[j] == key;
            assert(state.derives(state.keys[j]));
            let (r, o) = choose|r: int, o: int|
                0 <= r < state.rules.len() && 0 <= o < state.objects.len() && #[trigger] derived(
                    state.fields,
                    state.rules[r],
                    state.objects[o],
                ) == Some(key);
            assert(state.objects[o].id == key.object_id);
            assert(o != at);
            assert(after.objects[o] == state.objects[o]);
            assert(derived(after.fields, after.rules[r], after.objects[o]) == Some(after.keys[k]));
        } else {
            let r = k - left.len();
            assert(after.keys[k] == rows[r]);
            assert(after.objects[at] == row);
            assert(derived(state.fields, state.rules[r], row) == Some(rows[r]));
            assert(derived(after.fields, after.rules[r], after.objects[at]) == Some(after.keys[k]));
        }
    }
    assert forall|i: int, j: int|
        0 <= i < after.objects.len() && 0 <= j < after.objects.len() && i != j implies (
    #[trigger] after.objects[i]).id != (#[trigger] after.objects[j]).id by {
        assert(state.objects[i].id != state.objects[j].id);
    }
    assert forall|o: int| 0 <= o < after.objects.len() implies (
    #[trigger] after.objects[o]).attributes is Some by {
        if o != at {
            assert(after.objects[o] == state.objects[o]);
        }
    }
}

/// The keys stay in line when an object is deleted.
pub proof fn lemma_object_deleted_consistent(state: State, id: Seq<char>)
    requires
        state.consistent(),
    ensures
        state.object_deleted(id).consistent(),
{
    let after = state.object_deleted(id);
    let left = state.keys.filter(not_of_object(id));
    lemma_filtered_unique(state.keys, not_of_object(id));
    assert forall|o: int| 0 <= o < after.objects.len() implies (#[trigger] after.objects[o]).id != id
        && state.objects.contains(after.objects[o]) by {
        state.objects.lemma_filter_pred(object_without(id), o);
        assert(after.objects.contains(after.objects[o]));
        state.objects.lemma_filter_contains_rev(object_without(id), after.objects[o]);
    }
    assert forall|r: int, o: int| 0 <= r < after.rules.len() && 0 <= o < after.objects.len() implies (
    #[trigger] derived(after.fields, after.rules[r], after.objects[o])) is Some && after.keys.contains(
        derived(after.fields, after.rules[r], after.objects[o])->Some_0,
    ) by {
        let row = after.objects[o];
        assert(state.objects.contains(row));
        let before = choose|b: int| 0 <= b < state.objects.len() && state.objects[b] == row;
        let key = derived(state.fields, state.rules[r], state.objects[before])->Some_0;
        lemma_filtered_contains(state.keys, not_of_object(id), key);
    }
    assert forall|k: int| 0 <= k < after.keys.len() implies after.derives(#[trigger] after.keys[k]) by {
        let key = left[k];
        state.keys.lemma_filter_pred(not_of_object(id), k);
        assert(left.contains(key));
        state.keys.lemma_filter_contains_rev(not_of_object(id), key);
        let j = choose|j: int| 0 <= j < state.keys.len() && state.keys[j] == key;
        assert(state.derives(state.keys[j]));
        let (r, o) = choose|r: int, o: int|
            0 <= r < state.rules.len() && 0 <= o < state.objects.len() && #[trigger] derived(
                state.fields,
                state.rules[r],
                state.objects[o],
            ) == Some(key);
        state.objects.lemma_filter_contains(object_without(id), o);
        let kept = choose|kept: int|
            0 <= kept < after.objects.len() && after.objects[kept] == state.objects[o];
        assert(derived(after.fields, after.rules[r], after.objects[kept]) == Some(after.keys[k]));
    }
    lemma_filtered_ids_unique_objects(state.objects, id);
    assert forall|o: int| 0 <= o < after.objects.len() implies (
    #[trigger] after.objects[o]).attributes is Some by {
        assert(state.objects.contains(after.objects[o]));
        let b = choose|b: int| 0 <= b < state.objects.len() && state.objects[b] == after.objects[o];
        assert(state.objects[b].attributes is Some);
    }
}

/// What is left of objects with different identifiers has different
/// identifiers.
proof fn lemma_filtered_ids_unique_objects(objects: Seq<ObjectRow>, id: Seq<char>)
    requires
        forall|i: int, j: int|
            0 <= i < objects.len() && 0 <= j < objects.len() && i != j ==> (#[trigger] objects[i]).id
                != (#[trigger] objects[j]).id,
    ensures
        forall|i: int, j: int|
            0 <= i < objects.filter(object_without(id)).len() && 0 <= j < objects.filter(
                object_without(id),
            ).len() && i != j ==> (#[trigger] objects.filter(object_without(id))[i]).id != (
            #[trigger] objects.filter(object_without(id))[j]).id,
    decreases objects.len(),
{
    reveal(Seq::filter);
    let kept_if = object_without(id);
    if objects.len() > 0 {
        let front = objects.drop_last();
        let last = objects.last();
        assert forall|i: int, j: int|
            0 <= i < front.len() && 0 <= j < front.len() && i != j implies (#[trigger] front[i]).id != (
        #[trigger] front[j]).id by {
            assert(front[i] == objects[i] && front[j] == objects[j]);
        }
        lemma_filtered_ids_unique_objects(front, id);
        if kept_if(last) {
            let left = front.filter(kept_if);
            let all = left.push(last);
            assert forall|i: int, j: int|
                0 <= i < all.len() && 0 <= j < all.len() && i != j implies (#[trigger] all[i]).id != (
            #[trigger] all[j]).id by {
                if i < left.len() && j < left.len() {
                    assert(all[i] == left[i] && all[j] == left[j]);
                } else {
                    let inner = if i < left.len() {
                        i
                    } else {
                        j
                    };
                    assert(left.contains(left[inner]));
                    front.lemma_filter_contains_rev(kept_if, left[inner]);
                    let k = choose|k: int| 0 <= k < front.len() && front[k] == left[inner];
                    assert(objects[k] == left[inner]);
                    assert(objects[objects.len() - 1] == last);
                }
            }
        }
    }
}

/// What is left of rules with different identifiers has different
/// identifiers.
proof fn lemma_filtered_ids_unique_rules(rules: Seq<RuleRow>, id: Seq<char>)
    requires
        forall|i: int, j: int|
            0 <= i < rules.len() && 0 <= j < rules.len() && i != j ==> (#[trigger] rules[i]).id != (
            #[trigger] rules[j]).id,
    ensures
        forall|i: int, j: int|
            0 <= i < rules.filter(rule_without(id)).len() && 0 <= j < rules.filter(
                rule_without(id),
            ).len() && i != j ==> (#[trigger] rules.filter(rule_without(id))[i]).id != (
            #[trigger] rules.filter(rule_without(id))[j]).id,
    decreases rules.len(),
{
    reveal(Seq::filter);
    let kept_if = rule_without(id);
    if rules.len() > 0 {
        let front = rules.drop_last();
        let last = rules.last();
        assert forall|i: int, j: int|
            0 <= i < front.len() && 0 <= j < front.len() && i != j implies (#[trigger] front[i]).id != (
        #[trigger] front[j]).id by {
            assert(front[i] == rules[i] && front[j] == rules[j]);
        }
        lemma_filtered_ids_unique_rules(front, id);
        if kept_if(last) {
            let left = front.filter(kept_if);
            let all = left.push(last);
            assert forall|i: int, j: int|
                0 <= i < all.len() && 0 <= j < all.len() && i != j implies (#[trigger] all[i]).id != (
            #[trigger] all[j]).id by {
                if i < left.len() && j < left.len() {
                    assert(all[i] == left[i] && all[j] == left[j]);
                } else {
                    let inner = if i < left.len() {
                        i
                    } else {
                        j
                    };
                    assert(left.contains(left[inner]));
                    front.lemma_filter_contains_rev(kept_if, left[inner]);
                    let k = choose|k: int| 0 <= k < front.len() && front[k] == left[inner];
                    assert(rules[k] == left[inner]);
                    assert(rules[rules.len() - 1] == last);
                }
            }
        }
    }
}

/// The keys stay in line when a rule is created.
pub proof fn lemma_rule_created_consistent(state: State, row: RuleRow)
    requires
        state.consistent(),
        state.rule_created(row) is Ok,
    ensures
        state.rule_created(row)->Ok_0.consistent(),
{
    let after = state.rule_created(row)->Ok_0;
    let rows = rows_for_rule(
        row.id,
        keys_for_rule(state.joined(row)->Ok_0, state.objects_read()->Ok_0)->Ok_0,
    );
    let n = state.rules.len() as int;
    lemma_rows_for_rule_derived(state, row);
    lemma_inserted_unique(state.keys, rows);
    lemma_position(state.rules, rule_with(row.id));
    assert forall|r: int, o: int| 0 <= r < after.rules.len() && 0 <= o < after.objects.len() implies (
    #[trigger] derived(after.fields, after.rules[r], after.objects[o])) is Some && after.keys.contains(
        derived(after.fields, after.rules[r], after.objects[o])->Some_0,
    ) by {
        if r < n {
            assert(after.rules[r] == state.rules[r]);
            let key = derived(state.fields, state.rules[r], state.objects[o])->Some_0;
            assert(state.keys.contains(key));
            let k = choose|k: int| 0 <= k < state.keys.len() && state.keys[k] == key;
            assert(after.keys[k] == key);
        } else {
            assert(after.rules[r] == row);
            assert(derived(state.fields, row, state.objects[o]) == Some(rows[o]));
            assert(after.keys[state.keys.len() + o] == rows[o]);
        }
    }
    assert forall|k: int| 0 <= k < after.keys.len() implies after.derives(#[trigger] after.keys[k]) by {
        if k < state.keys.len() {
            assert(after.keys[k] == state.keys[k]);
            assert(state.derives(state.keys[k]));
            let (r, o) = choose|r: int, o: int|
                0 <= r < state.rules.len() && 0 <= o < state.objects.len() && #[trigger] derived(
                    state.fields,
                    state.rules[r],
                    state.objects[o],
                ) == Some(state.keys[k]);
            assert(after.rules[r] == state.rules[r]);
            assert(derived(after.fields, after.rules[r], after.objects[o]) == Some(after.keys[k]));
        } else {
            let o = k - state.keys.len();
            assert(after.keys[k] == rows[o]);
            assert(after.rules[n] == row);
            assert(derived(state.fields, row, state.objects[o]) == Some(rows[o]));
            assert(derived(after.fields, after.rules[n], after.objects[o]) == Some(after.keys[k]));
        }
    }
    assert forall|i: int, j: int|
        0 <= i < after.rules.len() && 0 <= j < after.rules.len() && i != j implies (
    #[trigger] after.rules[i]).id != (#[trigger] after.rules[j]).id by {
        if i < n && j < n {
            assert(after.rules[i] == state.rules[i] && after.rules[j] == state.rules[j]);
        } else {
            let other = if i < n {
                i
            } else {
                j
            };
            assert(!rule_with(row.id)(state.rules[other]));
        }
    }
    assert forall|r: int| 0 <= r < after.rules.len() implies after.field(
        (#[trigger] after.rules[r]).field_id,
    ) is Some by {
        if r < n {
            assert(after.rules[r] == state.rules[r]);
            assert(state.field(state.rules[r].field_id) is Some);
        }
    }
}

/// The keys stay in line when a rule is changed.
pub proof fn lemma_rule_updated_consistent(state: State, row: RuleRow)
    requires
        state.consistent(),
        state.rule_updated(row) is Ok,
    ensures
        state.rule_updated(row)->Ok_0.consistent(),
{
    let after = state.rule_updated(row)->Ok_0;
    let rows = rows_for_rule(
        row.id,
        keys_for_rule(state.joined(row)->Ok_0, state.objects_read()->Ok_0)->Ok_0,
    );
    let left = state.keys.filter(not_of_rule(row.id));
    let at = position(state.rules, rule_with(row.id));
    lemma_rows_for_rule_derived(state, row);
    lemma_filtered_unique(state.keys, not_of_rule(row.id));
    lemma_inserted_unique(left, rows);
    lemma_position(state.rules, rule_with(row.id));
    assert(state.rules[at].id == row.id);
    assert forall|r: int, o: int| 0 <= r < after.rules.len() && 0 <= o < after.objects.len() implies (
    #[trigger] derived(after.fields, after.rules[r], after.objects[o])) is Some && after.keys.contains(
        derived(after.fields, after.rules[r], after.objects[o])->Some_0,
    ) by {
        if r == at {
            assert(after.rules[r] == row);
            assert(derived(state.fields, row, state.objects[o]) == Some(rows[o]));
            assert(after.keys[left.len() + o] == rows[o]);
        } else {
            assert(after.rules[r] == state.rules[r]);
            assert(state.rules[r].id != state.rules[at].id);
            let key = derived(state.fields, state.rules[r], state.objects[o])->Some_0;
            lemma_filtered_contains(state.keys, not_of_rule(row.id), key);
            let k = choose|k: int| 0 <= k < left.len() && left[k] == key;
            assert(after.keys[k] == key);
        }
    }
    assert forall|k: int| 0 <= k < after.keys.len() implies after.derives(#[trigger] after.keys[k]) by {
        if k < left.len() {
            let key = left[k];
            assert(after.keys[k] == key);
            state.keys.lemma_filter_pred(not_of_rule(row.id), k);
            assert(left.contains(key));
            state.keys.lemma_filter_contains_rev(not_of_rule(row.id), key);
            let j = choose|j: int| 0 <= j < state.keys.len() && state.keys[j] == key;
            assert(state.derives(state.keys[j]));
            let (r, o) = choose|r: int, o: int|
                0 <= r < state.rules.len() && 0 <= o < state.objects.len() && #[trigger] derived(
                    state.fields,
                    state.rules[r],
                    state.objects[o],
                ) == Some(key);
            assert(state.rules[r].id == key.rule_id);
            assert(r != at);
            assert(after.rules[r] == state.rules[r]);
            assert(derived(after.fields, after.rules[r], after.objects[o]) == Some(after.keys[k]));
        } else {
            let o = k - left.len();
            assert(after.keys[k] == rows[o]);
            assert(after.rules[at] == row);
            assert(derived(state.fields, row, state.objects[o]) == Some(rows[o]));
            assert(derived(after.fields, after.rules[at], after.objects[o]) == Some(after.keys[k]));
        }
    }
    assert forall|i: int, j: int|
        0 <= i < after.rules.len() && 0 <= j < after.rules.len() && i != j implies (
    #[trigger] after.rules[i]).id != (#[trigger] after.rules[j]).id by {
        assert(state.rules[i].id != state.rules[j].id);
    }
    assert forall|r: int| 0 <= r < after.rules.len() implies after.field(
        (#[trigger] after.rules[r]).field_id,
    ) is Some by {
        if r != at {
            assert(after.rules[r] == state.rules[r]);
            assert(state.field(state.rules[r].field_id) is Some);
        }
    }
}

/// The keys stay in line when a rule is deleted.
pub proof fn lemma_rule_deleted_consistent(state: State, id: Seq<char>)
    requires
        state.consistent(),
    ensures
        state.rule_deleted(id).consistent(),
{
    let after = state.rule_deleted(id);
    let left = state.keys.filter(not_of_rule(id));
    lemma_filtered_unique(state.keys, not_of_rule(id));
    assert forall|r: int| 0 <= r < after.rules.len() implies (#[trigger] after.rules[r]).id != id
        && state.rules.contains(after.rules[r]) by {
        state.rules.lemma_filter_pred(rule_without(id), r);
        assert(after.rules.contains(after.rules[r]));
        state.rules.lemma_filter_contains_rev(rule_without(id), after.rules[r]);
    }
    assert forall|r: int, o: int| 0 <= r < after.rules.len() && 0 <= o < after.objects.len() implies (
    #[trigger] derived(after.fields, after.rules[r], after.objects[o])) is Some && after.keys.contains(
        derived(after.fields, after.rules[r], after.objects[o])->Some_0,
    ) by {
        let row = after.rules[r];
        assert(state.rules.contains(row));
        let before = choose|b: int| 0 <= b < state.rules.len() && state.rules[b] == row;
        let key = derived(state.fields, state.rules[before], state.objects[o])->Some_0;
        lemma_filtered_contains(state.keys, not_of_rule(id), key);
    }
    assert forall|k: int| 0 <= k < after.keys.len() implies after.derives(#[trigger] after.keys[k]) by {
        let key = left[k];
        state.keys.lemma_filter_pred(not_of_rule(id), k);
        assert(left.contains(key));
        state.keys.lemma_filter_contains_rev(not_of_rule(id), key);
        let j = choose|j: int| 0 <= j < state.keys.len() && state.keys[j] == key;
        assert(state.derives(state.keys[j]));
        let (r, o) = choose|r: int, o: int|
            0 <= r < state.rules.len() && 0 <= o < state.objects.len() && #[trigger] derived(
                state.fields,
                state.rules[r],
                state.objects[o],
            ) == Some(key);
        state.rules.lemma_filter_contains(rule_without(id), r);
        let kept = choose|kept: int|
            0 <= kept < after.rules.len() && after.rules[kept] == state.rules[r];
        assert(derived(after.fields, after.rules[kept], after.objects[o]) == Some(after.keys[k]));
    }
    lemma_filtered_ids_unique_rules(state.rules, id);
    assert forall|r: int| 0 <= r < after.rules.len() implies after.field(
        (#[trigger] after.rules[r]).field_id,
    ) is Some by {
        assert(state.rules.contains(after.rules[r]));
        let b = choose|b: int| 0 <= b < state.rules.len() && state.rules[b] == after.rules[r];
        assert(state.field(state.rules[b].field_id) is Some);
    }
}

/// In a store with sound rows all rules are read, each with its field.
pub proof fn lemma_sound_rules_joined(state: State)
    requires
        state.sound(),
    ensures
        state.rules_joined() is Ok,
        state.rules_joined()->Ok_0.len() == state.rules.len(),
        forall|r: int|
            0 <= r < state.rules.len() ==> state.joined(#[trigger] state.rules[r]) == Ok::<
                RuleView,
                DomainErrorView,
            >(state.rules_joined()->Ok_0[r]),
{
    let outcomes = state.join_outcomes();
    assert forall|r: int| 0 <= r < outcomes.len() implies (#[trigger] outcomes[r]) is Ok by {
        assert(state.field(state.rules[r].field_id) is Some);
    }
    lemma_collect_all_ok(outcomes);
    lemma_collect_ok(outcomes);
    assert forall|r: int| 0 <= r < state.rules.len() implies state.joined(
        #[trigger] state.rules[r],
    ) == Ok::<RuleView, DomainErrorView>(state.rules_joined()->Ok_0[r]) by {
        assert(outcomes[r] == state.joined(state.rules[r]));
    }
}

/// In a store with sound rows all objects are read.
pub proof fn lemma_sound_objects_read(state: State)
    requires
        state.sound(),
    ensures
        state.objects_read() is Ok,
        state.objects_read()->Ok_0.len() == state.objects.len(),
        forall|o: int|
            0 <= o < state.objects.len() ==> object_of(#[trigger] state.objects[o]) == Ok::<
                ObjectView,
                DomainErrorView,
            >(state.objects_read()->Ok_0[o]),
{
    let outcomes = state.read_outcomes();
    assert forall|o: int| 0 <= o < outcomes.len() implies (#[trigger] outcomes[o]) is Ok by {
        assert(state.objects[o].attributes is Some);
    }
    lemma_collect_all_ok(outcomes);
    lemma_collect_ok(outcomes);
    assert forall|o: int| 0 <= o < state.objects.len() implies object_of(
        #[trigger] state.objects[o],
    ) == Ok::<ObjectView, DomainErrorView>(state.objects_read()->Ok_0[o]) by {
        assert(outcomes[o] == object_of(state.objects[o]));
    }
}

/// In a store with sound rows, where every rule has a key for the
/// attributes, the keys under all rules are derived, and the rows made of
/// them are keys of different rules.
proof fn lemma_rows_for_object_ready(state: State, id: Seq<char>, attributes: Map<Seq<char>, Seq<char>>)
    requires
        state.keyed(),
        state.sound(),
        state.has_keys_for(attributes),
    ensures
        state.rules_joined() is Ok,
        keys_for_object(state.rules_joined()->Ok_0, attributes) is Ok,
        keys_unique(
            rows_for_object(id, keys_for_object(state.rules_joined()->Ok_0, attributes)->Ok_0),
        ),
        forall|i: int|
            0 <= i < rows_for_object(
                id,
                keys_for_object(state.rules_joined()->Ok_0, attributes)->Ok_0,
            ).len() ==> (#[trigger] rows_for_object(
                id,
                keys_for_object(state.rules_joined()->Ok_0, attributes)->Ok_0,
            )[i]).object_id == id,
{
    lemma_sound_rules_joined(state);
    let rules = state.rules_joined()->Ok_0;
    let outcomes = outcomes_for_object(rules, attributes);
    assert forall|r: int| 0 <= r < outcomes.len() implies (#[trigger] outcomes[r]) is Ok by {
        assert(state.joined(state.rules[r]) == Ok::<RuleView, DomainErrorView>(rules[r]));
    }
    lemma_collect_all_ok(outcomes);
    crate::laws::lemma_keys_for_object_per_rule(state, attributes);
    let pairs = keys_for_object(rules, attributes)->Ok_0;
    let rows = rows_for_object(id, pairs);
    assert forall|i: int, j: int| 0 <= i < rows.len() && 0 <= j < rows.len() && i != j implies !((
    #[trigger] rows[i]).rule_id == (#[trigger] rows[j]).rule_id && rows[i].object_id
        == rows[j].object_id) by {
        assert(pairs[i].0 == state.rules[i].id && pairs[j].0 == state.rules[j].id);
    }
}

/// In a store with sound rows, where the rule has a key for every object,
/// the keys for all objects are derived, and the rows made of them are
/// keys for different objects.
proof fn lemma_rows_for_rule_ready(state: State, rule: RuleView)
    requires
        state.keyed(),
        state.sound(),
        state.has_keys_of(rule),
    ensures
        state.objects_read() is Ok,
        keys_for_rule(rule, state.objects_read()->Ok_0) is Ok,
        keys_unique(rows_for_rule(rule.id, keys_for_rule(rule, state.objects_read()->Ok_0)->Ok_0)),
        forall|i: int|
            0 <= i < rows_for_rule(
                rule.id,
                keys_for_rule(rule, state.objects_read()->Ok_0)->Ok_0,
            ).len() ==> (#[trigger] rows_for_rule(
                rule.id,
                keys_for_rule(rule, state.objects_read()->Ok_0)->Ok_0,
            )[i]).rule_id == rule.id,
{
    lemma_sound_objects_read(state);
    let objects = state.objects_read()->Ok_0;
    let outcomes = outcomes_for_rule(rule, objects);
    assert forall|o: int| 0 <= o < outcomes.len() implies (#[trigger] outcomes[o]) is Ok by {
        assert(object_of(state.objects[o]) == Ok::<ObjectView, DomainErrorView>(objects[o]));
    }
    lemma_collect_all_ok(outcomes);
    lemma_keys_for_rule_per_object(state, rule);
    let pairs = keys_for_rule(rule, objects)->Ok_0;
    let rows = rows_for_rule(rule.id, pairs);
    assert forall|i: int, j: int| 0 <= i < rows.len() && 0 <= j < rows.len() && i != j implies !((
    #[trigger] rows[i]).rule_id == (#[trigger] rows[j]).rule_id && rows[i].object_id
        == rows[j].object_id) by {
        assert(pairs[i].0 == state.objects[i].id && pairs[j].0 == state.objects[j].id);
    }
}

/// In a store whose keys are in line, every key is a key of a rule of the
/// store for an object of the store.
proof fn lemma_key_refers(state: State, k: int)
    requires
        state.consistent(),
        0 <= k < state.keys.len(),
    ensures
        exists|r: int| 0 <= r < state.rules.len() && (#[trigger] state.rules[r]).id == state.keys[k].rule_id,
        exists|o: int|
            0 <= o < state.objects.len() && (#[trigger] state.objects[o]).id
                == state.keys[k].object_id,
{
    assert(state.derives(state.keys[k]));
    let (r, o) = choose|r: int, o: int|
        0 <= r < state.rules.len() && 0 <= o < state.objects.len() && #[trigger] derived(
            state.fields,
            state.rules[r],
            state.objects[o],
        ) == Some(state.keys[k]);
    assert(state.rules[r].id == state.keys[k].rule_id);
    assert(state.objects[o].id == state.keys[k].object_id);
}

/// In a store whose keys are in line, an object is created under every
/// identifier that no object has, where every rule has a key for its
/// attributes.
pub proof fn lemma_object_created_succeeds(
    state: State,
    id: Seq<char>,
    attributes: Map<Seq<char>, Seq<char>>,
)
    requires
        state.consistent(),
        state.object_row(id) is None,
        state.has_keys_for(attributes),
    ensures
        state.object_created(id, attributes) is Ok,
{
    lemma_rows_for_object_ready(state, id, attributes);
    let rows = rows_for_object(id, keys_for_object(state.rules_joined()->Ok_0, attributes)->Ok_0);
    lemma_position(state.objects, object_with(id));
    assert forall|i: int| 0 <= i < rows.len() implies !holds_key(
        state.keys,
        (#[trigger] rows[i]).rule_id,
        rows[i].object_id,
    ) by {
        if holds_key(state.keys, rows[i].rule_id, rows[i].object_id) {
            let k = choose|k: int|
                0 <= k < state.keys.len() && (#[trigger] state.keys[k]).rule_id == rows[i].rule_id
                    && state.keys[k].object_id == rows[i].object_id;
            lemma_key_refers(state, k);
            let o = choose|o: int|
                0 <= o < state.objects.len() && (#[trigger] state.objects[o]).id
                    == state.keys[k].object_id;
            assert(object_with(id)(state.objects[o]));
        }
    }
}

/// In a store whose keys are in line, an object that is there gets other
/// attributes where every rule has a key for them.
pub proof fn lemma_object_updated_succeeds(
    state: State,
    id: Seq<char>,
    attributes: Map<Seq<char>, Seq<char>>,
)
    requires
        state.consistent(),
        state.object_row(id) is Some,
        state.has_keys_for(attributes),
    ensures
        state.object_updated(id, attributes) is Ok,
{
    lemma_rows_for_object_ready(state, id, attributes);
    let rows = rows_for_object(id, keys_for_object(state.rules_joined()->Ok_0, attributes)->Ok_0);
    let left = state.keys.filter(not_of_object(id));
    assert forall|i: int| 0 <= i < rows.len() implies !holds_key(
        left,
        (#[trigger] rows[i]).rule_id,
        rows[i].object_id,
    ) by {
        if holds_key(left, rows[i].rule_id, rows[i].object_id) {
            let k = choose|k: int|
                0 <= k < left.len() && (#[trigger] left[k]).rule_id == rows[i].rule_id
                    && left[k].object_id == rows[i].object_id;
            state.keys.lemma_filter_pred(not_of_object(id), k);
        }
    }
}

/// In a store whose keys are in line, a rule is created under every
/// identifier that no rule has, where its field is there and it has a key
/// for every object.
pub proof fn lemma_rule_created_succeeds(state: State, row: RuleRow)
    requires
        state.consistent(),
        state.rule_row(row.id) is None,
        state.joined(row) is Ok,
        state.has_keys_of(state.joined(row)->Ok_0),
    ensures
        state.rule_created(row) is Ok,
{
    let rule = state.joined(row)->Ok_0;
    lemma_rows_for_rule_ready(state, rule);
    let rows = rows_for_rule(row.id, keys_for_rule(rule, state.objects_read()->Ok_0)->Ok_0);
    lemma_position(state.rules, rule_with(row.id));
    assert forall|i: int| 0 <= i < rows.len() implies !holds_key(
        state.keys,
        (#[trigger] rows[i]).rule_id,
        rows[i].object_id,
    ) by {
        if holds_key(state.keys, rows[i].rule_id, rows[i].object_id) {
            let k = choose|k: int|
                0 <= k < state.keys.len() && (#[trigger] state.keys[k]).rule_id == rows[i].rule_id
                    && state.keys[k].object_id == rows[i].object_id;
            lemma_key_refers(state, k);
            let r = choose|r: int|
                0 <= r < state.rules.len() && (#[trigger] state.rules[r]).id == state.keys[k].rule_id;
            assert(rule_with(row.id)(state.rules[r]));
        }
    }
}

/// In a store whose keys are in line, a rule that is there is changed
/// where its new field is there and it has a key for every object.
pub proof fn lemma_rule_updated_succeeds(state: State, row: RuleRow)
    requires
        state.consistent(),
        state.rule_row(row.id) is Some,
        state.joined(row) is Ok,
        state.has_keys_of(state.joined(row)->Ok_0),
    ensures
        state.rule_updated(row) is Ok,
{
    let rule = state.joined(row)->Ok_0;
    lemma_rows_for_rule_ready(state, rule);
    let rows = rows_for_rule(row.id, keys_for_rule(rule, state.objects_read()->Ok_0)->Ok_0);
    let left = state.keys.filter(not_of_rule(row.id));
    assert forall|i: int| 0 <= i < rows.len() implies !holds_key(
        left,
        (#[trigger] rows[i]).rule_id,
        rows[i].object_id,
    ) by {
        if holds_key(left, rows[i].rule_id, rows[i].object_id) {
            let k = choose|k: int|
                0 <= k < left.len() && (#[trigger] left[k]).rule_id == rows[i].rule_id
                    && left[k].object_id == rows[i].object_id;
            state.keys.lemma_filter_pred(not_of_rule(row.id), k);
        }
    }
}

} // verus!
