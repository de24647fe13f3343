use crate::derivation::{keys_for_object, keys_for_rule, outcomes_for_object, outcomes_for_rule};
use crate::error::DomainErrorView;
use crate::keys::KeyView;
use crate::objects::ObjectView;
use crate::rules::RuleView;
use crate::sequences::{lemma_collect_ok, lemma_position};
use crate::state::{
    holds_key, insertable, keys_unique, not_of_object, not_of_rule, object_with, object_without,
    rows_for_object, rows_for_rule, rule_with, rule_without, RuleRow, State,
};
use crate::subscriber::keys::{after_message, pairs_to_sync, resynced, rule_to_sync};
use crate::subscriber::pubsub_schema::sync_keys::PayloadView;
use vstd::prelude::*;

verus! {

/// Rows that can join keys without a double join them without a double.
pub proof fn lemma_inserted_unique(keys: Seq<KeyView>, rows: Seq<KeyView>)
    requires
        keys_unique(keys),
        insertable(keys, rows),
    ensures
        keys_unique(keys + rows),
{
    let all = keys + rows;
    assert forall|i: int, j: int| 0 <= i < all.len() && 0 <= j < all.len() && i != j implies !((
    #[trigger] all[i]).rule_id == (#[trigger] all[j]).rule_id && all[i].object_id
        == all[j].object_id) by {
        if i < keys.len() && j < keys.len() {
            assert(all[i] == keys[i] && all[j] == keys[j]);
        } else if i >= keys.len() && j >= keys.len() {
            assert(all[i] == rows[i - keys.len()] && all[j] == rows[j - keys.len()]);
        } else if i < keys.len() {
            assert(all[i] == keys[i] && all[j] == rows[j - keys.len()]);
        } else {
            assert(all[j] == keys[j] && all[i] == rows[i - keys.len()]);
        }
    }
}

/// What is left of keys without a double is without a double.
pub proof fn lemma_filtered_unique(keys: Seq<KeyView>, kept_if: spec_fn(KeyView) -> bool)
    requires
        keys_unique(keys),
    ensures
        keys_unique(keys.filter(kept_if)),
    decreases keys.len(),
{
    reveal(Seq::filter);
    if keys.len() > 0 {
        let front = keys.drop_last();
        let last = keys.last();
        assert forall|i: int, j: int|
            0 <= i < front.len() && 0 <= j < front.len() && i != j implies !((
        #[trigger] front[i]).rule_id == (#[trigger] front[j]).rule_id && front[i].object_id
            == front[j].object_id) by {
            assert(front[i] == keys[i] && front[j] == keys[j]);
        }
        lemma_filtered_unique(front, kept_if);
        if kept_if(last) {
            let left = front.filter(kept_if);
            let all = left.push(last);
            assert forall|i: int, j: int|
                0 <= i < all.len() && 0 <= j < all.len() && i != j implies !((
            #[trigger] all[i]).rule_id == (#[trigger] all[j]).rule_id && all[i].object_id
                == all[j].object_id) by {
                if i < left.len() && j < left.len() {
                    assert(all[i] == left[i] && all[j] == left[j]);
                } else {
                    let inner = if i < left.len() {
                        i
                    } else {
                        j
                    };
                    assert(left.contains(left[inner]));
                    front.lemma_filter_contains_rev(kept_if, left[inner]);
                    let k = choose|k: int| 0 <= k < front.len() && front[k] == left[inner];
                    assert(keys[k] == left[inner]);
                    assert(keys[keys.len() - 1] == last);
                }
            }
        }
    }
}

/// A key that is held and is to be kept is held by what is left.
pub proof fn lemma_filtered_holds(
    keys: Seq<KeyView>,
    kept_if: spec_fn(KeyView) -> bool,
    rule_id: Seq<char>,
    object_id: Seq<char>,
)
    requires
        holds_key(keys, rule_id, object_id),
        forall|key: KeyView|
            key.rule_id == rule_id && key.object_id == object_id ==> #[trigger] kept_if(key),
    ensures
        holds_key(keys.filter(kept_if), rule_id, object_id),
{
    let i = choose|i: int|
        0 <= i < keys.len() && (#[trigger] keys[i]).rule_id == rule_id && keys[i].object_id
            == object_id;
    keys.lemma_filter_contains(kept_if, i);
    let left = keys.filter(kept_if);
    let k = choose|k: int| 0 <= k < left.len() && left[k] == keys[i];
    assert(left[k].rule_id == rule_id && left[k].object_id == object_id);
}

/// A key that is held is still held when rows have joined.
pub proof fn lemma_joined_holds(
    keys: Seq<KeyView>,
    rows: Seq<KeyView>,
    rule_id: Seq<char>,
    object_id: Seq<char>,
)
    requires
        holds_key(keys, rule_id, object_id),
    ensures
        holds_key(keys + rows, rule_id, object_id),
{
    let i = choose|i: int|
        0 <= i < keys.len() && (#[trigger] keys[i]).rule_id == rule_id && keys[i].object_id
            == object_id;
    assert((keys + rows)[i] == keys[i]);
}

/// The keys of an object under all rules come one for each stored rule, in
/// the order of the stored rules, each under the identifier of its rule and
/// with the value that the rule makes of the attributes.
pub proof fn lemma_keys_for_object_per_rule(
    state: State,
    attributes: Map<Seq<char>, Seq<char>>,
)
    requires
        state.rules_joined() is Ok,
        keys_for_object(state.rules_joined()->Ok_0, attributes) is Ok,
    ensures
        keys_for_object(state.rules_joined()->Ok_0, attributes)->Ok_0.len() == state.rules.len(),
        forall|i: int|
            0 <= i < state.rules.len() ==> state.joined(#[trigger] state.rules[i]) is Ok
                && keys_for_object(state.rules_joined()->Ok_0, attributes)->Ok_0[i].0
                == state.rules[i].id && state.joined(state.rules[i])->Ok_0.key_for(attributes)
                == Ok::<Seq<char>, DomainErrorView>(
                keys_for_object(state.rules_joined()->Ok_0, attributes)->Ok_0[i].1,
            ),
{
    let rules = state.rules_joined()->Ok_0;
    lemma_collect_ok(state.join_outcomes());
    lemma_collect_ok(outcomes_for_object(rules, attributes));
    let pairs = keys_for_object(rules, attributes)->Ok_0;
    assert forall|i: int| 0 <= i < state.rules.len() implies state.joined(
        #[trigger] state.rules[i],
    ) is Ok && pairs[i].0 == state.rules[i].id && state.joined(state.rules[i])->Ok_0.key_for(
        attributes,
    ) == Ok::<Seq<char>, DomainErrorView>(pairs[i].1) by {
        assert(state.join_outcomes()[i] == Ok::<RuleView, DomainErrorView>(rules[i]));
        assert(outcomes_for_object(rules, attributes)[i] == Ok::<
            (Seq<char>, Seq<char>),
            DomainErrorView,
        >(pairs[i]));
    }
}

/// The keys of all objects under a rule come one for each stored object,
/// in the order of the stored objects, each under the identifier of its
/// object and with the value that the rule makes of the object's
/// attributes.
pub proof fn lemma_keys_for_rule_per_object(state: State, rule: RuleView)
    requires
        state.objects_read() is Ok,
        keys_for_rule(rule, state.objects_read()->Ok_0) is Ok,
    ensures
        keys_for_rule(rule, state.objects_read()->Ok_0)->Ok_0.len() == state.objects.len(),
        forall|i: int|
            0 <= i < state.objects.len() ==> (#[trigger] state.objects[i]).attributes is Some
                && keys_for_rule(rule, state.objects_read()->Ok_0)->Ok_0[i].0 == state.objects[i].id
                && rule.key_for(state.objects[i].attributes->Some_0) == Ok::<
                Seq<char>,
                DomainErrorView,
            >(keys_for_rule(rule, state.objects_read()->Ok_0)->Ok_0[i].1),
{
    let objects = state.objects_read()->Ok_0;
    lemma_collect_ok(state.read_outcomes());
    lemma_collect_ok(outcomes_for_rule(rule, objects));
    let pairs = keys_for_rule(rule, objects)->Ok_0;
    assert forall|i: int| 0 <= i < state.objects.len() implies (
    #[trigger] state.objects[i]).attributes is Some && pairs[i].0 == state.objects[i].id
        && rule.key_for(state.objects[i].attributes->Some_0) == Ok::<Seq<char>, DomainErrorView>(
        pairs[i].1,
    ) by {
        assert(state.read_outcomes()[i] == Ok::<ObjectView, DomainErrorView>(objects[i]));
        assert(outcomes_for_rule(rule, objects)[i] == Ok::<(Seq<char>, Seq<char>), DomainErrorView>(
            pairs[i],
        ));
    }
}

/// In the store in which nothing was ever created every rule has exactly
/// one key for every object.
pub proof fn lemma_empty_complete()
    ensures
        State::empty().complete(),
{
}

/// Where every rule has exactly one key for every object, it is so again
/// after an object was created.
pub proof fn lemma_object_created_complete(
    state: State,
    id: Seq<char>,
    attributes: Map<Seq<char>, Seq<char>>,
)
    requires
        state.complete(),
        state.object_created(id, attributes) is Ok,
    ensures
        state.object_created(id, attributes)->Ok_0.complete(),
{
    let after = state.object_created(id, attributes)->Ok_0;
    let pairs = keys_for_object(state.rules_joined()->Ok_0, attributes)->Ok_0;
    let rows = rows_for_object(id, pairs);
    lemma_keys_for_object_per_rule(state, attributes);
    lemma_inserted_unique(state.keys, rows);
    assert forall|r: int, o: int|
        0 <= r < after.rules.len() && 0 <= o < after.objects.len() implies holds_key(
        after.keys,
        (#[trigger] after.rules[r]).id,
        (#[trigger] after.objects[o]).id,
    ) by {
        if o < state.objects.len() {
            assert(after.objects[o] == state.objects[o]);
            lemma_joined_holds(state.keys, rows, state.rules[r].id, state.objects[o].id);
        } else {
            assert(pairs[r].0 == state.rules[r].id);
            assert(after.keys[state.keys.len() + r] == rows[r]);
        }
    }
}

/// Where every rule has exactly one key for every object, it is so again
/// after an object got other attributes.
pub proof fn lemma_object_updated_complete(
    state: State,
    id: Seq<char>,
    attributes: Map<Seq<char>, Seq<char>>,
)
    requires
        state.complete(),
        state.object_updated(id, attributes) is Ok,
    ensures
        state.object_updated(id, attributes)->Ok_0.complete(),
{
    let after = state.object_updated(id, attributes)->Ok_0;
    let pairs = keys_for_object(state.rules_joined()->Ok_0, attributes)->Ok_0;
    let rows = rows_for_object(id, pairs);
    let left = state.keys.filter(not_of_object(id));
    lemma_keys_for_object_per_rule(state, attributes);
    lemma_filtered_unique(state.keys, not_of_object(id));
    lemma_inserted_unique(left, rows);
    lemma_position(state.objects, object_with(id));
    assert forall|r: int, o: int|
        0 <= r < after.rules.len() && 0 <= o < after.objects.len() implies holds_key(
        after.keys,
        (#[trigger] after.rules[r]).id,
        (#[trigger] after.objects[o]).id,
    ) by {
        if after.objects[o].id == id {
            assert(pairs[r].0 == state.rules[r].id);
            assert(after.keys[left.len() + r] == rows[r]);
        } else {
            assert(after.objects[o] == state.objects[o]);
            lemma_filtered_holds(
                state.keys,
                not_of_object(id),
                state.rules[r].id,
                state.objects[o].id,
            );
            lemma_joined_holds(left, rows, state.rules[r].id, state.objects[o].id);
        }
    }
}

/// Where every rule has exactly one key for every object, it is so again
/// after an object was deleted.
pub proof fn lemma_object_deleted_complete(state: State, id: Seq<char>)
    requires
        state.complete(),
    ensures
        state.object_deleted(id).complete(),
{
    let after = state.object_deleted(id);
    lemma_filtered_unique(state.keys, not_of_object(id));
    assert forall|r: int, o: int|
        0 <= r < after.rules.len() && 0 <= o < after.objects.len() implies holds_key(
        after.keys,
        (#[trigger] after.rules[r]).id,
        (#[trigger] after.objects[o]).id,
    ) by {
        let row = after.objects[o];
        state.objects.lemma_filter_pred(object_without(id), o);
        assert(state.objects.filter(object_without(id)).contains(row));
        state.objects.lemma_filter_contains_rev(object_without(id), row);
        let before = choose|k: int| 0 <= k < state.objects.len() && state.objects[k] == row;
        assert(holds_key(state.keys, state.rules[r].id, state.objects[before].id));
        lemma_filtered_holds(state.keys, not_of_object(id), state.rules[r].id, row.id);
    }
}

/// Where every rule has exactly one key for every object, it is so again
/// after a rule was created.
pub proof fn lemma_rule_created_complete(state: State, row: RuleRow)
    requires
        state.complete(),
        state.rule_created(row) is Ok,
    ensures
        state.rule_created(row)->Ok_0.complete(),
{
    let after = state.rule_created(row)->Ok_0;
    let with_rule = state.rule_inserted(row)->Ok_0;
    let rule = with_rule.joined(row)->Ok_0;
    let pairs = keys_for_rule(rule, state.objects_read()->Ok_0)->Ok_0;
    let rows = rows_for_rule(row.id, pairs);
    lemma_keys_for_rule_per_object(state, rule);
    lemma_inserted_unique(state.keys, rows);
    assert forall|r: int, o: int|
        0 <= r < after.rules.len() && 0 <= o < after.objects.len() implies holds_key(
        after.keys,
        (#[trigger] after.rules[r]).id,
        (#[trigger] after.objects[o]).id,
    ) by {
        if r < state.rules.len() {
            assert(after.rules[r] == state.rules[r]);
            lemma_joined_holds(state.keys, rows, state.rules[r].id, state.objects[o].id);
        } else {
            assert(pairs[o].0 == state.objects[o].id);
            assert(after.keys[state.keys.len() + o] == rows[o]);
        }
    }
}

/// Where every rule has exactly one key for every object, it is so again
/// after a rule was changed.
pub proof fn lemma_rule_updated_complete(state: State, row: RuleRow)
    requires
        state.complete(),
        state.rule_updated(row) is Ok,
    ensures
        state.rule_updated(row)->Ok_0.complete(),
{
    let after = state.rule_updated(row)->Ok_0;
    let with_rule = state.rule_replaced(row)->Ok_0;
    let rule = with_rule.joined(row)->Ok_0;
    let pairs = keys_for_rule(rule, state.objects_read()->Ok_0)->Ok_0;
    let rows = rows_for_rule(row.id, pairs);
    let left = state.keys.filter(not_of_rule(row.id));
    lemma_keys_for_rule_per_object(state, rule);
    lemma_filtered_unique(state.keys, not_of_rule(row.id));
    lemma_inserted_unique(left, rows);
    lemma_position(state.rules, rule_with(row.id));
    assert forall|r: int, o: int|
        0 <= r < after.rules.len() && 0 <= o < after.objects.len() implies holds_key(
        after.keys,
        (#[trigger] after.rules[r]).id,
        (#[trigger] after.objects[o]).id,
    ) by {
        if after.rules[r].id == row.id {
            assert(pairs[o].0 == state.objects[o].id);
            assert(after.keys[left.len() + o] == rows[o]);
        } else {
            assert(after.rules[r] == state.rules[r]);
            lemma_filtered_holds(
                state.keys,
                not_of_rule(row.id),
                state.rules[r].id,
                state.objects[o].id,
            );
            lemma_joined_holds(left, rows, state.rules[r].id, state.objects[o].id);
        }
    }
}

/// Where every rule has exactly one key for every object, it is so again
/// after a rule was deleted.
pub proof fn lemma_rule_deleted_complete(state: State, id: Seq<char>)
    requires
        state.complete(),
    ensures
        state.rule_deleted(id).complete(),
{
    let after = state.rule_deleted(id);
    lemma_filtered_unique(state.keys, not_of_rule(id));
    assert forall|r: int, o: int|
        0 <= r < after.rules.len() && 0 <= o < after.objects.len() implies holds_key(
        after.keys,
        (#[trigger] after.rules[r]).id,
        (#[trigger] after.objects[o]).id,
    ) by {
        let row = after.rules[r];
        state.rules.lemma_filter_pred(rule_without(id), r);
        assert(state.rules.filter(rule_without(id)).contains(row));
        state.rules.lemma_filter_contains_rev(rule_without(id), row);
        let before = choose|k: int| 0 <= k < state.rules.len() && state.rules[k] == row;
        assert(holds_key(state.keys, state.rules[before].id, state.objects[o].id));
        lemma_filtered_holds(state.keys, not_of_rule(id), row.id, state.objects[o].id);
    }
}

/// After an object got other attributes, its keys are the keys that the
/// rules make of the new attributes, one for each rule and no other; the
/// keys of the other objects are what they were.
pub proof fn lemma_object_updated_keys(
    state: State,
    id: Seq<char>,
    attributes: Map<Seq<char>, Seq<char>>,
)
    requires
        state.object_updated(id, attributes) is Ok,
    ensures
        ({
            let after = state.object_updated(id, attributes)->Ok_0;
            let own = after.keys.subrange(
                state.keys.filter(not_of_object(id)).len() as int,
                after.keys.len() as int,
            );
            &&& after.keys.filter(not_of_object(id)) == state.keys.filter(not_of_object(id))
            &&& after.keys == state.keys.filter(not_of_object(id)) + own
            &&& own.len() == state.rules.len()
            &&& forall|i: int|
                0 <= i < state.rules.len() ==> {
                    let rule = state.joined(state.rules[i]);
                    &&& rule is Ok
                    &&& (#[trigger] own[i]).rule_id == state.rules[i].id
                    &&& own[i].object_id == id
                    &&& rule->Ok_0.key_for(attributes) == Ok::<Seq<char>, DomainErrorView>(
                        own[i].key,
                    )
                }
        }),
{
    let after = state.object_updated(id, attributes)->Ok_0;
    let pairs = keys_for_object(state.rules_joined()->Ok_0, attributes)->Ok_0;
    let rows = rows_for_object(id, pairs);
    let left = state.keys.filter(not_of_object(id));
    let own = after.keys.subrange(left.len() as int, after.keys.len() as int);
    lemma_keys_for_object_per_rule(state, attributes);
    assert(own =~= rows);
    assert(after.keys =~= left + own);
    Seq::filter_distributes_over_add(left, rows, not_of_object(id));
    lemma_filter_again(state.keys, not_of_object(id));
    assert forall|i: int| 0 <= i < rows.len() implies !not_of_object(id)(#[trigger] rows[i]) by {}
    lemma_filter_none(rows, not_of_object(id));
    assert(left + Seq::<KeyView>::empty() =~= left);
    assert forall|i: int| 0 <= i < state.rules.len() implies {
        let rule = state.joined(state.rules[i]);
        &&& rule is Ok
        &&& (#[trigger] own[i]).rule_id == state.rules[i].id
        &&& own[i].object_id == id
        &&& rule->Ok_0.key_for(attributes) == Ok::<Seq<char>, DomainErrorView>(own[i].key)
    } by {
        assert(own[i] == rows[i]);
        assert(rows[i].rule_id == pairs[i].0);
    }
}

/// What was kept once is all kept when the same is kept again.
pub proof fn lemma_filter_again<T>(rows: Seq<T>, kept_if: spec_fn(T) -> bool)
    ensures
        rows.filter(kept_if).filter(kept_if) == rows.filter(kept_if),
    decreases rows.len(),
{
    reveal(Seq::filter);
    if rows.len() > 0 {
        lemma_filter_again(rows.drop_last(), kept_if);
        if kept_if(rows.last()) {
            rows.drop_last().filter(kept_if).lemma_filter_push(rows.last(), kept_if);
        }
    }
}

/// Of rows of which none is to be kept, nothing is kept.
pub proof fn lemma_filter_none<T>(rows: Seq<T>, kept_if: spec_fn(T) -> bool)
    requires
        forall|i: int| 0 <= i < rows.len() ==> !kept_if(#[trigger] rows[i]),
    ensures
        rows.filter(kept_if) == Seq::<T>::empty(),
    decreases rows.len(),
{
    reveal(Seq::filter);
    if rows.len() > 0 {
        let front = rows.drop_last();
        assert forall|i: int| 0 <= i < front.len() implies !kept_if(#[trigger] front[i]) by {
            assert(front[i] == rows[i]);
        }
        lemma_filter_none(front, kept_if);
        assert(!kept_if(rows[rows.len() - 1]));
    }
}

/// After a rule was deleted no key refers to it, and every key of another
/// rule is where it was among the keys of the other rules: what is left
/// are the keys of the other rules, in their order.
pub proof fn lemma_rule_deleted_keys(state: State, id: Seq<char>)
    ensures
        ({
            let after = state.rule_deleted(id);
            &&& forall|i: int| 0 <= i < after.keys.len() ==> (#[trigger] after.keys[i]).rule_id != id
            &&& forall|i: int|
                0 <= i < state.keys.len() && (#[trigger] state.keys[i]).rule_id != id
                    ==> after.keys.contains(state.keys[i])
            &&& forall|i: int|
                0 <= i < after.keys.len() ==> state.keys.contains(#[trigger] after.keys[i])
            &&& after.keys.len() <= state.keys.len()
            &&& after.objects == state.objects
            &&& after.fields == state.fields
        }),
{
    let after = state.rule_deleted(id);
    let kept_if = not_of_rule(id);
    state.keys.lemma_filter_len(kept_if);
    assert forall|i: int| 0 <= i < after.keys.len() implies (#[trigger] after.keys[i]).rule_id
        != id by {
        state.keys.lemma_filter_pred(kept_if, i);
    }
    assert forall|i: int|
        0 <= i < state.keys.len() && (#[trigger] state.keys[i]).rule_id
            != id implies after.keys.contains(state.keys[i]) by {
        state.keys.lemma_filter_contains(kept_if, i);
    }
    assert forall|i: int| 0 <= i < after.keys.len() implies state.keys.contains(
        #[trigger] after.keys[i],
    ) by {
        assert(after.keys.contains(after.keys[i]));
        state.keys.lemma_filter_contains_rev(kept_if, after.keys[i]);
    }
}

/// A message that was handled once is handled again when it comes again,
/// and leaves the keys as it left them the first time: no row is doubled
/// and none is lost.
pub proof fn lemma_resynced_again(keys: State, rules: State, objects: State, payload: PayloadView)
    requires
        resynced(keys, rules, objects, payload) is Ok,
    ensures
        resynced(resynced(keys, rules, objects, payload)->Ok_0, rules, objects, payload) == resynced(
            keys,
            rules,
            objects,
            payload,
        ),
{
    let once = resynced(keys, rules, objects, payload)->Ok_0;
    match payload {
        PayloadView::Create(rule_id) => {
            lemma_replaced_again(keys, rule_id, pairs_to_sync(rules, objects, rule_id)->Ok_0);
        },
        PayloadView::Update(rule_id) => {
            lemma_replaced_again(keys, rule_id, pairs_to_sync(rules, objects, rule_id)->Ok_0);
        },
        PayloadView::Delete(rule_id) => {
            lemma_filter_again(keys.keys, not_of_rule(rule_id));
        },
    }
}

/// Keys that took the place of the keys of a rule take it again, and leave
/// the keys as they are.
pub proof fn lemma_replaced_again(keys: State, rule_id: Seq<char>, pairs: Seq<(Seq<char>, Seq<char>)>)
    requires
        keys.keys_updated_by_rule(rule_id, pairs) is Ok,
    ensures
        keys.keys_updated_by_rule(rule_id, pairs)->Ok_0.keys_updated_by_rule(rule_id, pairs)
            == keys.keys_updated_by_rule(rule_id, pairs),
{
    let rows = rows_for_rule(rule_id, pairs);
    let left = keys.keys.filter(not_of_rule(rule_id));
    Seq::filter_distributes_over_add(left, rows, not_of_rule(rule_id));
    lemma_filter_again(keys.keys, not_of_rule(rule_id));
    assert forall|i: int| 0 <= i < rows.len() implies !not_of_rule(rule_id)(#[trigger] rows[i]) by {}
    lemma_filter_none(rows, not_of_rule(rule_id));
    assert(left + Seq::<KeyView>::empty() =~= left);
}

/// A message that comes twice leaves the keys as the message leaves them
/// that comes once, whether it can be handled or not.
pub proof fn lemma_resync_idempotent(keys: State, rules: State, objects: State, payload: PayloadView)
    ensures
        after_message(after_message(keys, rules, objects, payload), rules, objects, payload)
            == after_message(keys, rules, objects, payload),
{
    if resynced(keys, rules, objects, payload) is Ok {
        lemma_resynced_again(keys, rules, objects, payload);
    }
}

/// After a message to create or update the keys of a rule was handled, the
/// rule has a key for every object, in the order of the objects and with
/// the value that the rule makes of the object, and no other key; these
/// keys stand at the end of the keys. Before them stand the keys of the
/// other rules, as they were.
pub proof fn lemma_resynced_keys(
    keys: State,
    rules: State,
    objects: State,
    rule_id: Seq<char>,
    update: bool,
)
    requires
        resynced(
            keys,
            rules,
            objects,
            if update {
                PayloadView::Update(rule_id)
            } else {
                PayloadView::Create(rule_id)
            },
        ) is Ok,
    ensures
        ({
            let after = resynced(
                keys,
                rules,
                objects,
                if update {
                    PayloadView::Update(rule_id)
                } else {
                    PayloadView::Create(rule_id)
                },
            )->Ok_0;
            let kept = keys.keys.filter(not_of_rule(rule_id));
            let own = after.keys.subrange(kept.len() as int, after.keys.len() as int);
            let rule = rule_to_sync(rules, rule_id);
            &&& rule is Ok
            &&& after.keys == kept + own
            &&& after.keys.filter(not_of_rule(rule_id)) == kept
            &&& own.len() == objects.objects.len()
            &&& forall|o: int|
                0 <= o < objects.objects.len() ==> {
                    &&& (#[trigger] objects.objects[o]).attributes is Some
                    &&& own[o].rule_id == rule_id
                    &&& own[o].object_id == objects.objects[o].id
                    &&& rule->Ok_0.key_for(objects.objects[o].attributes->Some_0) == Ok::<
                        Seq<char>,
                        DomainErrorView,
                    >(own[o].key)
                }
        }),
{
    let payload = if update {
        PayloadView::Update(rule_id)
    } else {
        PayloadView::Create(rule_id)
    };
    let after = resynced(keys, rules, objects, payload)->Ok_0;
    let kept = keys.keys.filter(not_of_rule(rule_id));
    let own = after.keys.subrange(kept.len() as int, after.keys.len() as int);
    let rule = rule_to_sync(rules, rule_id)->Ok_0;
    let pairs = pairs_to_sync(rules, objects, rule_id)->Ok_0;
    let rows = rows_for_rule(rule_id, pairs);
    lemma_keys_for_rule_per_object(objects, rule);
    assert(own =~= rows);
    assert(after.keys =~= kept + own);
    Seq::filter_distributes_over_add(kept, rows, not_of_rule(rule_id));
    lemma_filter_again(keys.keys, not_of_rule(rule_id));
    assert forall|i: int| 0 <= i < rows.len() implies !not_of_rule(rule_id)(#[trigger] rows[i]) by {}
    lemma_filter_none(rows, not_of_rule(rule_id));
    assert(kept + Seq::<KeyView>::empty() =~= kept);
    assert forall|o: int| 0 <= o < objects.objects.len() implies {
        &&& (#[trigger] objects.objects[o]).attributes is Some
        &&& own[o].rule_id == rule_id
        &&& own[o].object_id == objects.objects[o].id
        &&& rule.key_for(objects.objects[o].attributes->Some_0) == Ok::<Seq<char>, DomainErrorView>(
            own[o].key,
        )
    } by {
        assert(own[o] == rows[o]);
        assert(rows[o].object_id == pairs[o].0);
    }
}

/// A message to create the keys of a rule, in a store without objects, is
/// handled without error and leaves the rule without keys; where the rule
/// had no keys, it leaves the keys as they are.
pub proof fn lemma_create_without_objects(keys: State, rules: State, objects: State, rule_id: Seq<char>)
    requires
        rule_to_sync(rules, rule_id) is Ok,
        objects.objects.len() == 0,
    ensures
        resynced(keys, rules, objects, PayloadView::Create(rule_id)) == Ok::<State, DomainErrorView>(
            keys.without_keys_of_rule(rule_id),
        ),
        forall|object_id: Seq<char>|
            !holds_key(keys.without_keys_of_rule(rule_id).keys, rule_id, object_id),
        (forall|i: int| 0 <= i < keys.keys.len() ==> (#[trigger] keys.keys[i]).rule_id != rule_id)
            ==> keys.without_keys_of_rule(rule_id) == keys,
{
    let rule = rule_to_sync(rules, rule_id)->Ok_0;
    assert(objects.read_outcomes() =~= Seq::empty());
    let read = objects.objects_read()->Ok_0;
    assert(outcomes_for_rule(rule, read) =~= Seq::empty());
    let rows = rows_for_rule(rule_id, Seq::empty());
    let left = keys.keys.filter(not_of_rule(rule_id));
    assert(left + rows =~= left);
    assert forall|object_id: Seq<char>| !holds_key(left, rule_id, object_id) by {
        if holds_key(left, rule_id, object_id) {
            let i = choose|i: int|
                0 <= i < left.len() && (#[trigger] left[i]).rule_id == rule_id && left[i].object_id
                    == object_id;
            keys.keys.lemma_filter_pred(not_of_rule(rule_id), i);
        }
    }
    if forall|i: int| 0 <= i < keys.keys.len() ==> (#[trigger] keys.keys[i]).rule_id != rule_id {
        lemma_filter_all(keys.keys, not_of_rule(rule_id));
    }
}

/// Of rows of which all are to be kept, all are kept.
pub proof fn lemma_filter_all<T>(rows: Seq<T>, kept_if: spec_fn(T) -> bool)
    requires
        forall|i: int| 0 <= i < rows.len() ==> kept_if(#[trigger] rows[i]),
    ensures
        rows.filter(kept_if) == rows,
    decreases rows.len(),
{
    reveal(Seq::filter);
    if rows.len() > 0 {
        let front = rows.drop_last();
        assert forall|i: int| 0 <= i < front.len() implies kept_if(#[trigger] front[i]) by {
            assert(front[i] == rows[i]);
        }
        lemma_filter_all(front, kept_if);
        assert(kept_if(rows[rows.len() - 1]));
        assert(front.push(rows.last()) =~= rows);
    }
}

} // verus!
