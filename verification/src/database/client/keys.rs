use crate::database::client::duplicate_key_error;
use crate::error::{DomainError, DomainErrorView};
use crate::keys::{Key, KeyView};
use crate::objects::pairs_view;
use crate::sequences::{first, lemma_position, lemma_position_is, position};
use crate::state::{
    duplicate_key, holds_key, insertable, key_with, not_of_object, not_of_rule, rows_for_object,
    rows_for_rule,
};
use vstd::prelude::*;

verus! {

/// The keys of a list as mathematical values, in the same order.
pub open spec fn keys_view(keys: Seq<Key>) -> Seq<KeyView> {
    keys.map_values(|key: Key| key@)
}

/// A key of the rule for the object is among the rows exactly where the
/// search for it ends before the end.
pub proof fn lemma_holds_key_position(keys: Seq<KeyView>, rule_id: Seq<char>, object_id: Seq<char>)
    ensures
        holds_key(keys, rule_id, object_id) <==> position(keys, key_with(rule_id, object_id))
            < keys.len(),
{
    lemma_position(keys, key_with(rule_id, object_id));
    let p = position(keys, key_with(rule_id, object_id));
    if p < keys.len() {
        assert(keys[p].rule_id == rule_id && keys[p].object_id == object_id);
    }
    if holds_key(keys, rule_id, object_id) {
        let i = choose|i: int|
            0 <= i < keys.len() && (#[trigger] keys[i]).rule_id == rule_id && keys[i].object_id
                == object_id;
        assert(key_with(rule_id, object_id)(keys[i]));
    }
}

/// A copy of the rows.
fn clone_keys(keys: &Vec<Key>) -> (copy: Vec<Key>)
    ensures
        copy@ == keys@,
{
    let mut copy: Vec<Key> = Vec::new();
    let mut i: usize = 0;
    while i < keys.len()
        invariant
            i <= keys@.len(),
            copy@ == keys@.take(i as int),
        decreases keys@.len() - i,
    {
        copy.push(keys[i].clone());
        assert(copy@ =~= keys@.take(i + 1));
        i += 1;
    }
    assert(keys@.take(i as int) =~= keys@);
    copy
}

/// Where the first of the rows for the rule and the object stands, or the
/// number of rows where there is none.
fn index_in(rows: &Vec<Key>, rule_id: &String, object_id: &String) -> (i: usize)
    ensures
        i == position(keys_view(rows@), key_with(rule_id@, object_id@)),
        i <= rows@.len(),
{
    let ghost wanted = key_with(rule_id@, object_id@);
    let mut i: usize = 0;
    while i < rows.len()
        invariant
            i <= rows@.len(),
            wanted == key_with(rule_id@, object_id@),
            forall|j: int| 0 <= j < i ==> !wanted(#[trigger] keys_view(rows@)[j]),
        decreases rows@.len() - i,
    {
        if rows[i].rule_id == *rule_id && rows[i].object_id == *object_id {
            proof {
                lemma_position_is(keys_view(rows@), wanted, i as int);
            }
            return i;
        }
        i += 1;
    }
    proof {
        lemma_position_is(keys_view(rows@), wanted, i as int);
    }
    i
}

/// The table of keys: its rows in the order in which they were created.
#[derive(Debug)]
pub struct KeyTable {
    rows: Vec<Key>,
}

impl View for KeyTable {
    type V = Seq<KeyView>;

    closed spec fn view(&self) -> Seq<KeyView> {
        keys_view(self.rows@)
    }
}

impl Clone for KeyTable {
    fn clone(&self) -> (copy: Self)
        ensures
            copy@ == self@,
    {
        KeyTable { rows: clone_keys(&self.rows) }
    }
}

impl KeyTable {
    /// A table without rows.
    pub fn new() -> (table: Self)
        ensures
            table@ == Seq::<KeyView>::empty(),
    {
        let table = KeyTable { rows: Vec::new() };
        assert(table@ =~= Seq::<KeyView>::empty());
        table
    }

    /// The key of the rule for the object.
    pub fn find_by_id(&self, rule_id: String, object_id: String) -> (found: Option<Key>)
        ensures
            match found {
                Some(key) => first(self@, key_with(rule_id@, object_id@)) == Some(key@),
                None => first(self@, key_with(rule_id@, object_id@)) is None,
            },
    {
        let i = index_in(&self.rows, &rule_id, &object_id);
        if i < self.rows.len() {
            Some(self.rows[i].clone())
        } else {
            None
        }
    }

    /// All rows, oldest first.
    pub fn find_all(&self) -> (keys: Vec<Key>)
        ensures
            keys_view(keys@) == self@,
    {
        clone_keys(&self.rows)
    }

    /// Adds the rows, all of them or none: none where one of them is the
    /// key of a rule for an object that has a key already, in the table or
    /// earlier among the rows.
    pub fn insert_many(&mut self, rows: Vec<Key>) -> (result: Result<(), DomainError>)
        ensures
            match result {
                Ok(()) => insertable(old(self)@, keys_view(rows@)) && final(self)@ == old(self)@
                    + keys_view(rows@),
                Err(error) => {
                    &&& !insertable(old(self)@, keys_view(rows@))
                    &&& final(self)@ == old(self)@
                    &&& error@ == duplicate_key()
                },
            },
    {
        let ghost stored = self@;
        let ghost added = keys_view(rows@);
        let mut work = clone_keys(&self.rows);
        let mut i: usize = 0;
        assert(keys_view(work@) =~= stored + added.take(0));
        while i < rows.len()
            invariant
                i <= rows@.len(),
                stored == keys_view(self.rows@),
                added == keys_view(rows@),
                keys_view(work@) == stored + added.take(i as int),
                insertable(stored, added.take(i as int)),
            decreases rows@.len() - i,
        {
            let found = index_in(&work, &rows[i].rule_id, &rows[i].object_id);
            proof {
                let row = added[i as int];
                assert(row == rows@[i as int]@);
                lemma_holds_key_position(keys_view(work@), row.rule_id, row.object_id);
                lemma_position(keys_view(work@), key_with(row.rule_id, row.object_id));
            }
            if found < work.len() {
                proof {
                    let row = added[i as int];
                    if found < stored.len() {
                        assert(keys_view(work@)[found as int] == stored[found as int]);
                        assert(holds_key(stored, row.rule_id, row.object_id));
                    } else {
                        let j = found - stored.len();
                        assert(keys_view(work@)[found as int] == added.take(i as int)[j]);
                        assert(added[j].rule_id == row.rule_id && added[j].object_id == row.object_id);
                    }
                    assert(!insertable(stored, added));
                }
                return Err(duplicate_key_error());
            }
            let ghost before = keys_view(work@);
            work.push(rows[i].clone());
            proof {
                let row = added[i as int];
                let next = added.take(i + 1);
                assert(keys_view(work@) =~= before.push(row));
                assert(keys_view(work@) =~= stored + next);
                assert(!holds_key(before, row.rule_id, row.object_id));
                assert forall|j: int| 0 <= j < next.len() implies !holds_key(
                    stored,
                    (#[trigger] next[j]).rule_id,
                    next[j].object_id,
                ) by {
                    if j < i {
                        assert(next[j] == added.take(i as int)[j]);
                    } else {
                        if holds_key(stored, row.rule_id, row.object_id) {
                            let k = choose|k: int|
                                0 <= k < stored.len() && (#[trigger] stored[k]).rule_id == row.rule_id
                                    && stored[k].object_id == row.object_id;
                            assert(before[k] == stored[k]);
                        }
                    }
                }
                assert forall|a: int, b: int|
                    0 <= a < next.len() && 0 <= b < next.len() && a != b implies !((
                    #[trigger] next[a]).rule_id == (#[trigger] next[b]).rule_id && next[a].object_id
                        == next[b].object_id) by {
                    if a < i && b < i {
                        assert(next[a] == added.take(i as int)[a]);
                        assert(next[b] == added.take(i as int)[b]);
                    } else {
                        let earlier = if a < i {
                            a
                        } else {
                            b
                        };
                        assert(before[stored.len() + earlier] == added.take(i as int)[earlier]);
                    }
                }
            }
            i += 1;
        }
        assert(added.take(i as int) =~= added);
        self.rows = work;
        Ok(())
    }

    /// Stores the key of the rule for the object, unless it has one.
    pub fn create(&mut self, rule_id: String, object_id: String, key: String) -> (result: Result<
        Key,
        DomainError,
    >)
        ensures
            match result {
                Ok(row) => row@ == (KeyView { rule_id: rule_id@, object_id: object_id@, key: key@ })
                    && !holds_key(old(self)@, rule_id@, object_id@) && final(self)@ == old(self)@.push(
                    row@,
                ),
                Err(error) => {
                    &&& holds_key(old(self)@, rule_id@, object_id@)
                    &&& final(self)@ == old(self)@
                    &&& error@ == duplicate_key()
                },
            },
    {
        let found = index_in(&self.rows, &rule_id, &object_id);
        proof {
            lemma_holds_key_position(self@, rule_id@, object_id@);
        }
        if found < self.rows.len() {
            return Err(duplicate_key_error());
        }
        let row = Key { rule_id, object_id, key };
        self.rows.push(row.clone());
        assert(self@ =~= old(self)@.push(row@));
        Ok(row)
    }

    /// Stores keys of one rule, given as pairs of object identifier and
    /// key: all of them or none.
    pub fn create_many(&mut self, rule_id: String, keys: Vec<(String, String)>) -> (result: Result<
        (),
        DomainError,
    >)
        ensures
            match result {
                Ok(()) => insertable(old(self)@, rows_for_rule(rule_id@, pairs_view(keys@)))
                    && final(self)@ == old(self)@ + rows_for_rule(rule_id@, pairs_view(keys@)),
                Err(error) => !insertable(old(self)@, rows_for_rule(rule_id@, pairs_view(keys@)))
                    && final(self)@ == old(self)@ && error@ == duplicate_key(),
            },
    {
        let ghost wanted = rows_for_rule(rule_id@, pairs_view(keys@));
        let mut rows: Vec<Key> = Vec::new();
        let mut i: usize = 0;
        while i < keys.len()
            invariant
                i <= keys@.len(),
                rows@.len() == i,
                wanted == rows_for_rule(rule_id@, pairs_view(keys@)),
                keys_view(rows@) == wanted.take(i as int),
            decreases keys@.len() - i,
        {
            let ghost before = keys_view(rows@);
            rows.push(
                Key { rule_id: rule_id.clone(), object_id: keys[i].0.clone(), key: keys[i].1.clone() },
            );
            proof {
                assert forall|j: int| 0 <= j < i + 1 implies keys_view(rows@)[j] == wanted[j] by {
                    if j < i {
                        assert(keys_view(rows@)[j] == before[j]);
                    }
                }
                assert(keys_view(rows@) =~= wanted.take(i + 1));
            }
            i += 1;
        }
        assert(wanted.take(i as int) =~= wanted);
        self.insert_many(rows)
    }

    /// Stores keys of one object, given as pairs of rule identifier and
    /// key: all of them or none.
    pub fn create_many2(&mut self, object_id: String, keys: Vec<(String, String)>) -> (result: Result<
        (),
        DomainError,
    >)
        ensures
            match result {
                Ok(()) => insertable(old(self)@, rows_for_object(object_id@, pairs_view(keys@)))
                    && final(self)@ == old(self)@ + rows_for_object(object_id@, pairs_view(keys@)),
                Err(error) => !insertable(old(self)@, rows_for_object(object_id@, pairs_view(keys@)))
                    && final(self)@ == old(self)@ && error@ == duplicate_key(),
            },
    {
        let ghost wanted = rows_for_object(object_id@, pairs_view(keys@));
        let mut rows: Vec<Key> = Vec::new();
        let mut i: usize = 0;
        while i < keys.len()
            invariant
                i <= keys@.len(),
                rows@.len() == i,
                wanted == rows_for_object(object_id@, pairs_view(keys@)),
                keys_view(rows@) == wanted.take(i as int),
            decreases keys@.len() - i,
        {
            let ghost before = keys_view(rows@);
            rows.push(
                Key { rule_id: keys[i].0.clone(), object_id: object_id.clone(), key: keys[i].1.clone() },
            );
            proof {
                assert forall|j: int| 0 <= j < i + 1 implies keys_view(rows@)[j] == wanted[j] by {
                    if j < i {
                        assert(keys_view(rows@)[j] == before[j]);
                    }
                }
                assert(keys_view(rows@) =~= wanted.take(i + 1));
            }
            i += 1;
        }
        assert(wanted.take(i as int) =~= wanted);
        self.insert_many(rows)
    }

    /// Gives the key of the rule for the object another value.
    pub fn update(&mut self, rule_id: String, object_id: String, key: String) -> (result: Result<
        Key,
        DomainError,
    >)
        ensures
            match result {
                Ok(row) => row@ == (KeyView { rule_id: rule_id@, object_id: object_id@, key: key@ })
                    && first(old(self)@, key_with(rule_id@, object_id@)) is Some && final(self)@
                    == old(self)@.update(position(old(self)@, key_with(rule_id@, object_id@)), row@),
                Err(error) => {
                    &&& first(old(self)@, key_with(rule_id@, object_id@)) is None
                    &&& final(self)@ == old(self)@
                    &&& error@ == DomainErrorView::NotFound(rule_id@)
                },
            },
    {
        let i = index_in(&self.rows, &rule_id, &object_id);
        if i >= self.rows.len() {
            return Err(DomainError::NotFound(rule_id));
        }
        let row = Key { rule_id, object_id, key };
        self.rows.set(i, row.clone());
        assert(self@ =~= old(self)@.update(i as int, row@));
        Ok(row)
    }

    /// Removes the keys of the rule.
    pub fn delete_by_rule_id(&mut self, rule_id: String)
        ensures
            final(self)@ == old(self)@.filter(not_of_rule(rule_id@)),
    {
        let ghost stored = self@;
        let ghost kept_if = not_of_rule(rule_id@);
        let mut kept: Vec<Key> = Vec::new();
        let mut i: usize = 0;
        proof {
            assert(stored.take(0) =~= Seq::empty());
            stored.take(0).lemma_filter_len(kept_if);
            assert(keys_view(kept@) =~= stored.take(0).filter(kept_if));
        }
        while i < self.rows.len()
            invariant
                i <= self.rows@.len(),
                stored == keys_view(self.rows@),
                kept_if == not_of_rule(rule_id@),
                keys_view(kept@) == stored.take(i as int).filter(kept_if),
            decreases self.rows@.len() - i,
        {
            let ghost before = keys_view(kept@);
            proof {
                assert(stored.take(i + 1) =~= stored.take(i as int).push(stored[i as int]));
                stored.take(i as int).lemma_filter_push(stored[i as int], kept_if);
            }
            if self.rows[i].rule_id != rule_id {
                kept.push(self.rows[i].clone());
                assert(keys_view(kept@) =~= before.push(stored[i as int]));
            }
            i += 1;
        }
        assert(stored.take(i as int) =~= stored);
        self.rows = kept;
    }

    /// Removes the keys of the object.
    pub fn delete_by_object_id(&mut self, object_id: String)
        ensures
            final(self)@ == old(self)@.filter(not_of_object(object_id@)),
    {
        let ghost stored = self@;
        let ghost kept_if = not_of_object(object_id@);
        let mut kept: Vec<Key> = Vec::new();
        let mut i: usize = 0;
        proof {
            assert(stored.take(0) =~= Seq::empty());
            stored.take(0).lemma_filter_len(kept_if);
            assert(keys_view(kept@) =~= stored.take(0).filter(kept_if));
        }
        while i < self.rows.len()
            invariant
                i <= self.rows@.len(),
                stored == keys_view(self.rows@),
                kept_if == not_of_object(object_id@),
                keys_view(kept@) == stored.take(i as int).filter(kept_if),
            decreases self.rows@.len() - i,
        {
            let ghost before = keys_view(kept@);
            proof {
                assert(stored.take(i + 1) =~= stored.take(i as int).push(stored[i as int]));
                stored.take(i as int).lemma_filter_push(stored[i as int], kept_if);
            }
            if self.rows[i].object_id != object_id {
                kept.push(self.rows[i].clone());
                assert(keys_view(kept@) =~= before.push(stored[i as int]));
            }
            i += 1;
        }
        assert(stored.take(i as int) =~= stored);
        self.rows = kept;
    }
}

} // verus!
