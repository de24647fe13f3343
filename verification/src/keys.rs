use crate::error::{DomainError, DomainErrorView};
use crate::objects::pairs_view;
use crate::state::State;
use vstd::prelude::*;

verus! {

/// The key that a rule derived for an object.
#[derive(Debug, PartialEq, Eq)]
pub struct Key {
    pub rule_id: String,
    pub object_id: String,
    pub key: String,
}

/// A [`Key`] with its texts as sequences of characters.
pub struct KeyView {
    pub rule_id: Seq<char>,
    pub object_id: Seq<char>,
    pub key: Seq<char>,
}

impl View for Key {
    type V = KeyView;

    open spec fn view(&self) -> KeyView {
        KeyView { rule_id: self.rule_id@, object_id: self.object_id@, key: self.key@ }
    }
}

impl Clone for Key {
    fn clone(&self) -> (copy: Self)
        ensures
            copy == *self,
    {
        Key { rule_id: self.rule_id.clone(), object_id: self.object_id.clone(), key: self.key.clone() }
    }
}

/// Access to the keys of a store, rule by rule.
pub trait KeyRepository {
    /// What the store holds.
    spec fn state(&self) -> State;

    /// Whether calls fail only where the rules of the store refuse them.
    spec fn reliable(&self) -> bool;

    /// Stores keys of a rule, given as pairs of object identifier and key:
    /// all of them or none. Keys that the rule has already make way for
    /// them.
    fn create_by_rule(&mut self, rule_id: String, keys: Vec<(String, String)>) -> (result: Result<
        (),
        DomainError,
    >)
        ensures
            match result {
                Ok(()) => old(self).state().keys_created_by_rule(rule_id@, pairs_view(keys@)) == Ok::<
                    State,
                    DomainErrorView,
                >(final(self).state()),
                Err(error) => {
                    &&& final(self).state() == old(self).state()
                    &&& old(self).reliable() ==> old(self).state().keys_created_by_rule(
                        rule_id@,
                        pairs_view(keys@),
                    ) == Err::<State, DomainErrorView>(error@)
                },
            },
            final(self).reliable() == old(self).reliable(),
    ;

    /// Puts keys, given as pairs of object identifier and key, in the place
    /// of the keys of a rule.
    fn update_by_rule(&mut self, rule_id: String, keys: Vec<(String, String)>) -> (result: Result<
        (),
        DomainError,
    >)
        ensures
            match result {
                Ok(()) => old(self).state().keys_updated_by_rule(rule_id@, pairs_view(keys@)) == Ok::<
                    State,
                    DomainErrorView,
                >(final(self).state()),
                Err(error) => {
                    &&& final(self).state() == old(self).state()
                    &&& old(self).reliable() ==> old(self).state().keys_updated_by_rule(
                        rule_id@,
                        pairs_view(keys@),
                    ) == Err::<State, DomainErrorView>(error@)
                },
            },
            final(self).reliable() == old(self).reliable(),
    ;

    /// Removes the keys of a rule.
    fn delete_by_rule(&mut self, rule_id: String) -> (result: Result<(), DomainError>)
        ensures
            match result {
                Ok(()) => final(self).state() == old(self).state().without_keys_of_rule(rule_id@),
                Err(_) => final(self).state() == old(self).state() && !old(self).reliable(),
            },
            final(self).reliable() == old(self).reliable(),
    ;
}

} // verus!
