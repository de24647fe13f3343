use crate::derivation::{derive_keys_for_rule, keys_for_rule};
use crate::error::{DomainError, DomainErrorView};
use crate::keys::KeyRepository;
use crate::objects::{pairs_view, ObjectRepository};
use crate::rules::{Rule, RuleRepository, RuleView};
use crate::sequences::lemma_position;
use crate::state::{rows_for_rule, rule_with, State};
use crate::subscriber::pubsub_schema::sync_keys::{Payload, PayloadView};
use crate::subscriber::pubsub_schema::{
    CreateKeysRequest, DeleteKeysRequest, SyncKeys, UpdateKeysRequest,
};
use vstd::prelude::*;
use vstd::string::*;

verus! {

/// The error of a message without a payload.
pub open spec fn invalid_payload() -> DomainErrorView {
    DomainErrorView::Unexpected("invalid payload"@)
}

/// The rule that a message names, as the store of the rules knows it. A
/// rule that is gone is an error of its own: no later delivery of the
/// message will find it.
pub open spec fn rule_to_sync(rules: State, rule_id: Seq<char>) -> Result<RuleView, DomainErrorView> {
    match rules.rule(rule_id) {
        Err(error) => Err(error),
        Ok(None) => Err(DomainErrorView::NotFound(rule_id)),
        Ok(Some(rule)) => Ok(rule),
    }
}

/// The keys of the named rule for all objects, as pairs of object
/// identifier and key.
pub open spec fn pairs_to_sync(rules: State, objects: State, rule_id: Seq<char>) -> Result<
    Seq<(Seq<char>, Seq<char>)>,
    DomainErrorView,
> {
    match rule_to_sync(rules, rule_id) {
        Err(error) => Err(error),
        Ok(rule) => match objects.objects_read() {
            Err(error) => Err(error),
            Ok(objects) => keys_for_rule(rule, objects),
        },
    }
}

/// What a message makes of the store of the keys, given the stores of the
/// rules and of the objects: `create` and `update` put the keys of the
/// rule, derived for all objects, in the place of those that the rule has;
/// `delete` removes those that the rule has.
pub open spec fn resynced(keys: State, rules: State, objects: State, payload: PayloadView) -> Result<
    State,
    DomainErrorView,
> {
    match payload {
        PayloadView::Create(rule_id) => match pairs_to_sync(rules, objects, rule_id) {
            Err(error) => Err(error),
            Ok(pairs) => keys.keys_created_by_rule(rule_id, pairs),
        },
        PayloadView::Update(rule_id) => match pairs_to_sync(rules, objects, rule_id) {
            Err(error) => Err(error),
            Ok(pairs) => keys.keys_updated_by_rule(rule_id, pairs),
        },
        PayloadView::Delete(rule_id) => Ok(keys.without_keys_of_rule(rule_id)),
    }
}

/// What the store of the keys holds after a message: what [`resynced`]
/// makes of it, or what it held where the message cannot be handled.
pub open spec fn after_message(
    keys: State,
    rules: State,
    objects: State,
    payload: PayloadView,
) -> State {
    match resynced(keys, rules, objects, payload) {
        Ok(after) => after,
        Err(_) => keys,
    }
}

/// A rule, or an error, as mathematical values.
pub open spec fn rule_result_view(result: Result<Rule, DomainError>) -> Result<
    RuleView,
    DomainErrorView,
> {
    match result {
        Ok(rule) => Ok(rule@),
        Err(error) => Err(error@),
    }
}

/// Tells what the search for the rule of a message came to: the rule, the
/// error of the search, or the error of a rule that is gone.
pub fn found_rule(lookup: Result<Option<Rule>, DomainError>, rule_id: String) -> (result: Result<
    Rule,
    DomainError,
>)
    ensures
        rule_result_view(result) == match lookup {
            Err(error) => Err::<RuleView, DomainErrorView>(error@),
            Ok(None) => Err(DomainErrorView::NotFound(rule_id@)),
            Ok(Some(rule)) => Ok(rule@),
        },
{
    match lookup {
        Err(error) => Err(error),
        Ok(None) => Err(DomainError::NotFound(rule_id)),
        Ok(Some(rule)) => Ok(rule),
    }
}

/// What is to become of a message after it was handed to the handler.
#[derive(Clone, Copy, Debug, PartialEq, Eq, Structural)]
pub enum Delivery {
    /// The message is done with: it was handled, or it never will be.
    Acknowledge,
    /// The message is to come again.
    Redeliver,
}

/// What is to become of a message, by the outcome of its handling: a
/// message that was handled is done with; so is one whose rule is gone,
/// since no later delivery will find the rule; every other message is to
/// come again.
pub open spec fn delivery_of(outcome: Result<(), DomainErrorView>) -> Delivery {
    match outcome {
        Ok(()) => Delivery::Acknowledge,
        Err(DomainErrorView::NotFound(_)) => Delivery::Acknowledge,
        Err(_) => Delivery::Redeliver,
    }
}

/// The outcome of handling a message, as a mathematical value.
pub open spec fn outcome_view(outcome: Result<(), DomainError>) -> Result<(), DomainErrorView> {
    match outcome {
        Ok(()) => Ok(()),
        Err(error) => Err(error@),
    }
}

/// Tells what is to become of a message after its handling.
pub fn delivery(outcome: &Result<(), DomainError>) -> (delivery: Delivery)
    ensures
        delivery == delivery_of(outcome_view(*outcome)),
{
    match outcome {
        Ok(()) => Delivery::Acknowledge,
        Err(DomainError::NotFound(_)) => Delivery::Acknowledge,
        Err(_) => Delivery::Redeliver,
    }
}

/// Brings the keys of one rule in line with the objects, as messages ask.
#[derive(Debug)]
pub struct KeysHandler<R: RuleRepository, O: ObjectRepository, K: KeyRepository> {
    rule_repository: R,
    object_repository: O,
    key_repository: K,
}

impl<R: RuleRepository, O: ObjectRepository, K: KeyRepository> KeysHandler<R, O, K> {
    /// What the store of the rules holds.
    pub closed spec fn rules(&self) -> State {
        self.rule_repository.state()
    }

    /// What the store of the objects holds.
    pub closed spec fn objects(&self) -> State {
        self.object_repository.state()
    }

    /// What the store of the keys holds.
    pub closed spec fn keys(&self) -> State {
        self.key_repository.state()
    }

    /// Whether the calls of all three repositories fail only where the
    /// rules of their stores refuse them.
    pub closed spec fn reliable(&self) -> bool {
        &&& self.rule_repository.reliable()
        &&& self.object_repository.reliable()
        &&& self.key_repository.reliable()
    }

    /// A handler that reads rules and objects from two repositories and
    /// writes keys to a third.
    pub fn new(rule_repository: R, object_repository: O, key_repository: K) -> (handler: Self)
        ensures
            handler.rules() == rule_repository.state(),
            handler.objects() == object_repository.state(),
            handler.keys() == key_repository.state(),
            handler.reliable() == (rule_repository.reliable() && object_repository.reliable()
                && key_repository.reliable()),
    {
        Self { rule_repository, object_repository, key_repository }
    }

    /// The three repositories: of the rules, of the objects, of the keys.
    pub fn into_repositories(self) -> (repositories: (R, O, K))
        ensures
            repositories.0.state() == self.rules(),
            repositories.1.state() == self.objects(),
            repositories.2.state() == self.keys(),
    {
        (self.rule_repository, self.object_repository, self.key_repository)
    }

    /// Handles one message. Whatever the repositories answer: where the
    /// message is handled, the keys are what [`resynced`] makes of them;
    /// where it is not, they are what they were. A message without a
    /// payload is never handled. With reliable repositories a message with
    /// a payload is handled exactly where [`resynced`] has a result, and
    /// fails with the error of [`resynced`] where it has none.
    pub fn main(&mut self, request: SyncKeys) -> (result: Result<(), DomainError>)
        ensures
            final(self).rules() == old(self).rules(),
            final(self).objects() == old(self).objects(),
            final(self).reliable() == old(self).reliable(),
            request.payload is Some && old(self).reliable() ==> (result is Ok <==> resynced(
                old(self).keys(),
                old(self).rules(),
                old(self).objects(),
                request.payload->Some_0@,
            ) is Ok),
            request.payload is Some && old(self).reliable() ==> final(self).keys() == after_message(
                old(self).keys(),
                old(self).rules(),
                old(self).objects(),
                request.payload->Some_0@,
            ),
            match result {
                Ok(()) => request.payload matches Some(payload) && resynced(
                    old(self).keys(),
                    old(self).rules(),
                    old(self).objects(),
                    payload@,
                ) == Ok::<State, DomainErrorView>(final(self).keys()),
                Err(error) => {
                    &&& final(self).keys() == old(self).keys()
                    &&& match request.payload {
                        None => error@ == invalid_payload(),
                        Some(payload) => old(self).reliable() ==> resynced(
                            old(self).keys(),
                            old(self).rules(),
                            old(self).objects(),
                            payload@,
                        ) == Err::<State, DomainErrorView>(error@),
                    }
                },
            },
    {
        match request.payload {
            None => Err(DomainError::Unexpected(String::from_str("invalid payload"))),
            Some(Payload::CreateKeysRequest(v)) => self.create_keys(v),
            Some(Payload::UpdateKeysRequest(v)) => self.update_keys(v),
            Some(Payload::DeleteKeysRequest(v)) => self.delete_keys(v),
        }
    }

    /// Derives the keys of the named rule for all objects.
    fn derive(&self, rule_id: String) -> (result: Result<(Rule, Vec<(String, String)>), DomainError>)
        ensures
            match result {
                Ok(derived) => derived.0@.id == rule_id@ && pairs_to_sync(
                    self.rules(),
                    self.objects(),
                    rule_id@,
                ) == Ok::<Seq<(Seq<char>, Seq<char>)>, DomainErrorView>(pairs_view(derived.1@)),
                Err(error) => self.reliable() ==> pairs_to_sync(
                    self.rules(),
                    self.objects(),
                    rule_id@,
                ) == Err::<Seq<(Seq<char>, Seq<char>)>, DomainErrorView>(error@),
            },
    {
        let lookup = self.rule_repository.get(rule_id.clone());
        let rule = found_rule(lookup, rule_id)?;
        proof {
            lemma_position(self.rules().rules, rule_with(rule_id@));
        }
        let objects = self.object_repository.find_all()?;
        let keys = derive_keys_for_rule(&rule, &objects)?;
        Ok((rule, keys))
    }

    /// Stores the keys of a rule, derived for all objects. Keys that the
    /// rule has already make way for them: a message that comes again
    /// stores what it stored before.
    pub fn create_keys(&mut self, request: CreateKeysRequest) -> (result: Result<(), DomainError>)
        ensures
            final(self).rules() == old(self).rules(),
            final(self).objects() == old(self).objects(),
            final(self).reliable() == old(self).reliable(),
            old(self).reliable() ==> (result is Ok <==> resynced(
                old(self).keys(),
                old(self).rules(),
                old(self).objects(),
                PayloadView::Create(request.rule_id@),
            ) is Ok),
            match result {
                Ok(()) => resynced(
                    old(self).keys(),
                    old(self).rules(),
                    old(self).objects(),
                    PayloadView::Create(request.rule_id@),
                ) == Ok::<State, DomainErrorView>(final(self).keys()),
                Err(error) => {
                    &&& final(self).keys() == old(self).keys()
                    &&& old(self).reliable() ==> resynced(
                        old(self).keys(),
                        old(self).rules(),
                        old(self).objects(),
                        PayloadView::Create(request.rule_id@),
                    ) == Err::<State, DomainErrorView>(error@)
                },
            },
    {
        let (rule, keys) = self.derive(request.rule_id)?;
        if !keys.is_empty() {
            self.key_repository.create_by_rule(rule.id, keys)?;
        } else {
            let ghost before = self.keys();
            self.key_repository.delete_by_rule(rule.id)?;
            proof {
                let left = before.without_keys_of_rule(request.rule_id@).keys;
                assert(left + rows_for_rule(request.rule_id@, pairs_view(keys@)) =~= left);
            }
        }
        Ok(())
    }

    /// Puts the keys of a rule, derived anew, in the place of those it has.
    pub fn update_keys(&mut self, request: UpdateKeysRequest) -> (result: Result<(), DomainError>)
        ensures
            final(self).rules() == old(self).rules(),
            final(self).objects() == old(self).objects(),
            final(self).reliable() == old(self).reliable(),
            old(self).reliable() ==> (result is Ok <==> resynced(
                old(self).keys(),
                old(self).rules(),
                old(self).objects(),
                PayloadView::Update(request.rule_id@),
            ) is Ok),
            match result {
                Ok(()) => resynced(
                    old(self).keys(),
                    old(self).rules(),
                    old(self).objects(),
                    PayloadView::Update(request.rule_id@),
                ) == Ok::<State, DomainErrorView>(final(self).keys()),
                Err(error) => {
                    &&& final(self).keys() == old(self).keys()
                    &&& old(self).reliable() ==> resynced(
                        old(self).keys(),
                        old(self).rules(),
                        old(self).objects(),
                        PayloadView::Update(request.rule_id@),
                    ) == Err::<State, DomainErrorView>(error@)
                },
            },
    {
        let (rule, keys) = self.derive(request.rule_id)?;
        if !keys.is_empty() {
            self.key_repository.update_by_rule(rule.id, keys)?;
        } else {
            let ghost before = self.keys();
            self.key_repository.delete_by_rule(rule.id)?;
            proof {
                let left = before.without_keys_of_rule(request.rule_id@).keys;
                assert(left + rows_for_rule(request.rule_id@, pairs_view(keys@)) =~= left);
            }
        }
        Ok(())
    }

    /// Removes the keys of a rule. No rule is looked for and no key is
    /// derived.
    pub fn delete_keys(&mut self, request: DeleteKeysRequest) -> (result: Result<(), DomainError>)
        ensures
            final(self).rules() == old(self).rules(),
            final(self).objects() == old(self).objects(),
            final(self).reliable() == old(self).reliable(),
            old(self).reliable() ==> (result is Ok <==> resynced(
                old(self).keys(),
                old(self).rules(),
                old(self).objects(),
                PayloadView::Delete(request.rule_id@),
            ) is Ok),
            match result {
                Ok(()) => resynced(
                    old(self).keys(),
                    old(self).rules(),
                    old(self).objects(),
                    PayloadView::Delete(request.rule_id@),
                ) == Ok::<State, DomainErrorView>(final(self).keys()),
                Err(error) => {
                    &&& final(self).keys() == old(self).keys()
                    &&& old(self).reliable() ==> resynced(
                        old(self).keys(),
                        old(self).rules(),
                        old(self).objects(),
                        PayloadView::Delete(request.rule_id@),
                    ) == Err::<State, DomainErrorView>(error@)
                },
            },
    {
        self.key_repository.delete_by_rule(request.rule_id)?;
        Ok(())
    }
}

} // verus!
