use crate::error::DomainErrorView;
use crate::grpc::api::{
    AddRuleRequest, AddRuleResponse, DeleteRuleRequest, DeleteRuleResponse, GetRuleRequest,
    GetRuleResponse, GetRulesRequest, GetRulesResponse, UpdateRuleRequest, UpdateRuleResponse,
};
use crate::grpc::error::{
    handle_error, invalid_argument, invalid_argument_status, told, Code, Status,
};
use crate::rules::{found_rule_view, rules_view, RuleRepository, RuleView};
use crate::state::{RuleRow, State};
use vstd::prelude::*;

verus! {

/// Answers calls about rules from a repository.
#[derive(Debug)]
pub struct RulesServerImpl<T: RuleRepository> {
    repository: T,
}

impl<T: RuleRepository> RulesServerImpl<T> {
    /// What the store holds.
    pub closed spec fn state(&self) -> State {
        self.repository.state()
    }

    /// Whether the calls of the repository fail only where the rules of
    /// the store refuse them.
    pub closed spec fn reliable(&self) -> bool {
        self.repository.reliable()
    }

    /// A server on the repository.
    pub fn new(repository: T) -> (server: Self)
        ensures
            server.state() == repository.state(),
            server.reliable() == repository.reliable(),
    {
        Self { repository }
    }

    /// The repository.
    pub fn into_repository(self) -> (repository: T)
        ensures
            repository.state() == self.state(),
            repository.reliable() == self.reliable(),
    {
        self.repository
    }

    /// All rules, oldest first.
    pub fn get_rules(&self, _request: GetRulesRequest) -> (result: Result<GetRulesResponse, Status>)
        ensures
            match result {
                Ok(response) => self.state().rules_joined() == Ok::<Seq<RuleView>, DomainErrorView>(
                    rules_view(response.rules@),
                ),
                Err(status) => self.reliable() ==> told(self.state().rules_joined(), status@),
            },
    {
        match self.repository.find_all() {
            Ok(rules) => Ok(GetRulesResponse { rules }),
            Err(error) => Err(handle_error(error)),
        }
    }

    /// One rule, where there is one with the identifier.
    pub fn get_rule(&self, request: GetRuleRequest) -> (result: Result<GetRuleResponse, Status>)
        ensures
            match result {
                Ok(response) => self.state().rule(request.id@) == Ok::<
                    Option<RuleView>,
                    DomainErrorView,
                >(found_rule_view(response.rule)),
                Err(status) => self.reliable() ==> told(self.state().rule(request.id@), status@),
            },
    {
        match self.repository.get(request.id) {
            Ok(rule) => Ok(GetRuleResponse { rule }),
            Err(error) => Err(handle_error(error)),
        }
    }

    /// Creates a rule, and its keys. A request without the way to make keys
    /// is refused as it comes.
    pub fn add_rule(&mut self, request: AddRuleRequest) -> (result: Result<AddRuleResponse, Status>)
        ensures
            match result {
                Ok(response) => {
                    &&& request.rule_type matches Some(rule_type)
                    &&& response.rule matches Some(rule)
                    &&& rule@.field.id == request.field_id@
                    &&& rule@.rule_type == rule_type@
                    &&& old(self).state().rule_created(rule@.row()) == Ok::<State, DomainErrorView>(
                        final(self).state(),
                    )
                    &&& final(self).state().joined(rule@.row()) == Ok::<RuleView, DomainErrorView>(
                        rule@,
                    )
                },
                Err(status) => {
                    &&& final(self).state() == old(self).state()
                    &&& match request.rule_type {
                        None => status@ == invalid_argument(),
                        Some(rule_type) => {
                            &&& status.code != Code::InvalidArgument
                            &&& old(self).reliable() ==> exists|id: Seq<char>| #[trigger]
                                told(
                                    old(self).state().rule_created(
                                        RuleRow {
                                            id,
                                            field_id: request.field_id@,
                                            rule_type: rule_type@,
                                        },
                                    ),
                                    status@,
                                )
                        },
                    }
                },
            },
            old(self).state().complete() ==> final(self).state().complete(),
            old(self).state().consistent() ==> final(self).state().consistent(),
            final(self).reliable() == old(self).reliable(),
    {
        let rule_type = match request.rule_type {
            Some(rule_type) => rule_type,
            None => {
                return Err(invalid_argument_status());
            },
        };
        let ghost before = self.state();
        let ghost reliable = self.reliable();
        match self.repository.create(request.field_id, rule_type) {
            Ok(rule) => Ok(AddRuleResponse { rule: Some(rule) }),
            Err(error) => {
                let status = handle_error(error);
                proof {
                    if reliable {
                        let id = choose|id: Seq<char>| #[trigger]
                            before.rule_created(
                                RuleRow { id, field_id: request.field_id@, rule_type: rule_type@ },
                            ) == Err::<State, DomainErrorView>(error@);
                        assert(told(
                            before.rule_created(
                                RuleRow { id, field_id: request.field_id@, rule_type: rule_type@ },
                            ),
                            status@,
                        ));
                    }
                }
                Err(status)
            },
        }
    }

    /// Gives a rule another field and another way to make keys, and other
    /// keys. A request without the way to make keys is refused as it comes.
    pub fn update_rule(&mut self, request: UpdateRuleRequest) -> (result: Result<
        UpdateRuleResponse,
        Status,
    >)
        ensures
            match result {
                Ok(response) => {
                    &&& request.rule_type matches Some(rule_type)
                    &&& response.rule matches Some(rule)
                    &&& rule@.row() == (RuleRow {
                        id: request.id@,
                        field_id: request.field_id@,
                        rule_type: rule_type@,
                    })
                    &&& old(self).state().rule_updated(rule@.row()) == Ok::<State, DomainErrorView>(
                        final(self).state(),
                    )
                    &&& final(self).state().joined(rule@.row()) == Ok::<RuleView, DomainErrorView>(
                        rule@,
                    )
                },
                Err(status) => {
                    &&& final(self).state() == old(self).state()
                    &&& match request.rule_type {
                        None => status@ == invalid_argument(),
                        Some(rule_type) => {
                            &&& status.code != Code::InvalidArgument
                            &&& old(self).reliable() ==> told(old(self).state().rule_updated(
                                RuleRow {
                                    id: request.id@,
                                    field_id: request.field_id@,
                                    rule_type: rule_type@,
                                },
                            ), status@)
                        },
                    }
                },
            },
            old(self).state().complete() ==> final(self).state().complete(),
            old(self).state().consistent() ==> final(self).state().consistent(),
            final(self).reliable() == old(self).reliable(),
    {
        let rule_type = match request.rule_type {
            Some(rule_type) => rule_type,
            None => {
                return Err(invalid_argument_status());
            },
        };
        match self.repository.update(request.id, request.field_id, rule_type) {
            Ok(rule) => Ok(UpdateRuleResponse { rule: Some(rule) }),
            Err(error) => Err(handle_error(error)),
        }
    }

    /// Deletes a rule, and its keys.
    pub fn delete_rule(&mut self, request: DeleteRuleRequest) -> (result: Result<
        DeleteRuleResponse,
        Status,
    >)
        ensures
            match result {
                Ok(_) => final(self).state() == old(self).state().rule_deleted(request.id@),
                Err(status) => {
                    &&& final(self).state() == old(self).state()
                    &&& status.code != Code::InvalidArgument
                    &&& !old(self).reliable()
                },
            },
            old(self).state().complete() ==> final(self).state().complete(),
            old(self).state().consistent() ==> final(self).state().consistent(),
            final(self).reliable() == old(self).reliable(),
    {
        match self.repository.delete(request.id) {
            Ok(()) => Ok(DeleteRuleResponse {  }),
            Err(error) => Err(handle_error(error)),
        }
    }
}

} // verus!
