use crate::error::DomainErrorView;
use crate::fields::{fields_view, FieldRepository, FieldView};
use crate::grpc::api::{
    AddFieldRequest, AddFieldResponse, GetFieldsRequest, GetFieldsResponse, UpdateFieldRequest,
    UpdateFieldResponse,
};
use crate::grpc::error::{handle_error, told, Code, Status};
use crate::state::State;
use vstd::prelude::*;

verus! {

/// Answers calls about fields from a repository.
#[derive(Debug)]
pub struct FieldsServerImpl<T: FieldRepository> {
    repository: T,
}

impl<T: FieldRepository> FieldsServerImpl<T> {
    /// What the store holds.
    pub closed spec fn state(&self) -> State {
        self.repository.state()
    }

    /// Whether the calls of the repository fail only where the rules of
    /// the store refuse them.
    pub closed spec fn reliable(&self) -> bool {
        self.repository.reliable()
    }

    /// A server on the repository.
    pub fn new(repository: T) -> (server: Self)
        ensures
            server.state() == repository.state(),
            server.reliable() == repository.reliable(),
    {
        Self { repository }
    }

    /// The repository.
    pub fn into_repository(self) -> (repository: T)
        ensures
            repository.state() == self.state(),
            repository.reliable() == self.reliable(),
    {
        self.repository
    }

    /// All fields, oldest first.
    pub fn get_fields(&self, _request: GetFieldsRequest) -> (result: Result<GetFieldsResponse, Status>)
        ensures
            result matches Ok(response) ==> fields_view(response.fields@) == self.state().fields,
            self.reliable() ==> result is Ok,
    {
        match self.repository.find_all() {
            Ok(fields) => Ok(GetFieldsResponse { fields }),
            Err(error) => Err(handle_error(error)),
        }
    }

    /// Creates a field.
    pub fn add_field(&mut self, request: AddFieldRequest) -> (result: Result<AddFieldResponse, Status>)
        ensures
            match result {
                Ok(response) => {
                    &&& response.field matches Some(field)
                    &&& field@.data_label == request.data_label@
                    &&& field@.label == request.label@
                    &&& old(self).state().field_inserted(field@) == Ok::<State, DomainErrorView>(
                        final(self).state(),
                    )
                },
                Err(status) => {
                    &&& final(self).state() == old(self).state()
                    &&& status.code != Code::InvalidArgument
                    &&& old(self).reliable() ==> exists|id: Seq<char>| #[trigger]
                        told(
                            old(self).state().field_inserted(
                                FieldView {
                                    id,
                                    data_label: request.data_label@,
                                    label: request.label@,
                                },
                            ),
                            status@,
                        )
                },
            },
            old(self).state().consistent() ==> final(self).state().consistent(),
            final(self).reliable() == old(self).reliable(),
    {
        let ghost before = self.state();
        let ghost reliable = self.reliable();
        match self.repository.create(request.data_label, request.label) {
            Ok(field) => Ok(AddFieldResponse { field: Some(field) }),
            Err(error) => {
                let status = handle_error(error);
                proof {
                    if reliable {
                        let id = choose|id: Seq<char>| #[trigger]
                            before.field_inserted(
                                FieldView {
                                    id,
                                    data_label: request.data_label@,
                                    label: request.label@,
                                },
                            ) == Err::<State, DomainErrorView>(error@);
                        assert(told(
                            before.field_inserted(
                                FieldView {
                                    id,
                                    data_label: request.data_label@,
                                    label: request.label@,
                                },
                            ),
                            status@,
                        ));
                    }
                }
                Err(status)
            },
        }
    }

    /// Gives a field another label.
    pub fn update_field(&mut self, request: UpdateFieldRequest) -> (result: Result<
        UpdateFieldResponse,
        Status,
    >)
        ensures
            match result {
                Ok(response) => {
                    &&& response.field matches Some(field)
                    &&& old(self).state().field_relabelled(request.id@, request.label@) == Ok::<
                        State,
                        DomainErrorView,
                    >(final(self).state())
                    &&& final(self).state().field(request.id@) == Some(field@)
                },
                Err(status) => {
                    &&& final(self).state() == old(self).state()
                    &&& status.code != Code::InvalidArgument
                    &&& old(self).reliable() ==> told(old(self).state().field_relabelled(
                        request.id@,
                        request.label@,
                    ), status@)
                },
            },
            old(self).state().consistent() ==> final(self).state().consistent(),
            final(self).reliable() == old(self).reliable(),
    {
        match self.repository.update(request.id, request.label) {
            Ok(field) => Ok(UpdateFieldResponse { field: Some(field) }),
            Err(error) => Err(handle_error(error)),
        }
    }
}

} // verus!
