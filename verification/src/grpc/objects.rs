use crate::error::DomainErrorView;
use crate::grpc::api::{
    AddObjectRequest, AddObjectResponse, DeleteObjectRequest, DeleteObjectResponse,
    GetObjectRequest, GetObjectResponse, GetObjectsRequest, GetObjectsResponse,
    UpdateObjectRequest, UpdateObjectResponse,
};
use crate::grpc::error::{handle_error, told, Code, Status};
use crate::objects::{found_object_view, objects_view, ObjectRepository, ObjectView};
use crate::state::State;
use vstd::prelude::*;

verus! {

/// Answers calls about objects from a repository.
#[derive(Debug)]
pub struct ObjectsServerImpl<T: ObjectRepository> {
    repository: T,
}

impl<T: ObjectRepository> ObjectsServerImpl<T> {
    /// What the store holds.
    pub closed spec fn state(&self) -> State {
        self.repository.state()
    }

    /// Whether the calls of the repository fail only where the rules of
    /// the store refuse them.
    pub closed spec fn reliable(&self) -> bool {
        self.repository.reliable()
    }

    /// A server on the repository.
    pub fn new(repository: T) -> (server: Self)
        ensures
            server.state() == repository.state(),
            server.reliable() == repository.reliable(),
    {
        Self { repository }
    }

    /// The repository.
    pub fn into_repository(self) -> (repository: T)
        ensures
            repository.state() == self.state(),
            repository.reliable() == self.reliable(),
    {
        self.repository
    }

    /// All objects, oldest first.
    pub fn get_objects(&self, _request: GetObjectsRequest) -> (result: Result<
        GetObjectsResponse,
        Status,
    >)
        ensures
            match result {
                Ok(response) => self.state().objects_read() == Ok::<Seq<ObjectView>, DomainErrorView>(
                    objects_view(response.objects@),
                ),
                Err(status) => self.reliable() ==> told(self.state().objects_read(), status@),
            },
    {
        match self.repository.find_all() {
            Ok(objects) => Ok(GetObjectsResponse { objects }),
            Err(error) => Err(handle_error(error)),
        }
    }

    /// One object, where there is one with the identifier.
    pub fn get_object(&self, request: GetObjectRequest) -> (result: Result<GetObjectResponse, Status>)
        ensures
            match result {
                Ok(response) => self.state().object(request.id@) == Ok::<
                    Option<ObjectView>,
                    DomainErrorView,
                >(found_object_view(response.object)),
                Err(status) => self.reliable() ==> told(self.state().object(request.id@), status@),
            },
    {
        match self.repository.get(request.id) {
            Ok(object) => Ok(GetObjectResponse { object }),
            Err(error) => Err(handle_error(error)),
        }
    }

    /// Creates an object, and its keys.
    pub fn add_object(&mut self, request: AddObjectRequest) -> (result: Result<
        AddObjectResponse,
        Status,
    >)
        ensures
            match result {
                Ok(response) => {
                    &&& response.object matches Some(object)
                    &&& object@.attributes == request.attributes@
                    &&& old(self).state().object_created(object@.id, request.attributes@) == Ok::<
                        State,
                        DomainErrorView,
                    >(final(self).state())
                },
                Err(status) => {
                    &&& final(self).state() == old(self).state()
                    &&& status.code != Code::InvalidArgument
                    &&& old(self).reliable() ==> exists|id: Seq<char>| #[trigger]
                        told(old(self).state().object_created(id, request.attributes@), status@)
                },
            },
            old(self).state().complete() ==> final(self).state().complete(),
            old(self).state().consistent() ==> final(self).state().consistent(),
            final(self).reliable() == old(self).reliable(),
    {
        let ghost before = self.state();
        let ghost reliable = self.reliable();
        match self.repository.create(request.attributes) {
            Ok(object) => Ok(AddObjectResponse { object: Some(object) }),
            Err(error) => {
                let status = handle_error(error);
                proof {
                    if reliable {
                        let id = choose|id: Seq<char>| #[trigger]
                            before.object_created(id, request.attributes@) == Err::<
                                State,
                                DomainErrorView,
                            >(error@);
                        assert(told(before.object_created(id, request.attributes@), status@));
                    }
                }
                Err(status)
            },
        }
    }

    /// Gives an object other attributes, and other keys.
    pub fn update_object(&mut self, request: UpdateObjectRequest) -> (result: Result<
        UpdateObjectResponse,
        Status,
    >)
        ensures
            match result {
                Ok(response) => {
                    &&& response.object matches Some(object)
                    &&& object@ == (ObjectView { id: request.id@, attributes: request.attributes@ })
                    &&& old(self).state().object_updated(request.id@, request.attributes@) == Ok::<
                        State,
                        DomainErrorView,
                    >(final(self).state())
                },
                Err(status) => {
                    &&& final(self).state() == old(self).state()
                    &&& status.code != Code::InvalidArgument
                    &&& old(self).reliable() ==> told(old(self).state().object_updated(
                        request.id@,
                        request.attributes@,
                    ), status@)
                },
            },
            old(self).state().complete() ==> final(self).state().complete(),
            old(self).state().consistent() ==> final(self).state().consistent(),
            final(self).reliable() == old(self).reliable(),
    {
        match self.repository.update(request.id, request.attributes) {
            Ok(object) => Ok(UpdateObjectResponse { object: Some(object) }),
            Err(error) => Err(handle_error(error)),
        }
    }

    /// Deletes an object, and its keys.
    pub fn delete_object(&mut self, request: DeleteObjectRequest) -> (result: Result<
        DeleteObjectResponse,
        Status,
    >)
        ensures
            match result {
                Ok(_) => final(self).state() == old(self).state().object_deleted(request.id@),
                Err(status) => {
                    &&& final(self).state() == old(self).state()
                    &&& status.code != Code::InvalidArgument
                    &&& !old(self).reliable()
                },
            },
            old(self).state().complete() ==> final(self).state().complete(),
            old(self).state().consistent() ==> final(self).state().consistent(),
            final(self).reliable() == old(self).reliable(),
    {
        match self.repository.delete(request.id) {
            Ok(()) => Ok(DeleteObjectResponse {  }),
            Err(error) => Err(handle_error(error)),
        }
    }
}

} // verus!
