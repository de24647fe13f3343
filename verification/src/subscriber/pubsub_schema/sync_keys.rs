use crate::subscriber::pubsub_schema::{CreateKeysRequest, DeleteKeysRequest, UpdateKeysRequest};
use vstd::prelude::*;

verus! {

/// What a message asks for.
#[derive(Debug, PartialEq, Eq)]
pub enum Payload {
    CreateKeysRequest(CreateKeysRequest),
    UpdateKeysRequest(UpdateKeysRequest),
    DeleteKeysRequest(DeleteKeysRequest),
}

/// A [`Payload`] as a mathematical value: what is asked for, and the
/// identifier of the rule it is asked for.
pub enum PayloadView {
    Create(Seq<char>),
    Update(Seq<char>),
    Delete(Seq<char>),
}

impl View for Payload {
    type V = PayloadView;

    open spec fn view(&self) -> PayloadView {
        match self {
            Payload::CreateKeysRequest(request) => PayloadView::Create(request.rule_id@),
            Payload::UpdateKeysRequest(request) => PayloadView::Update(request.rule_id@),
            Payload::DeleteKeysRequest(request) => PayloadView::Delete(request.rule_id@),
        }
    }
}

} // verus!
