use vstd::prelude::*;

pub mod sync_keys;

verus! {

/// A request to bring the keys of one rule in line with the objects.
#[derive(Debug, PartialEq, Eq)]
pub struct SyncKeys {
    pub message_type: i32,
    pub payload: Option<sync_keys::Payload>,
}

/// Asks for the keys of a rule to be derived and stored.
#[derive(Debug, PartialEq, Eq)]
pub struct CreateKeysRequest {
    pub rule_id: String,
}

/// Asks for the keys of a rule to be derived anew.
#[derive(Debug, PartialEq, Eq)]
pub struct UpdateKeysRequest {
    pub rule_id: String,
}

/// Asks for the keys of a rule to be removed.
#[derive(Debug, PartialEq, Eq)]
pub struct DeleteKeysRequest {
    pub rule_id: String,
}

/// The kind of a message, as its envelope names it.
#[derive(Clone, Copy, Debug, PartialEq, Eq, Structural, Hash, PartialOrd, Ord)]
pub enum MessageType {
    Invalid,
    CreateKeysRequest,
    UpdateKeysRequest,
    DeleteKeysRequest,
}

impl MessageType {
    /// The name of the kind in the schema of the messages.
    pub open spec fn name(self) -> Seq<char> {
        match self {
            MessageType::Invalid => "INVALID"@,
            MessageType::CreateKeysRequest => "CREATE_KEYS_REQUEST"@,
            MessageType::UpdateKeysRequest => "UPDATE_KEYS_REQUEST"@,
            MessageType::DeleteKeysRequest => "DELETE_KEYS_REQUEST"@,
        }
    }

    /// The kind that the schema of the messages knows under `name`.
    pub open spec fn named(name: Seq<char>) -> Option<MessageType> {
        if name == MessageType::Invalid.name() {
            Some(MessageType::Invalid)
        } else if name == MessageType::CreateKeysRequest.name() {
            Some(MessageType::CreateKeysRequest)
        } else if name == MessageType::UpdateKeysRequest.name() {
            Some(MessageType::UpdateKeysRequest)
        } else if name == MessageType::DeleteKeysRequest.name() {
            Some(MessageType::DeleteKeysRequest)
        } else {
            None
        }
    }

    /// The four names differ, so each kind is found again under its own name.
    pub proof fn lemma_named_name(self)
        ensures
            MessageType::named(self.name()) == Some(self),
    {
        reveal_strlit("INVALID");
        reveal_strlit("CREATE_KEYS_REQUEST");
        reveal_strlit("UPDATE_KEYS_REQUEST");
        reveal_strlit("DELETE_KEYS_REQUEST");
        assert("INVALID"@.len() == 7);
        assert("CREATE_KEYS_REQUEST"@.len() == 19);
        assert("CREATE_KEYS_REQUEST"@[0] == 'C');
        assert("UPDATE_KEYS_REQUEST"@[0] == 'U');
        assert("DELETE_KEYS_REQUEST"@[0] == 'D');
    }

    /// A name that stands for a kind is the name of that kind.
    pub proof fn lemma_name_named(name: Seq<char>)
        ensures
            MessageType::named(name) matches Some(kind) ==> kind.name() == name,
    {
    }

    /// String value of the enum field names used in the schema definition.
    pub fn as_str_name(&self) -> (name: &'static str)
        ensures
            name@ == self.name(),
    {
        match self {
            MessageType::Invalid => "INVALID",
            MessageType::CreateKeysRequest => "CREATE_KEYS_REQUEST",
            MessageType::UpdateKeysRequest => "UPDATE_KEYS_REQUEST",
            MessageType::DeleteKeysRequest => "DELETE_KEYS_REQUEST",
        }
    }

    /// Creates an enum from field names used in the schema definition.
    pub fn from_str_name(value: &str) -> (kind: Option<Self>)
        ensures
            kind == MessageType::named(value@),
    {
        let value = value.to_owned();
        if value == "INVALID".to_owned() {
            Some(MessageType::Invalid)
        } else if value == "CREATE_KEYS_REQUEST".to_owned() {
            Some(MessageType::CreateKeysRequest)
        } else if value == "UPDATE_KEYS_REQUEST".to_owned() {
            Some(MessageType::UpdateKeysRequest)
        } else if value == "DELETE_KEYS_REQUEST".to_owned() {
            Some(MessageType::DeleteKeysRequest)
        } else {
            None
        }
    }
}

} // verus!
