use key_sync::subscriber::pubsub_schema::MessageType;

#[test]
fn message_type_names() {
    assert_eq!(MessageType::Invalid.as_str_name(), "INVALID");
    assert_eq!(MessageType::CreateKeysRequest.as_str_name(), "CREATE_KEYS_REQUEST");
    assert_eq!(MessageType::UpdateKeysRequest.as_str_name(), "UPDATE_KEYS_REQUEST");
    assert_eq!(MessageType::DeleteKeysRequest.as_str_name(), "DELETE_KEYS_REQUEST");
}

#[test]
fn message_type_from_names() {
    assert_eq!(MessageType::from_str_name("INVALID"), Some(MessageType::Invalid));
    assert_eq!(MessageType::from_str_name("CREATE_KEYS_REQUEST"), Some(MessageType::CreateKeysRequest));
    assert_eq!(MessageType::from_str_name("UPDATE_KEYS_REQUEST"), Some(MessageType::UpdateKeysRequest));
    assert_eq!(MessageType::from_str_name("DELETE_KEYS_REQUEST"), Some(MessageType::DeleteKeysRequest));
    assert_eq!(MessageType::from_str_name("create_keys_request"), None);
    assert_eq!(MessageType::from_str_name(""), None);
}

#[test]
fn message_type_name_round_trip() {
    for kind in [
        MessageType::Invalid,
        MessageType::CreateKeysRequest,
        MessageType::UpdateKeysRequest,
        MessageType::DeleteKeysRequest,
    ] {
        assert_eq!(MessageType::from_str_name(kind.as_str_name()), Some(kind));
    }
}
