use red_panda_chat::args::DataFormat;
use red_panda_chat::message::MessageHandler;
use red_panda_chat::publisher::{prepare_chat, prepare_delete, prepare_replace};
use red_panda_chat::ChatError;

#[test]
fn chat_payload_is_plain_encoding() {
    for f in [DataFormat::Text, DataFormat::Json, DataFormat::Protobuf] {
        let bytes = prepare_chat("alice", "hello", f).expect("chat encodes in every format");
        let direct = MessageHandler::serialize_message("alice", "hello", f, None, None).unwrap();
        assert_eq!(bytes, direct);
    }
}

#[test]
fn replace_under_text_is_unsupported() {
    let r = prepare_replace("alice", "new text", 10, DataFormat::Text);
    assert_eq!(r.unwrap_err(), ChatError::UnsupportedOperation);
}

#[test]
fn delete_under_text_is_unsupported() {
    let r = prepare_delete(10, DataFormat::Text);
    assert_eq!(r.unwrap_err(), ChatError::UnsupportedOperation);
}

#[test]
fn replace_carries_exact_target_offset() {
    for f in [DataFormat::Json, DataFormat::Protobuf] {
        let bytes = prepare_replace("alice", "corrected", 42, f).expect("encodes");
        let env = MessageHandler::deserialize_envelope(&bytes, f).expect("decodes");
        assert_eq!(env.username, "alice");
        assert_eq!(env.message, "corrected");
        assert_eq!(env.replaces_offset, Some(42));
        assert_eq!(env.delete_offset, None);
    }
}

#[test]
fn delete_carries_exact_target_offset() {
    for f in [DataFormat::Json, DataFormat::Protobuf] {
        let bytes = prepare_delete(13, f).expect("encodes");
        let env = MessageHandler::deserialize_envelope(&bytes, f).expect("decodes");
        assert_eq!(env.username, "Admin");
        assert_eq!(env.message, "Message deleted");
        assert_eq!(env.replaces_offset, None);
        assert_eq!(env.delete_offset, Some(13));
    }
}
