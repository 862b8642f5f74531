use red_panda_chat::args::DataFormat;
use red_panda_chat::message::MessageHandler;
use red_panda_chat::ChatError;

fn encode(
    u: &str,
    m: &str,
    f: DataFormat,
    r: Option<i64>,
    d: Option<i64>,
) -> Vec<u8> {
    MessageHandler::serialize_message(u, m, f, r, d).expect("serialize")
}

#[test]
fn text_exact_bytes() {
    let bytes = encode("alice", "hi", DataFormat::Text, None, None);
    assert_eq!(bytes, b"alice: hi".to_vec());
}

#[test]
fn text_round_trip() {
    let bytes = encode("alice", "hi", DataFormat::Text, None, None);
    let (u, m) = MessageHandler::deserialize_message(&bytes, DataFormat::Text).expect("decode");
    assert_eq!(u, "alice");
    assert_eq!(m, "hi");
}

#[test]
fn text_splits_on_first_colon_only() {
    let bytes = encode("alice", "hi: there", DataFormat::Text, None, None);
    assert_eq!(bytes, b"alice: hi: there".to_vec());
    let (u, m) = MessageHandler::deserialize_message(&bytes, DataFormat::Text).expect("decode");
    assert_eq!(u, "alice");
    assert_eq!(m, "hi: there");
}

#[test]
fn text_trims_whitespace() {
    let (u, m) =
        MessageHandler::deserialize_message(b"  bob \t:  hello world  ", DataFormat::Text)
            .expect("decode");
    assert_eq!(u, "bob");
    assert_eq!(m, "hello world");
}

#[test]
fn text_without_colon_fails() {
    let r = MessageHandler::deserialize_message(b"no separator here", DataFormat::Text);
    assert_eq!(r.unwrap_err(), ChatError::FormatError);
}

#[test]
fn text_drops_mutation_metadata() {
    let with = encode("a", "b", DataFormat::Text, Some(5), Some(6));
    let without = encode("a", "b", DataFormat::Text, None, None);
    assert_eq!(with, without);
}

#[test]
fn json_exact_bytes() {
    let bytes = encode("alice", "hi", DataFormat::Json, None, None);
    assert_eq!(
        String::from_utf8(bytes).unwrap(),
        "{\"username\":\"alice\",\"message\":\"hi\",\"replaces_offset\":null,\"delete_offset\":null}"
    );
}

#[test]
fn json_round_trip() {
    let bytes = encode("alice", "hi", DataFormat::Json, None, None);
    let (u, m) = MessageHandler::deserialize_message(&bytes, DataFormat::Json).expect("decode");
    assert_eq!(u, "alice");
    assert_eq!(m, "hi");
}

#[test]
fn json_is_real_json() {
    let bytes = encode("alice", "hi there", DataFormat::Json, Some(42), None);
    let v: serde_json::Value = serde_json::from_slice(&bytes).expect("valid JSON");
    assert_eq!(v["username"].as_str().unwrap(), "alice");
    assert_eq!(v["message"].as_str().unwrap(), "hi there");
    assert_eq!(v["replaces_offset"].as_i64().unwrap(), 42);
    assert!(v["delete_offset"].is_null());
}

#[test]
fn json_escapes_round_trip() {
    let u = "a\"b\\c";
    let m = "line1\nline2\ttabbed\rcr";
    let bytes = encode(u, m, DataFormat::Json, None, None);
    let v: serde_json::Value = serde_json::from_slice(&bytes).expect("valid JSON");
    assert_eq!(v["username"].as_str().unwrap(), u);
    assert_eq!(v["message"].as_str().unwrap(), m);
    let (du, dm) = MessageHandler::deserialize_message(&bytes, DataFormat::Json).expect("decode");
    assert_eq!(du, u);
    assert_eq!(dm, m);
}

#[test]
fn json_unicode_round_trip() {
    let bytes = encode("ユーザー", "héllo wörld", DataFormat::Json, None, None);
    let (u, m) = MessageHandler::deserialize_message(&bytes, DataFormat::Json).expect("decode");
    assert_eq!(u, "ユーザー");
    assert_eq!(m, "héllo wörld");
}

#[test]
fn json_offsets_round_trip() {
    let bytes = encode("admin", "new text", DataFormat::Json, Some(42), None);
    let env = MessageHandler::deserialize_envelope(&bytes, DataFormat::Json).expect("decode");
    assert_eq!(env.username, "admin");
    assert_eq!(env.message, "new text");
    assert_eq!(env.replaces_offset, Some(42));
    assert_eq!(env.delete_offset, None);
}

#[test]
fn json_extreme_offsets_round_trip() {
    let bytes = encode("a", "b", DataFormat::Json, Some(i64::MAX), Some(i64::MIN));
    let env = MessageHandler::deserialize_envelope(&bytes, DataFormat::Json).expect("decode");
    assert_eq!(env.replaces_offset, Some(i64::MAX));
    assert_eq!(env.delete_offset, Some(i64::MIN));
    let v: serde_json::Value = serde_json::from_slice(&bytes).expect("valid JSON");
    assert_eq!(v["replaces_offset"].as_i64().unwrap(), i64::MAX);
    assert_eq!(v["delete_offset"].as_i64().unwrap(), i64::MIN);
}

#[test]
fn json_zero_offset_is_not_ambiguous() {
    let bytes = encode("a", "b", DataFormat::Json, Some(0), None);
    let env = MessageHandler::deserialize_envelope(&bytes, DataFormat::Json).expect("decode");
    assert_eq!(env.replaces_offset, Some(0));
}

#[test]
fn json_malformed_fails() {
    for bad in [
        b"".to_vec(),
        b"{}".to_vec(),
        b"not json at all".to_vec(),
        b"{\"username\":\"a\"}".to_vec(),
        b"{\"username\":\"a\",\"message\":\"b\",\"replaces_offset\":01,\"delete_offset\":null}"
            .to_vec(),
    ] {
        let r = MessageHandler::deserialize_message(&bad, DataFormat::Json);
        assert_eq!(r.unwrap_err(), ChatError::FormatError);
    }
}

#[test]
fn proto_exact_bytes() {
    let bytes = encode("ab", "cd", DataFormat::Protobuf, None, None);
    assert_eq!(bytes, vec![0x0a, 2, b'a', b'b', 0x12, 2, b'c', b'd']);
}

#[test]
fn proto_matches_reference_encoder() {
    // The reference protobuf encoder, field by field, skipping defaults
    // as generated message encoders do.
    let mut expected: Vec<u8> = Vec::new();
    prost::encoding::string::encode(1, &"alice".to_string(), &mut expected);
    prost::encoding::string::encode(2, &"hi".to_string(), &mut expected);
    prost::encoding::int64::encode(3, &42i64, &mut expected);
    let bytes = encode("alice", "hi", DataFormat::Protobuf, Some(42), None);
    assert_eq!(bytes, expected);
}

#[test]
fn proto_negative_offset_matches_reference_encoder() {
    let mut expected: Vec<u8> = Vec::new();
    prost::encoding::string::encode(1, &"a".to_string(), &mut expected);
    prost::encoding::string::encode(2, &"b".to_string(), &mut expected);
    prost::encoding::int64::encode(4, &-1i64, &mut expected);
    let bytes = encode("a", "b", DataFormat::Protobuf, None, Some(-1));
    assert_eq!(bytes, expected);
    let env = MessageHandler::deserialize_envelope(&bytes, DataFormat::Protobuf).expect("decode");
    assert_eq!(env.delete_offset, Some(-1));
}

#[test]
fn varint_matches_reference_encoder() {
    for v in [0u64, 1, 127, 128, 300, 16383, 16384, u64::MAX] {
        let mut ours: Vec<u8> = Vec::new();
        red_panda_chat::varint::push_varint(&mut ours, v);
        let mut theirs: Vec<u8> = Vec::new();
        prost::encoding::encode_varint(v, &mut theirs);
        assert_eq!(ours, theirs);
    }
}

#[test]
fn proto_round_trip() {
    let bytes = encode("alice", "hi", DataFormat::Protobuf, None, None);
    let (u, m) =
        MessageHandler::deserialize_message(&bytes, DataFormat::Protobuf).expect("decode");
    assert_eq!(u, "alice");
    assert_eq!(m, "hi");
}

#[test]
fn proto_offset_round_trip() {
    let bytes = encode("admin", "v2", DataFormat::Protobuf, Some(7), None);
    let env = MessageHandler::deserialize_envelope(&bytes, DataFormat::Protobuf).expect("decode");
    assert_eq!(env.replaces_offset, Some(7));
    assert_eq!(env.delete_offset, None);
}

#[test]
fn proto_empty_strings_round_trip() {
    let bytes = encode("", "", DataFormat::Protobuf, None, None);
    assert_eq!(bytes, Vec::<u8>::new());
    let (u, m) =
        MessageHandler::deserialize_message(&bytes, DataFormat::Protobuf).expect("decode");
    assert_eq!(u, "");
    assert_eq!(m, "");
}

#[test]
fn proto_zero_offset_is_unset() {
    let with_zero = encode("a", "b", DataFormat::Protobuf, Some(0), None);
    let without = encode("a", "b", DataFormat::Protobuf, None, None);
    assert_eq!(with_zero, without);
    let env =
        MessageHandler::deserialize_envelope(&with_zero, DataFormat::Protobuf).expect("decode");
    assert_eq!(env.replaces_offset, None);
}

#[test]
fn proto_malformed_fails() {
    for bad in [
        vec![0x0a, 5, 1],
        vec![0x28, 1],
        vec![0x0a],
        vec![0x0a, 0x80],
        vec![0x18, 0],
    ] {
        let r = MessageHandler::deserialize_message(&bad, DataFormat::Protobuf);
        assert_eq!(r.unwrap_err(), ChatError::FormatError);
    }
}

#[test]
fn invalid_utf8_fails() {
    let r = MessageHandler::deserialize_message(b"\xff\xfe: hi", DataFormat::Text);
    assert_eq!(r.unwrap_err(), ChatError::FormatError);
    let r2 = MessageHandler::deserialize_message(
        &[0x0a, 2, 0xff, 0xfe, 0x12, 1, b'x'],
        DataFormat::Protobuf,
    );
    assert_eq!(r2.unwrap_err(), ChatError::FormatError);
}

#[test]
fn round_trip_all_formats() {
    for f in [DataFormat::Text, DataFormat::Json, DataFormat::Protobuf] {
        let bytes = encode("carol", "a perfectly normal line", f, None, None);
        let (u, m) = MessageHandler::deserialize_message(&bytes, f).expect("decode");
        assert_eq!(u, "carol");
        assert_eq!(m, "a perfectly normal line");
    }
}
