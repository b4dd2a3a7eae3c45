use lysand_core::objects::{Note, User, Outbox, LysandType, serialize_note, deserialize_note,
    serialize_user, deserialize_user, serialize_outbox, deserialize_outbox,
    serialize_lysand_type, deserialize_lysand_type, identify_kind};
use lysand_core::json::{JsonField, JsonVal, encode_canonical};
use lysand_core::FedError;

fn minimal_note() -> Note {
    Note {
        content: String::from("hi"),
        creator: String::from("u1"),
        url: String::from("https://x/1"),
        sensitive: false,
        title: None,
        content_type: None,
        visibility: None,
        spoiler_text: None,
        reblog_id: None,
        reply_id: None,
        quoting_id: None,
        created_at: None,
        updated_at: None,
    }
}

fn full_note() -> Note {
    Note {
        content: String::from("body text"),
        creator: String::from("https://a/u/alice"),
        url: String::from("https://a/p/1"),
        sensitive: true,
        title: Some(String::from("a title")),
        content_type: Some(String::from("text/plain")),
        visibility: Some(String::from("public")),
        spoiler_text: Some(String::from("cw")),
        reblog_id: Some(String::from("https://a/p/0")),
        reply_id: Some(String::from("https://b/p/9")),
        quoting_id: None,
        created_at: Some(String::from("2024-01-02T03:04:05Z")),
        updated_at: None,
    }
}

#[test]
fn concrete_example_key_order() {
    let out = serialize_note(&minimal_note());
    assert_eq!(
        out,
        "{\"content\":\"hi\",\"creator\":\"u1\",\"sensitive\":false,\"url\":\"https://x/1\"}"
    );
}

#[test]
fn encode_is_deterministic() {
    let a = serialize_note(&full_note());
    let b = serialize_note(&full_note());
    assert_eq!(a, b);
    assert_eq!(a.as_bytes(), b.as_bytes());
}

#[test]
fn encode_is_order_invariant() {
    let fs1 = vec![
        JsonField { key: String::from("b"), val: JsonVal::VStr(String::from("2")) },
        JsonField { key: String::from("a"), val: JsonVal::VStr(String::from("1")) },
        JsonField { key: String::from("c"), val: JsonVal::VBool(true) },
    ];
    let fs2 = vec![
        JsonField { key: String::from("c"), val: JsonVal::VBool(true) },
        JsonField { key: String::from("b"), val: JsonVal::VStr(String::from("2")) },
        JsonField { key: String::from("a"), val: JsonVal::VStr(String::from("1")) },
    ];
    let e1 = encode_canonical(fs1);
    let e2 = encode_canonical(fs2);
    assert_eq!(e1, e2);
    assert_eq!(e1, "{\"a\":\"1\",\"b\":\"2\",\"c\":true}");
}

#[test]
fn note_round_trip_minimal() {
    let n = minimal_note();
    let out = serialize_note(&n);
    let back = deserialize_note(&out).unwrap();
    assert_eq!(back.content, n.content);
    assert_eq!(back.creator, n.creator);
    assert_eq!(back.url, n.url);
    assert_eq!(back.sensitive, n.sensitive);
    assert_eq!(back.title, None);
    assert_eq!(back.reblog_id, None);
}

#[test]
fn note_round_trip_full() {
    let n = full_note();
    let out = serialize_note(&n);
    let back = deserialize_note(&out).unwrap();
    assert_eq!(back.content, n.content);
    assert_eq!(back.creator, n.creator);
    assert_eq!(back.url, n.url);
    assert_eq!(back.sensitive, n.sensitive);
    assert_eq!(back.title, n.title);
    assert_eq!(back.content_type, n.content_type);
    assert_eq!(back.visibility, n.visibility);
    assert_eq!(back.spoiler_text, n.spoiler_text);
    assert_eq!(back.reblog_id, n.reblog_id);
    assert_eq!(back.reply_id, n.reply_id);
    assert_eq!(back.quoting_id, n.quoting_id);
    assert_eq!(back.created_at, n.created_at);
    assert_eq!(back.updated_at, n.updated_at);
}

#[test]
fn note_round_trip_with_escapes() {
    let mut n = minimal_note();
    n.content = String::from("line one\nhe said \"hi\"\t\\done\r");
    let out = serialize_note(&n);
    let back = deserialize_note(&out).unwrap();
    assert_eq!(back.content, n.content);
}

#[test]
fn escaped_output_is_real_json() {
    let mut n = minimal_note();
    n.content = String::from("a\"b\\c\nd");
    let out = serialize_note(&n);
    let v: serde_json::Value = serde_json::from_str(&out).unwrap();
    assert_eq!(v["content"], serde_json::Value::String(String::from("a\"b\\c\nd")));
    assert_eq!(v["creator"], serde_json::Value::String(String::from("u1")));
    assert_eq!(v["sensitive"], serde_json::Value::Bool(false));
}

#[test]
fn malformed_decode_is_decode_error() {
    assert_eq!(deserialize_note("{not json").unwrap_err(), FedError::DecodeError);
    assert_eq!(deserialize_note("").unwrap_err(), FedError::DecodeError);
    assert_eq!(deserialize_note("{\"a\":\"b\"}x").unwrap_err(), FedError::DecodeError);
}

#[test]
fn empty_object_is_schema_violation() {
    assert_eq!(deserialize_note("{}").unwrap_err(), FedError::SchemaViolation);
}

#[test]
fn whitespace_never_makes_text_malformed() {
    assert_eq!(deserialize_note(" {}").unwrap_err(), FedError::SchemaViolation);
    assert_eq!(deserialize_user(" {} ").unwrap_err(), FedError::SchemaViolation);
    let n = deserialize_note(
        " {\n  \"content\" : \"x\" ,\n  \"creator\": \"c\",\t\"url\":\"u\"\n} ",
    )
    .unwrap();
    assert_eq!(n.content, "x");
    assert_eq!(n.creator, "c");
    assert_eq!(n.url, "u");
}

#[test]
fn unknown_members_of_any_shape_are_ignored() {
    let text = "{\"content\":\"x\",\"creator\":\"c\",\"url\":\"u\",\"count\":12.5e-3,\"gone\":null,\"extra\":{\"deep\":[1,2,{\"a\":false}]},\"mixed\":[\"s\",3,null]}";
    let n = deserialize_note(text).unwrap();
    assert_eq!(n.content, "x");
    assert_eq!(n.creator, "c");
    assert_eq!(n.url, "u");
}

#[test]
fn unicode_escapes_decode() {
    let n = deserialize_note(
        "{\"content\":\"\\u0041\\u00e9\\u0009\",\"creator\":\"c\",\"url\":\"u\"}",
    )
    .unwrap();
    assert_eq!(n.content, "A\u{e9}\t");
    // a surrogate pair names one astral character
    let p = deserialize_note(
        "{\"content\":\"\\ud83d\\ude00\",\"creator\":\"c\",\"url\":\"u\"}",
    )
    .unwrap();
    assert_eq!(p.content, "\u{1f600}");
    // a lone surrogate is not a scalar: the text is malformed
    assert_eq!(
        deserialize_note("{\"content\":\"\\ud800\",\"creator\":\"c\",\"url\":\"u\"}")
            .unwrap_err(),
        FedError::DecodeError
    );
}

#[test]
fn control_characters_encode_as_unicode_escapes() {
    let mut n = minimal_note();
    n.content = String::from("a\u{1}b\u{1f}");
    let out = serialize_note(&n);
    assert_eq!(
        out,
        "{\"content\":\"a\\u0001b\\u001f\",\"creator\":\"u1\",\"sensitive\":false,\"url\":\"https://x/1\"}"
    );
    let v: serde_json::Value = serde_json::from_str(&out).unwrap();
    assert_eq!(v["content"], serde_json::Value::String(String::from("a\u{1}b\u{1f}")));
    let back = deserialize_note(&out).unwrap();
    assert_eq!(back.content, n.content);
}

#[test]
fn mistyped_member_is_schema_violation() {
    assert_eq!(
        deserialize_note("{\"content\":true,\"creator\":\"c\",\"url\":\"u\"}").unwrap_err(),
        FedError::SchemaViolation
    );
    assert_eq!(
        deserialize_note("{\"content\":\"x\",\"creator\":\"c\",\"url\":\"u\",\"title\":true}")
            .unwrap_err(),
        FedError::SchemaViolation
    );
}

#[test]
fn decode_ignores_order_and_unknown_keys() {
    let text = "{\"url\":\"u\",\"zzz\":\"ignored\",\"creator\":\"c\",\"content\":\"x\"}";
    let n = deserialize_note(text).unwrap();
    assert_eq!(n.content, "x");
    assert_eq!(n.creator, "c");
    assert_eq!(n.url, "u");
    assert!(!n.sensitive);
}

#[test]
fn user_round_trip_and_order() {
    let u = User {
        id: String::from("u1"),
        username: String::from("alice"),
        url: String::from("https://a/u/alice"),
        display_name: Some(String::from("Alice")),
        created_at: Some(String::from("2024-01-01T00:00:00Z")),
    };
    let out = serialize_user(&u);
    assert_eq!(
        out,
        "{\"created_at\":\"2024-01-01T00:00:00Z\",\"display_name\":\"Alice\",\"id\":\"u1\",\"url\":\"https://a/u/alice\",\"username\":\"alice\"}"
    );
    let back = deserialize_user(&out).unwrap();
    assert_eq!(back.id, u.id);
    assert_eq!(back.username, u.username);
    assert_eq!(back.url, u.url);
    assert_eq!(back.display_name, u.display_name);
    assert_eq!(back.created_at, u.created_at);
}

#[test]
fn user_missing_required_is_schema_violation() {
    assert_eq!(
        deserialize_user("{\"id\":\"u1\"}").unwrap_err(),
        FedError::SchemaViolation
    );
}

#[test]
fn outbox_round_trip_keeps_item_order() {
    let o = Outbox {
        author: String::from("https://a/u/alice"),
        items: vec![
            String::from("https://a/p/3"),
            String::from("https://a/p/1"),
            String::from("https://a/p/2"),
        ],
    };
    let out = serialize_outbox(&o);
    assert_eq!(
        out,
        "{\"author\":\"https://a/u/alice\",\"items\":[\"https://a/p/3\",\"https://a/p/1\",\"https://a/p/2\"]}"
    );
    let back = deserialize_outbox(&out).unwrap();
    assert_eq!(back.author, o.author);
    assert_eq!(back.items, o.items);
}

#[test]
fn empty_outbox_round_trip() {
    let o = Outbox { author: String::from("a"), items: Vec::new() };
    let out = serialize_outbox(&o);
    assert_eq!(out, "{\"author\":\"a\",\"items\":[]}");
    let back = deserialize_outbox(&out).unwrap();
    assert_eq!(back.items.len(), 0);
}

#[test]
fn lysand_type_round_trips() {
    for t in [
        LysandType::Note,
        LysandType::User,
        LysandType::Follow,
        LysandType::Outbox,
        LysandType::Delete,
    ] {
        let out = serialize_lysand_type(&t);
        let back = deserialize_lysand_type(&out).unwrap();
        assert_eq!(back, t);
    }
    assert_eq!(serialize_lysand_type(&LysandType::Note), "\"Note\"");
}

#[test]
fn lysand_type_errors() {
    assert_eq!(deserialize_lysand_type(" \"Note\" ").unwrap(), LysandType::Note);
    assert_eq!(deserialize_lysand_type("Note").unwrap_err(), FedError::DecodeError);
    assert_eq!(deserialize_lysand_type("\"Nope\"").unwrap_err(), FedError::SchemaViolation);
    assert_eq!(deserialize_lysand_type("\"Note\"x").unwrap_err(), FedError::DecodeError);
}

#[test]
fn identify_kind_dispatches_on_discriminator() {
    assert_eq!(
        identify_kind("{\"content\":\"x\",\"type\":\"Note\"}").unwrap(),
        LysandType::Note
    );
    assert_eq!(
        identify_kind("{\"type\":\"Unknown\"}").unwrap_err(),
        FedError::SchemaViolation
    );
    assert_eq!(identify_kind("{\"kind\":\"Note\"}").unwrap_err(), FedError::SchemaViolation);
    assert_eq!(identify_kind("not an object").unwrap_err(), FedError::DecodeError);
    assert_eq!(
        identify_kind(" { \"seen\": 3, \"type\" : \"Outbox\" } ").unwrap(),
        LysandType::Outbox
    );
}
