use cpex_core::hooks::payload::{canonical_bytes, content_hash, format_digest, PluginPayload};

#[derive(Clone)]
struct Doc {
    a: u32,
    note: String,
}

impl PluginPayload for Doc {
    fn audit_bytes(&self) -> Option<Vec<u8>> {
        let mut members = serde_json::Map::new();
        members.insert("note".to_string(), serde_json::Value::from(self.note.clone()));
        members.insert("a".to_string(), serde_json::Value::from(self.a));
        canonical_bytes(&serde_json::Value::Object(members))
    }
}

#[derive(Clone)]
struct Opaque;

impl PluginPayload for Opaque {}

#[test]
fn audit_serialize_is_some_and_deterministic() {
    let d = Doc { a: 1, note: "hi".into() };
    let b1 = d.audit_bytes().expect("serializable payload → Some");
    let b2 = d.clone().audit_bytes().expect("Some");
    assert_eq!(b1, b2, "canonical bytes are deterministic");
}

#[test]
fn canonical_bytes_sort_object_keys() {
    let d = Doc { a: 1, note: "hi".into() };
    assert_eq!(d.audit_bytes().unwrap(), br#"{"a":1,"note":"hi"}"#.to_vec());
}

#[test]
fn default_audit_bytes_is_none() {
    // A payload that has no audit bytes of its own yields none.
    assert!(Opaque.audit_bytes().is_none());
}

#[test]
fn content_hash_is_prefixed_and_stable() {
    let h = content_hash(b"hello");
    assert!(h.starts_with("sha256:"));
    assert_eq!(h.len(), "sha256:".len() + 64, "sha256 hex is 64 chars");
    assert_eq!(content_hash(b"hello"), h, "deterministic");
    assert_ne!(content_hash(b"world"), h, "different input → different hash");
}

#[test]
fn content_hash_of_known_input() {
    assert_eq!(
        content_hash(b"abc"),
        "sha256:ba7816bf8f01cfea414140de5dae2223b00361a396177a9cb410ff61f20015ad"
    );
}

#[test]
fn digest_is_written_in_lower_case_hex() {
    assert_eq!(format_digest(&[0x00, 0x0f, 0xa5, 0xff]), "sha256:000fa5ff");
    assert_eq!(format_digest(&[]), "sha256:");
}

#[test]
fn canonical_bytes_do_not_depend_on_insertion_order() {
    let names = ["b", "a\"\\", "\u{1}\n", "é", "B"];
    let mut forward = serde_json::Map::new();
    let mut backward = serde_json::Map::new();
    for n in names {
        forward.insert(n.to_string(), serde_json::Value::from(1));
    }
    for n in names.iter().rev() {
        backward.insert(n.to_string(), serde_json::Value::from(1));
    }
    let bytes = canonical_bytes(&serde_json::Value::Object(forward)).unwrap();
    assert_eq!(
        std::str::from_utf8(&bytes).unwrap(),
        r#"{"\u0001\n":1,"B":1,"a\"\\":1,"b":1,"é":1}"#
    );
    assert_eq!(canonical_bytes(&serde_json::Value::Object(backward)).unwrap(), bytes);
}

#[test]
fn every_json_value_has_canonical_bytes() {
    let nested = serde_json::Value::from(vec![
        serde_json::Value::Null,
        serde_json::Value::from("\t\r\u{8}\u{c}/"),
        serde_json::Value::from(1.5),
        serde_json::Value::Object(serde_json::Map::new()),
    ]);
    assert_eq!(
        canonical_bytes(&nested).unwrap(),
        br#"[null,"\t\r\b\f/",1.5,{}]"#.to_vec()
    );
    assert_eq!(canonical_bytes(&nested.clone()), canonical_bytes(&nested));
}
