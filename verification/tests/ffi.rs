use cpex_core::context::{GlobalContext, PluginContextTable};
use cpex_core::error::{PluginError, PluginViolation};
use cpex_core::executor::PipelineResult;
use cpex_core::extensions::Extensions;
use cpex_core::ffi::{
    buffer_len, deserialize_payload, encode_errors, ffi_result, read_request, render_errors,
    serialize_payload, take_generic, take_message, CpexContextTableInner, GenericPayload,
    WireMessage, WirePayload, PAYLOAD_CMF_MESSAGE, PAYLOAD_GENERIC,
};
use cpex_core::hooks::payload::PluginPayload;
use serde_json::Value;

#[derive(Debug, PartialEq)]
struct Message(Vec<u8>);

impl WireMessage for Message {
    fn decode(bytes: &[u8]) -> Result<Self, String> {
        if bytes.is_empty() {
            Err("empty".to_string())
        } else {
            Ok(Message(bytes.to_vec()))
        }
    }

    fn encode(&self) -> Option<Vec<u8>> {
        Some(self.0.clone())
    }
}

fn object() -> Value {
    let mut m = serde_json::Map::new();
    m.insert("a".to_string(), Value::from(1));
    Value::Object(m)
}

/// `{"a": 1}` in MessagePack.
const BYTES: [u8; 4] = [0x81, 0xa1, 0x61, 0x01];

#[test]
fn a_generic_payload_is_the_value_of_its_bytes() {
    match deserialize_payload::<Message>(PAYLOAD_GENERIC, &BYTES) {
        Ok(WirePayload::Generic(p)) => {
            assert_eq!(p.value, object());
            assert!(p.audit_bytes().is_none());
        }
        _ => panic!("expected a generic payload"),
    }
}

#[test]
fn a_generic_payload_is_written_back() {
    let payload: WirePayload<Message> = WirePayload::Generic(GenericPayload { value: object() });
    assert_eq!(serialize_payload(&payload), Some((PAYLOAD_GENERIC, BYTES.to_vec())));
}

#[test]
fn a_message_is_read_and_written_by_its_type() {
    match deserialize_payload::<Message>(PAYLOAD_CMF_MESSAGE, &[1, 2]) {
        Ok(payload) => {
            assert!(matches!(&payload, WirePayload::Message(m) if m.0 == [1, 2]));
            assert_eq!(serialize_payload(&payload), Some((PAYLOAD_CMF_MESSAGE, vec![1, 2])));
        }
        Err(_) => panic!("expected a message"),
    }
}

#[test]
fn bytes_that_hold_no_payload_are_refused() {
    let generic = deserialize_payload::<Message>(PAYLOAD_GENERIC, &[0xc1]).err().unwrap();
    assert!(generic.starts_with("generic payload deserialize failed: "));
    assert!(generic.len() > "generic payload deserialize failed: ".len());
    let message = deserialize_payload::<Message>(PAYLOAD_CMF_MESSAGE, &[]).err().unwrap();
    assert_eq!(message, "CMF payload deserialize failed: empty");
    let unknown = deserialize_payload::<Message>(7, &BYTES).err().unwrap();
    assert_eq!(unknown, "unknown payload type: 7");
}

#[test]
fn parts_that_were_read_are_taken() {
    let generic: Result<WirePayload<Message>, String> = take_generic(Err("bad".to_string()));
    assert_eq!(generic.err().unwrap(), "generic payload deserialize failed: bad");
    assert!(matches!(
        take_generic::<Message>(Ok(Value::Null)),
        Ok(WirePayload::Generic(p)) if p.value.is_null()
    ));
    let message: Result<WirePayload<Message>, String> = take_message(Err("bad".to_string()));
    assert_eq!(message.err().unwrap(), "CMF payload deserialize failed: bad");
}

#[test]
fn a_buffer_needs_a_pointer_and_a_length() {
    assert_eq!(buffer_len(false, 3), Some(3));
    assert_eq!(buffer_len(true, 3), None);
    assert_eq!(buffer_len(false, 0), None);
    assert_eq!(buffer_len(false, -1), None);
    assert_eq!(buffer_len(false, i32::MAX), Some(i32::MAX as usize));
}

fn generic() -> Option<Result<WirePayload<Message>, String>> {
    Some(Ok(WirePayload::Generic(GenericPayload { value: Value::Null })))
}

#[test]
fn a_request_needs_all_of_its_parts() {
    let name = || Some("hook".to_string());
    let ext = || Some(Ok(Extensions { candidate_constraint: Some("c".into()), ..Default::default() }));
    let q = read_request(name(), generic(), 5, ext()).unwrap();
    assert_eq!(q.hook_name, "hook");
    assert_eq!(q.extensions.candidate_constraint.as_deref(), Some("c"));
    assert!(read_request(None, generic(), 5, ext()).is_none());
    assert!(read_request::<Message>(name(), None, 5, ext()).is_none());
    assert!(read_request::<Message>(name(), Some(Err("x".into())), 5, ext()).is_none());
    assert!(read_request(name(), generic(), 5, None).is_none());
    assert!(read_request(name(), generic(), 5, Some(Err("x".into()))).is_none());
    // Extensions may be left out.
    let q = read_request(name(), generic(), 0, None).unwrap();
    assert!(q.extensions.candidate_constraint.is_none());
    assert!(read_request(name(), generic(), -1, Some(Err("x".into()))).is_some());
}

#[test]
fn a_result_crosses_with_its_payload_and_table() {
    let table = PluginContextTable::for_request(GlobalContext::new("r"));
    let result =
        PipelineResult::allowed_with((), Extensions::default(), table).with_payload_modified(true);
    let (out, inner) =
        ffi_result(result, PAYLOAD_GENERIC, Some((PAYLOAD_CMF_MESSAGE, vec![1])), Some(vec![2]));
    assert!(out.continue_processing);
    assert!(out.violation.is_none());
    assert!(out.metadata.is_none());
    assert_eq!(out.payload_type, PAYLOAD_CMF_MESSAGE);
    assert_eq!(out.modified_payload, Some(vec![1]));
    assert_eq!(out.modified_extensions, Some(vec![2]));
    assert_eq!(inner.into_table().global().request_id, "r");
}

#[test]
fn a_payload_that_nobody_changed_is_not_sent() {
    let result =
        PipelineResult::allowed_with((), Extensions::default(), PluginContextTable::new());
    let (out, _) = ffi_result(result, PAYLOAD_GENERIC, Some((PAYLOAD_CMF_MESSAGE, vec![1])), None);
    assert_eq!(out.payload_type, PAYLOAD_GENERIC);
    assert!(out.modified_payload.is_none());
}

#[test]
fn a_denied_result_crosses_without_a_payload() {
    let violation = PluginViolation::new("c", "r");
    let result: PipelineResult<()> =
        PipelineResult::denied(violation, Extensions::default(), PluginContextTable::new());
    let (out, _) = ffi_result(result, PAYLOAD_CMF_MESSAGE, None, None);
    assert!(!out.continue_processing);
    assert_eq!(out.violation.unwrap().code, "c");
    assert_eq!(out.payload_type, PAYLOAD_CMF_MESSAGE);
    assert!(out.modified_payload.is_none());
    assert!(out.modified_extensions.is_none());
}

#[test]
fn a_context_table_survives_the_crossing() {
    let table = PluginContextTable::for_request(GlobalContext::new("req"));
    let inner = CpexContextTableInner::new(table);
    assert_eq!(inner.into_table().global().request_id, "req");
}

#[test]
fn errors_cross_by_their_text() {
    let errors = vec![
        PluginError::Config { message: "m".into() },
        PluginError::timed_out("p", 2),
    ];
    assert_eq!(
        render_errors(&errors),
        vec!["configuration error: m", "plugin 'p' timed out after 2000ms"]
    );
    let one = vec![PluginError::Config { message: "m".into() }];
    // A list of one text of 22 bytes.
    let mut expected = vec![0x91, 0xa0 | 22];
    expected.extend_from_slice(b"configuration error: m");
    assert_eq!(encode_errors(&one), Some(expected));
    assert_eq!(encode_errors(&Vec::new()), Some(vec![0x90]));
}
