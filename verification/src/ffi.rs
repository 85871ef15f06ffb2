//! What crosses the boundary to callers in other languages.
//!
//! Payloads cross as MessagePack bytes with a number for their type. Handles and
//! raw memory are the host's part; here is what is decided about their contents.

use crate::context::PluginContextTable;
use crate::error::{self, PluginError, PluginViolation};
use crate::executor::PipelineResult;
use crate::extensions::{self, Extensions};
use crate::hooks::payload::PluginPayload;
use crate::text;
use serde_json::Value;
use vstd::prelude::*;

verus! {

/// The number of a payload whose type is not known here.
pub const PAYLOAD_GENERIC: u8 = 0;

/// The number of a message payload.
pub const PAYLOAD_CMF_MESSAGE: u8 = 1;

/// A payload whose type is not known here.
#[derive(Debug, Clone)]
pub struct GenericPayload {
    pub value: Value,
}

impl PluginPayload for GenericPayload {

}

/// A context table that a caller holds between invocations.
pub struct CpexContextTableInner {
    table: PluginContextTable,
}

impl CpexContextTableInner {
    /// The table inside.
    pub closed spec fn inner(self) -> PluginContextTable {
        self.table
    }

    /// Hands a table out.
    pub fn new(table: PluginContextTable) -> (r: Self)
        ensures
            r.inner() == table,
    {
        CpexContextTableInner { table }
    }

    /// Takes a table back.
    pub fn into_table(self) -> (r: PluginContextTable)
        ensures
            r == self.inner(),
    {
        self.table
    }
}

/// A message that can cross the boundary. Hosts implement it; nothing is
/// promised of whether it succeeds.
pub trait WireMessage: Sized {
    /// Reads a message, or says why it cannot be read.
    fn decode(bytes: &[u8]) -> Result<Self, String>;

    /// Writes a message.
    fn encode(&self) -> Option<Vec<u8>>;
}

/// A payload that crossed the boundary.
pub enum WirePayload<M> {
    /// One whose type is not known here.
    Generic(GenericPayload),
    /// A message.
    Message(M),
}

impl<M: PluginPayload> PluginPayload for WirePayload<M> {
    /// None for a payload whose type is not known here, and the message's own for a
    /// message.
    fn audit_bytes(&self) -> (r: Option<Vec<u8>>)
        ensures
            match *self {
                WirePayload::Generic(_) => r is None,
                WirePayload::Message(m) => call_ensures(M::audit_bytes, (&m,), r),
            },
    {
        match self {
            WirePayload::Generic(p) => p.audit_bytes(),
            WirePayload::Message(m) => m.audit_bytes(),
        }
    }
}

/// The value that MessagePack bytes stand for, or why they stand for none.
pub uninterp spec fn msgpack_value(bytes: Seq<u8>) -> Result<Value, Seq<char>>;

/// Reads a value with [`rmp_serde::from_slice`]. Its result depends on the bytes
/// alone and is named [`msgpack_value`], with the error taken by its text.
#[verifier::external_body]
fn read_msgpack(bytes: &[u8]) -> (r: Result<Value, String>)
    ensures
        match r {
            Ok(v) => msgpack_value(bytes@) == Ok::<Value, Seq<char>>(v),
            Err(e) => msgpack_value(bytes@) == Err::<Value, Seq<char>>(e@),
        },
{
    rmp_serde::from_slice(bytes).map_err(|e| e.to_string())
}

/// The MessagePack bytes of a value, or `None` where it has none.
pub uninterp spec fn value_msgpack(v: Value) -> Option<Seq<u8>>;

/// Writes a value with [`rmp_serde::to_vec_named`]. Its result depends on the
/// value alone and is named [`value_msgpack`].
#[verifier::external_body]
fn write_msgpack(v: &Value) -> (r: Option<Vec<u8>>)
    ensures
        match r {
            Some(b) => value_msgpack(*v) == Some(b@),
            None => value_msgpack(*v) is None,
        },
{
    rmp_serde::to_vec_named(v).ok()
}

/// The MessagePack bytes of a list of texts, or `None` where it has none.
pub uninterp spec fn texts_msgpack(texts: Seq<Seq<char>>) -> Option<Seq<u8>>;

/// Writes a list of texts with [`rmp_serde::to_vec_named`]. Its result depends on
/// the texts alone and is named [`texts_msgpack`].
#[verifier::external_body]
fn write_texts(texts: &Vec<String>) -> (r: Option<Vec<u8>>)
    ensures
        match r {
            Some(b) => texts_msgpack(text::views(texts@)) == Some(b@),
            None => texts_msgpack(text::views(texts@)) is None,
        },
{
    rmp_serde::to_vec_named(texts).ok()
}

/// What a payload that could not be read is refused with.
pub open spec fn unreadable(what: Seq<char>, cause: Seq<char>) -> Seq<char> {
    what + " payload deserialize failed: "@ + cause
}

/// Whether a payload was read rightly. A generic one is the value that the bytes
/// stand for, and a message is what `message` says; where either cannot be read,
/// that is the error. Any other type is refused.
pub open spec fn deserialized<M>(
    payload_type: u8,
    bytes: Seq<u8>,
    message: Result<M, String>,
    r: Result<WirePayload<M>, String>,
) -> bool {
    if payload_type == PAYLOAD_GENERIC {
        match msgpack_value(bytes) {
            Ok(value) => r == Ok::<WirePayload<M>, String>(
                WirePayload::Generic(GenericPayload { value }),
            ),
            Err(cause) => r matches Err(e) && e@ == unreadable("generic"@, cause),
        }
    } else if payload_type == PAYLOAD_CMF_MESSAGE {
        match message {
            Ok(m) => r == Ok::<WirePayload<M>, String>(WirePayload::Message(m)),
            Err(cause) => r matches Err(e) && e@ == unreadable("CMF"@, cause@),
        }
    } else {
        r matches Err(e) && e@ == "unknown payload type: "@ + text::decimal_text(
            payload_type as nat,
        )
    }
}

/// Takes a generic payload that was read.
pub fn take_generic<M>(value: Result<Value, String>) -> (r: Result<WirePayload<M>, String>)
    ensures
        match value {
            Ok(value) => r == Ok::<WirePayload<M>, String>(
                WirePayload::Generic(GenericPayload { value }),
            ),
            Err(cause) => r matches Err(e) && e@ == unreadable("generic"@, cause@),
        },
{
    match value {
        Ok(value) => Ok(WirePayload::Generic(GenericPayload { value })),
        Err(cause) => Err(
            String::from_str("generic").concat(" payload deserialize failed: ").concat(
                cause.as_str(),
            ),
        ),
    }
}

/// Takes a message that was read.
pub fn take_message<M>(message: Result<M, String>) -> (r: Result<WirePayload<M>, String>)
    ensures
        match message {
            Ok(m) => r == Ok::<WirePayload<M>, String>(WirePayload::Message(m)),
            Err(cause) => r matches Err(e) && e@ == unreadable("CMF"@, cause@),
        },
{
    match message {
        Ok(m) => Ok(WirePayload::Message(m)),
        Err(cause) => Err(
            String::from_str("CMF").concat(" payload deserialize failed: ").concat(
                cause.as_str(),
            ),
        ),
    }
}

/// Reads a payload of the given type. A message is what its own decoding gives.
pub fn deserialize_payload<M: WireMessage>(payload_type: u8, bytes: &[u8]) -> (r: Result<
    WirePayload<M>,
    String,
>)
    ensures
        exists|message: Result<M, String>| #[trigger]
            deserialized(payload_type, bytes@, message, r) && (payload_type == PAYLOAD_CMF_MESSAGE
                ==> call_ensures(M::decode, (bytes,), message)),
{
    if payload_type == PAYLOAD_GENERIC {
        let r: Result<WirePayload<M>, String> = take_generic(read_msgpack(bytes));
        let ghost message: Result<M, String> = arbitrary();
        assert(deserialized(payload_type, bytes@, message, r));
        r
    } else if payload_type == PAYLOAD_CMF_MESSAGE {
        let message: Result<M, String> = M::decode(bytes);
        let ghost given = message;
        let r: Result<WirePayload<M>, String> = take_message(message);
        assert(deserialized(payload_type, bytes@, given, r));
        r
    } else {
        let r: Result<WirePayload<M>, String> = Err(
            String::from_str("unknown payload type: ").concat(
                text::decimal(payload_type as u64).as_str(),
            ),
        );
        let ghost message: Result<M, String> = arbitrary();
        assert(deserialized(payload_type, bytes@, message, r));
        r
    }
}

/// Whether a payload was written rightly: with the number of its type and its
/// bytes, those of a message being what its own encoding gives.
pub open spec fn serialized<M: WireMessage>(
    payload: WirePayload<M>,
    r: Option<(u8, Vec<u8>)>,
) -> bool {
    match (payload, r) {
        (WirePayload::Generic(p), Some(got)) => got.0 == PAYLOAD_GENERIC && value_msgpack(p.value)
            == Some(got.1@),
        (WirePayload::Generic(p), None) => value_msgpack(p.value) is None,
        (WirePayload::Message(m), Some(got)) => got.0 == PAYLOAD_CMF_MESSAGE && call_ensures(
            M::encode,
            (&m,),
            Some(got.1),
        ),
        (WirePayload::Message(m), None) => call_ensures(M::encode, (&m,), None),
    }
}

/// Writes a payload back, with the number of its type.
pub fn serialize_payload<M: WireMessage>(payload: &WirePayload<M>) -> (r: Option<(u8, Vec<u8>)>)
    ensures
        serialized(*payload, r),
{
    match payload {
        WirePayload::Generic(p) => match write_msgpack(&p.value) {
            Some(b) => Some((PAYLOAD_GENERIC, b)),
            None => None,
        },
        WirePayload::Message(m) => match m.encode() {
            Some(b) => Some((PAYLOAD_CMF_MESSAGE, b)),
            None => None,
        },
    }
}

/// The length of a buffer that a caller passed, or `None` for one that is not
/// there: a null pointer, or a length that is not positive.
pub fn buffer_len(is_null: bool, len: i32) -> (r: Option<usize>)
    ensures
        r == if is_null || len <= 0 {
            None
        } else {
            Some(len as usize)
        },
{
    if is_null || len <= 0 {
        None
    } else {
        Some(len as usize)
    }
}

/// An invocation that a caller asked for.
pub struct InvokeRequest<M> {
    /// The hook.
    pub hook_name: String,
    /// The payload.
    pub payload: WirePayload<M>,
    /// The extensions.
    pub extensions: Extensions,
}

/// Whether a request was read rightly: it is there exactly when its hook name,
/// its payload and its extensions are. Extensions that the caller left out are
/// empty.
pub open spec fn requested<M>(
    hook_name: Option<String>,
    payload: Option<Result<WirePayload<M>, String>>,
    extensions_len: i32,
    extensions: Option<Result<Extensions, String>>,
    r: Option<InvokeRequest<M>>,
) -> bool {
    match (hook_name, payload) {
        (Some(name), Some(Ok(p))) => if extensions_len <= 0 {
            r matches Some(q) && q.hook_name == name && q.payload == p && q.extensions@
                == extensions::no_extensions()
        } else {
            match extensions {
                Some(Ok(e)) => r == Some(
                    InvokeRequest { hook_name: name, payload: p, extensions: e },
                ),
                _ => r is None,
            }
        },
        _ => r is None,
    }
}

/// Puts a request together from its parts, each absent where its buffer was. Any
/// part that is absent or could not be read makes the invocation fail, but for
/// extensions of no length.
pub fn read_request<M>(
    hook_name: Option<String>,
    payload: Option<Result<WirePayload<M>, String>>,
    extensions_len: i32,
    extensions: Option<Result<Extensions, String>>,
) -> (r: Option<InvokeRequest<M>>)
    ensures
        requested(hook_name, payload, extensions_len, extensions, r),
{
    let name: String = match hook_name {
        Some(n) => n,
        None => {
            return None;
        },
    };
    let p: WirePayload<M> = match payload {
        Some(Ok(p)) => p,
        _ => {
            return None;
        },
    };
    let e: Extensions = if extensions_len > 0 {
        match extensions {
            Some(Ok(e)) => e,
            _ => {
                return None;
            },
        }
    } else {
        Extensions::default()
    };
    Some(InvokeRequest { hook_name: name, payload: p, extensions: e })
}

/// A pipeline result as it crosses the boundary.
pub struct FfiPipelineResult {
    pub continue_processing: bool,
    pub violation: Option<PluginViolation>,
    pub metadata: Option<Value>,
    pub payload_type: u8,
    pub modified_payload: Option<Vec<u8>>,
    pub modified_extensions: Option<Vec<u8>>,
}

/// A pipeline result for a caller, with its payload and extensions as they were
/// written. The payload is sent only where a plugin changed it. The type is that
/// of the payload that is sent, or else that of the payload the caller passed. The
/// context table is handed out beside it.
pub fn ffi_result<P>(
    result: PipelineResult<P>,
    payload_type: u8,
    payload: Option<(u8, Vec<u8>)>,
    extensions: Option<Vec<u8>>,
) -> (r: (FfiPipelineResult, CpexContextTableInner))
    ensures
        r.0 == (FfiPipelineResult {
            continue_processing: result.continue_processing,
            violation: result.violation,
            metadata: result.metadata,
            payload_type: match payload {
                Some(p) if result.payload_modified => p.0,
                _ => payload_type,
            },
            modified_payload: match payload {
                Some(p) if result.payload_modified => Some(p.1),
                _ => None,
            },
            modified_extensions: extensions,
        }),
        r.1.inner() == result.context_table,
{
    let (number, bytes): (u8, Option<Vec<u8>>) = match payload {
        Some(p) if result.payload_modified => (p.0, Some(p.1)),
        _ => (payload_type, None),
    };
    (
        FfiPipelineResult {
            continue_processing: result.continue_processing,
            violation: result.violation,
            metadata: result.metadata,
            payload_type: number,
            modified_payload: bytes,
            modified_extensions: extensions,
        },
        CpexContextTableInner::new(result.context_table),
    )
}

/// The renderings of errors.
pub open spec fn error_texts(errors: Seq<PluginError>) -> Seq<Seq<char>> {
    Seq::new(errors.len(), |i: int| error::error_text(errors[i]@))
}

/// Writes the errors of background tasks, each by its rendering.
pub fn encode_errors(errors: &Vec<PluginError>) -> (r: Option<Vec<u8>>)
    ensures
        match r {
            Some(b) => texts_msgpack(error_texts(errors@)) == Some(b@),
            None => texts_msgpack(error_texts(errors@)) is None,
        },
{
    let texts: Vec<String> = render_errors(errors);
    write_texts(&texts)
}

/// The renderings of errors, in order.
pub fn render_errors(errors: &Vec<PluginError>) -> (r: Vec<String>)
    ensures
        text::views(r@) == error_texts(errors@),
{
    let mut texts: Vec<String> = Vec::new();
    let mut i: usize = 0;
    while i < errors.len()
        invariant
            i <= errors@.len(),
            texts@.len() == i,
            forall|j: int| 0 <= j < i ==> (#[trigger] texts@[j])@ == error::error_text(errors@[j]@),
        decreases errors.len() - i,
    {
        texts.push(errors[i].text());
        i += 1;
    }
    assert(text::views(texts@) =~= error_texts(errors@));
    texts
}

/// A payload of type 0 is the value that its bytes stand for, and one of type 1 is the
/// message that was decoded; where there is none, the cause is told. No other type is
/// read.
pub proof fn payloads_are_read_by_their_type<M>(
    payload_type: u8,
    bytes: Seq<u8>,
    message: Result<M, String>,
    r: Result<WirePayload<M>, String>,
)
    requires
        deserialized(payload_type, bytes, message, r),
    ensures
        payload_type == 0 ==> match msgpack_value(bytes) {
            Ok(v) => r matches Ok(WirePayload::Generic(p)) && p.value == v,
            Err(cause) => r matches Err(e) && e@ == "generic"@ + " payload deserialize failed: "@
                + cause,
        },
        payload_type == 1 ==> match message {
            Ok(m) => r matches Ok(WirePayload::Message(got)) && got == m,
            Err(cause) => r matches Err(e) && e@ == "CMF"@ + " payload deserialize failed: "@
                + cause@,
        },
        payload_type > 1 ==> (r matches Err(e) && e@ == "unknown payload type: "@
            + text::decimal_text(payload_type as nat)),
{
}

/// A payload that was written is written under the type by which it is read, and there
/// is nothing written only where it has no bytes.
pub proof fn payloads_are_written_under_their_type<M: WireMessage>(
    payload: WirePayload<M>,
    r: Option<(u8, Vec<u8>)>,
)
    requires
        serialized(payload, r),
    ensures
        payload matches WirePayload::Generic(p) ==> match r {
            Some(got) => got.0 == 0 && value_msgpack(p.value) == Some(got.1@),
            None => value_msgpack(p.value) is None,
        },
        payload matches WirePayload::Message(m) ==> match r {
            Some(got) => got.0 == 1 && call_ensures(M::encode, (&m,), Some(got.1)),
            None => call_ensures(M::encode, (&m,), None),
        },
{
}

/// A request needs its hook and its payload, and its extensions where it has any. It is
/// made of what was read, and has no extensions where none were passed.
pub proof fn a_request_needs_its_parts<M>(
    hook_name: Option<String>,
    payload: Option<Result<WirePayload<M>, String>>,
    extensions_len: i32,
    extensions: Option<Result<Extensions, String>>,
    r: Option<InvokeRequest<M>>,
)
    requires
        requested(hook_name, payload, extensions_len, extensions, r),
    ensures
        r is Some == (hook_name is Some && (payload matches Some(Ok(_))) && (extensions_len <= 0 || (
        extensions matches Some(Ok(_))))),
        r matches Some(q) ==> hook_name == Some(q.hook_name) && payload == Some(
            Ok::<WirePayload<M>, String>(q.payload),
        ),
        r matches Some(q) ==> extensions_len > 0 ==> extensions == Some(
            Ok::<Extensions, String>(q.extensions),
        ),
        r matches Some(q) ==> extensions_len <= 0 ==> q.extensions@ == extensions::no_extensions(),
{
}

/// The renderings are those of the errors, one for each, in order.
pub proof fn errors_are_rendered_in_order(errors: Seq<PluginError>, i: int)
    requires
        0 <= i < errors.len(),
    ensures
        error_texts(errors).len() == errors.len(),
        error_texts(errors)[i] == error::error_text(errors[i]@),
{
}

} // verus!
