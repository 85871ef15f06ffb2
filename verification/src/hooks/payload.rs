//! Payloads and their content hashes.

use crate::{json, text};
use serde_json::Value;
use vstd::prelude::*;

verus! {

/// A hook payload.
pub trait PluginPayload {
    /// Canonical bytes of this payload for content-addressed audit provenance,
    /// or `None` for one that cannot or should not be serialized, which is the
    /// default. Only a digest of the bytes is ever kept. A type that has bytes
    /// must derive them from its content alone, as [`canonical_bytes`] does, or
    /// its hashes cannot be compared.
    fn audit_bytes(&self) -> (r: Option<Vec<u8>>)
        default_ensures
            r is None,
    {
        None
    }
}

/// The SHA-256 digest of a byte sequence.
pub uninterp spec fn sha256(bytes: Seq<u8>) -> Seq<u8>;

/// Computes [`sha2::Sha256`]'s `digest`. It depends on the bytes alone, is named
/// [`sha256`], and is 32 bytes long.
#[verifier::external_body]
fn sha256_digest(bytes: &[u8]) -> (r: Vec<u8>)
    ensures
        r@ == sha256(bytes@),
        r@.len() == 32,
{
    <sha2::Sha256 as sha2::Digest>::digest(bytes).to_vec()
}

/// The content hash that goes with a digest.
pub open spec fn digest_ref(digest: Seq<u8>) -> Seq<char> {
    "sha256:"@ + text::hex_text(digest)
}

/// Writes a digest as a content hash: `sha256:` and two lower-case hexadecimal
/// digits per byte.
pub fn format_digest(digest: &[u8]) -> (r: String)
    ensures
        r@ == digest_ref(digest@),
{
    let mut s: String = String::from_str("sha256:");
    text::append_hex(&mut s, digest);
    s
}

/// The content hash of canonical audit bytes. Only the digest is kept.
pub fn content_hash(bytes: &[u8]) -> (r: String)
    ensures
        r@ == digest_ref(sha256(bytes@)),
        r@.len() == 71,
{
    let digest: Vec<u8> = sha256_digest(bytes);
    proof {
        reveal_strlit("sha256:");
    }
    format_digest(digest.as_slice())
}

/// The bytes that `serde_json` writes for a value.
pub uninterp spec fn json_bytes(v: Value) -> Seq<u8>;

/// A character as it stands in a JSON string: quotes, backslashes and control
/// characters are escaped.
pub open spec fn json_char(c: char) -> Seq<char> {
    if c == '"' || c == '\\' {
        seq!['\\', c]
    } else if c == '\u{8}' {
        seq!['\\', 'b']
    } else if c == '\t' {
        seq!['\\', 't']
    } else if c == '\n' {
        seq!['\\', 'n']
    } else if c == '\u{c}' {
        seq!['\\', 'f']
    } else if c == '\r' {
        seq!['\\', 'r']
    } else if (c as int) < 0x20 {
        seq![
            '\\',
            'u',
            '0',
            '0',
            text::hex_digit((c as int) / 16),
            text::hex_digit((c as int) % 16),
        ]
    } else {
        seq![c]
    }
}

/// Characters as they stand in a JSON string.
pub open spec fn json_chars(s: Seq<char>) -> Seq<char>
    decreases s.len(),
{
    if s.len() == 0 {
        Seq::empty()
    } else {
        json_chars(s.drop_last()) + json_char(s.last())
    }
}

/// A string as it is written in JSON, with its quotes.
pub open spec fn json_string(s: Seq<char>) -> Seq<u8> {
    vstd::utf8::encode_utf8(seq!['"'] + json_chars(s) + seq!['"'])
}

/// A member as it is written: its name, a colon, and its value.
pub open spec fn member_bytes(m: Map<Seq<char>, Value>, name: Seq<char>) -> Seq<u8> {
    json_string(name) + seq![58u8] + json_bytes(m[name])
}

/// Members as they are written, with a comma between two.
pub open spec fn members_bytes(m: Map<Seq<char>, Value>, names: Seq<Seq<char>>) -> Seq<u8>
    decreases names.len(),
{
    if names.len() == 0 {
        Seq::empty()
    } else if names.len() == 1 {
        member_bytes(m, names[0])
    } else {
        members_bytes(m, names.drop_last()) + seq![44u8] + member_bytes(m, names.last())
    }
}

/// An object as it is written, with its members in this order.
pub open spec fn object_bytes(m: Map<Seq<char>, Value>, names: Seq<Seq<char>>) -> Seq<u8> {
    seq![123u8] + members_bytes(m, names) + seq![125u8]
}

/// Elements as they are written, with a comma between two.
pub open spec fn elements_bytes(elements: Seq<Value>) -> Seq<u8>
    decreases elements.len(),
{
    if elements.len() == 0 {
        Seq::empty()
    } else if elements.len() == 1 {
        json_bytes(elements[0])
    } else {
        elements_bytes(elements.drop_last()) + seq![44u8] + json_bytes(elements.last())
    }
}

/// An array as it is written.
pub open spec fn array_bytes(elements: Seq<Value>) -> Seq<u8> {
    seq![91u8] + elements_bytes(elements) + seq![93u8]
}

/// Whether bytes are those of a value in canonical form, as far as values are
/// looked into to this depth: an object lists its members in ascending order of
/// their names, each once, and so does every object inside of it or of an array.
pub open spec fn canonical(v: Value, bytes: Seq<u8>, depth: nat) -> bool
    decreases depth,
{
    &&& match json::members(v) {
        Some(m) => {
            &&& exists|names: Seq<Seq<char>>| #[trigger]
                text::sorted_set(names, m.dom()) && bytes == object_bytes(m, names)
            &&& depth > 0 ==> forall|name: Seq<char>| #[trigger]
                m.contains_key(name) ==> canonical(
                    m[name],
                    json_bytes(m[name]),
                    (depth - 1) as nat,
                )
        },
        None => true,
    }
    &&& match json::elements(v) {
        Some(s) => {
            &&& bytes == array_bytes(s)
            &&& depth > 0 ==> forall|i: int|
                0 <= i < s.len() ==> canonical(
                    #[trigger] s[i],
                    json_bytes(s[i]),
                    (depth - 1) as nat,
                )
        },
        None => true,
    }
}

/// Serializes with [`serde_json::to_vec`], which fails for no value. What it
/// writes depends on the value alone and is named [`json_bytes`]. Nothing is
/// padded with white space. An object's members come in the order of the map
/// that holds them, which is sorted by name, and each value inside of an object
/// or an array is written as it is on its own. How any other value is written is
/// left unsaid.
#[verifier::external_body]
fn to_json_bytes(v: &Value) -> (r: Option<Vec<u8>>)
    ensures
        r is Some,
        r.unwrap()@ == json_bytes(*v),
        json::elements(*v) is Some ==> r.unwrap()@ == array_bytes(json::elements(*v).unwrap()),
        forall|depth: nat| #[trigger] canonical(*v, r.unwrap()@, depth),
{
    serde_json::to_vec(v).ok()
}

/// Canonical bytes of a payload that has been turned into a JSON value. There
/// always are some. Equal values have equal bytes, and the members of every object
/// are written in ascending order of their names, whatever order they came in.
pub fn canonical_bytes(value: &Value) -> (r: Option<Vec<u8>>)
    ensures
        r is Some,
        r.unwrap()@ == json_bytes(*value),
        forall|depth: nat| #[trigger] canonical(*value, r.unwrap()@, depth),
{
    to_json_bytes(value)
}

/// Objects with the same members have the same canonical bytes, and so the same
/// content hash: neither depends on how the objects were put together.
pub proof fn canonical_bytes_depend_on_the_members(
    v: Value,
    bytes: Seq<u8>,
    other: Value,
    other_bytes: Seq<u8>,
)
    requires
        json::members(v) is Some,
        json::members(v) == json::members(other),
        canonical(v, bytes, 0),
        canonical(other, other_bytes, 0),
    ensures
        bytes == other_bytes,
        provenance(Some(bytes)) == provenance(Some(other_bytes)),
{
    let m = json::members(v).unwrap();
    let a = choose|names: Seq<Seq<char>>| #[trigger]
        text::sorted_set(names, m.dom()) && bytes == object_bytes(m, names);
    let b = choose|names: Seq<Seq<char>>| #[trigger]
        text::sorted_set(names, m.dom()) && other_bytes == object_bytes(m, names);
    text::sorted_names_are_determined(a, b, m.dom());
}

/// Arrays with the same elements have the same canonical bytes.
pub proof fn canonical_bytes_depend_on_the_elements(
    v: Value,
    bytes: Seq<u8>,
    other: Value,
    other_bytes: Seq<u8>,
)
    requires
        json::elements(v) is Some,
        json::elements(v) == json::elements(other),
        canonical(v, bytes, 0),
        canonical(other, other_bytes, 0),
    ensures
        bytes == other_bytes,
{
}

/// The hash of a payload's content, for a payload with these audit bytes.
pub open spec fn provenance(bytes: Option<Seq<u8>>) -> Option<Seq<char>> {
    match bytes {
        Some(b) => Some(digest_ref(sha256(b))),
        None => None,
    }
}

/// The contents of optional bytes.
pub open spec fn opt_bytes(bytes: Option<Vec<u8>>) -> Option<Seq<u8>> {
    match bytes {
        Some(b) => Some(b@),
        None => None,
    }
}

/// The hash of a payload's content, for a payload with these audit bytes.
pub fn provenance_of(bytes: Option<Vec<u8>>) -> (r: Option<String>)
    ensures
        text::opt_view(r) == provenance(opt_bytes(bytes)),
{
    match bytes {
        Some(b) => Some(content_hash(b.as_slice())),
        None => None,
    }
}

proof fn lemma_hex_digits_distinct(a: int, b: int)
    requires
        0 <= a < 16,
        0 <= b < 16,
        text::hex_digit(a) == text::hex_digit(b),
    ensures
        a == b,
{
}

/// Two content hashes are equal exactly when the digests are: writing a digest
/// out loses nothing.
pub proof fn content_hash_determines_digest(a: Seq<u8>, b: Seq<u8>)
    requires
        digest_ref(a) == digest_ref(b),
    ensures
        a == b,
{
    let x = text::hex_text(a);
    let y = text::hex_text(b);
    let p = "sha256:"@;
    assert(digest_ref(a).len() == p.len() + x.len());
    assert(digest_ref(b).len() == p.len() + y.len());
    assert forall|i: int| 0 <= i < x.len() implies x[i] == y[i] by {
        assert(digest_ref(a)[p.len() + i] == x[i]);
        assert(digest_ref(b)[p.len() + i] == y[i]);
    }
    assert forall|i: int| 0 <= i < a.len() implies a[i] == b[i] by {
        assert(x[2 * i] == y[2 * i]);
        assert(x[2 * i + 1] == y[2 * i + 1]);
        lemma_hex_digits_distinct((a[i] / 16) as int, (b[i] / 16) as int);
        lemma_hex_digits_distinct((a[i] % 16) as int, (b[i] % 16) as int);
    }
    assert(a =~= b);
}

/// A content hash is `sha256:` and the digest in hexadecimal, and a payload has one
/// exactly where it has audit bytes.
pub proof fn a_content_hash_is_the_digest(bytes: Option<Seq<u8>>, i: int)
    requires
        bytes is Some ==> 0 <= i < sha256(bytes.unwrap()).len(),
    ensures
        provenance(bytes) is Some == bytes is Some,
        bytes matches Some(b) ==> {
            let hash = provenance(bytes).unwrap();
            let byte = sha256(b)[i];
            &&& hash.len() == 7 + 2 * sha256(b).len()
            &&& hash.take(7) == "sha256:"@
            &&& hash[7 + 2 * i] == "0123456789abcdef"@[(byte / 16) as int]
            &&& hash[8 + 2 * i] == "0123456789abcdef"@[(byte % 16) as int]
        },
{
    if let Some(b) = bytes {
        reveal_strlit("sha256:");
        text::bytes_are_written_in_hexadecimal(sha256(b), i);
        let hash = provenance(bytes).unwrap();
        assert(hash.take(7) =~= "sha256:"@);
    }
}

/// Audit bytes are those that the payload gave, down to none at all: a payload whose
/// bytes are empty still has a hash.
pub proof fn audit_bytes_are_hashed_as_given(bytes: Option<Vec<u8>>)
    ensures
        opt_bytes(bytes) is Some == bytes is Some,
        bytes matches Some(b) ==> opt_bytes(bytes) == Some(b@),
        provenance(opt_bytes(bytes)) is Some == bytes is Some,
{
}

} // verus!
