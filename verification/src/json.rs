//! JSON values, as `serde_json` represents them.
//!
//! A [`Value`] is carried through opaquely. What the crate reads of one is the
//! map of its members, when it is an object; what is said of how one is written
//! speaks of the elements of an array too.

use crate::string_map::Duplicate;
use serde_json::Value;
use vstd::prelude::*;

verus! {

/// A JSON value.
#[verifier::external_type_specification]
#[verifier::external_body]
pub struct ExValue(serde_json::Value);

/// The members of a JSON value that is an object; `None` for any other value.
pub uninterp spec fn members(v: Value) -> Option<Map<Seq<char>, Value>>;

/// The elements of a JSON value that is an array; `None` for any other value.
pub uninterp spec fn elements(v: Value) -> Option<Seq<Value>>;

/// Whether a JSON value is `null`, as [`Value::is_null`] says.
pub uninterp spec fn is_null(v: Value) -> bool;

/// [`Value`]'s `Clone` copies the whole value.
pub assume_specification[ <Value as Clone>::clone ](v: &Value) -> (r: Value)
    ensures
        r == *v,
;

impl Duplicate for Value {
    fn duplicate(&self) -> (r: Self) {
        self.clone()
    }
}

/// The JSON `null`, written with the variant [`Value::Null`], of which
/// [`Value::is_null`] holds. It is the only such value.
#[verifier::external_body]
pub(crate) fn null() -> (r: Value)
    ensures
        is_null(r),
        forall|v: Value| #[trigger] is_null(v) ==> v == r,
{
    Value::Null
}

/// Looks up a member with [`Value::get`]: the member of that name when the
/// value is an object that has one, and nothing otherwise.
#[verifier::external_body]
pub(crate) fn get_member<'a>(v: &'a Value, key: &str) -> (r: Option<&'a Value>)
    ensures
        r == match members(*v) {
            Some(m) => if m.contains_key(key@) {
                Some(&m[key@])
            } else {
                None
            },
            None => None,
        },
{
    v.get(key)
}

/// The names of the members of an object, from [`Value::as_object`] and
/// [`serde_json::Map::keys`]: each name once; `None` when the value is no
/// object.
#[verifier::external_body]
pub(crate) fn member_names(v: &Value) -> (r: Option<Vec<String>>)
    ensures
        match r {
            Some(names) => members(*v) is Some && crate::text::views(names@).to_set()
                == members(*v).unwrap().dom(),
            None => members(*v) is None,
        },
{
    v.as_object().map(|m| m.keys().cloned().collect())
}

/// Stores a member with [`Value::as_object_mut`] and [`serde_json::Map::insert`],
/// replacing one of the same name. A value that is no object is left as it is.
#[verifier::external_body]
pub(crate) fn insert_member(v: &mut Value, key: String, value: Value)
    ensures
        members(*old(v)) matches Some(m) ==> members(*final(v)) == Some(m.insert(key@, value)),
        members(*old(v)) is None ==> *final(v) == *old(v),
{
    if let Some(m) = v.as_object_mut() {
        m.insert(key, value);
    }
}

} // verus!
