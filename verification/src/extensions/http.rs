//! HTTP headers.

use crate::string_map::{self, StringMap};
use crate::text;
use vstd::prelude::*;

verus! {

/// HTTP-related extensions: the headers of a request.
///
/// `read_headers` is needed to see them and `write_headers` to change them.
/// Names are looked up without regard to case and kept as they were set, so two
/// names that differ only in case can both be present.
#[derive(Debug)]
pub struct HttpExtension {
    /// Headers by name.
    pub headers: StringMap<String>,
}

impl View for HttpExtension {
    type V = Map<Seq<char>, Seq<char>>;

    open spec fn view(&self) -> Map<Seq<char>, Seq<char>> {
        string_map::text_map(self.headers@)
    }
}

/// Whether two header names are the same without regard to case.
pub open spec fn same_name(a: Seq<char>, b: Seq<char>) -> bool {
    text::lowercase(a) == text::lowercase(b)
}

/// Whether some header has this name, without regard to case.
pub open spec fn has_name(headers: Map<Seq<char>, Seq<char>>, name: Seq<char>) -> bool {
    exists|k: Seq<char>| #[trigger] headers.contains_key(k) && same_name(k, name)
}

/// Whether no two headers have names that differ only in case.
pub open spec fn distinct_names(headers: Map<Seq<char>, Seq<char>>) -> bool {
    forall|a: Seq<char>, b: Seq<char>| #[trigger]
        headers.contains_key(a) && #[trigger] headers.contains_key(b) && same_name(a, b) ==> a == b
}

impl Default for HttpExtension {
    fn default() -> (r: Self)
        ensures
            r@ == Map::<Seq<char>, Seq<char>>::empty(),
    {
        let r: HttpExtension = HttpExtension { headers: StringMap::new() };
        assert(r@ =~= Map::<Seq<char>, Seq<char>>::empty());
        r
    }
}

impl Clone for HttpExtension {
    fn clone(&self) -> (r: Self)
        ensures
            r@ == self@,
    {
        HttpExtension { headers: self.headers.duplicate_map() }
    }
}

impl HttpExtension {
    /// Sets a header, replacing one of exactly this name.
    pub fn set_header(&mut self, name: &str, value: &str)
        ensures
            final(self)@ == old(self)@.insert(name@, value@),
    {
        self.headers.insert(name.to_owned(), value.to_owned());
        assert(self@ =~= old(self)@.insert(name@, value@));
    }

    /// The position of a header with this name, without regard to case.
    fn position(&self, name: &str) -> (r: Option<usize>)
        ensures
            match r {
                Some(i) => i < self.headers.entries().len() && same_name(
                    self.headers.entries()[i as int].0,
                    name@,
                ),
                None => !has_name(self@, name@),
            },
    {
        let lower: String = text::to_lowercase(name);
        let n: usize = self.headers.len();
        let ghost entries = self.headers.entries();
        proof {
            string_map::lemma_map_of(entries);
        }
        let mut i: usize = 0;
        while i < n
            invariant
                i <= n,
                n == entries.len(),
                entries == self.headers.entries(),
                lower@ == text::lowercase(name@),
                forall|j: int| 0 <= j < i ==> !same_name((#[trigger] entries[j]).0, name@),
            decreases n - i,
        {
            if text::same(text::to_lowercase(self.headers.key_at(i)).as_str(), lower.as_str()) {
                return Some(i);
            }
            i += 1;
        }
        assert forall|k: Seq<char>| #[trigger] self@.contains_key(k) implies !same_name(k, name@) by {
            assert(self.headers@.contains_key(k));
            let j = string_map::key_index(entries, k);
            assert(entries[j].0 == k);
        }
        None
    }

    /// The value of a header, looked up without regard to case. Where several
    /// names differ only in case, it is the value of one of them.
    pub fn get_header(&self, name: &str) -> (r: Option<&str>)
        ensures
            match r {
                Some(v) => exists|k: Seq<char>| #[trigger]
                    self@.contains_key(k) && same_name(k, name@) && self@[k] == v@,
                None => !has_name(self@, name@),
            },
    {
        match self.position(name) {
            Some(i) => {
                let key: &str = self.headers.key_at(i);
                assert(self@.contains_key(key@));
                Some(self.headers.value_at(i).as_str())
            },
            None => None,
        }
    }

    /// Whether a header exists, looked up without regard to case.
    pub fn has_header(&self, name: &str) -> (r: bool)
        ensures
            r == has_name(self@, name@),
    {
        self.get_header(name).is_some()
    }

    /// Adds a header unless one of this name exists, without regard to case.
    /// Returns whether it was added.
    pub fn add_header(&mut self, name: &str, value: &str) -> (r: bool)
        ensures
            r == !has_name(old(self)@, name@),
            final(self)@ == if r {
                old(self)@.insert(name@, value@)
            } else {
                old(self)@
            },
    {
        if self.has_header(name) {
            return false;
        }
        self.set_header(name, value);
        true
    }

    /// Removes a header, looked up without regard to case, and returns its
    /// value. Where several names differ only in case, one of them goes.
    pub fn remove_header(&mut self, name: &str) -> (r: Option<String>)
        ensures
            match r {
                Some(v) => exists|k: Seq<char>| #[trigger]
                    old(self)@.contains_key(k) && same_name(k, name@) && old(self)@[k] == v@
                        && final(self)@ == old(self)@.remove(k),
                None => !has_name(old(self)@, name@) && final(self)@ == old(self)@,
            },
    {
        match self.position(name) {
            Some(i) => {
                let key: String = self.headers.key_at(i).to_owned();
                assert(self@.contains_key(key@));
                let r: Option<String> = self.headers.remove(key.as_str());
                assert(self@ =~= old(self)@.remove(key@));
                r
            },
            None => None,
        }
    }
}

/// Where no two names differ only in case, a header that was set is read back
/// under any spelling of its name, whatever name was used to set it.
pub proof fn set_header_is_read_back(
    headers: Map<Seq<char>, Seq<char>>,
    name: Seq<char>,
    value: Seq<char>,
    read: Seq<char>,
)
    requires
        distinct_names(headers.insert(name, value)),
        same_name(read, name),
    ensures
        has_name(headers.insert(name, value), read),
        forall|k: Seq<char>| #[trigger]
            headers.insert(name, value).contains_key(k) && same_name(k, read)
                ==> headers.insert(name, value)[k] == value,
{
    assert(headers.insert(name, value).contains_key(name));
}

/// Adding a header never makes two names differ only in case.
pub proof fn add_header_keeps_names_distinct(
    headers: Map<Seq<char>, Seq<char>>,
    name: Seq<char>,
    value: Seq<char>,
)
    requires
        distinct_names(headers),
        !has_name(headers, name),
    ensures
        distinct_names(headers.insert(name, value)),
{
    let after = headers.insert(name, value);
    assert forall|a: Seq<char>, b: Seq<char>| #[trigger]
        after.contains_key(a) && #[trigger] after.contains_key(b) && same_name(a, b) implies a
        == b by {
        if a != name {
            assert(headers.contains_key(a));
        }
        if b != name {
            assert(headers.contains_key(b));
        }
    }
}

/// Where no two names differ only in case, removing a header leaves none of its
/// name and every other header as it was.
pub proof fn removed_header_is_gone(
    headers: Map<Seq<char>, Seq<char>>,
    name: Seq<char>,
    removed: Seq<char>,
)
    requires
        distinct_names(headers),
        headers.contains_key(removed),
        same_name(removed, name),
    ensures
        !has_name(headers.remove(removed), name),
        distinct_names(headers.remove(removed)),
        forall|k: Seq<char>| #[trigger]
            headers.contains_key(k) && !same_name(k, name) ==> headers.remove(removed).contains_key(k)
                && headers.remove(removed)[k] == headers[k],
{
    let after = headers.remove(removed);
    assert forall|k: Seq<char>| #[trigger] after.contains_key(k) implies !same_name(k, name) by {
        assert(headers.contains_key(k));
    }
    assert forall|a: Seq<char>, b: Seq<char>| #[trigger]
        after.contains_key(a) && #[trigger] after.contains_key(b) && same_name(a, b) implies a
        == b by {
        assert(headers.contains_key(a) && headers.contains_key(b));
    }
}

/// Two names are one header exactly where they are the same in lower case, and a header
/// is there exactly where some name that was set is one with it.
pub proof fn names_are_compared_in_lower_case(
    headers: Map<Seq<char>, Seq<char>>,
    a: Seq<char>,
    b: Seq<char>,
)
    ensures
        same_name(a, b) == (text::lowercase(a) == text::lowercase(b)),
        headers.contains_key(a) && text::lowercase(a) == text::lowercase(b) ==> has_name(headers, b),
        (forall|k: Seq<char>| #[trigger]
            headers.contains_key(k) ==> text::lowercase(k) != text::lowercase(b)) ==> !has_name(
            headers,
            b,
        ),
        distinct_names(headers) && headers.contains_key(a) && headers.contains_key(b)
            && text::lowercase(a) == text::lowercase(b) ==> a == b,
{
}

} // verus!
