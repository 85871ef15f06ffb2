//! Host-provided operational metadata.

use crate::string_map::{self, duplicate_opt, StringMap, StringSet};
use crate::text;
use vstd::prelude::*;

verus! {

/// Host-provided operational metadata: the entity a hook is invoked for, tags
/// that drive policy group inheritance, a host-defined scope, and arbitrary
/// properties. Set by the host before the hook is invoked and not changed after.
#[derive(Debug)]
pub struct MetaExtension {
    /// Operational tags.
    pub tags: StringSet,
    /// Host-defined grouping, such as a virtual server or a namespace.
    pub scope: Option<String>,
    /// Arbitrary key-value metadata.
    pub properties: StringMap<String>,
    /// The type of the entity, such as a tool or a prompt.
    pub entity_type: Option<String>,
    /// The name of the entity.
    pub entity_name: Option<String>,
}

/// The contents of a [`MetaExtension`].
#[verifier::ext_equal]
pub struct MetaView {
    pub tags: Set<Seq<char>>,
    pub scope: Option<Seq<char>>,
    pub properties: Map<Seq<char>, Seq<char>>,
    pub entity_type: Option<Seq<char>>,
    pub entity_name: Option<Seq<char>>,
}

impl View for MetaExtension {
    type V = MetaView;

    open spec fn view(&self) -> MetaView {
        MetaView {
            tags: self.tags@,
            scope: text::opt_view(self.scope),
            properties: string_map::text_map(self.properties@),
            entity_type: text::opt_view(self.entity_type),
            entity_name: text::opt_view(self.entity_name),
        }
    }
}

impl Default for MetaExtension {
    fn default() -> (r: Self)
        ensures
            r@ == (MetaView {
                tags: Set::empty(),
                scope: None,
                properties: Map::empty(),
                entity_type: None,
                entity_name: None,
            }),
    {
        let r: MetaExtension = MetaExtension {
            tags: StringSet::new(),
            scope: None,
            properties: StringMap::new(),
            entity_type: None,
            entity_name: None,
        };
        assert(r@.properties =~= Map::<Seq<char>, Seq<char>>::empty());
        r
    }
}

impl Clone for MetaExtension {
    fn clone(&self) -> (r: Self)
        ensures
            r@ == self@,
    {
        MetaExtension {
            tags: self.tags.duplicate_set(),
            scope: duplicate_opt(&self.scope),
            properties: self.properties.duplicate_map(),
            entity_type: duplicate_opt(&self.entity_type),
            entity_name: duplicate_opt(&self.entity_name),
        }
    }
}

impl MetaExtension {
    /// Whether two metadata extensions hold the same.
    pub fn same_as(&self, other: &MetaExtension) -> (r: bool)
        ensures
            r == (self@ == other@),
    {
        self.tags.same_set(&other.tags) && text::same_opt(&self.scope, &other.scope)
            && string_map::same_text_map(&self.properties, &other.properties) && text::same_opt(
            &self.entity_type,
            &other.entity_type,
        ) && text::same_opt(&self.entity_name, &other.entity_name)
    }
}

} // verus!
