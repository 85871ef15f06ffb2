//! Security labels, the subject of a request, and the delegation chain.

use crate::string_map::{duplicate_opt, duplicate_vec, StringSet};
use crate::text;
use vstd::prelude::*;

verus! {

/// Who a request is made for.
#[derive(Debug)]
pub struct SubjectExtension {
    /// Identifier of the subject.
    pub id: Option<String>,
}

/// The contents of a [`SubjectExtension`].
pub struct SubjectView {
    pub id: Option<Seq<char>>,
}

impl View for SubjectExtension {
    type V = SubjectView;

    open spec fn view(&self) -> SubjectView {
        SubjectView { id: text::opt_view(self.id) }
    }
}

impl Default for SubjectExtension {
    fn default() -> (r: Self)
        ensures
            r@ == (SubjectView { id: None }),
    {
        SubjectExtension { id: None }
    }
}

/// The taint labels and the subject of a request. Labels only ever grow:
/// `read_labels` is needed to see them and `append_labels` to add one.
/// `read_subject` is needed to see the subject, which the host sets.
#[derive(Debug)]
pub struct SecurityExtension {
    /// Labels.
    pub labels: StringSet,
    /// The subject.
    pub subject: Option<SubjectExtension>,
}

/// The contents of a [`SecurityExtension`].
#[verifier::ext_equal]
pub struct SecurityView {
    pub labels: Set<Seq<char>>,
    pub subject: Option<SubjectView>,
}

impl View for SecurityExtension {
    type V = SecurityView;

    open spec fn view(&self) -> SecurityView {
        SecurityView {
            labels: self.labels@,
            subject: match self.subject {
                Some(s) => Some(s@),
                None => None,
            },
        }
    }
}

impl Default for SecurityExtension {
    fn default() -> (r: Self)
        ensures
            r@ == (SecurityView { labels: Set::empty(), subject: None }),
    {
        SecurityExtension { labels: StringSet::new(), subject: None }
    }
}

impl Clone for SecurityExtension {
    fn clone(&self) -> (r: Self)
        ensures
            r@ == self@,
    {
        self.visible(true, true)
    }
}

impl SecurityExtension {
    /// Adds a label.
    pub fn add_label(&mut self, label: &str)
        ensures
            final(self)@ == (SecurityView {
                labels: old(self)@.labels.insert(label@),
                ..old(self)@
            }),
    {
        self.labels.insert(label.to_owned());
    }

    /// Whether a label is present.
    pub fn has_label(&self, label: &str) -> (r: bool)
        ensures
            r == self@.labels.contains(label@),
    {
        self.labels.contains(label)
    }

    /// A copy with the labels and the subject, or without either.
    pub fn visible(&self, labels: bool, subject: bool) -> (r: SecurityExtension)
        ensures
            r@ == (SecurityView {
                labels: if labels {
                    self@.labels
                } else {
                    Set::empty()
                },
                subject: if subject {
                    self@.subject
                } else {
                    None
                },
            }),
    {
        let kept: StringSet = if labels {
            self.labels.duplicate_set()
        } else {
            StringSet::new()
        };
        let who: Option<SubjectExtension> = match &self.subject {
            Some(s) if subject => Some(SubjectExtension { id: duplicate_opt(&s.id) }),
            _ => None,
        };
        SecurityExtension { labels: kept, subject: who }
    }

    /// A copy with the labels of both, and the subject of this one.
    pub fn joined(&self, other: &SecurityExtension) -> (r: SecurityExtension)
        ensures
            r@ == (SecurityView { labels: self@.labels.union(other@.labels), ..self@ }),
    {
        let mut copy: SecurityExtension = self.clone();
        copy.labels.insert_all(&other.labels);
        copy
    }
}

/// The chain of principals a request was delegated through. `read_delegation`
/// is needed to see it and `append_delegation` to extend it.
#[derive(Debug)]
pub struct DelegationExtension {
    /// Principals, the one that made the request first.
    pub chain: Vec<String>,
}

impl View for DelegationExtension {
    type V = Seq<Seq<char>>;

    open spec fn view(&self) -> Seq<Seq<char>> {
        text::views(self.chain@)
    }
}

impl Clone for DelegationExtension {
    fn clone(&self) -> (r: Self)
        ensures
            r@ == self@,
    {
        DelegationExtension { chain: duplicate_vec(&self.chain) }
    }
}

impl DelegationExtension {
    /// Whether this chain begins with all of `other`.
    pub fn extends(&self, other: &DelegationExtension) -> (r: bool)
        ensures
            r == other@.is_prefix_of(self@),
    {
        if other.chain.len() > self.chain.len() {
            return false;
        }
        let mut i: usize = 0;
        while i < other.chain.len()
            invariant
                i <= other.chain@.len() <= self.chain@.len(),
                forall|j: int| 0 <= j < i ==> (#[trigger] other@[j]) == self@[j],
            decreases other.chain.len() - i,
        {
            assert(other@[i as int] == other.chain@[i as int]@);
            assert(self@[i as int] == self.chain@[i as int]@);
            if !text::same(other.chain[i].as_str(), self.chain[i].as_str()) {
                assert(self@.subrange(0, other@.len() as int)[i as int] == self@[i as int]);
                return false;
            }
            i += 1;
        }
        assert(other@ =~= self@.subrange(0, other@.len() as int));
        true
    }
}

} // verus!
