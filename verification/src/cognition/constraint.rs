//! Semantic constraints: what a reasoning operation may assert about a
//! subject, and the key under which constraints are compared.
use vstd::prelude::*;
use crate::text::text;

verus! {

#[derive(Debug, Clone, Copy, PartialEq, Eq, Structural)]
pub enum ConstraintKind {
    Assertion,
    Exclusion,
    Link,
}

#[derive(Debug, Clone, PartialEq, Eq)]
pub struct SemanticConstraint {
    pub subject: String,
    pub predicate: String,
    pub object: Option<String>,
    pub affirmed: bool,
    pub kind: ConstraintKind,
    pub weight: u8,
}

pub open spec fn opt_view(o: Option<String>) -> Option<Seq<char>> {
    match o {
        Some(s) => Some(s@),
        None => None,
    }
}

/// The comparison key of a constraint: subject, predicate and object.
pub open spec fn constraint_key(c: SemanticConstraint) -> (Seq<char>, Seq<char>, Option<Seq<char>>) {
    (c.subject@, c.predicate@, opt_view(c.object))
}

impl SemanticConstraint {
    /// An object-less assertion of `predicate` about `subject`.
    pub fn assertion(subject: &str, predicate: &str, affirmed: bool, weight: u8) -> (c: Self)
        ensures
            c.subject@ == subject@,
            c.predicate@ == predicate@,
            c.object is None,
            c.affirmed == affirmed,
            c.kind == ConstraintKind::Assertion,
            c.weight == weight,
    {
        SemanticConstraint {
            subject: text(subject),
            predicate: text(predicate),
            object: None,
            affirmed,
            kind: ConstraintKind::Assertion,
            weight,
        }
    }

    /// The comparison key, as owned texts.
    pub fn key(&self) -> (k: (String, String, Option<String>))
        ensures
            (k.0@, k.1@, opt_view(k.2)) == constraint_key(*self),
    {
        let object = match &self.object {
            Some(o) => Some(o.clone()),
            None => None,
        };
        (self.subject.clone(), self.predicate.clone(), object)
    }

    /// A field-for-field copy.
    pub fn duplicate(&self) -> (c: Self)
        ensures
            c == *self,
    {
        let object = match &self.object {
            Some(o) => Some(o.clone()),
            None => None,
        };
        SemanticConstraint {
            subject: self.subject.clone(),
            predicate: self.predicate.clone(),
            object,
            affirmed: self.affirmed,
            kind: self.kind,
            weight: self.weight,
        }
    }
}

} // verus!
