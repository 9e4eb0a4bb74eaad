//! The semantic field: a point in space and an intensity for each concept,
//! kept in concept order with one point per concept.
use vstd::prelude::*;
use crate::geom::space::Coordinate3;
use crate::text::{less_than, lemma_text_lt_irreflexive, lemma_text_lt_total,
    lemma_text_lt_transitive, same_text, text, text_lt};

verus! {

#[derive(Debug, Clone, Copy, PartialEq, Eq, Structural)]
pub struct FieldPoint {
    pub position: Coordinate3,
    pub intensity: i64,
}

/// Concepts with their points, in strictly increasing concept order.
#[derive(Debug)]
pub struct SemanticField {
    entries: Vec<(String, FieldPoint)>,
}

pub type FieldEntries = Seq<(Seq<char>, FieldPoint)>;

/// The concepts strictly increase.
pub open spec fn sorted_keys(s: FieldEntries) -> bool {
    forall|i: int, j: int| 0 <= i < j < s.len() ==> text_lt(#[trigger] s[i].0, #[trigger] s[j].0)
}

/// `s` with the point of `k` set to `v`: replaced where `k` is present,
/// otherwise inserted before the first larger concept.
pub open spec fn upsert(s: FieldEntries, k: Seq<char>, v: FieldPoint) -> FieldEntries
    decreases s.len(),
{
    if s.len() == 0 {
        seq![(k, v)]
    } else if s[0].0 == k {
        s.update(0, (k, v))
    } else if text_lt(k, s[0].0) {
        seq![(k, v)] + s
    } else {
        seq![s[0]] + upsert(s.drop_first(), k, v)
    }
}

spec fn view_of(e: Seq<(String, FieldPoint)>) -> FieldEntries {
    e.map_values(|e: (String, FieldPoint)| (e.0@, e.1))
}

impl View for SemanticField {
    type V = FieldEntries;

    closed spec fn view(&self) -> FieldEntries {
        view_of(self.entries@)
    }
}

proof fn lemma_upsert_prefix(s: FieldEntries, k: Seq<char>, v: FieldPoint, i: int)
    requires
        0 <= i <= s.len(),
        forall|j: int| 0 <= j < i ==> text_lt(#[trigger] s[j].0, k),
    ensures
        upsert(s, k, v) == s.subrange(0, i) + upsert(s.subrange(i, s.len() as int), k, v),
    decreases i,
{
    if i == 0 {
        assert(s.subrange(0, 0) + s.subrange(0, s.len() as int) =~= s);
        assert(s.subrange(0, s.len() as int) =~= s);
        assert(s.subrange(0, 0) + upsert(s, k, v) =~= upsert(s, k, v));
    } else {
        lemma_text_lt_irreflexive(k);
        if text_lt(k, s[0].0) {
            lemma_text_lt_transitive(k, s[0].0, k);
        }
        let t = s.drop_first();
        assert forall|j: int| 0 <= j < i - 1 implies text_lt(#[trigger] t[j].0, k) by {
            assert(t[j] == s[j + 1]);
        }
        lemma_upsert_prefix(t, k, v, i - 1);
        assert(t.subrange(0, i - 1) =~= s.subrange(1, i));
        assert(t.subrange(i - 1, t.len() as int) =~= s.subrange(i, s.len() as int));
        assert(seq![s[0]] + s.subrange(1, i) =~= s.subrange(0, i));
        assert(upsert(s, k, v) == seq![s[0]] + upsert(t, k, v));
    }
}

impl SemanticField {
    #[verifier::type_invariant]
    closed spec fn concepts_increase(&self) -> bool {
        sorted_keys(self@)
    }

    /// An empty field.
    pub fn new() -> (f: Self)
        ensures
            f@ == Seq::<(Seq<char>, FieldPoint)>::empty(),
    {
        let f = SemanticField { entries: Vec::new() };
        assert(f@ =~= Seq::<(Seq<char>, FieldPoint)>::empty());
        f
    }

    /// The number of concepts.
    pub fn concept_count(&self) -> (n: usize)
        ensures
            n == self@.len(),
    {
        self.entries.len()
    }

    /// The point of a concept, if the field has it.
    pub fn concept(&self, name: &str) -> (r: Option<&FieldPoint>)
        ensures
            sorted_keys(self@),
            match r {
                Some(p) => exists|i: int| 0 <= i < self@.len() && self@[i].0 == name@ && self@[i].1 == *p,
                None => forall|i: int| 0 <= i < self@.len() ==> self@[i].0 != name@,
            },
    {
        proof {
            use_type_invariant(self);
        }
        let key = text(name);
        let mut i: usize = 0;
        while i < self.entries.len()
            invariant
                i <= self.entries@.len(),
                key@ == name@,
                sorted_keys(self@),
                forall|j: int| 0 <= j < i ==> self@[j].0 != name@,
            decreases self.entries@.len() - i,
        {
            if same_text(&self.entries[i].0, &key) {
                assert(self@[i as int].0 == name@);
                return Some(&self.entries[i].1);
            }
            i = i + 1;
        }
        None
    }

    /// The concepts with their points, in concept order.
    pub fn ordered_concepts(&self) -> (r: Vec<(String, FieldPoint)>)
        ensures
            r@.map_values(|e: (String, FieldPoint)| (e.0@, e.1)) == self@,
            sorted_keys(self@),
    {
        proof {
            use_type_invariant(self);
        }
        let mut out: Vec<(String, FieldPoint)> = Vec::new();
        let mut i: usize = 0;
        while i < self.entries.len()
            invariant
                i <= self.entries@.len(),
                out@.len() == i,
                forall|j: int| 0 <= j < i ==> (#[trigger] out@[j]).0@ == self@[j].0 && out@[j].1 == self@[j].1,
            decreases self.entries@.len() - i,
        {
            out.push((self.entries[i].0.clone(), self.entries[i].1));
            i = i + 1;
        }
        assert(out@.map_values(|e: (String, FieldPoint)| (e.0@, e.1)) =~= self@);
        out
    }

    /// Sets the point of a concept, adding the concept where it is new.
    pub fn upsert_concept(&mut self, concept: &str, point: FieldPoint)
        ensures
            final(self)@ == upsert(old(self)@, concept@, point),
            sorted_keys(final(self)@),
    {
        proof {
            use_type_invariant(&*self);
        }
        let ghost s = self@;
        let mut entries: Vec<(String, FieldPoint)> = Vec::new();
        std::mem::swap(&mut entries, &mut self.entries);
        assert(view_of(entries@) == s);
        let n = entries.len();
        let mut i: usize = 0;
        while i < n && less_than(entries[i].0.as_str(), concept)
            invariant
                n == entries@.len(),
                s == view_of(entries@),
                i <= n,
                forall|j: int| 0 <= j < i ==> text_lt(#[trigger] s[j].0, concept@),
            decreases n - i,
        {
            i = i + 1;
        }
        proof {
            lemma_upsert_prefix(s, concept@, point, i as int);
        }
        let key = text(concept);
        if i < n && same_text(&entries[i].0, &key) {
            entries.set(i, (key, point));
            proof {
                let rest = s.subrange(i as int, s.len() as int);
                assert(rest[0].0 == concept@);
                assert(view_of(entries@) =~= s.subrange(0, i as int) + rest.update(0, (concept@, point)));
                assert forall|a: int, b: int| 0 <= a < b < view_of(entries@).len() implies text_lt(
                    #[trigger] view_of(entries@)[a].0,
                    #[trigger] view_of(entries@)[b].0,
                ) by {
                    assert(view_of(entries@)[a].0 == s[a].0);
                    assert(view_of(entries@)[b].0 == s[b].0);
                }
            }
        } else {
            proof {
                let rest = s.subrange(i as int, s.len() as int);
                if i < n {
                    assert(rest[0] == s[i as int]);
                    assert(s[i as int].0 != concept@);
                    assert(!text_lt(s[i as int].0, concept@));
                    lemma_text_lt_total(s[i as int].0, concept@);
                    assert(text_lt(concept@, rest[0].0));
                } else {
                    assert(rest.len() == 0);
                }
            }
            entries.insert(i, (key, point));
            proof {
                let rest = s.subrange(i as int, s.len() as int);
                assert(view_of(entries@) =~= s.subrange(0, i as int) + (seq![(concept@, point)] + rest));
                if i < n {
                    assert(upsert(rest, concept@, point) == seq![(concept@, point)] + rest);
                } else {
                    assert(upsert(rest, concept@, point) =~= seq![(concept@, point)] + rest);
                }
                assert forall|a: int, b: int| 0 <= a < b < view_of(entries@).len() implies text_lt(
                    #[trigger] view_of(entries@)[a].0,
                    #[trigger] view_of(entries@)[b].0,
                ) by {
                    if a < i && b == i {
                        assert(text_lt(s[a].0, concept@));
                    } else if a < i && b > i {
                        assert(view_of(entries@)[b] == s[b - 1]);
                        assert(text_lt(s[a].0, s[b - 1].0));
                    } else if a == i {
                        assert(view_of(entries@)[b] == s[b - 1]);
                        if b - 1 > i {
                            assert(text_lt(s[i as int].0, s[b - 1].0));
                            lemma_text_lt_transitive(concept@, s[i as int].0, s[b - 1].0);
                        }
                    } else if a < i {
                        assert(view_of(entries@)[a] == s[a]);
                        assert(view_of(entries@)[b] == s[b]);
                    } else {
                        assert(view_of(entries@)[a] == s[a - 1]);
                        assert(view_of(entries@)[b] == s[b - 1]);
                    }
                }
            }
        }
        self.entries = entries;
    }
}

} // verus!
