//! The concept store: owner of the concept rows and of their lifecycle.
//! Rows are only ever appended or conditionally invalidated; nothing is
//! removed, so history survives every operation.

use vstd::prelude::*;
use vstd::pervasive::VecAdditionalExecFns;

use crate::omop_types::Concept;
use crate::omop_types::Date;
use crate::omop_types::EngineError;
use crate::omop_types::InvalidReason;
use crate::omop_types::MappedConcept;
use crate::omop_types::FIRST_LOCAL_CONCEPT_ID;
use crate::omop_types::active_concepts;
use crate::omop_types::active_natural_keys_unique;
use crate::omop_types::concept_from_draft;
use crate::omop_types::concept_lifecycle_monotone;
use crate::omop_types::find_by_id;
use crate::omop_types::has_active_concept;
use crate::omop_types::has_active_duplicate;
use crate::omop_types::has_concept;
use crate::omop_types::invalidate_concept_with_id;
use crate::omop_types::invalidated_concept;
use crate::omop_types::is_active_concept;
use crate::omop_types::key_matches;
use crate::omop_types::lemma_active_concepts_empty;
use crate::omop_types::lemma_active_concepts_push;
use crate::omop_types::same_natural_key;
use crate::omop_types::sentinel_expiry;
use crate::omop_types::unique_concept_ids;

verus! {

/// The store's invariant: surrogate ids start at `FIRST_LOCAL_CONCEPT_ID`,
/// stay below the next id to hand out, never repeat, and no two active rows
/// share a natural key.
pub open spec fn ids_assigned_below(rows: Seq<Concept>, next: int) -> bool {
    forall|i: int|
        0 <= i < rows.len() ==> FIRST_LOCAL_CONCEPT_ID <= (#[trigger] rows[i]).concept_id && (
        rows[i].concept_id as int) < next
}

pub open spec fn store_inv(rows: Seq<Concept>, next: int) -> bool {
    &&& FIRST_LOCAL_CONCEPT_ID as int <= next <= i32::MAX as int
    &&& unique_concept_ids(rows)
    &&& ids_assigned_below(rows, next)
    &&& active_natural_keys_unique(rows)
}

/// Owns concept records: assigns identities, detects duplicates among active
/// rows, and conditionally invalidates.
pub struct ConceptStore {
    concepts: Vec<Concept>,
    next_id: i32,
}

impl ConceptStore {
    /// The concept rows, in insertion order.
    pub closed spec fn rows(&self) -> Seq<Concept> {
        self.concepts@
    }

    /// The next surrogate id to assign.
    pub closed spec fn next(&self) -> int {
        self.next_id as int
    }

    pub open spec fn wf(&self) -> bool {
        store_inv(self.rows(), self.next())
    }

    /// An empty store, ready to assign local ids.
    pub fn new() -> (s: ConceptStore)
        ensures
            s.wf(),
            s.rows() == Seq::<Concept>::empty(),
            s.next() == FIRST_LOCAL_CONCEPT_ID as int,
    {
        ConceptStore { concepts: Vec::new(), next_id: FIRST_LOCAL_CONCEPT_ID }
    }

    /// Index of an active row matching the draft's natural key, or none.
    pub fn find_active_duplicate(&self, draft: &MappedConcept) -> (r: Option<usize>)
        ensures
            match r {
                Some(i) => i < self.rows().len() && is_active_concept(self.rows()[i as int])
                    && key_matches(self.rows()[i as int], *draft),
                None => !has_active_duplicate(self.rows(), *draft),
            },
    {
        let mut k: usize = 0;
        while k < self.concepts.len()
            invariant
                k <= self.concepts@.len(),
                forall|j: int|
                    0 <= j < k ==> !(is_active_concept(#[trigger] self.concepts@[j])
                        && key_matches(self.concepts@[j], *draft)),
            decreases self.concepts@.len() - k,
        {
            let c = &self.concepts[k];
            let active = match c.invalid_reason {
                None => true,
                Some(_) => false,
            };
            if active && c.domain_id == draft.domain_id && c.vocabulary_id == draft.vocabulary_id
                && c.concept_code == draft.concept_code
                && c.concept_class_id == draft.concept_class_id {
                return Some(k);
            }
            k += 1;
        }
        None
    }

    /// Inserts the draft as a new active concept row with a fresh surrogate
    /// id, enforcing the uniqueness of the natural key among active rows:
    /// a duplicate is refused as `Conflict`, and an exhausted id space as
    /// `StoreFailure`.
    pub fn insert(&mut self, draft: MappedConcept, today: Date) -> (r: Result<i32, EngineError>)
        requires
            old(self).wf(),
        ensures
            final(self).wf(),
            concept_lifecycle_monotone(old(self).rows(), final(self).rows()),
            match r {
                Ok(id) => !has_active_duplicate(old(self).rows(), draft) && old(self).next()
                    < i32::MAX as int && id as int == old(self).next() && final(self).rows() == old(
                    self,
                ).rows().push(concept_from_draft(draft, id, today)) && final(self).next() == old(
                    self,
                ).next() + 1,
                Err(e) => *final(self) == *old(self) && (e == EngineError::Conflict
                    <==> has_active_duplicate(old(self).rows(), draft)) && (e
                    == EngineError::StoreFailure ==> old(self).next() == i32::MAX as int) && (e
                    == EngineError::Conflict || e == EngineError::StoreFailure),
            },
    {
        match self.find_active_duplicate(&draft) {
            Some(_) => Err(EngineError::Conflict),
            None => {
                if self.next_id == i32::MAX {
                    Err(EngineError::StoreFailure)
                } else {
                    let id = self.next_id;
                    let row = Concept {
                        concept_id: id,
                        concept_name: draft.concept_name,
                        domain_id: draft.domain_id,
                        vocabulary_id: draft.vocabulary_id,
                        concept_class_id: draft.concept_class_id,
                        standard_concept: None,
                        concept_code: draft.concept_code,
                        valid_start_date: today,
                        valid_end_date: sentinel_expiry(),
                        invalid_reason: None,
                    };
                    self.concepts.push(row);
                    self.next_id = id + 1;
                    proof {
                        let pre = old(self).rows();
                        let post = self.rows();
                        assert forall|i: int, j: int|
                            0 <= i < post.len() && 0 <= j < post.len() && i != j implies (
                        #[trigger] post[i]).concept_id != (#[trigger] post[j]).concept_id by {
                            if i < pre.len() && j < pre.len() {
                                assert(pre[i] == post[i] && pre[j] == post[j]);
                            }
                        }
                        assert forall|i: int, j: int|
                            0 <= i < post.len() && 0 <= j < post.len() && i != j
                            && is_active_concept(#[trigger] post[i]) && is_active_concept(
                            #[trigger] post[j],
                        ) implies !same_natural_key(post[i], post[j]) by {
                            if i == pre.len() || j == pre.len() {
                                let k = if i == pre.len() {
                                    j
                                } else {
                                    i
                                };
                                assert(post[k] == pre[k]);
                                if same_natural_key(post[i], post[j]) {
                                    assert(key_matches(pre[k], draft));
                                    assert(has_active_duplicate(pre, draft));
                                }
                            } else {
                                assert(pre[i] == post[i] && pre[j] == post[j]);
                            }
                        }
                    }
                    Ok(id)
                }
            },
        }
    }

    /// The row carrying the given id, active or not, or none.
    pub fn get(&self, id: i32) -> (r: Option<Concept>)
        ensures
            match r {
                Some(c) => exists|i: int|
                    0 <= i < self.rows().len() && (#[trigger] self.rows()[i]).concept_id == id && c
                        == self.rows()[i],
                None => !has_concept(self.rows(), id),
            },
    {
        match find_by_id(&self.concepts, id) {
            None => None,
            Some(i) => {
                let c = self.concepts[i].clone();
                proof {
                    assert(self.rows()[i as int] == self.concepts@[i as int]);
                }
                Some(c)
            },
        }
    }

    /// The active row carrying the given id, or `NotFound` when no such row
    /// is active.
    pub fn get_active(&self, id: i32) -> (r: Result<Concept, EngineError>)
        requires
            self.wf(),
        ensures
            match r {
                Ok(c) => exists|i: int|
                    0 <= i < self.rows().len() && (#[trigger] self.rows()[i]).concept_id == id
                        && is_active_concept(self.rows()[i]) && c == self.rows()[i],
                Err(e) => e == EngineError::NotFound && !has_active_concept(self.rows(), id),
            },
    {
        match find_by_id(&self.concepts, id) {
            None => Err(EngineError::NotFound),
            Some(i) => {
                let active = match self.concepts[i].invalid_reason {
                    None => true,
                    Some(_) => false,
                };
                if active {
                    Ok(self.concepts[i].clone())
                } else {
                    proof {
                        assert forall|j: int|
                            0 <= j < self.rows().len() && (#[trigger] self.rows()[j]).concept_id
                                == id implies !is_active_concept(self.rows()[j]) by {
                            assert(j == i);
                        }
                    }
                    Err(EngineError::NotFound)
                }
            },
        }
    }

    /// Conditionally invalidates the row matching `id` that is still active,
    /// closing its validity window as of the given date; reports whether a
    /// row was actually changed (false: already invalidated or absent).
    pub fn invalidate(&mut self, id: i32, reason: InvalidReason, as_of: Date) -> (changed: bool)
        requires
            old(self).wf(),
        ensures
            final(self).wf(),
            final(self).next() == old(self).next(),
            changed <==> has_active_concept(old(self).rows(), id),
            changed ==> final(self).rows() == invalidate_concept_with_id(
                old(self).rows(),
                id,
                reason,
                as_of,
            ),
            !changed ==> *final(self) == *old(self),
            reason == InvalidReason::Deleted ==> concept_lifecycle_monotone(
                old(self).rows(),
                final(self).rows(),
            ),
    {
        match find_by_id(&self.concepts, id) {
            None => false,
            Some(i) => {
                let active = match self.concepts[i].invalid_reason {
                    None => true,
                    Some(_) => false,
                };
                if active {
                    let mut row = self.concepts[i].clone();
                    row.valid_end_date = as_of;
                    row.invalid_reason = Some(reason);
                    self.concepts.set(i, row);
                    proof {
                        let pre = old(self).rows();
                        let post = self.rows();
                        assert forall|j: int| 0 <= j < pre.len() implies post[j]
                            == invalidate_concept_with_id(pre, id, reason, as_of)[j] by {
                            if j != i as int {
                                assert(pre[j].concept_id != id);
                            } else {
                                assert(post[j] == invalidated_concept(pre[j], reason, as_of));
                            }
                        }
                        assert(post =~= invalidate_concept_with_id(pre, id, reason, as_of));
                        assert forall|p: int, q: int|
                            0 <= p < post.len() && 0 <= q < post.len() && p != q
                            && is_active_concept(#[trigger] post[p]) && is_active_concept(
                            #[trigger] post[q],
                        ) implies !same_natural_key(post[p], post[q]) by {
                            assert(post[p] == pre[p] && post[q] == pre[q]);
                        }
                    }
                    true
                } else {
                    proof {
                        assert forall|j: int|
                            0 <= j < self.rows().len() && (#[trigger] self.rows()[j]).concept_id
                                == id implies !is_active_concept(self.rows()[j]) by {
                            assert(j == i);
                        }
                    }
                    false
                }
            },
        }
    }

    /// The active rows only, in insertion order; invalidated concepts are
    /// hidden from enumeration though still fetchable by id.
    pub fn list_active(&self) -> (r: Vec<Concept>)
        ensures
            r@ == active_concepts(self.rows()),
    {
        let mut out: Vec<Concept> = Vec::new();
        proof {
            lemma_active_concepts_empty();
            assert(self.rows().subrange(0, 0) =~= Seq::<Concept>::empty());
        }
        let mut k: usize = 0;
        while k < self.concepts.len()
            invariant
                k <= self.concepts@.len(),
                out@ == active_concepts(self.concepts@.subrange(0, k as int)),
            decreases self.concepts@.len() - k,
        {
            proof {
                lemma_active_concepts_push(
                    self.concepts@.subrange(0, k as int),
                    self.concepts@[k as int],
                );
                assert(self.concepts@.subrange(0, k as int).push(self.concepts@[k as int]) =~= self
                    .concepts@.subrange(0, k as int + 1));
            }
            let c = &self.concepts[k];
            let active = match c.invalid_reason {
                None => true,
                Some(_) => false,
            };
            if active {
                out.push(c.clone());
            }
            k += 1;
        }
        proof {
            assert(self.concepts@.subrange(0, self.concepts@.len() as int) =~= self.concepts@);
        }
        out
    }
}

} // verus!
