//! The relationship ledger: owner of the mapping edges between local source
//! concepts and target terminology concepts. Rows are only ever appended or
//! conditionally invalidated; superseded versions stay in the table.

use vstd::prelude::*;
use vstd::pervasive::VecAdditionalExecFns;

use crate::omop_types::ConceptRelationship;
use crate::omop_types::Date;
use crate::omop_types::InvalidReason;
use crate::omop_types::at_most_one_active_per_source;
use crate::omop_types::has_active_relationship;
use crate::omop_types::invalidate_active_relationships;
use crate::omop_types::invalidated_relationship;
use crate::omop_types::is_active_relationship;
use crate::omop_types::new_relationship;
use crate::omop_types::relationship_lifecycle_monotone;
use crate::omop_types::sentinel_date;

verus! {

/// Owns the mapping edges; at most one row per source concept is active at
/// any instant, a rule the engine maintains by invalidating before it
/// inserts.
pub struct RelationshipLedger {
    relationships: Vec<ConceptRelationship>,
}

impl RelationshipLedger {
    /// The relationship rows, in insertion order.
    pub closed spec fn rows(&self) -> Seq<ConceptRelationship> {
        self.relationships@
    }

    pub open spec fn wf(&self) -> bool {
        at_most_one_active_per_source(self.rows())
    }

    /// An empty ledger.
    pub fn new() -> (l: RelationshipLedger)
        ensures
            l.wf(),
            l.rows() == Seq::<ConceptRelationship>::empty(),
    {
        RelationshipLedger { relationships: Vec::new() }
    }

    /// Index of the active row for the given source concept, or none.
    fn find_active_for(&self, source_id: i32) -> (r: Option<usize>)
        ensures
            match r {
                Some(i) => i < self.rows().len() && (self.rows()[i as int]).concept_id_1
                    == source_id && is_active_relationship(self.rows()[i as int]),
                None => !has_active_relationship(self.rows(), source_id),
            },
    {
        let mut k: usize = 0;
        while k < self.relationships.len()
            invariant
                k <= self.relationships@.len(),
                forall|j: int|
                    0 <= j < k ==> !((#[trigger] self.relationships@[j]).concept_id_1 == source_id
                        && is_active_relationship(self.relationships@[j])),
            decreases self.relationships@.len() - k,
        {
            let r = self.relationships[k];
            let active = match r.invalid_reason {
                None => true,
                Some(_) => false,
            };
            if active && r.concept_id_1 == source_id {
                return Some(k);
            }
            k += 1;
        }
        None
    }

    /// The target concept id the source is actively mapped onto, or none when
    /// no active relationship exists (never mapped, or source deleted).
    pub fn get_active_target(&self, source_id: i32) -> (r: Option<i32>)
        ensures
            match r {
                Some(t) => exists|i: int|
                    0 <= i < self.rows().len() && (#[trigger] self.rows()[i]).concept_id_1
                        == source_id && is_active_relationship(self.rows()[i])
                        && self.rows()[i].concept_id_2 == t,
                None => !has_active_relationship(self.rows(), source_id),
            },
    {
        match self.find_active_for(source_id) {
            None => None,
            Some(i) => Some(self.relationships[i].concept_id_2),
        }
    }

    /// Invalidates every active relationship row of the given source, closing
    /// its validity window as of the given date, and reports how many rows
    /// were affected; under the ledger's invariant that is one row when the
    /// source had an active mapping and none otherwise, in which case the
    /// ledger is untouched.
    pub fn invalidate_all_active(
        &mut self,
        source_id: i32,
        reason: InvalidReason,
        as_of: Date,
    ) -> (count: usize)
        requires
            old(self).wf(),
        ensures
            final(self).wf(),
            relationship_lifecycle_monotone(old(self).rows(), final(self).rows()),
            has_active_relationship(old(self).rows(), source_id) ==> count == 1
                && final(self).rows() == invalidate_active_relationships(
                old(self).rows(),
                source_id,
                reason,
                as_of,
            ),
            !has_active_relationship(old(self).rows(), source_id) ==> count == 0 && *final(self)
                == *old(self),
    {
        match self.find_active_for(source_id) {
            None => 0,
            Some(i) => {
                let row = self.relationships[i];
                let updated = ConceptRelationship {
                    valid_end_date: as_of,
                    invalid_reason: Some(reason),
                    ..row
                };
                self.relationships.set(i, updated);
                proof {
                    let pre = old(self).rows();
                    let post = self.rows();
                    assert forall|j: int| 0 <= j < pre.len() implies post[j]
                        == invalidate_active_relationships(pre, source_id, reason, as_of)[j] by {
                        if j != i as int {
                            if pre[j].concept_id_1 == source_id && is_active_relationship(pre[j]) {
                                assert(false);  // two active rows for one source
                            }
                        } else {
                            assert(post[j] == invalidated_relationship(pre[j], reason, as_of));
                        }
                    }
                    assert(post =~= invalidate_active_relationships(pre, source_id, reason, as_of));
                    assert forall|p: int, q: int|
                        0 <= p < post.len() && 0 <= q < post.len() && p != q
                        && is_active_relationship(#[trigger] post[p]) && is_active_relationship(
                        #[trigger] post[q],
                    ) implies post[p].concept_id_1 != post[q].concept_id_1 by {
                        assert(post[p] == pre[p] && post[q] == pre[q]);
                    }
                }
                1
            },
        }
    }

    /// Inserts a new active "maps to" row for the source, valid from `as_of`
    /// until `expiry`. The caller must have invalidated any currently active
    /// row of the same source first, as the versioning engine does.
    pub fn insert(&mut self, source_id: i32, target_id: i32, as_of: Date, expiry: Date)
        requires
            old(self).wf(),
            !has_active_relationship(old(self).rows(), source_id),
        ensures
            final(self).wf(),
            expiry == sentinel_date() ==> final(self).rows() == old(self).rows().push(
                new_relationship(source_id, target_id, as_of),
            ),
            final(self).rows() == old(self).rows().push(
                ConceptRelationship {
                    concept_id_1: source_id,
                    concept_id_2: target_id,
                    relationship_id: crate::omop_types::RelationshipKind::MapsTo,
                    valid_start_date: as_of,
                    valid_end_date: expiry,
                    invalid_reason: None,
                },
            ),
            relationship_lifecycle_monotone(old(self).rows(), final(self).rows()),
    {
        let row = ConceptRelationship {
            concept_id_1: source_id,
            concept_id_2: target_id,
            relationship_id: crate::omop_types::RelationshipKind::MapsTo,
            valid_start_date: as_of,
            valid_end_date: expiry,
            invalid_reason: None,
        };
        self.relationships.push(row);
        proof {
            let pre = old(self).rows();
            let post = self.rows();
            assert forall|p: int, q: int|
                0 <= p < post.len() && 0 <= q < post.len() && p != q && is_active_relationship(
                    #[trigger] post[p],
                ) && is_active_relationship(#[trigger] post[q]) implies post[p].concept_id_1
                != post[q].concept_id_1 by {
                if p < pre.len() && q < pre.len() {
                    assert(post[p] == pre[p] && post[q] == pre[q]);
                } else {
                    let k = if p < pre.len() {
                        p
                    } else {
                        q
                    };
                    assert(post[k] == pre[k]);
                    if pre[k].concept_id_1 == source_id && is_active_relationship(pre[k]) {
                        assert(has_active_relationship(pre, source_id));
                    }
                }
            }
        }
    }

    /// Every relationship row, active and invalidated alike, for audit.
    pub fn list_all(&self) -> (r: Vec<ConceptRelationship>)
        ensures
            r@ == self.rows(),
    {
        let mut out: Vec<ConceptRelationship> = Vec::new();
        let mut k: usize = 0;
        proof {
            assert(self.rows().subrange(0, 0) =~= Seq::<ConceptRelationship>::empty());
        }
        while k < self.relationships.len()
            invariant
                k <= self.relationships@.len(),
                out@ == self.relationships@.subrange(0, k as int),
            decreases self.relationships@.len() - k,
        {
            out.push(self.relationships[k]);
            proof {
                assert(out@ =~= self.relationships@.subrange(0, k as int + 1));
            }
            k += 1;
        }
        proof {
            assert(self.relationships@.subrange(0, self.relationships@.len() as int) =~= self
                .relationships@);
        }
        out
    }
}

} // verus!
