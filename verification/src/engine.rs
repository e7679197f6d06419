//! The versioning engine: orchestrates Create, Retarget and Delete against
//! the concept store and the relationship ledger, each operation applied
//! atomically (it either takes full effect or leaves the registry exactly as
//! it was), and serves the read paths. The engine also carries the read-only
//! snapshot of the externally owned target terminology it validates new
//! mappings against.

use vstd::prelude::*;

use crate::concept_store::ConceptStore;
use crate::concept_store::store_inv;
use crate::omop_types::Concept;
use crate::omop_types::ConceptRelationship;
use crate::omop_types::Date;
use crate::omop_types::EngineError;
use crate::omop_types::InvalidReason;
use crate::omop_types::MappedConcept;
use crate::omop_types::NewConceptId;
use crate::omop_types::active_concepts;
use crate::omop_types::at_most_one_active_per_source;
use crate::omop_types::active_sources_active;
use crate::omop_types::concept_from_draft;
use crate::omop_types::concept_lifecycle_monotone;
use crate::omop_types::find_by_id;
use crate::omop_types::has_active_concept;
use crate::omop_types::has_active_duplicate;
use crate::omop_types::has_active_relationship;
use crate::omop_types::has_concept;
use crate::omop_types::invalidate_active_relationships;
use crate::omop_types::invalidate_concept_with_id;
use crate::omop_types::is_active_concept;
use crate::omop_types::is_active_relationship;
use crate::omop_types::key_matches;
use crate::omop_types::new_relationship;
use crate::omop_types::relationship_lifecycle_monotone;
use crate::omop_types::same_natural_key;
use crate::omop_types::sentinel_expiry;
use crate::omop_types::unique_concept_ids;
use crate::relationship_ledger::RelationshipLedger;

verus! {

/// The source concept is actively mapped onto a target that resolves in the
/// terminology, and `c` is that target's descriptive row.
pub open spec fn resolves_active_target(
    rs: Seq<ConceptRelationship>,
    ts: Seq<Concept>,
    source_id: i32,
    c: Concept,
) -> bool {
    exists|i: int, k: int|
        0 <= i < rs.len() && (#[trigger] rs[i]).concept_id_1 == source_id
            && is_active_relationship(rs[i]) && 0 <= k < ts.len() && (#[trigger] ts[k]).concept_id
            == rs[i].concept_id_2 && c == ts[k]
}

/// The source concept is actively mapped onto a target that resolves in the
/// terminology.
pub open spec fn has_resolvable_target(
    rs: Seq<ConceptRelationship>,
    ts: Seq<Concept>,
    source_id: i32,
) -> bool {
    exists|i: int, k: int|
        0 <= i < rs.len() && (#[trigger] rs[i]).concept_id_1 == source_id
            && is_active_relationship(rs[i]) && 0 <= k < ts.len() && (#[trigger] ts[k]).concept_id
            == rs[i].concept_id_2
}

/// Create, Retarget, Delete and the read paths, as one state machine per
/// concept: Active, Mapped (one active relationship, looped through by
/// retargets) and Deleted (terminal).
pub struct VersioningEngine {
    store: ConceptStore,
    ledger: RelationshipLedger,
    terminology: Vec<Concept>,
}

impl VersioningEngine {
    /// The concept rows, in insertion order.
    pub closed spec fn concepts(&self) -> Seq<Concept> {
        self.store.rows()
    }

    /// The relationship rows, in insertion order.
    pub closed spec fn relationships(&self) -> Seq<ConceptRelationship> {
        self.ledger.rows()
    }

    /// The read-only target terminology rows.
    pub closed spec fn terminology(&self) -> Seq<Concept> {
        self.terminology@
    }

    /// The next surrogate id the store will assign.
    pub closed spec fn next_concept_id(&self) -> int {
        self.store.next()
    }

    /// Well-formedness: the store's id and natural-key uniqueness, at most
    /// one active relationship per source, every active relationship hanging
    /// off an active concept, and unique terminology ids.
    pub open spec fn wf(&self) -> bool {
        &&& store_inv(self.concepts(), self.next_concept_id())
        &&& at_most_one_active_per_source(self.relationships())
        &&& active_sources_active(self.relationships(), self.concepts())
        &&& unique_concept_ids(self.terminology())
    }

    /// A fresh registry over the given target terminology, whose ids are
    /// unique (it is keyed by concept id on the side that owns it).
    pub fn new(terminology: Vec<Concept>) -> (e: VersioningEngine)
        requires
            unique_concept_ids(terminology@),
        ensures
            e.wf(),
            e.concepts() == Seq::<Concept>::empty(),
            e.relationships() == Seq::<ConceptRelationship>::empty(),
            e.terminology() == terminology@,
            e.next_concept_id() == crate::omop_types::FIRST_LOCAL_CONCEPT_ID as int,
    {
        VersioningEngine {
            store: ConceptStore::new(),
            ledger: RelationshipLedger::new(),
            terminology,
        }
    }

    /// Whether the target terminology resolves the given concept id.
    pub fn target_exists(&self, target_id: i32) -> (b: bool)
        ensures
            b == has_concept(self.terminology(), target_id),
    {
        match find_by_id(&self.terminology, target_id) {
            Some(i) => {
                proof {
                    assert(self.terminology()[i as int].concept_id == target_id);
                }
                true
            },
            None => false,
        }
    }

    /// Creates a new concept mapped onto the given target, atomically: the
    /// concept row and its active relationship row are appended together or
    /// not at all. A draft whose natural key an active concept already
    /// carries is refused as `Conflict` whatever its id; a target unknown to
    /// the terminology is refused as `TargetNotFound`; both refusals write
    /// nothing.
    pub fn create(&mut self, draft: MappedConcept, today: Date) -> (r: Result<
        NewConceptId,
        EngineError,
    >)
        requires
            old(self).wf(),
        ensures
            final(self).wf(),
            final(self).terminology() == old(self).terminology(),
            concept_lifecycle_monotone(old(self).concepts(), final(self).concepts()),
            relationship_lifecycle_monotone(
                old(self).relationships(),
                final(self).relationships(),
            ),
            match r {
                Ok(nid) => !has_active_duplicate(old(self).concepts(), draft) && has_concept(
                    old(self).terminology(),
                    draft.maps_to_concept_id,
                ) && old(self).next_concept_id() < i32::MAX as int && nid == (NewConceptId {
                    concept_id: Some(old(self).next_concept_id() as i32),
                }) && final(self).concepts() == old(self).concepts().push(
                    concept_from_draft(draft, old(self).next_concept_id() as i32, today),
                ) && final(self).relationships() == old(self).relationships().push(
                    new_relationship(
                        old(self).next_concept_id() as i32,
                        draft.maps_to_concept_id,
                        today,
                    ),
                ) && final(self).next_concept_id() == old(self).next_concept_id() + 1,
                Err(e) => final(self).concepts() == old(self).concepts()
                    && final(self).relationships() == old(self).relationships()
                    && final(self).next_concept_id()
                    == old(self).next_concept_id() && (e == EngineError::Conflict
                    <==> has_active_duplicate(old(self).concepts(), draft)) && (e
                    == EngineError::TargetNotFound <==> !has_active_duplicate(
                    old(self).concepts(),
                    draft,
                ) && !has_concept(old(self).terminology(), draft.maps_to_concept_id)) && (e
                    == EngineError::StoreFailure ==> old(self).next_concept_id()
                    == i32::MAX as int) && (e == EngineError::Conflict || e
                    == EngineError::TargetNotFound || e == EngineError::StoreFailure),
            },
    {
        match self.store.find_active_duplicate(&draft) {
            Some(_) => {
                return Err(EngineError::Conflict);
            },
            None => {},
        }
        if !self.target_exists(draft.maps_to_concept_id) {
            return Err(EngineError::TargetNotFound);
        }
        let target_id = draft.maps_to_concept_id;
        let id = match self.store.insert(draft, today) {
            Ok(id) => id,
            Err(e) => {
                return Err(e);
            },
        };
        proof {
            assert forall|i: int| 0 <= i < self.ledger.rows().len() implies !((
            #[trigger] self.ledger.rows()[i]).concept_id_1 == id && is_active_relationship(
                self.ledger.rows()[i],
            )) by {
                if self.ledger.rows()[i].concept_id_1 == id && is_active_relationship(
                    self.ledger.rows()[i],
                ) {
                    assert(has_active_concept(old(self).concepts(), id));
                    let k = choose|k: int|
                        0 <= k < old(self).concepts().len() && (
                        #[trigger] old(self).concepts()[k]).concept_id == id && is_active_concept(
                            old(self).concepts()[k],
                        );
                    assert((old(self).concepts()[k].concept_id as int) < old(
                        self,
                    ).next_concept_id());
                }
            }
            assert(!has_active_relationship(self.ledger.rows(), id));
        }
        self.ledger.insert(id, target_id, today, sentinel_expiry());
        proof {
            let pre_cs = old(self).concepts();
            let pre_rs = old(self).relationships();
            let post_cs = self.concepts();
            let post_rs = self.relationships();
            assert forall|i: int|
                0 <= i < post_rs.len() && is_active_relationship(
                    #[trigger] post_rs[i],
                ) implies has_active_concept(post_cs, post_rs[i].concept_id_1) by {
                if i < pre_rs.len() {
                    assert(post_rs[i] == pre_rs[i]);
                    assert(has_active_concept(pre_cs, pre_rs[i].concept_id_1));
                    let k = choose|k: int|
                        0 <= k < pre_cs.len() && (#[trigger] pre_cs[k]).concept_id == pre_rs[i].concept_id_1
                            && is_active_concept(pre_cs[k]);
                    assert(post_cs[k] == pre_cs[k]);
                } else {
                    assert(post_cs[pre_cs.len() as int].concept_id == id);
                    assert(is_active_concept(post_cs[pre_cs.len() as int]));
                }
            }
        }
        Ok(NewConceptId { concept_id: Some(id) })
    }

    /// Retargets the source concept's mapping: within one atomic step the
    /// currently active relationship is superseded (reason 'U') and a new
    /// active one onto the new target is appended. A source with no active
    /// relationship — never mapped, or already deleted — is refused as
    /// `NotFound` and nothing is written. Repeated calls each succeed and
    /// each add a version; the concept row itself is untouched.
    pub fn retarget(&mut self, source_id: i32, new_target_id: i32, today: Date) -> (r: Result<
        (),
        EngineError,
    >)
        requires
            old(self).wf(),
        ensures
            final(self).wf(),
            final(self).concepts() == old(self).concepts(),
            final(self).terminology() == old(self).terminology(),
            final(self).next_concept_id() == old(self).next_concept_id(),
            concept_lifecycle_monotone(old(self).concepts(), final(self).concepts()),
            relationship_lifecycle_monotone(
                old(self).relationships(),
                final(self).relationships(),
            ),
            (r is Ok) <==> has_active_relationship(old(self).relationships(), source_id),
            match r {
                Ok(_) => final(self).relationships() == invalidate_active_relationships(
                    old(self).relationships(),
                    source_id,
                    InvalidReason::Superseded,
                    today,
                ).push(new_relationship(source_id, new_target_id, today)),
                Err(e) => e == EngineError::NotFound && final(self).relationships() == old(self).relationships(),
            },
    {
        let count = self.ledger.invalidate_all_active(
            source_id,
            InvalidReason::Superseded,
            today,
        );
        if count == 0 {
            return Err(EngineError::NotFound);
        }
        let ghost mid_rs = self.ledger.rows();
        proof {
            assert forall|i: int| 0 <= i < mid_rs.len() implies !((
            #[trigger] mid_rs[i]).concept_id_1 == source_id && is_active_relationship(
                mid_rs[i],
            )) by {
                let pre_rs = old(self).relationships();
                if pre_rs[i].concept_id_1 == source_id && is_active_relationship(pre_rs[i]) {
                    assert(mid_rs[i] == crate::omop_types::invalidated_relationship(
                        pre_rs[i],
                        InvalidReason::Superseded,
                        today,
                    ));
                } else {
                    assert(mid_rs[i] == pre_rs[i]);
                }
            }
            assert(!has_active_relationship(mid_rs, source_id));
        }
        self.ledger.insert(source_id, new_target_id, today, sentinel_expiry());
        proof {
            let pre_cs = old(self).concepts();
            let pre_rs = old(self).relationships();
            let post_rs = self.relationships();
            assert forall|i: int|
                0 <= i < post_rs.len() && is_active_relationship(
                    #[trigger] post_rs[i],
                ) implies has_active_concept(self.concepts(), post_rs[i].concept_id_1) by {
                if i < mid_rs.len() {
                    assert(post_rs[i] == mid_rs[i]);
                    if pre_rs[i].concept_id_1 == source_id && is_active_relationship(pre_rs[i]) {
                        assert(!is_active_relationship(mid_rs[i]));
                    } else {
                        assert(mid_rs[i] == pre_rs[i]);
                        assert(has_active_concept(pre_cs, pre_rs[i].concept_id_1));
                    }
                } else {
                    assert(post_rs[i].concept_id_1 == source_id);
                    assert(has_active_relationship(pre_rs, source_id));
                    let k = choose|k: int|
                        0 <= k < pre_rs.len() && (#[trigger] pre_rs[k]).concept_id_1 == source_id
                            && is_active_relationship(pre_rs[k]);
                    assert(has_active_concept(pre_cs, source_id));
                }
            }
        }
        Ok(())
    }

    /// Deletes the concept: its row is conditionally invalidated with reason
    /// 'D' (the compare-and-swap guard `invalid_reason IS NULL`), and only if
    /// a row was actually changed does the cascade invalidate its still
    /// active relationships, all in one atomic step. An unknown or already
    /// deleted id is refused as `NotFound` with no writes at all — no
    /// cascade either. Historically superseded rows keep their 'U' stamp.
    pub fn delete(&mut self, concept_id: i32, today: Date) -> (r: Result<(), EngineError>)
        requires
            old(self).wf(),
        ensures
            final(self).wf(),
            final(self).terminology() == old(self).terminology(),
            final(self).next_concept_id() == old(self).next_concept_id(),
            concept_lifecycle_monotone(old(self).concepts(), final(self).concepts()),
            relationship_lifecycle_monotone(
                old(self).relationships(),
                final(self).relationships(),
            ),
            (r is Ok) <==> has_active_concept(old(self).concepts(), concept_id),
            match r {
                Ok(_) => final(self).concepts() == invalidate_concept_with_id(
                    old(self).concepts(),
                    concept_id,
                    InvalidReason::Deleted,
                    today,
                ) && final(self).relationships() == invalidate_active_relationships(
                    old(self).relationships(),
                    concept_id,
                    InvalidReason::Deleted,
                    today,
                ),
                Err(e) => e == EngineError::NotFound && *final(self) == *old(self),
            },
    {
        let changed = self.store.invalidate(concept_id, InvalidReason::Deleted, today);
        if !changed {
            return Err(EngineError::NotFound);
        }
        self.ledger.invalidate_all_active(concept_id, InvalidReason::Deleted, today);
        proof {
            let pre_cs = old(self).concepts();
            let pre_rs = old(self).relationships();
            let post_cs = self.concepts();
            let post_rs = self.relationships();
            if !has_active_relationship(pre_rs, concept_id) {
                assert forall|i: int| 0 <= i < pre_rs.len() implies post_rs[i]
                    == invalidate_active_relationships(
                    pre_rs,
                    concept_id,
                    InvalidReason::Deleted,
                    today,
                )[i] by {
                    assert(!(pre_rs[i].concept_id_1 == concept_id && is_active_relationship(
                        pre_rs[i],
                    )));
                }
                assert(post_rs =~= invalidate_active_relationships(
                    pre_rs,
                    concept_id,
                    InvalidReason::Deleted,
                    today,
                ));
            }
            assert forall|i: int|
                0 <= i < post_rs.len() && is_active_relationship(
                    #[trigger] post_rs[i],
                ) implies has_active_concept(post_cs, post_rs[i].concept_id_1) by {
                assert(!(pre_rs[i].concept_id_1 == concept_id && is_active_relationship(
                    pre_rs[i],
                )));
                assert(post_rs[i] == pre_rs[i]);
                assert(has_active_concept(pre_cs, pre_rs[i].concept_id_1));
                let k = choose|k: int|
                    0 <= k < pre_cs.len() && (#[trigger] pre_cs[k]).concept_id
                        == pre_rs[i].concept_id_1 && is_active_concept(pre_cs[k]);
                assert(post_cs[k] == pre_cs[k]);
            }
        }
        Ok(())
    }

    /// The concept row with the given id, active or invalidated alike —
    /// invalidated concepts stay fetchable by id for audit; only enumeration
    /// and duplicate checks hide them.
    pub fn get_concept(&self, concept_id: i32) -> (r: Result<Concept, EngineError>)
        ensures
            match r {
                Ok(c) => exists|i: int|
                    0 <= i < self.concepts().len() && (#[trigger] self.concepts()[i]).concept_id
                        == concept_id && c == self.concepts()[i],
                Err(e) => e == EngineError::NotFound && !has_concept(self.concepts(), concept_id),
            },
    {
        match self.store.get(concept_id) {
            Some(c) => {
                proof {
                    let i = choose|i: int|
                        0 <= i < self.store.rows().len() && (
                        #[trigger] self.store.rows()[i]).concept_id == concept_id && c
                            == self.store.rows()[i];
                    assert(self.concepts()[i] == self.store.rows()[i]);
                }
                Ok(c)
            },
            None => Err(EngineError::NotFound),
        }
    }

    /// The descriptive row of the target the source concept is actively
    /// mapped onto; `NotFound` when the source has no active relationship
    /// (never mapped, or deleted) or its target does not resolve in the
    /// terminology.
    pub fn get_active_target(&self, source_id: i32) -> (r: Result<Concept, EngineError>)
        requires
            self.wf(),
        ensures
            match r {
                Ok(c) => resolves_active_target(
                    self.relationships(),
                    self.terminology(),
                    source_id,
                    c,
                ),
                Err(e) => e == EngineError::NotFound && !has_resolvable_target(
                    self.relationships(),
                    self.terminology(),
                    source_id,
                ),
            },
    {
        match self.ledger.get_active_target(source_id) {
            None => {
                proof {
                    if has_resolvable_target(self.relationships(), self.terminology(), source_id) {
                        let (i, k): (int, int) = choose|i: int, k: int|
                            0 <= i < self.relationships().len() && (
                            #[trigger] self.relationships()[i]).concept_id_1 == source_id
                                && is_active_relationship(self.relationships()[i]) && 0 <= k
                                < self.terminology().len() && (
                            #[trigger] self.terminology()[k]).concept_id
                                == self.relationships()[i].concept_id_2;
                        assert(has_active_relationship(self.relationships(), source_id));
                    }
                }
                Err(EngineError::NotFound)
            },
            Some(t) => {
                match find_by_id(&self.terminology, t) {
                    Some(k) => {
                        let c = self.terminology[k].clone();
                        proof {
                            let i = choose|i: int|
                                0 <= i < self.ledger.rows().len() && (
                                #[trigger] self.ledger.rows()[i]).concept_id_1 == source_id
                                    && is_active_relationship(self.ledger.rows()[i])
                                    && self.ledger.rows()[i].concept_id_2 == t;
                            assert(self.terminology()[k as int].concept_id == t);
                            assert(resolves_active_target(
                                self.relationships(),
                                self.terminology(),
                                source_id,
                                c,
                            ));
                        }
                        Ok(c)
                    },
                    None => {
                        proof {
                            let i0 = choose|i: int|
                                0 <= i < self.ledger.rows().len() && (
                                #[trigger] self.ledger.rows()[i]).concept_id_1 == source_id
                                    && is_active_relationship(self.ledger.rows()[i])
                                    && self.ledger.rows()[i].concept_id_2 == t;
                            if has_resolvable_target(
                                self.relationships(),
                                self.terminology(),
                                source_id,
                            ) {
                                let (i, k): (int, int) = choose|i: int, k: int|
                                    0 <= i < self.relationships().len() && (
                                    #[trigger] self.relationships()[i]).concept_id_1 == source_id
                                        && is_active_relationship(self.relationships()[i]) && 0 <= k
                                        < self.terminology().len() && (
                                    #[trigger] self.terminology()[k]).concept_id
                                        == self.relationships()[i].concept_id_2;
                                assert(i == i0);
                                assert(self.terminology()[k].concept_id == t);
                                assert(has_concept(self.terminology(), t));
                            }
                        }
                        Err(EngineError::NotFound)
                    },
                }
            },
        }
    }

    /// The active concepts only, in insertion order; invalidated concepts
    /// are hidden from the listing.
    pub fn list_concepts(&self) -> (r: Vec<Concept>)
        ensures
            r@ == active_concepts(self.concepts()),
    {
        self.store.list_active()
    }

    /// Every relationship row, active and invalidated alike, for audit.
    pub fn list_relationships(&self) -> (r: Vec<ConceptRelationship>)
        ensures
            r@ == self.relationships(),
    {
        self.ledger.list_all()
    }
}

/// In every well-formed state — so immediately before and after every
/// operation, each of which requires and re-establishes `wf` — at most one
/// relationship row per source concept is active.
pub proof fn lemma_at_most_one_active_relationship(e: &VersioningEngine)
    requires
        e.wf(),
    ensures
        forall|i: int, j: int|
            0 <= i < e.relationships().len() && 0 <= j < e.relationships().len() && i != j
                && is_active_relationship(#[trigger] e.relationships()[i])
                && is_active_relationship(#[trigger] e.relationships()[j])
                ==> e.relationships()[i].concept_id_1 != e.relationships()[j].concept_id_1,
{
}

/// In every well-formed state no two active concept rows share a natural
/// key: of two creates racing on one key, at most one row can stand active
/// afterwards, whatever their surrogate ids.
pub proof fn lemma_no_duplicate_active_concepts(e: &VersioningEngine)
    requires
        e.wf(),
    ensures
        forall|i: int, j: int|
            0 <= i < e.concepts().len() && 0 <= j < e.concepts().len() && i != j
                && is_active_concept(#[trigger] e.concepts()[i]) && is_active_concept(
                #[trigger] e.concepts()[j],
            ) ==> !same_natural_key(e.concepts()[i], e.concepts()[j]),
{
}

/// Lifecycle monotonicity composes: across any sequence of operations a
/// concept's invalid reason can only move from absent to 'D', never back —
/// no concept is ever reactivated.
pub proof fn lemma_concept_lifecycle_monotone_trans(
    a: Seq<Concept>,
    b: Seq<Concept>,
    c: Seq<Concept>,
)
    requires
        concept_lifecycle_monotone(a, b),
        concept_lifecycle_monotone(b, c),
    ensures
        concept_lifecycle_monotone(a, c),
{
    assert forall|i: int| 0 <= i < a.len() implies ((#[trigger] c[i]).invalid_reason
        == a[i].invalid_reason || (a[i].invalid_reason is None && c[i].invalid_reason == Some(
        InvalidReason::Deleted,
    ))) by {
        assert((#[trigger] b[i]).invalid_reason == a[i].invalid_reason || (
        a[i].invalid_reason is None && b[i].invalid_reason == Some(InvalidReason::Deleted)));
    }
}

/// A successful create leaves an active row carrying the draft's natural
/// key, so a second create whose draft shares that key must find a duplicate
/// — and, by `create`'s contract, return `Conflict` and write nothing.
pub proof fn lemma_create_then_duplicate(
    pre: Seq<Concept>,
    d1: MappedConcept,
    d2: MappedConcept,
    id: i32,
    today: Date,
)
    requires
        d1.domain_id@ == d2.domain_id@,
        d1.vocabulary_id@ == d2.vocabulary_id@,
        d1.concept_code@ == d2.concept_code@,
        d1.concept_class_id@ == d2.concept_class_id@,
    ensures
        has_active_duplicate(pre.push(concept_from_draft(d1, id, today)), d2),
{
    let cs = pre.push(concept_from_draft(d1, id, today));
    assert(is_active_concept(cs[pre.len() as int]));
    assert(key_matches(cs[pre.len() as int], d2));
}

} // verus!
