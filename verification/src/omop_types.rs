//! Row types of the registry: concepts, mapping relationships, the draft a
//! caller submits, and the result and error types of the versioning engine,
//! together with the specification predicates the contracts are stated over.

use vstd::prelude::*;

verus! {

/// First surrogate id handed out for locally defined concepts. Ids below this
/// value belong to the externally owned target terminology.
pub const FIRST_LOCAL_CONCEPT_ID: i32 = 2_000_000_000;

/// A calendar date, held as plain year / month / day numbers.
#[derive(Clone, Copy, Debug, PartialEq, Eq, Structural)]
pub struct Date {
    pub year: i32,
    pub month: u8,
    pub day: u8,
}

/// Why a row stopped being the current version: superseded by a retarget
/// (persisted as the code 'U') or retired with its concept (the code 'D').
/// An absent reason means the row is active. Once set, a reason never changes
/// and is never cleared.
#[derive(Clone, Copy, Debug, PartialEq, Eq, Structural)]
pub enum InvalidReason {
    Superseded,
    Deleted,
}

impl InvalidReason {
    /// The single-character code under which the reason is persisted.
    pub open spec fn code_spec(self) -> char {
        match self {
            InvalidReason::Superseded => 'U',
            InvalidReason::Deleted => 'D',
        }
    }

    pub fn code(self) -> (c: char)
        ensures
            c == self.code_spec(),
    {
        match self {
            InvalidReason::Superseded => 'U',
            InvalidReason::Deleted => 'D',
        }
    }
}

/// The one relationship kind this registry records.
#[derive(Clone, Copy, Debug, PartialEq, Eq, Structural)]
pub enum RelationshipKind {
    MapsTo,
}

impl RelationshipKind {
    /// The code under which the kind is persisted.
    pub fn code(self) -> (s: &'static str)
        ensures
            s@ == "Maps to"@,
    {
        "Maps to"
    }
}

/// How an operation of the versioning engine fails.
#[derive(Clone, Copy, Debug, PartialEq, Eq, Structural)]
pub enum EngineError {
    /// A natural-key or identity collision with an existing active concept.
    Conflict,
    /// The referenced concept or relationship is missing or already inactive.
    NotFound,
    /// The requested target does not exist in the target terminology.
    TargetNotFound,
    /// Any other persistence failure; reported opaquely and never retried.
    StoreFailure,
}

/// A concept row: a locally or externally defined coded entity.
#[derive(Debug)]
pub struct Concept {
    pub concept_id: i32,
    pub concept_name: String,
    pub domain_id: String,
    pub vocabulary_id: String,
    pub concept_class_id: String,
    pub standard_concept: Option<String>,
    pub concept_code: String,
    pub valid_start_date: Date,
    pub valid_end_date: Date,
    pub invalid_reason: Option<InvalidReason>,
}

/// A mapping edge from a local concept to a target terminology concept.
#[derive(Clone, Copy, Debug, PartialEq, Eq)]
pub struct ConceptRelationship {
    pub concept_id_1: i32,
    pub concept_id_2: i32,
    pub relationship_id: RelationshipKind,
    pub valid_start_date: Date,
    pub valid_end_date: Date,
    pub invalid_reason: Option<InvalidReason>,
}

/// The draft a caller submits to create a concept mapped onto a target.
#[derive(Debug)]
pub struct MappedConcept {
    pub concept_name: String,
    pub domain_id: String,
    pub vocabulary_id: String,
    pub concept_class_id: String,
    pub concept_code: String,
    pub maps_to_concept_id: i32,
}

/// The id assigned to a newly created concept.
#[derive(Clone, Copy, Debug, PartialEq, Eq)]
pub struct NewConceptId {
    pub concept_id: Option<i32>,
}

fn clone_opt_string(s: &Option<String>) -> (res: Option<String>)
    ensures
        res == *s,
{
    match s {
        Some(x) => Some(x.clone()),
        None => None,
    }
}

impl Clone for Concept {
    fn clone(&self) -> (res: Self)
        ensures
            res == *self,
    {
        Concept {
            concept_id: self.concept_id,
            concept_name: self.concept_name.clone(),
            domain_id: self.domain_id.clone(),
            vocabulary_id: self.vocabulary_id.clone(),
            concept_class_id: self.concept_class_id.clone(),
            standard_concept: clone_opt_string(&self.standard_concept),
            concept_code: self.concept_code.clone(),
            valid_start_date: self.valid_start_date,
            valid_end_date: self.valid_end_date,
            invalid_reason: self.invalid_reason,
        }
    }
}

impl Clone for MappedConcept {
    fn clone(&self) -> (res: Self)
        ensures
            res == *self,
    {
        MappedConcept {
            concept_name: self.concept_name.clone(),
            domain_id: self.domain_id.clone(),
            vocabulary_id: self.vocabulary_id.clone(),
            concept_class_id: self.concept_class_id.clone(),
            concept_code: self.concept_code.clone(),
            maps_to_concept_id: self.maps_to_concept_id,
        }
    }
}

/// A row is active while its invalid reason is absent.
pub open spec fn is_active_concept(c: Concept) -> bool {
    c.invalid_reason is None
}

/// A relationship row is active while its invalid reason is absent.
pub open spec fn is_active_relationship(r: ConceptRelationship) -> bool {
    r.invalid_reason is None
}

/// The far-future expiry marking an open-ended validity window.
pub open spec fn sentinel_date() -> Date {
    Date { year: 2099, month: 12, day: 31 }
}

/// The sentinel expiry as a runtime value.
pub fn sentinel_expiry() -> (d: Date)
    ensures
        d == sentinel_date(),
{
    Date { year: 2099, month: 12, day: 31 }
}

/// A concept row carries the natural key a draft asks for.
pub open spec fn key_matches(c: Concept, d: MappedConcept) -> bool {
    &&& c.domain_id@ == d.domain_id@
    &&& c.vocabulary_id@ == d.vocabulary_id@
    &&& c.concept_code@ == d.concept_code@
    &&& c.concept_class_id@ == d.concept_class_id@
}

/// Two concept rows carry the same natural key
/// (domain, vocabulary, code, class), whatever their surrogate ids.
pub open spec fn same_natural_key(a: Concept, b: Concept) -> bool {
    &&& a.domain_id@ == b.domain_id@
    &&& a.vocabulary_id@ == b.vocabulary_id@
    &&& a.concept_code@ == b.concept_code@
    &&& a.concept_class_id@ == b.concept_class_id@
}

/// Some active concept row already carries the draft's natural key.
pub open spec fn has_active_duplicate(cs: Seq<Concept>, d: MappedConcept) -> bool {
    exists|i: int|
        0 <= i < cs.len() && is_active_concept(#[trigger] cs[i]) && key_matches(cs[i], d)
}

/// Some row carries the given concept id, active or not.
pub open spec fn has_concept(cs: Seq<Concept>, id: i32) -> bool {
    exists|i: int| 0 <= i < cs.len() && (#[trigger] cs[i]).concept_id == id
}

/// Some active row carries the given concept id.
pub open spec fn has_active_concept(cs: Seq<Concept>, id: i32) -> bool {
    exists|i: int|
        0 <= i < cs.len() && (#[trigger] cs[i]).concept_id == id && is_active_concept(cs[i])
}

/// Some active relationship row has the given source concept.
pub open spec fn has_active_relationship(rs: Seq<ConceptRelationship>, source_id: i32) -> bool {
    exists|i: int|
        0 <= i < rs.len() && (#[trigger] rs[i]).concept_id_1 == source_id
            && is_active_relationship(rs[i])
}

/// The concept row a freshly inserted draft becomes: active, valid from today
/// until the sentinel expiry, with the given surrogate id.
pub open spec fn concept_from_draft(d: MappedConcept, id: i32, today: Date) -> Concept {
    Concept {
        concept_id: id,
        concept_name: d.concept_name,
        domain_id: d.domain_id,
        vocabulary_id: d.vocabulary_id,
        concept_class_id: d.concept_class_id,
        standard_concept: None,
        concept_code: d.concept_code,
        valid_start_date: today,
        valid_end_date: sentinel_date(),
        invalid_reason: None,
    }
}

/// A freshly inserted mapping edge: active, valid from today until the
/// sentinel expiry.
pub open spec fn new_relationship(source_id: i32, target_id: i32, today: Date) -> ConceptRelationship {
    ConceptRelationship {
        concept_id_1: source_id,
        concept_id_2: target_id,
        relationship_id: RelationshipKind::MapsTo,
        valid_start_date: today,
        valid_end_date: sentinel_date(),
        invalid_reason: None,
    }
}

/// A relationship row after invalidation: the validity window is closed as of
/// the given date and the reason recorded; every other field is untouched.
pub open spec fn invalidated_relationship(
    r: ConceptRelationship,
    reason: InvalidReason,
    as_of: Date,
) -> ConceptRelationship {
    ConceptRelationship { valid_end_date: as_of, invalid_reason: Some(reason), ..r }
}

/// A concept row after invalidation, by the same rule.
pub open spec fn invalidated_concept(c: Concept, reason: InvalidReason, as_of: Date) -> Concept {
    Concept { valid_end_date: as_of, invalid_reason: Some(reason), ..c }
}

/// The relationship table after every active row of the given source has been
/// invalidated with the given reason; every other row is untouched.
pub open spec fn invalidate_active_relationships(
    rs: Seq<ConceptRelationship>,
    source_id: i32,
    reason: InvalidReason,
    as_of: Date,
) -> Seq<ConceptRelationship> {
    Seq::new(
        rs.len(),
        |i: int|
            if rs[i].concept_id_1 == source_id && is_active_relationship(rs[i]) {
                invalidated_relationship(rs[i], reason, as_of)
            } else {
                rs[i]
            },
    )
}

/// The concept table after the active row with the given id (if any) has been
/// invalidated with the given reason as of the given date; every other row is
/// untouched.
pub open spec fn invalidate_concept_with_id(
    cs: Seq<Concept>,
    id: i32,
    reason: InvalidReason,
    as_of: Date,
) -> Seq<Concept> {
    Seq::new(
        cs.len(),
        |i: int|
            if cs[i].concept_id == id && is_active_concept(cs[i]) {
                invalidated_concept(cs[i], reason, as_of)
            } else {
                cs[i]
            },
    )
}

/// The active concept rows, in insertion order.
pub open spec fn active_concepts(cs: Seq<Concept>) -> Seq<Concept> {
    cs.filter(|c: Concept| is_active_concept(c))
}

/// Filtering for active rows commutes with appending a row.
pub proof fn lemma_active_concepts_push(s: Seq<Concept>, x: Concept)
    ensures
        active_concepts(s.push(x)) == (if is_active_concept(x) {
            active_concepts(s).push(x)
        } else {
            active_concepts(s)
        }),
{
    reveal_with_fuel(Seq::<_>::filter, 2);
    assert(s.push(x).drop_last() =~= s);
}

/// No row of the empty table is active.
pub proof fn lemma_active_concepts_empty()
    ensures
        active_concepts(Seq::<Concept>::empty()) == Seq::<Concept>::empty(),
{
    reveal_with_fuel(Seq::<_>::filter, 1);
}

/// A concept's invalid reason only ever moves from absent to 'D'; rows are
/// never reactivated and never re-stamped, and existing rows are never
/// removed.
pub open spec fn concept_lifecycle_monotone(pre: Seq<Concept>, post: Seq<Concept>) -> bool {
    &&& pre.len() <= post.len()
    &&& forall|i: int|
        0 <= i < pre.len() ==> ((#[trigger] post[i]).invalid_reason == pre[i].invalid_reason || (
        pre[i].invalid_reason is None && post[i].invalid_reason == Some(InvalidReason::Deleted)))
}

/// A relationship's invalid reason only ever moves from absent to a set code;
/// rows are never reactivated and never removed.
pub open spec fn relationship_lifecycle_monotone(
    pre: Seq<ConceptRelationship>,
    post: Seq<ConceptRelationship>,
) -> bool {
    &&& pre.len() <= post.len()
    &&& forall|i: int|
        0 <= i < pre.len() ==> ((#[trigger] post[i]).invalid_reason == pre[i].invalid_reason || (
        pre[i].invalid_reason is None && post[i].invalid_reason is Some))
}

/// No two rows share a surrogate concept id.
pub open spec fn unique_concept_ids(cs: Seq<Concept>) -> bool {
    forall|i: int, j: int|
        0 <= i < cs.len() && 0 <= j < cs.len() && i != j ==> (#[trigger] cs[i]).concept_id != (
        #[trigger] cs[j]).concept_id
}

/// No two active rows share a natural key.
pub open spec fn active_natural_keys_unique(cs: Seq<Concept>) -> bool {
    forall|i: int, j: int|
        0 <= i < cs.len() && 0 <= j < cs.len() && i != j && is_active_concept(#[trigger] cs[i])
            && is_active_concept(#[trigger] cs[j]) ==> !same_natural_key(cs[i], cs[j])
}

/// No source concept has more than one active relationship row.
pub open spec fn at_most_one_active_per_source(rs: Seq<ConceptRelationship>) -> bool {
    forall|i: int, j: int|
        0 <= i < rs.len() && 0 <= j < rs.len() && i != j && is_active_relationship(
            #[trigger] rs[i],
        ) && is_active_relationship(#[trigger] rs[j]) ==> rs[i].concept_id_1 != rs[j].concept_id_1
}

/// Every active relationship hangs off an active source concept.
pub open spec fn active_sources_active(
    rs: Seq<ConceptRelationship>,
    cs: Seq<Concept>,
) -> bool {
    forall|i: int|
        0 <= i < rs.len() && is_active_relationship(#[trigger] rs[i]) ==> has_active_concept(
            cs,
            rs[i].concept_id_1,
        )
}

/// Index of the first row carrying the given concept id, active or not.
pub fn find_by_id(v: &Vec<Concept>, id: i32) -> (r: Option<usize>)
    ensures
        match r {
            Some(i) => i < v@.len() && v@[i as int].concept_id == id && (forall|j: int|
                0 <= j < i ==> (#[trigger] v@[j]).concept_id != id),
            None => !has_concept(v@, id),
        },
{
    let mut k: usize = 0;
    while k < v.len()
        invariant
            k <= v@.len(),
            forall|j: int| 0 <= j < k ==> (#[trigger] v@[j]).concept_id != id,
        decreases v@.len() - k,
    {
        if v[k].concept_id == id {
            return Some(k);
        }
        k += 1;
    }
    None
}

} // verus!
