//! The `thoth.ask` answer, as the workbench reads it. Every disclosure an
//! operator needs to judge an answer's standing travels: freshness,
//! assurance, limitations, omitted claim classes, and the notice that an
//! answer grants nothing.
use vstd::prelude::*;

verus! {

/// One grounded claim, with the records that back it.
pub struct ClaimView {
    pub claim_id: String,
    /// Wire spelling, e.g. `demonstrated_capability`.
    pub claim_class: String,
    pub subject: String,
    /// Wire spelling of the capability ladder position.
    pub status: String,
    /// Generated from typed fields, never free-form model output.
    pub statement: String,
    pub snapshot_ref: String,
    pub evidence_refs: Vec<String>,
    pub settlement_refs: Vec<String>,
    pub capability_record_ref: Option<String>,
}

/// The answer to one `thoth.ask`.
pub struct ThothAnswerView {
    pub answer_id: String,
    pub question_id: String,
    /// `answered`, `partial` or `denied`; a denial is a governed outcome.
    pub disposition: String,
    pub claims: Vec<ClaimView>,
    /// Claim classes this answer was not permitted to speak to.
    pub omitted_claim_classes: Vec<String>,
    pub snapshot_ref: String,
    /// `current` or `stale`.
    pub freshness: String,
    pub assurance: String,
    pub limitations: Vec<String>,
    /// The fixed notice that an answer grants nothing.
    pub authority_notice: String,
    pub answered_at: String,
}

} // verus!
