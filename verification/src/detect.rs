//! Classification of one observed response.

use vstd::prelude::*;

use crate::text::ascii_lower;
use crate::text::contains;
use crate::text::is_ascii_text;
use crate::text::is_substring;
use crate::text::lowercase;
use crate::text::to_lowercase;

verus! {

/// Margin, in milliseconds, that a delayed response must exceed on top of the
/// calibrated baseline latency.
pub const TIME_MARGIN_MS: u64 = 5000;

/// Lowest status code of the server-error class.
pub const SERVER_ERROR_STATUS: u16 = 500;

/// The detection categories.
#[derive(Debug, Clone, Copy, PartialEq, Eq, Structural)]
pub enum Category {
    TimeBased,
    ErrorBased,
    StatusBased,
}

/// What made a response count as a detection.
#[derive(Debug, PartialEq, Eq)]
pub enum Evidence {
    /// The response took this many milliseconds.
    Elapsed(u64),
    /// The body held this error signature.
    Signature(String),
    /// The response had this status code.
    Status(u16),
}

/// Evidence as plain mathematical values.
pub enum EvidenceModel {
    Elapsed(u64),
    Signature(Seq<char>),
    Status(u16),
}

impl View for Evidence {
    type V = EvidenceModel;

    open spec fn view(&self) -> EvidenceModel {
        match self {
            Evidence::Elapsed(ms) => EvidenceModel::Elapsed(*ms),
            Evidence::Signature(text) => EvidenceModel::Signature(text@),
            Evidence::Status(code) => EvidenceModel::Status(*code),
        }
    }
}

impl DeepView for Evidence {
    type V = EvidenceModel;

    open spec fn deep_view(&self) -> EvidenceModel {
        self@
    }
}

impl EvidenceModel {
    /// The category that evidence of this kind belongs to.
    pub open spec fn category(self) -> Category {
        match self {
            EvidenceModel::Elapsed(_) => Category::TimeBased,
            EvidenceModel::Signature(_) => Category::ErrorBased,
            EvidenceModel::Status(_) => Category::StatusBased,
        }
    }
}

impl Clone for Evidence {
    fn clone(&self) -> (copy: Evidence)
        ensures
            copy@ == self@,
    {
        match self {
            Evidence::Elapsed(ms) => Evidence::Elapsed(*ms),
            Evidence::Signature(text) => Evidence::Signature(text.clone()),
            Evidence::Status(code) => Evidence::Status(*code),
        }
    }
}

impl Evidence {
    /// The category that this evidence belongs to.
    pub fn category(&self) -> (category: Category)
        ensures
            category == self@.category(),
    {
        match self {
            Evidence::Elapsed(_) => Category::TimeBased,
            Evidence::Signature(_) => Category::ErrorBased,
            Evidence::Status(_) => Category::StatusBased,
        }
    }
}

/// One detection: the payload that triggered it and the evidence.
#[derive(Debug, PartialEq, Eq)]
pub struct Finding {
    pub payload: String,
    pub evidence: Evidence,
}

/// A detection as plain mathematical values.
pub struct FindingModel {
    pub payload: Seq<char>,
    pub evidence: EvidenceModel,
}

impl View for Finding {
    type V = FindingModel;

    open spec fn view(&self) -> FindingModel {
        FindingModel { payload: self.payload@, evidence: self.evidence@ }
    }
}

impl DeepView for Finding {
    type V = FindingModel;

    open spec fn deep_view(&self) -> FindingModel {
        self@
    }
}

impl Finding {
    /// The category of the detection.
    pub fn category(&self) -> (category: Category)
        ensures
            category == self@.evidence.category(),
    {
        self.evidence.category()
    }
}

/// Whether a response that took `elapsed_ms` counts as delayed against the
/// baseline `offset`.
pub open spec fn is_delayed(elapsed_ms: u64, offset: u128) -> bool {
    elapsed_ms as int > TIME_MARGIN_MS as int + offset as int
}

/// Index of the first signature that occurs in `body`; the number of signatures where
/// none does.
pub open spec fn first_match(body: Seq<char>, signatures: Seq<Seq<char>>) -> int
    decreases signatures.len(),
{
    if signatures.len() == 0 || is_substring(body, signatures[0]) {
        0
    } else {
        1 + first_match(body, signatures.drop_first())
    }
}

/// The verdict on a response with the given status and lower-cased body: the first
/// signature that occurs in the body is the evidence; failing that, a status of the
/// server-error class is; failing that, the response is benign.
pub open spec fn error_evidence(
    status: u16,
    lower_body: Seq<char>,
    signatures: Seq<Seq<char>>,
) -> Option<EvidenceModel> {
    let at = first_match(lower_body, signatures);
    if at < signatures.len() {
        Some(EvidenceModel::Signature(signatures[at]))
    } else if status >= SERVER_ERROR_STATUS {
        Some(EvidenceModel::Status(status))
    } else {
        None
    }
}

/// Time-based detector: positive exactly when the elapsed time exceeds the
/// fixed margin plus the baseline offset.
pub fn classify_time_based(elapsed_ms: u64, offset: u128) -> (positive: bool)
    ensures
        positive == is_delayed(elapsed_ms, offset),
{
    match offset.checked_add(TIME_MARGIN_MS as u128) {
        Some(threshold) => (elapsed_ms as u128) > threshold,
        None => false,
    }
}

/// Time-based detector with its evidence: the elapsed time where the response counts as
/// delayed.
pub fn detect_time_based(elapsed_ms: u64, offset: u128) -> (evidence: Option<Evidence>)
    ensures
        evidence.deep_view() == (if is_delayed(elapsed_ms, offset) {
            Some(EvidenceModel::Elapsed(elapsed_ms))
        } else {
            None
        }),
{
    if classify_time_based(elapsed_ms, offset) {
        Some(Evidence::Elapsed(elapsed_ms))
    } else {
        None
    }
}

/// What the first match is: it lies within bounds, the signature there occurs in the
/// body, and none before it does.
pub proof fn lemma_first_match(body: Seq<char>, signatures: Seq<Seq<char>>)
    ensures
        0 <= first_match(body, signatures) <= signatures.len(),
        first_match(body, signatures) < signatures.len() ==> is_substring(
            body,
            signatures[first_match(body, signatures)],
        ),
        forall|i: int|
            0 <= i < first_match(body, signatures) ==> !is_substring(body, #[trigger] signatures[i]),
    decreases signatures.len(),
{
    if signatures.len() == 0 || is_substring(body, signatures[0]) {
    } else {
        let rest = signatures.drop_first();
        lemma_first_match(body, rest);
        assert forall|i: int| 0 <= i < first_match(body, signatures) implies !is_substring(
            body,
            #[trigger] signatures[i],
        ) by {
            if i > 0 {
                assert(rest[i - 1] == signatures[i]);
            }
        }
    }
}

/// Where no signature before `at` occurs in the body, and the one at `at` does or `at`
/// is the number of signatures, `at` is the first match.
proof fn lemma_first_match_is(body: Seq<char>, signatures: Seq<Seq<char>>, at: int)
    requires
        0 <= at <= signatures.len(),
        forall|i: int| 0 <= i < at ==> !is_substring(body, #[trigger] signatures[i]),
        at == signatures.len() || is_substring(body, signatures[at]),
    ensures
        first_match(body, signatures) == at,
{
    lemma_first_match(body, signatures);
}

/// Index of the first signature that occurs in the lower-cased body.
pub fn match_signature(lower_body: &str, signatures: &Vec<String>) -> (at: usize)
    ensures
        at == first_match(lower_body@, signatures.deep_view()),
{
    let ghost all = signatures.deep_view();
    let mut at: usize = 0;
    while at < signatures.len() && !contains(lower_body, signatures[at].as_str())
        invariant
            at <= signatures.len(),
            all == signatures.deep_view(),
            forall|i: int| 0 <= i < at ==> !is_substring(lower_body@, #[trigger] all[i]),
        decreases signatures.len() - at,
    {
        assert(all[at as int] == signatures@[at as int]@);
        at += 1;
    }
    proof {
        if at < signatures.len() {
            assert(all[at as int] == signatures@[at as int]@);
        }
        lemma_first_match_is(lower_body@, all, at as int);
    }
    at
}

/// Error-based detector on a body that is already in lower case.
pub fn classify_lowered(status: u16, lower_body: &str, signatures: &Vec<String>) -> (evidence:
    Option<Evidence>)
    ensures
        evidence.deep_view() == error_evidence(status, lower_body@, signatures.deep_view()),
{
    let at = match_signature(lower_body, signatures);
    if at < signatures.len() {
        Some(Evidence::Signature(signatures[at].clone()))
    } else if status >= SERVER_ERROR_STATUS {
        Some(Evidence::Status(status))
    } else {
        None
    }
}

/// Error-based detector: the body is put in lower case and searched for the signatures;
/// a server-error status is the fallback.
pub fn classify_error_based(status: u16, body: &str, signatures: &Vec<String>) -> (evidence:
    Option<Evidence>)
    ensures
        evidence.deep_view() == error_evidence(status, lowercase(body@), signatures.deep_view()),
        is_ascii_text(body@) ==> lowercase(body@) == ascii_lower(body@),
{
    let lower = to_lowercase(body);
    classify_lowered(status, lower.as_str(), signatures)
}

} // verus!
