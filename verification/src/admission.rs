//! Turning a normalized request into a reservation, or into a refusal.
//!
//! The order is the safety argument. The model must be in the catalog, so its
//! pool and maximum output are known. The epoch window must be open, so the
//! day being spent is the day upstream will charge. The liability must be an
//! upper bound: the structural bound when the request qualifies for it, and
//! otherwise the provider's counts, summed over every body the request needs
//! counted. Only then does the ledger compare and reserve, and only a
//! reservation produces a permit to send.
//!
//! Nothing here can send a request. The permit it leads to is the only way
//! to, and the dispatcher consumes it once.
use vstd::prelude::*;
use vstd::string::*;
use vstd::utf8::*;

use crate::bodies::{count_bodies, flat_of, openai_fields, FlatText, FlatView};
use crate::codec::{json_bytes, json_document, read_json};
use crate::dispatch::{DispatchPermit, PermitView};
use crate::epoch::{ClosedReason, Window};
use crate::hwm::{hex_text_reads_back, fnv, fnv1a, hex_text, hex_value, push_hex};
use crate::json::{items_view, json_get, json_u64, Json, JsonView};
use crate::ledger::{
    Admission, AdmissionView, Refusal, RefusalView, RequestView as ReserveView, ReservationRequest,
};
use crate::liability::{
    capped_output, estimate, with_exact_input, EstimateError, EstimatorPolicy, InputShape,
    Liability, ModelSpec,
};
use crate::request::{CreateRequest, RequestView, UPSTREAM_SERVICE_TIER};
use crate::tables::views;
use crate::text::{
    chars_of, decimal_text, decimal_text_reads_back, digits_value, push_decimal, str_eq, string_of,
};

verus! {

// ---------------------------------------------------------------------------
// The catalog.

/// A configured model: the pool that pays for it, and its bounds.
#[derive(Debug)]
pub struct CatalogEntry {
    pub pool_id: String,
    pub spec: ModelSpec,
}

pub struct EntryView {
    pub pool_id: Seq<char>,
    pub spec: ModelSpec,
}

impl View for CatalogEntry {
    type V = EntryView;

    open spec fn view(&self) -> EntryView {
        EntryView { pool_id: self.pool_id@, spec: self.spec }
    }
}

/// The configured models by name.
#[derive(Debug)]
pub struct Catalog {
    pub models: Vec<(String, CatalogEntry)>,
}

pub open spec fn models_view(models: Seq<(String, CatalogEntry)>) -> Seq<(Seq<char>, EntryView)> {
    Seq::new(models.len(), |i: int| (models[i].0@, models[i].1@))
}

impl View for Catalog {
    type V = Seq<(Seq<char>, EntryView)>;

    open spec fn view(&self) -> Seq<(Seq<char>, EntryView)> {
        models_view(self.models@)
    }
}

/// The entry of a model, from a position on.
pub open spec fn entry_of(
    models: Seq<(Seq<char>, EntryView)>,
    name: Seq<char>,
    from: int,
) -> Option<EntryView>
    decreases models.len() - from,
{
    if from < 0 || from >= models.len() {
        None
    } else if models[from].0 == name {
        Some(models[from].1)
    } else {
        entry_of(models, name, from + 1)
    }
}

impl Catalog {
    /// The entry of a model.
    pub fn get(&self, name: &str) -> (entry: Option<&CatalogEntry>)
        ensures
            match entry {
                Some(found) => entry_of(self@, name@, 0) == Some(found@),
                None => entry_of(self@, name@, 0) is None,
            },
    {
        let mut i: usize = 0;
        while i < self.models.len()
            invariant
                i <= self.models@.len(),
                entry_of(self@, name@, i as int) == entry_of(self@, name@, 0),
            decreases self.models.len() - i,
        {
            assert(self@[i as int].0 == self.models@[i as int].0@);
            if str_eq(self.models[i].0.as_str(), name) {
                return Some(&self.models[i].1);
            }
            i = i + 1;
        }
        None
    }
}

// ---------------------------------------------------------------------------
// Refusals.

/// Why a request was not admitted.
#[derive(Debug, PartialEq, Eq)]
pub enum Refused {
    /// Not a configured model, so neither its pool nor its output ceiling is
    /// known. Routing to a substitute is the router's job, not admission's.
    UnknownModel(String),
    /// The day's pool may not be spent at all right now.
    WindowClosed(ClosedReason),
    /// The ledger is still on an earlier epoch. The caller rolls it over and
    /// tries again.
    RolloverDue { epoch: i64 },
    /// The ledger refused: quota, a latch, or a safety input.
    Ledger(Refusal),
    /// The input could not be counted, so no upper bound exists.
    InputNotCounted(String),
    Estimate(EstimateError),
    LedgerUnavailable(String),
}

pub enum RefusedView {
    UnknownModel(Seq<char>),
    WindowClosed(ClosedReason),
    RolloverDue { epoch: i64 },
    Ledger(RefusalView),
    InputNotCounted(Seq<char>),
    Estimate(EstimateError),
    LedgerUnavailable(Seq<char>),
}

impl View for Refused {
    type V = RefusedView;

    open spec fn view(&self) -> RefusedView {
        match *self {
            Refused::UnknownModel(model) => RefusedView::UnknownModel(model@),
            Refused::WindowClosed(reason) => RefusedView::WindowClosed(reason),
            Refused::RolloverDue { epoch } => RefusedView::RolloverDue { epoch },
            Refused::Ledger(refusal) => RefusedView::Ledger(refusal@),
            Refused::InputNotCounted(detail) => RefusedView::InputNotCounted(detail@),
            Refused::Estimate(error) => RefusedView::Estimate(error),
            Refused::LedgerUnavailable(detail) => RefusedView::LedgerUnavailable(detail@),
        }
    }
}

// ---------------------------------------------------------------------------
// The decision, step by step.

#[derive(Debug)]
pub struct AdmissionPolicy {
    pub estimator: EstimatorPolicy,
    /// Bumped when the meaning of recorded accounting changes; settlement
    /// refuses a reservation from another revision.
    pub accounting_rev: i64,
    /// Safety inputs every admission depends on, such as `data_sharing`.
    pub required_safety_inputs: Vec<String>,
}

pub struct PolicyView {
    pub estimator: EstimatorPolicy,
    pub accounting_rev: i64,
    pub required_safety_inputs: Seq<Seq<char>>,
}

impl View for AdmissionPolicy {
    type V = PolicyView;

    open spec fn view(&self) -> PolicyView {
        PolicyView {
            estimator: self.estimator,
            accounting_rev: self.accounting_rev,
            required_safety_inputs: views(self.required_safety_inputs@),
        }
    }
}

/// Input that the provider is counting, body by body.
#[derive(Debug)]
pub struct Counting {
    pub pool_id: String,
    pub bodies: Vec<Json>,
    /// The body to count next.
    pub next: usize,
    /// The sum of the counts so far.
    pub input_bound: u64,
    pub output_bound: u64,
}

pub struct CountingView {
    pub pool_id: Seq<char>,
    pub bodies: Seq<JsonView>,
    pub next: int,
    pub input_bound: u64,
    pub output_bound: u64,
}

impl View for Counting {
    type V = CountingView;

    open spec fn view(&self) -> CountingView {
        CountingView {
            pool_id: self.pool_id@,
            bodies: items_view(self.bodies@),
            next: self.next as int,
            input_bound: self.input_bound,
            output_bound: self.output_bound,
        }
    }
}

/// A reservation to ask the ledger for, and the exact body it covers.
#[derive(Debug)]
pub struct Proposal {
    pub request: ReservationRequest,
    pub body: Vec<u8>,
}

pub struct ProposalView {
    pub request: ReserveView,
    pub body: Seq<u8>,
}

impl View for Proposal {
    type V = ProposalView;

    open spec fn view(&self) -> ProposalView {
        ProposalView { request: self.request@, body: self.body@ }
    }
}

/// What admission needs next.
#[derive(Debug)]
pub enum AdmitStep {
    Refuse(Refused),
    /// One call to the provider's counter, for the next body. It costs
    /// nothing and consumes no quota.
    Count(Counting),
    Reserve(Proposal),
}

pub enum StepView {
    Refuse(RefusedView),
    Count(CountingView),
    Reserve(ProposalView),
}

impl View for AdmitStep {
    type V = StepView;

    open spec fn view(&self) -> StepView {
        match *self {
            AdmitStep::Refuse(refused) => StepView::Refuse(refused@),
            AdmitStep::Count(counting) => StepView::Count(counting@),
            AdmitStep::Reserve(proposal) => StepView::Reserve(proposal@),
        }
    }
}

/// What is decided of a request.
#[derive(Debug)]
pub enum Decision {
    Admitted(DispatchPermit),
    Refused(Refused),
}

pub enum DecisionView {
    Admitted(PermitView),
    Refused(RefusedView),
}

impl View for Decision {
    type V = DecisionView;

    open spec fn view(&self) -> DecisionView {
        match *self {
            Decision::Admitted(permit) => DecisionView::Admitted(permit@),
            Decision::Refused(refused) => DecisionView::Refused(refused@),
        }
    }
}

/// The structural bound of a flat request: one token per byte, and the
/// framing allowance per text node.
pub open spec fn flat_tokens(policy: EstimatorPolicy, flat: FlatView) -> nat {
    match flat.instructions {
        Some(text) => encode_utf8(text).len() + encode_utf8(flat.input).len() + policy.framing()
            * 2,
        None => encode_utf8(flat.input).len() + policy.framing() * 1,
    }
}

/// The liability of a request, as far as it is known before sending.
pub open spec fn liability_of(
    policy: EstimatorPolicy,
    spec: ModelSpec,
    request: RequestView,
) -> Result<Liability, EstimateError> {
    let output = capped_output(spec, request.max_output_tokens);
    if request.max_output_tokens == Some(0u64) {
        Err(EstimateError::ZeroOutputCap)
    } else {
        match flat_of(request.fields) {
            Some(flat) if spec.byte_level_encoding_known => {
                let bound = flat_tokens(policy, flat) + output;
                if bound <= u64::MAX {
                    Ok(Liability::Known(bound as u64))
                } else {
                    Err(EstimateError::Overflow)
                }
            },
            _ => Ok(Liability::NeedsExactInput { output_bound: output as u64 }),
        }
    }
}

/// What binds a reservation to the bytes its liability was computed for.
pub open spec fn digest_text(body: Seq<u8>) -> Seq<char> {
    "fnv1a64:"@ + hex_text(fnv(body)) + ":"@ + decimal_text(body.len())
}

/// The body that is sent for a request.
pub open spec fn sent_body(request: RequestView) -> Seq<u8> {
    json_bytes(JsonView::Object(openai_fields(request.fields)))
}

/// The reservation a request needs.
pub open spec fn proposal_of(
    policy: PolicyView,
    request: RequestView,
    pool_id: Seq<char>,
    liability: u64,
) -> ProposalView {
    ProposalView {
        request: ReserveView {
            pool_id,
            liability,
            request_digest: digest_text(sent_body(request)),
            model_snapshot: request.model,
            service_tier: UPSTREAM_SERVICE_TIER@,
            accounting_rev: policy.accounting_rev,
            required_safety_inputs: policy.required_safety_inputs,
        },
        body: sent_body(request),
    }
}

/// The first step of admitting a request.
pub open spec fn first_step(
    catalog: Seq<(Seq<char>, EntryView)>,
    policy: PolicyView,
    request: RequestView,
    window: Window,
) -> StepView {
    match entry_of(catalog, request.model, 0) {
        None => StepView::Refuse(RefusedView::UnknownModel(request.model)),
        Some(entry) => match window {
            Window::Closed(reason) => StepView::Refuse(RefusedView::WindowClosed(reason)),
            Window::RolloverDue { epoch } => StepView::Refuse(RefusedView::RolloverDue { epoch }),
            Window::Open => match liability_of(policy.estimator, entry.spec, request) {
                Err(error) => StepView::Refuse(RefusedView::Estimate(error)),
                Ok(Liability::Known(liability)) => StepView::Reserve(
                    proposal_of(policy, request, entry.pool_id, liability),
                ),
                Ok(Liability::NeedsExactInput { output_bound }) => StepView::Count(
                    CountingView {
                        pool_id: entry.pool_id,
                        bodies: count_bodies(request.fields),
                        next: 0,
                        input_bound: 0,
                        output_bound,
                    },
                ),
            },
        },
    }
}

/// The step after the next body was counted, or could not be.
pub open spec fn counted_step(
    policy: PolicyView,
    request: RequestView,
    counting: CountingView,
    answer: Result<u64, Seq<char>>,
) -> StepView {
    match answer {
        Err(detail) => StepView::Refuse(RefusedView::InputNotCounted(detail)),
        Ok(count) => {
            let sum = counting.input_bound + count;
            if sum > u64::MAX {
                StepView::Refuse(RefusedView::Estimate(EstimateError::Overflow))
            } else if counting.next + 1 < counting.bodies.len() {
                StepView::Count(
                    CountingView {
                        next: counting.next + 1,
                        input_bound: sum as u64,
                        ..counting
                    },
                )
            } else if sum + counting.output_bound > u64::MAX {
                StepView::Refuse(RefusedView::Estimate(EstimateError::Overflow))
            } else {
                StepView::Reserve(
                    proposal_of(
                        policy,
                        request,
                        counting.pool_id,
                        (sum + counting.output_bound) as u64,
                    ),
                )
            }
        },
    }
}

/// What the ledger's answer decides.
pub open spec fn decision_on(
    policy: PolicyView,
    body: Seq<u8>,
    answer: Result<AdmissionView, Seq<char>>,
) -> DecisionView {
    match answer {
        Ok(AdmissionView::Reserved(id)) => DecisionView::Admitted(
            PermitView { reservation: id, body, accounting_rev: policy.accounting_rev },
        ),
        Ok(AdmissionView::Refused(refusal)) => DecisionView::Refused(
            RefusedView::Ledger(refusal),
        ),
        Err(detail) => DecisionView::Refused(RefusedView::LedgerUnavailable(detail)),
    }
}

/// The digest of a body. Not a cryptographic commitment: it catches a permit
/// paired with the wrong body, which is a programming error, not an attack.
pub fn digest(body: &[u8]) -> (text: String)
    ensures
        text@ == digest_text(body@),
{
    let mut text = String::from_str("fnv1a64:");
    push_hex(&mut text, fnv1a(body));
    text.push_str(":");
    push_decimal(&mut text, body.len() as u128);
    text
}

pub struct Admitter {
    pub catalog: Catalog,
    pub policy: AdmissionPolicy,
}

/// Copies of texts.
fn copy_texts(texts: &Vec<String>) -> (out: Vec<String>)
    ensures
        views(out@) == views(texts@),
{
    let mut out: Vec<String> = Vec::new();
    let mut i: usize = 0;
    while i < texts.len()
        invariant
            i <= texts@.len(),
            out@.len() == i,
            forall|k: int| 0 <= k < i ==> (#[trigger] out@[k])@ == texts@[k]@,
        decreases texts.len() - i,
    {
        out.push(texts[i].clone());
        i = i + 1;
    }
    assert(views(out@) =~= views(texts@));
    out
}

pub open spec fn answer_view(answer: Result<u64, String>) -> Result<u64, Seq<char>> {
    match answer {
        Ok(count) => Ok(count),
        Err(detail) => Err(detail@),
    }
}

pub open spec fn admission_view(answer: Result<Admission, String>) -> Result<
    AdmissionView,
    Seq<char>,
> {
    match answer {
        Ok(admission) => Ok(admission@),
        Err(detail) => Err(detail@),
    }
}

impl Admitter {
    pub fn new(catalog: Catalog, policy: AdmissionPolicy) -> (admitter: Admitter)
        ensures
            admitter.catalog == catalog,
            admitter.policy == policy,
    {
        Admitter { catalog, policy }
    }

    /// The first step of admitting a request. `window` must be the decision
    /// made from the trusted time that the ledger is later asked with, so that
    /// one reading governs the whole admission.
    pub fn begin(&self, request: &CreateRequest, window: Window) -> (step: AdmitStep)
        ensures
            step@ == first_step(self.catalog@, self.policy@, request@, window),
    {
        let entry = match self.catalog.get(request.model()) {
            Some(entry) => entry,
            None => {
                return AdmitStep::Refuse(Refused::UnknownModel(request.model().to_owned()));
            },
        };
        match window {
            Window::Open => {},
            Window::Closed(reason) => {
                return AdmitStep::Refuse(Refused::WindowClosed(reason));
            },
            Window::RolloverDue { epoch } => {
                return AdmitStep::Refuse(Refused::RolloverDue { epoch });
            },
        }
        let shape = match request.flat_text() {
            Some(flat) => InputShape::FlatText {
                instructions: flat.instructions,
                input: flat.input,
            },
            None => InputShape::Structured,
        };
        match estimate(&self.policy.estimator, &entry.spec, shape, request.max_output_tokens()) {
            Err(error) => AdmitStep::Refuse(Refused::Estimate(error)),
            Ok(Liability::Known(liability)) => AdmitStep::Reserve(
                self.propose(request, entry.pool_id.as_str(), liability),
            ),
            Ok(Liability::NeedsExactInput { output_bound }) => AdmitStep::Count(
                Counting {
                    pool_id: entry.pool_id.clone(),
                    bodies: request.input_count_bodies(),
                    next: 0,
                    input_bound: 0,
                    output_bound,
                },
            ),
        }
    }

    /// The step after the next body was counted, or could not be.
    pub fn counted(
        &self,
        request: &CreateRequest,
        counting: Counting,
        answer: Result<u64, String>,
    ) -> (step: AdmitStep)
        requires
            counting.next < counting.bodies@.len(),
        ensures
            step@ == counted_step(self.policy@, request@, counting@, answer_view(answer)),
    {
        let count: u64 = match answer {
            Ok(count) => count,
            Err(detail) => {
                return AdmitStep::Refuse(Refused::InputNotCounted(detail));
            },
        };
        let sum: u64 = match counting.input_bound.checked_add(count) {
            Some(sum) => sum,
            None => {
                return AdmitStep::Refuse(Refused::Estimate(EstimateError::Overflow));
            },
        };
        let total: usize = counting.bodies.len();
        if counting.next + 1 < total {
            return AdmitStep::Count(
                Counting {
                    pool_id: counting.pool_id,
                    bodies: counting.bodies,
                    next: counting.next + 1,
                    input_bound: sum,
                    output_bound: counting.output_bound,
                },
            );
        }
        match with_exact_input(sum, counting.output_bound) {
            Ok(liability) => AdmitStep::Reserve(
                self.propose(request, counting.pool_id.as_str(), liability),
            ),
            Err(error) => AdmitStep::Refuse(Refused::Estimate(error)),
        }
    }

    /// The reservation a request needs.
    fn propose(&self, request: &CreateRequest, pool_id: &str, liability: u64) -> (proposal: Proposal)
        ensures
            proposal@ == proposal_of(self.policy@, request@, pool_id@, liability),
    {
        let body = request.openai_body();
        Proposal {
            request: ReservationRequest {
                pool_id: pool_id.to_owned(),
                liability,
                request_digest: digest(body.as_slice()),
                model_snapshot: request.model().to_owned(),
                service_tier: UPSTREAM_SERVICE_TIER.to_owned(),
                accounting_rev: self.policy.accounting_rev,
                required_safety_inputs: copy_texts(&self.policy.required_safety_inputs),
            },
            body,
        }
    }

    /// What the ledger's answer to a proposal decides. Only a reservation
    /// makes a permit, bound to the body its liability was computed for.
    pub fn reserved(&self, body: Vec<u8>, answer: Result<Admission, String>) -> (decision: Decision)
        ensures
            decision@ == decision_on(self.policy@, body@, admission_view(answer)),
    {
        match answer {
            Ok(Admission::Reserved(id)) => Decision::Admitted(
                DispatchPermit::new(id, body, self.policy.accounting_rev),
            ),
            Ok(Admission::Refused(refusal)) => Decision::Refused(Refused::Ledger(refusal)),
            Err(detail) => Decision::Refused(Refused::LedgerUnavailable(detail)),
        }
    }
}

// ---------------------------------------------------------------------------
// The counter's answer.

/// The count that a counter's answer carries.
pub open spec fn count_in(document: Option<JsonView>) -> Result<u64, Seq<char>> {
    let missing = Err::<u64, Seq<char>>("the counter's answer carried no input_tokens"@);
    match document {
        Some(value) => match json_get(value, "input_tokens"@) {
            Some(held) => match json_u64(held) {
                Some(count) => Ok(count),
                None => missing,
            },
            None => missing,
        },
        None => missing,
    }
}

/// The first characters of a text.
pub open spec fn beginning(text: Seq<char>, most: nat) -> Seq<char> {
    if text.len() <= most {
        text
    } else {
        text.take(most as int)
    }
}

/// What a counter's answer says: the count, or why there is none.
pub open spec fn counter_answer(success: bool, status: Seq<char>, text: Seq<char>) -> Result<
    u64,
    Seq<char>,
> {
    if !success {
        Err("the counter answered "@ + status + ": "@ + beginning(text, 300))
    } else {
        count_in(
            match json_document(encode_utf8(text)) {
                Ok(value) => Some(value),
                Err(_) => None,
            },
        )
    }
}

/// The first characters of a text.
pub fn clip(text: &str, most: usize) -> (out: String)
    ensures
        out@ == beginning(text@, most as nat),
{
    let chars = chars_of(text);
    let to: usize = if chars.len() <= most {
        chars.len()
    } else {
        most
    };
    assert(chars@.subrange(0, to as int) =~= beginning(text@, most as nat));
    string_of(&chars, 0, to)
}

/// The count that a counter's answer carries, given the document its text is
/// (`None` where it is not JSON).
pub fn read_count(document: Option<&Json>) -> (answer: Result<u64, String>)
    ensures
        answer_view(answer) == count_in(crate::json::option_view(document)),
{
    let count: Option<u64> = match document {
        Some(value) => match value.get("input_tokens") {
            Some(held) => held.as_u64(),
            None => None,
        },
        None => None,
    };
    match count {
        Some(n) => Ok(n),
        None => Err(String::from_str("the counter's answer carried no input_tokens")),
    }
}

/// What a counter's answer says: the count, or why there is none. `status` is
/// the HTTP status as it is written.
pub fn read_counter(success: bool, status: &str, text: &str) -> (answer: Result<u64, String>)
    ensures
        answer_view(answer) == counter_answer(success, status@, text@),
{
    if !success {
        let mut detail = String::from_str("the counter answered ");
        detail.push_str(status);
        detail.push_str(": ");
        detail.push_str(clip(text, 300).as_str());
        return Err(detail);
    }
    match read_json(text.as_bytes()) {
        Ok(value) => read_count(Some(&value)),
        Err(_) => read_count(None),
    }
}

// ---------------------------------------------------------------------------
// Laws.

/// Law: nothing is counted or reserved unless the model is configured and the
/// window is open.
pub proof fn a_closed_window_reserves_nothing(
    catalog: Seq<(Seq<char>, EntryView)>,
    policy: PolicyView,
    request: RequestView,
    window: Window,
)
    requires
        !(window is Open) || entry_of(catalog, request.model, 0) is None,
    ensures
        first_step(catalog, policy, request, window) is Refuse,
{
}

/// The sum of counts.
pub open spec fn count_sum(counts: Seq<u64>) -> nat
    decreases counts.len(),
{
    if counts.len() == 0 {
        0
    } else {
        count_sum(counts.drop_last()) + counts.last() as nat
    }
}

/// The steps that a run of counts leads to.
pub open spec fn after_counts(
    policy: PolicyView,
    request: RequestView,
    step: StepView,
    counts: Seq<u64>,
) -> StepView
    decreases counts.len(),
{
    if counts.len() == 0 {
        step
    } else {
        match after_counts(policy, request, step, counts.drop_last()) {
            StepView::Count(counting) => counted_step(
                policy,
                request,
                counting,
                Ok(counts.last()),
            ),
            other => other,
        }
    }
}

/// Law: what is reserved for a counted request is the sum of every count and
/// the output bound, never a single count of the request.
pub proof fn every_counted_body_is_reserved(
    policy: PolicyView,
    request: RequestView,
    start: CountingView,
    counts: Seq<u64>,
)
    requires
        start.next == 0,
        start.input_bound == 0,
        start.bodies.len() > 0,
        counts.len() == start.bodies.len(),
        count_sum(counts) + start.output_bound <= u64::MAX,
    ensures
        after_counts(policy, request, StepView::Count(start), counts) == StepView::Reserve(
            proposal_of(
                policy,
                request,
                start.pool_id,
                (count_sum(counts) + start.output_bound) as u64,
            ),
        ),
{
    lemma_counts_so_far(policy, request, start, counts.drop_last());
}

proof fn lemma_counts_so_far(
    policy: PolicyView,
    request: RequestView,
    start: CountingView,
    counts: Seq<u64>,
)
    requires
        start.next == 0,
        start.input_bound == 0,
        counts.len() < start.bodies.len(),
        count_sum(counts) <= u64::MAX,
    ensures
        after_counts(policy, request, StepView::Count(start), counts) == StepView::Count(
            CountingView {
                next: counts.len() as int,
                input_bound: count_sum(counts) as u64,
                ..start
            },
        ),
    decreases counts.len(),
{
    if counts.len() > 0 {
        lemma_counts_so_far(policy, request, start, counts.drop_last());
    }
}

/// Law: a digest tells the length and the hash of the body it was made from.
pub proof fn a_digest_binds_length_and_hash(a: Seq<u8>, b: Seq<u8>)
    requires
        digest_text(a) == digest_text(b),
    ensures
        a.len() == b.len(),
        fnv(a) == fnv(b),
{
    lemma_digest_parts(a);
    lemma_digest_parts(b);
}

proof fn lemma_digest_parts(body: Seq<u8>)
    ensures
        digest_text(body).len() >= 25,
        hex_value(digest_text(body).subrange(8, 24)) == Some(fnv(body)),
        digits_value(digest_text(body).skip(25)) == Some(body.len()),
{
    reveal_strlit("fnv1a64:");
    reveal_strlit(":");
    let text = digest_text(body);
    let hash = hex_text(fnv(body));
    hex_text_reads_back(fnv(body));
    decimal_text_reads_back(body.len());
    assert("fnv1a64:"@.len() == 8);
    assert(":"@.len() == 1);
    assert(text.subrange(8, 24) =~= hash);
    assert(text.skip(25) =~= decimal_text(body.len()));
}

/// Law: a count that fails refuses the request, rather than estimating it.
pub proof fn an_uncountable_input_is_refused(
    policy: PolicyView,
    request: RequestView,
    counting: CountingView,
    detail: Seq<char>,
)
    ensures
        counted_step(policy, request, counting, Err(detail)) == StepView::Refuse(
            RefusedView::InputNotCounted(detail),
        ),
{
}

/// Law: an input that no count can hold, alone or with its output, is refused
/// as such, and never reserved for less.
pub proof fn what_cannot_be_held_is_not_reserved(
    policy: PolicyView,
    request: RequestView,
    counting: CountingView,
    count: u64,
)
    requires
        counting.input_bound + count > u64::MAX || (counting.next + 1 >= counting.bodies.len()
            && counting.input_bound + count + counting.output_bound > u64::MAX),
    ensures
        counted_step(policy, request, counting, Ok(count)) == StepView::Refuse(
            RefusedView::Estimate(EstimateError::Overflow),
        ),
{
}

/// Law: a counter that does not succeed gives no count, whatever it answers, and
/// the reason names its status and shows the first 300 characters of the
/// answer.
pub proof fn a_counter_that_fails_gives_no_count(status: Seq<char>, text: Seq<char>)
    ensures
        counter_answer(false, status, text) matches Err(detail) && ({
            let shown = detail.skip(
                ("the counter answered "@ + status + ": "@).len() as int,
            );
            &&& ("the counter answered "@ + status + ": "@).is_prefix_of(detail)
            &&& shown.is_prefix_of(text)
            &&& shown == text || shown.len() == 300
            &&& shown.len() <= 300
        }),
{
    let head = "the counter answered "@ + status + ": "@;
    let kept = beginning(text, 300);
    assert((head + kept).skip(head.len() as int) =~= kept);
    assert(head.is_prefix_of(head + kept));
}

} // verus!
