//! Observing an upstream Responses API event stream, and reading the response
//! object that retrieval returns.
//!
//! The proxy relays the stream's bytes to the client unchanged and watches a
//! copy for the two things settlement needs: the response id, first carried by
//! `response.created`, and the final usage, carried by the event that brings
//! the response to a terminal status. Nothing else is interpreted.
//!
//! The observer is strict about the events it does read. A lifecycle event it
//! cannot parse, a second response id, or terminal events that disagree all
//! fail it permanently, because each means the stream can no longer be the
//! basis for settlement. Retrieval by id is the fallback.
use vstd::prelude::*;
use vstd::string::*;
use vstd::utf8::*;

use crate::codec::{json_document, read_json};
use crate::json::{json_get, json_i64, option_text, text_member, Json, JsonView};
use crate::sse::{
    framing_text, lemma_events_stay, new_splitter, packet_boundaries_do_not_matter, push_outcome,
    Event, EventSplitter, EventView, FramingError, SplitterView,
};
use crate::tables::{copy_text, text_view, views};
use crate::text::str_eq;
use crate::transitions::Usage;

verus! {

#[derive(Debug, PartialEq, Eq)]
pub struct ResponseSummary {
    pub id: String,
    pub status: String,
    pub model: Option<String>,
    pub service_tier: Option<String>,
    /// `None` when absent, null, or not a pair of integers. Negative values
    /// are passed through for the ledger's validation to reject.
    pub usage: Option<Usage>,
}

pub struct SummaryView {
    pub id: Seq<char>,
    pub status: Seq<char>,
    pub model: Option<Seq<char>>,
    pub service_tier: Option<Seq<char>>,
    pub usage: Option<Usage>,
}

impl View for ResponseSummary {
    type V = SummaryView;

    open spec fn view(&self) -> SummaryView {
        SummaryView {
            id: self.id@,
            status: self.status@,
            model: text_view(self.model),
            service_tier: text_view(self.service_tier),
            usage: self.usage,
        }
    }
}

/// The usage a response object reports: a pair of integers, or none.
pub open spec fn usage_in(object: JsonView) -> Option<Usage> {
    match json_get(object, "usage"@) {
        Some(usage) => match (json_get(usage, "input_tokens"@), json_get(usage, "output_tokens"@)) {
            (Some(input), Some(output)) => match (json_i64(input), json_i64(output)) {
                (Some(input_tokens), Some(output_tokens)) => Some(
                    Usage { input_tokens, output_tokens },
                ),
                _ => None,
            },
            _ => None,
        },
        None => None,
    }
}

/// The response that an object is; one without an id or a status is none.
pub open spec fn summary_of(object: JsonView) -> Option<SummaryView> {
    match (text_member(object, "id"@), text_member(object, "status"@)) {
        (Some(id), Some(status)) => Some(
            SummaryView {
                id,
                status,
                model: text_member(object, "model"@),
                service_tier: text_member(object, "service_tier"@),
                usage: usage_in(object),
            },
        ),
        _ => None,
    }
}

pub open spec fn summary_view(summary: Option<ResponseSummary>) -> Option<SummaryView> {
    match summary {
        Some(s) => Some(s@),
        None => None,
    }
}

/// The statuses a response will not leave.
pub open spec fn terminal_status(status: Seq<char>) -> bool {
    status == "completed"@ || status == "incomplete"@ || status == "failed"@ || status
        == "cancelled"@
}

/// The text of a member, as a string of its own.
fn owned_text(object: &Json, key: &str) -> (text: Option<String>)
    ensures
        text_view(text) == text_member(object@, key@),
{
    match object.text_of(key) {
        Some(s) => Some(s.to_owned()),
        None => None,
    }
}

/// An integer member.
fn integer_in(object: &Json, key: &str) -> (value: Option<i64>)
    ensures
        value == match json_get(object@, key@) {
            Some(held) => json_i64(held),
            None => None,
        },
{
    match object.get(key) {
        Some(held) => held.as_i64(),
        None => None,
    }
}

impl ResponseSummary {
    /// Reads a response object, as embedded in lifecycle events or returned
    /// by `GET /v1/responses/{id}`.
    pub fn from_object(object: &Json) -> (summary: Option<ResponseSummary>)
        ensures
            summary_view(summary) == summary_of(object@),
    {
        let usage = match object.get("usage") {
            Some(usage) => match (
                integer_in(usage, "input_tokens"),
                integer_in(usage, "output_tokens"),
            ) {
                (Some(input_tokens), Some(output_tokens)) => Some(
                    Usage { input_tokens, output_tokens },
                ),
                _ => None,
            },
            None => None,
        };
        match (owned_text(object, "id"), owned_text(object, "status")) {
            (Some(id), Some(status)) => Some(
                ResponseSummary {
                    id,
                    status,
                    model: owned_text(object, "model"),
                    service_tier: owned_text(object, "service_tier"),
                    usage,
                },
            ),
            _ => None,
        }
    }

    /// A status the response will not leave.
    pub fn is_terminal(&self) -> (terminal: bool)
        ensures
            terminal == terminal_status(self@.status),
    {
        let status = self.status.as_str();
        str_eq(status, "completed") || str_eq(status, "incomplete") || str_eq(status, "failed")
            || str_eq(status, "cancelled")
    }

    /// A copy of the summary.
    pub fn copy(&self) -> (out: ResponseSummary)
        ensures
            out@ == self@,
    {
        ResponseSummary {
            id: self.id.clone(),
            status: self.status.clone(),
            model: copy_text(&self.model),
            service_tier: copy_text(&self.service_tier),
            usage: self.usage,
        }
    }

    /// Whether two summaries say the same.
    pub fn same(&self, other: &ResponseSummary) -> (same: bool)
        ensures
            same == (self@ == other@),
    {
        str_eq(self.id.as_str(), other.id.as_str()) && str_eq(
            self.status.as_str(),
            other.status.as_str(),
        ) && same_text(&self.model, &other.model) && same_text(
            &self.service_tier,
            &other.service_tier,
        ) && same_usage(self.usage, other.usage)
    }
}

fn same_text(a: &Option<String>, b: &Option<String>) -> (same: bool)
    ensures
        same == (text_view(*a) == text_view(*b)),
{
    match (a, b) {
        (Some(x), Some(y)) => str_eq(x.as_str(), y.as_str()),
        (None, None) => true,
        _ => false,
    }
}

fn same_usage(a: Option<Usage>, b: Option<Usage>) -> (same: bool)
    ensures
        same == (a == b),
{
    match (a, b) {
        (Some(x), Some(y)) => x.input_tokens == y.input_tokens && x.output_tokens
            == y.output_tokens,
        (None, None) => true,
        _ => false,
    }
}

#[derive(Debug, PartialEq, Eq)]
pub enum Observation {
    ResponseId(String),
    Terminal(ResponseSummary),
    /// An `error` event. The response may still exist upstream; retrieve it.
    StreamError { code: Option<String>, message: Option<String> },
}

pub enum ObservationView {
    ResponseId(Seq<char>),
    Terminal(SummaryView),
    StreamError { code: Option<Seq<char>>, message: Option<Seq<char>> },
}

impl View for Observation {
    type V = ObservationView;

    open spec fn view(&self) -> ObservationView {
        match *self {
            Observation::ResponseId(id) => ObservationView::ResponseId(id@),
            Observation::Terminal(summary) => ObservationView::Terminal(summary@),
            Observation::StreamError { code, message } => ObservationView::StreamError {
                code: text_view(code),
                message: text_view(message),
            },
        }
    }
}

#[derive(Debug, Clone, Copy, PartialEq, Eq, Structural)]
pub enum ObserveFailure {
    Framing(FramingError),
    MalformedLifecycleEvent,
    ConflictingResponseIds,
    ConflictingTerminals,
}

impl ObserveFailure {
    /// What went wrong, in words.
    pub fn message(self) -> (text: &'static str)
        ensures
            text@ == match self {
                ObserveFailure::Framing(framing) => framing_text(framing),
                ObserveFailure::MalformedLifecycleEvent =>
                    "a response lifecycle event could not be read"@,
                ObserveFailure::ConflictingResponseIds =>
                    "the stream named more than one response"@,
                ObserveFailure::ConflictingTerminals =>
                    "the stream reported more than one final state for the response"@,
            },
    {
        match self {
            ObserveFailure::Framing(framing) => framing.message(),
            ObserveFailure::MalformedLifecycleEvent =>
                "a response lifecycle event could not be read",
            ObserveFailure::ConflictingResponseIds => "the stream named more than one response",
            ObserveFailure::ConflictingTerminals =>
                "the stream reported more than one final state for the response",
        }
    }
}

/// Whether an event speaks of the response's life.
pub open spec fn is_lifecycle(name: Seq<char>) -> bool {
    name == "response.created"@ || name == "response.queued"@ || name == "response.in_progress"@
        || name == "response.completed"@ || name == "response.incomplete"@ || name
        == "response.failed"@ || name == "response.cancelled"@
}

fn lifecycle(name: &str) -> (yes: bool)
    ensures
        yes == is_lifecycle(name@),
{
    str_eq(name, "response.created") || str_eq(name, "response.queued") || str_eq(
        name,
        "response.in_progress",
    ) || str_eq(name, "response.completed") || str_eq(name, "response.incomplete") || str_eq(
        name,
        "response.failed",
    ) || str_eq(name, "response.cancelled")
}

/// What an observer knows of the response.
pub struct KnownView {
    pub response_id: Option<Seq<char>>,
    pub terminal: Option<SummaryView>,
}

/// What one event reveals: the observations, what is known after it, and
/// whether it fails the observer.
pub struct Revealed {
    pub observations: Seq<ObservationView>,
    pub known: KnownView,
    pub failure: Option<ObserveFailure>,
}

pub open spec fn nothing_revealed(known: KnownView) -> Revealed {
    Revealed { observations: Seq::empty(), known, failure: None }
}

pub open spec fn malformed(known: KnownView) -> Revealed {
    Revealed {
        observations: Seq::empty(),
        known,
        failure: Some(ObserveFailure::MalformedLifecycleEvent),
    }
}

/// The name of an event: its own, else the `type` its document carries.
pub open spec fn event_name(event: EventView, document: Option<JsonView>) -> Seq<char> {
    match event.event {
        Some(name) => name,
        None => match document {
            Some(value) => match text_member(value, "type"@) {
                Some(kind) => kind,
                None => Seq::empty(),
            },
            None => Seq::empty(),
        },
    }
}

/// What a response summary reveals.
pub open spec fn with_summary(known: KnownView, summary: SummaryView) -> Revealed {
    match known.response_id {
        Some(id) => if id != summary.id {
            Revealed {
                observations: Seq::empty(),
                known,
                failure: Some(ObserveFailure::ConflictingResponseIds),
            }
        } else {
            with_terminal(known, summary, Seq::empty())
        },
        None => with_terminal(
            KnownView { response_id: Some(summary.id), ..known },
            summary,
            seq![ObservationView::ResponseId(summary.id)],
        ),
    }
}

/// What a summary of the known response reveals of its end.
pub open spec fn with_terminal(
    known: KnownView,
    summary: SummaryView,
    observations: Seq<ObservationView>,
) -> Revealed {
    if !terminal_status(summary.status) {
        Revealed { observations, known, failure: None }
    } else {
        match known.terminal {
            None => Revealed {
                observations: observations.push(ObservationView::Terminal(summary)),
                known: KnownView { terminal: Some(summary), ..known },
                failure: None,
            },
            Some(previous) => Revealed {
                observations,
                known,
                failure: if previous != summary {
                    Some(ObserveFailure::ConflictingTerminals)
                } else {
                    None
                },
            },
        }
    }
}

/// What an event reveals, given the document its data is (`None` where the
/// data is not JSON).
pub open spec fn revealed(event: EventView, document: Option<JsonView>, known: KnownView) -> Revealed {
    let name = event_name(event, document);
    if name == "error"@ {
        let value = match document {
            Some(value) => value,
            None => JsonView::Null,
        };
        Revealed {
            observations: seq![
                ObservationView::StreamError {
                    code: text_member(value, "code"@),
                    message: text_member(value, "message"@),
                },
            ],
            known,
            failure: None,
        }
    } else if !is_lifecycle(name) {
        nothing_revealed(known)
    } else {
        match document {
            None => malformed(known),
            Some(value) => {
                let disagrees = match text_member(value, "type"@) {
                    Some(kind) => kind != name,
                    None => false,
                };
                match json_get(value, "response"@) {
                    Some(object) => match summary_of(object) {
                        Some(summary) => if disagrees {
                            malformed(known)
                        } else {
                            with_summary(known, summary)
                        },
                        None => malformed(known),
                    },
                    None => malformed(known),
                }
            },
        }
    }
}

/// The document an event's data is.
pub open spec fn document_of(event: EventView) -> Option<JsonView> {
    match json_document(encode_utf8(event.data)) {
        Ok(value) => Some(value),
        Err(_) => None,
    }
}

/// What events reveal, one after the other, until one fails the observer.
pub open spec fn all_revealed(events: Seq<EventView>, known: KnownView) -> Revealed
    decreases events.len(),
{
    if events.len() == 0 {
        nothing_revealed(known)
    } else {
        let before = all_revealed(events.drop_last(), known);
        if before.failure is Some {
            before
        } else {
            let last = revealed(events.last(), document_of(events.last()), before.known);
            Revealed {
                observations: before.observations + last.observations,
                known: last.known,
                failure: last.failure,
            }
        }
    }
}

pub struct ObserverView {
    pub splitter: SplitterView,
    pub known: KnownView,
    pub failure: Option<ObserveFailure>,
}

/// Feeding an observer a packet: what it reveals, and the observer after it.
pub open spec fn push_revealed(s: ObserverView, packet: Seq<u8>) -> (
    Seq<ObservationView>,
    ObserverView,
) {
    if s.failure is Some {
        (Seq::empty(), s)
    } else {
        let (events, splitter) = push_outcome(s.splitter, packet);
        let all = all_revealed(events, s.known);
        (
            all.observations,
            ObserverView {
                splitter,
                known: all.known,
                failure: match all.failure {
                    Some(failure) => Some(failure),
                    None => match splitter.failure {
                        Some(framing) => Some(ObserveFailure::Framing(framing)),
                        None => None,
                    },
                },
            },
        )
    }
}

pub open spec fn new_observer() -> ObserverView {
    ObserverView {
        splitter: new_splitter(),
        known: KnownView { response_id: None, terminal: None },
        failure: None,
    }
}

#[derive(Debug)]
pub struct StreamObserver {
    splitter: EventSplitter,
    response_id: Option<String>,
    terminal: Option<ResponseSummary>,
    failure: Option<ObserveFailure>,
}

impl View for StreamObserver {
    type V = ObserverView;

    closed spec fn view(&self) -> ObserverView {
        ObserverView {
            splitter: self.splitter@,
            known: KnownView {
                response_id: text_view(self.response_id),
                terminal: summary_view(self.terminal),
            },
            failure: self.failure,
        }
    }
}

pub open spec fn document_known(document: Option<&Json>) -> Option<JsonView> {
    match document {
        Some(value) => Some(value@),
        None => None,
    }
}

impl Default for StreamObserver {
    fn default() -> (observer: StreamObserver)
        ensures
            observer@ == new_observer(),
    {
        StreamObserver {
            splitter: EventSplitter::new(),
            response_id: None,
            terminal: None,
            failure: None,
        }
    }
}

impl StreamObserver {
    pub fn new() -> (observer: StreamObserver)
        ensures
            observer@ == new_observer(),
    {
        Self::default()
    }

    /// Feeds a copy of relayed bytes. Returns what they revealed; nothing
    /// once the observer has failed.
    pub fn push(&mut self, bytes: &[u8]) -> (observations: Vec<Observation>)
        ensures
            (views(observations@), final(self)@) == push_revealed(old(self)@, bytes@),
    {
        let ghost before = self@;
        let mut observations: Vec<Observation> = Vec::new();
        assert(views(observations@) =~= Seq::<ObservationView>::empty());
        if self.failure.is_some() {
            return observations;
        }
        let events = self.splitter.push(bytes);
        let ghost split = self.splitter@;
        let ghost all = views(events@);
        assert(all.take(0) =~= Seq::empty());
        let mut i: usize = 0;
        while i < events.len()
            invariant
                i <= events@.len(),
                all == views(events@),
                (all, split) == push_outcome(before.splitter, bytes@),
                before == old(self)@,
                before.failure is None,
                self.failure is None,
                self.splitter@ == split,
                all_revealed(all.take(i as int), before.known) == (Revealed {
                    observations: views(observations@),
                    known: self@.known,
                    failure: None,
                }),
            decreases events.len() - i,
        {
            proof {
                assert(all.take(i + 1).drop_last() =~= all.take(i as int));
                assert(all.take(i + 1).last() == events@[i as int]@);
            }
            let event = &events[i];
            let document = match read_json(event.data.as_str().as_bytes()) {
                Ok(value) => Some(value),
                Err(_) => None,
            };
            let failed = match &document {
                Some(value) => self.observe(event, Some(value), &mut observations),
                None => self.observe(event, None, &mut observations),
            };
            if failed.is_some() {
                proof {
                    lemma_failure_stays(all, before.known, i + 1);
                }
                self.failure = failed;
                return observations;
            }
            i = i + 1;
        }
        assert(all.take(all.len() as int) =~= all);
        if let Some(framing) = self.splitter.failure() {
            self.failure = Some(ObserveFailure::Framing(framing));
        }
        observations
    }

    pub fn response_id(&self) -> (id: Option<&str>)
        ensures
            option_text(id) == self@.known.response_id,
    {
        match &self.response_id {
            Some(id) => Some(id.as_str()),
            None => None,
        }
    }

    pub fn terminal(&self) -> (terminal: Option<&ResponseSummary>)
        ensures
            match terminal {
                Some(summary) => self@.known.terminal == Some(summary@),
                None => self@.known.terminal is None,
            },
    {
        match &self.terminal {
            Some(summary) => Some(summary),
            None => None,
        }
    }

    pub fn failure(&self) -> (failure: Option<ObserveFailure>)
        ensures
            failure == self@.failure,
    {
        self.failure
    }

    /// Takes one event and the document its data is (`None` where the data is
    /// not JSON), adds what they reveal, and says whether they fail the
    /// observer.
    pub fn observe(
        &mut self,
        event: &Event,
        document: Option<&Json>,
        out: &mut Vec<Observation>,
    ) -> (failure: Option<ObserveFailure>)
        ensures
            final(self)@ == (ObserverView {
                known: revealed(event@, document_known(document), old(self)@.known).known,
                ..old(self)@
            }),
            views(final(out)@) == views(old(out)@) + revealed(
                event@,
                document_known(document),
                old(self)@.known,
            ).observations,
            failure == revealed(event@, document_known(document), old(self)@.known).failure,
    {
        let ghost start = views(out@);
        let ghost result = revealed(event@, document_known(document), self@.known);
        let name = match &event.event {
            Some(name) => name.clone(),
            None => match document {
                Some(value) => match owned_text(value, "type") {
                    Some(kind) => kind,
                    None => String::new(),
                },
                None => String::new(),
            },
        };
        assert(name@ =~= event_name(event@, document_known(document)));
        if str_eq(name.as_str(), "error") {
            let (code, message) = match document {
                Some(value) => (owned_text(value, "code"), owned_text(value, "message")),
                None => (None, None),
            };
            out.push(Observation::StreamError { code, message });
            assert(views(out@) =~= start + result.observations);
            return None;
        }
        if !lifecycle(name.as_str()) {
            assert(views(out@) =~= start + result.observations);
            return None;
        }
        assert(start + Seq::<ObservationView>::empty() =~= start);
        let value = match document {
            Some(value) => value,
            None => {
                return Some(ObserveFailure::MalformedLifecycleEvent);
            },
        };
        match value.text_of("type") {
            Some(kind) => {
                if !str_eq(kind, name.as_str()) {
                    return Some(ObserveFailure::MalformedLifecycleEvent);
                }
            },
            None => {},
        }
        let found = match value.get("response") {
            Some(object) => ResponseSummary::from_object(object),
            None => None,
        };
        let summary = match found {
            Some(summary) => summary,
            None => {
                return Some(ObserveFailure::MalformedLifecycleEvent);
            },
        };
        assert(result == with_summary(self@.known, summary@));
        match &self.response_id {
            None => {
                let id = summary.id.clone();
                out.push(Observation::ResponseId(summary.id.clone()));
                self.response_id = Some(id);
            },
            Some(id) => {
                if !str_eq(id.as_str(), summary.id.as_str()) {
                    return Some(ObserveFailure::ConflictingResponseIds);
                }
            },
        }
        let ghost named = views(out@);
        if summary.is_terminal() {
            let conflict = match &self.terminal {
                None => None,
                Some(previous) => Some(!previous.same(&summary)),
            };
            match conflict {
                None => {
                    self.terminal = Some(summary.copy());
                    out.push(Observation::Terminal(summary));
                    assert(views(out@) =~= start + result.observations);
                },
                Some(true) => {
                    assert(views(out@) =~= start + result.observations);
                    return Some(ObserveFailure::ConflictingTerminals);
                },
                Some(false) => {},
            }
        }
        assert(views(out@) =~= start + result.observations);
        None
    }
}

/// A failure among the first events is the outcome of them all.
proof fn lemma_failure_stays(events: Seq<EventView>, known: KnownView, n: int)
    requires
        0 <= n <= events.len(),
        all_revealed(events.take(n), known).failure is Some,
    ensures
        all_revealed(events, known) == all_revealed(events.take(n), known),
    decreases events.len() - n,
{
    if n < events.len() {
        assert(events.take(n + 1).drop_last() =~= events.take(n));
        lemma_failure_stays(events, known, n + 1);
    } else {
        assert(events.take(n) =~= events);
    }
}

/// Law: once it has failed, an observer reveals nothing more and changes no
/// more.
pub proof fn a_failed_observer_stays_failed(s: ObserverView, packet: Seq<u8>)
    requires
        s.failure is Some,
    ensures
        push_revealed(s, packet) == (Seq::<ObservationView>::empty(), s),
{
}

/// Whether nothing that was known is known differently.
pub open spec fn extends(before: KnownView, after: KnownView) -> bool {
    &&& before.response_id is Some ==> after.response_id == before.response_id
    &&& before.terminal is Some ==> after.terminal == before.terminal
}

/// Law: a stream names one response and one final state. What an observer
/// has told of them never changes.
pub proof fn what_is_known_stays_known(s: ObserverView, packet: Seq<u8>)
    ensures
        extends(s.known, push_revealed(s, packet).1.known),
{
    if s.failure is None {
        lemma_extends(push_outcome(s.splitter, packet).0, s.known);
    }
}

proof fn lemma_extends(events: Seq<EventView>, known: KnownView)
    ensures
        extends(known, all_revealed(events, known).known),
    decreases events.len(),
{
    if events.len() > 0 {
        lemma_extends(events.drop_last(), known);
    }
}

/// Events in two runs reveal what they do in one, unless the first run fails.
proof fn lemma_revealed_in_turn(a: Seq<EventView>, b: Seq<EventView>, known: KnownView)
    requires
        all_revealed(a, known).failure is None,
    ensures
        all_revealed(a + b, known) == (Revealed {
            observations: all_revealed(a, known).observations + all_revealed(
                b,
                all_revealed(a, known).known,
            ).observations,
            ..all_revealed(b, all_revealed(a, known).known)
        }),
    decreases b.len(),
{
    let first = all_revealed(a, known);
    if b.len() == 0 {
        assert(a + b =~= a);
        assert(first.observations + Seq::<ObservationView>::empty() =~= first.observations);
    } else {
        lemma_revealed_in_turn(a, b.drop_last(), known);
        assert((a + b).drop_last() =~= a + b.drop_last());
        assert((a + b).last() == b.last());
        let before = all_revealed(b.drop_last(), first.known);
        if before.failure is None {
            let last = revealed(b.last(), document_of(b.last()), before.known);
            assert((first.observations + before.observations) + last.observations =~= first.observations
                + (before.observations + last.observations));
        }
    }
}

/// What more events reveal comes after what the first ones did, and nothing
/// comes after a failure.
proof fn lemma_failed_run_stays(a: Seq<EventView>, b: Seq<EventView>, known: KnownView)
    requires
        all_revealed(a, known).failure is Some,
    ensures
        all_revealed(a + b, known) == all_revealed(a, known),
    decreases b.len(),
{
    if b.len() == 0 {
        assert(a + b =~= a);
    } else {
        lemma_failed_run_stays(a, b.drop_last(), known);
        assert((a + b).drop_last() =~= a + b.drop_last());
    }
}

/// Law: packet boundaries do not matter. Two packets reveal what one packet
/// with the bytes of both does, and the same is known and has failed after
/// them, as long as the first does not trip the cap on an event. Unless the
/// first fails it, the whole observer is the same.
pub proof fn events_split_across_packets_are_observed(
    s: ObserverView,
    a: Seq<u8>,
    b: Seq<u8>,
)
    requires
        s.failure is Some || push_revealed(s, a).1.failure != Some(
            ObserveFailure::Framing(FramingError::EventTooLarge),
        ),
    ensures
        ({
            let (first, mid) = push_revealed(s, a);
            let (second, after) = push_revealed(mid, b);
            let (whole, at_once) = push_revealed(s, a + b);
            &&& whole == first + second
            &&& at_once.known == after.known
            &&& at_once.failure == after.failure
            &&& s.failure is Some || mid.failure is None ==> at_once == after
        }),
{
    let (first, mid) = push_revealed(s, a);
    assert(first + Seq::<ObservationView>::empty() =~= first);
    if s.failure is None {
        let (one, split) = push_outcome(s.splitter, a);
        let all = all_revealed(one, s.known);
        if all.failure is Some {
            lemma_events_stay(s.splitter, a, b);
            let whole = push_outcome(s.splitter, a + b).0;
            let more = whole.skip(one.len() as int);
            assert(whole =~= one + more);
            lemma_failed_run_stays(one, more, s.known);
        } else {
            packet_boundaries_do_not_matter(s.splitter, a, b);
            lemma_revealed_in_turn(one, push_outcome(split, b).0, s.known);
        }
    }
}

/// Law: events are read in turn, each with what is known from those before it,
/// and nothing is read after one that fails the observer.
pub proof fn events_are_read_in_turn(events: Seq<EventView>, last: EventView, known: KnownView)
    ensures
        ({
            let before = all_revealed(events, known);
            let after = all_revealed(events.push(last), known);
            let one = revealed(last, document_of(last), before.known);
            if before.failure is Some {
                after == before
            } else {
                &&& after.observations == before.observations + one.observations
                &&& after.known == one.known
                &&& after.failure == one.failure
            }
        }),
        all_revealed(Seq::empty(), known).observations.len() == 0,
        all_revealed(Seq::empty(), known).known == known,
        all_revealed(Seq::empty(), known).failure is None,
{
    assert(events.push(last).drop_last() =~= events);
}

/// Law: a packet reveals what the events it completes reveal, and an observer
/// fails where one of them fails it or where the framing does.
pub proof fn a_packet_reveals_what_its_events_do(s: ObserverView, packet: Seq<u8>)
    requires
        s.failure is None,
    ensures
        ({
            let (events, splitter) = push_outcome(s.splitter, packet);
            let all = all_revealed(events, s.known);
            let (observations, after) = push_revealed(s, packet);
            &&& observations == all.observations
            &&& after.known == all.known
            &&& after.splitter == splitter
            &&& after.failure is None <==> all.failure is None && splitter.failure is None
            &&& all.failure is Some ==> after.failure == all.failure
            &&& all.failure is None && splitter.failure is Some ==> after.failure == Some(
                ObserveFailure::Framing(splitter.failure->0),
            )
        }),
{
}

} // verus!
