//! What a response is settled at: from the object that reports it, in a stream
//! or on retrieval, to what the ledger charges.
use vstd::prelude::*;

use crate::json::{json_get, JsonView, NumberView};
use crate::ledger::ReservationId;
use crate::relay::{next_pending, RelayActionView, RelayView};
use crate::responses::{revealed, summary_of, KnownView, ObservationView, ObserveFailure};
use crate::retrieval::{document_leads_to, OutcomeView, RetrievedView};
use crate::sse::EventView;
use crate::state::Transition;
use crate::tables::TablesView;
use crate::transitions::{
    settle_outcome, transition_group, ResponseView, Settlement, Usage, UsageDefect,
};

verus! {

/// Whether a JSON value is this integer.
pub open spec fn is_integer(value: JsonView, n: i64) -> bool {
    match value {
        JsonView::Number(NumberView::Unsigned(given)) => given == n,
        JsonView::Number(NumberView::Negative(given)) => given == n,
        _ => false,
    }
}

/// The two token counts a response object reports.
pub open spec fn reports(object: JsonView, input: i64, output: i64) -> bool {
    &&& json_get(object, "usage"@) matches Some(usage)
    &&& json_get(usage, "input_tokens"@) matches Some(first)
    &&& json_get(usage, "output_tokens"@) matches Some(second)
    &&& is_integer(first, input)
    &&& is_integer(second, output)
}

/// Law: the usage read from a response object is exactly the input and output
/// tokens it reports, whatever else the object and its usage hold; its id and
/// status are the texts it gives, and so are its model and service tier.
pub proof fn usage_is_read_as_reported(
    object: JsonView,
    id: Seq<char>,
    status: Seq<char>,
    input: i64,
    output: i64,
)
    requires
        json_get(object, "id"@) == Some(JsonView::Text(id)),
        json_get(object, "status"@) == Some(JsonView::Text(status)),
        reports(object, input, output),
    ensures
        summary_of(object) matches Some(summary) && {
            &&& summary.id == id
            &&& summary.status == status
            &&& summary.usage == Some(Usage { input_tokens: input, output_tokens: output })
            &&& summary.model == match json_get(object, "model"@) {
                Some(JsonView::Text(model)) => Some(model),
                _ => None,
            }
            &&& summary.service_tier == match json_get(object, "service_tier"@) {
                Some(JsonView::Text(tier)) => Some(tier),
                _ => None,
            }
        },
{
}

/// Law: a response object is read where it has an id and a status, and no
/// other; usage is read from it only where it reports both counts as
/// integers.
pub proof fn what_is_not_reported_is_not_read(object: JsonView)
    ensures
        summary_of(object) is Some <==> (json_get(object, "id"@) matches Some(JsonView::Text(_)))
            && (json_get(object, "status"@) matches Some(JsonView::Text(_))),
        summary_of(object) matches Some(summary) ==> (summary.usage matches Some(usage) ==> reports(
            object,
            usage.input_tokens,
            usage.output_tokens,
        )),
{
}

/// Law: two response objects that agree on the id, the status, the model, the
/// service tier and the two token counts are read the same, whatever else they
/// hold: cached and reasoning tokens are a breakdown, not an addition.
pub proof fn nothing_else_changes_what_is_read(a: JsonView, b: JsonView)
    requires
        json_get(a, "id"@) == json_get(b, "id"@),
        json_get(a, "status"@) == json_get(b, "status"@),
        json_get(a, "model"@) == json_get(b, "model"@),
        json_get(a, "service_tier"@) == json_get(b, "service_tier"@),
        json_get(a, "usage"@) matches Some(x) && json_get(b, "usage"@) matches Some(y) && json_get(
            x,
            "input_tokens"@,
        ) == json_get(y, "input_tokens"@) && json_get(x, "output_tokens"@) == json_get(
            y,
            "output_tokens"@,
        ),
    ensures
        summary_of(a) == summary_of(b),
{
}

/// A status a response will not leave.
pub open spec fn is_over(status: Seq<char>) -> bool {
    status == "completed"@ || status == "incomplete"@ || status == "failed"@ || status
        == "cancelled"@
}

/// The response that settlement is told of.
pub open spec fn told_of(response: ResponseView, object: JsonView, input: i64, output: i64) -> bool {
    &&& response.usage == Some(Usage { input_tokens: input, output_tokens: output })
    &&& json_get(object, "model"@) matches Some(JsonView::Text(model)) ==> response.model == model
    &&& json_get(object, "service_tier"@) matches Some(JsonView::Text(tier))
        ==> response.service_tier == tier
}

/// Law: a retrieved response is settled by the counts it reports exactly where
/// it is the one that was asked for and is over; one still running is tried
/// again later, and so is one that is not the one asked for.
pub proof fn a_retrieved_response_is_settled_as_reported(
    object: JsonView,
    id: Seq<char>,
    status: Seq<char>,
    input: i64,
    output: i64,
    asked: Seq<char>,
)
    requires
        json_get(object, "id"@) == Some(JsonView::Text(id)),
        json_get(object, "status"@) == Some(JsonView::Text(status)),
        reports(object, input, output),
    ensures
        match document_leads_to(Some(object), asked) {
            RetrievedView::Settle(response) => id == asked && is_over(status) && told_of(
                response,
                object,
                input,
                output,
            ),
            RetrievedView::Later(OutcomeView::StillRunning) => id == asked && !is_over(status),
            RetrievedView::Later(OutcomeView::RetryLater(_)) => id != asked,
            _ => false,
        },
{
}

/// The events that tell of a response's life.
pub open spec fn tells_of_life(name: Seq<char>) -> bool {
    name == "response.created"@ || name == "response.queued"@ || name == "response.in_progress"@
        || name == "response.completed"@ || name == "response.incomplete"@ || name
        == "response.failed"@ || name == "response.cancelled"@
}

/// Law: an event that tells of a response's life reveals the response's id
/// where none was known, fails the observer where another was known, and
/// reveals its end, as the object it carries reports it, once it is over.
pub proof fn an_event_reveals_what_it_reports(
    event: EventView,
    name: Seq<char>,
    document: JsonView,
    object: JsonView,
    id: Seq<char>,
    status: Seq<char>,
    input: i64,
    output: i64,
    known: KnownView,
)
    requires
        event.event == Some(name) || (event.event is None && json_get(document, "type"@) == Some(
            JsonView::Text(name),
        )),
        tells_of_life(name),
        name != "error"@,
        json_get(document, "type"@) matches Some(JsonView::Text(kind)) ==> kind == name,
        json_get(document, "response"@) == Some(object),
        json_get(object, "id"@) == Some(JsonView::Text(id)),
        json_get(object, "status"@) == Some(JsonView::Text(status)),
        reports(object, input, output),
    ensures
        ({
            let after = revealed(event, Some(document), known);
            let conflict = known.response_id matches Some(other) && other != id;
            let first = known.response_id is None;
            let ends = is_over(status) && known.terminal is None;
            &&& conflict ==> after.failure == Some(ObserveFailure::ConflictingResponseIds)
                && after.observations.len() == 0 && after.known == known
            &&& !conflict ==> {
                &&& after.known.response_id == Some(id)
                &&& after.observations.len() == (if first {
                    1int
                } else {
                    0
                }) + (if ends {
                    1int
                } else {
                    0
                })
                &&& first ==> after.observations[0] == ObservationView::ResponseId(id)
                &&& ends ==> after.failure is None && (after.observations.last() matches ObservationView::Terminal(
                    summary,
                ) && summary.id == id && summary.status == status && summary.usage == Some(
                    Usage { input_tokens: input, output_tokens: output },
                ) && after.known.terminal == Some(summary))
                &&& !is_over(status) ==> after.failure is None && after.known.terminal
                    == known.terminal
                &&& is_over(status) && known.terminal is Some ==> after.known.terminal
                    == known.terminal && (after.failure is None <==> known.terminal
                    == summary_of(object))
            }
        }),
{
}

/// The text that a document has under a name.
pub open spec fn told(document: Option<JsonView>, name: Seq<char>) -> Option<Seq<char>> {
    match document {
        Some(value) => match json_get(value, name) {
            Some(JsonView::Text(text)) => Some(text),
            _ => None,
        },
        None => None,
    }
}

/// Law: an event that tells of a response's life but cannot be read fails the
/// observer: its data is not a document, carries no response, or calls itself
/// something else. An event of another kind reveals nothing and changes
/// nothing, but for an error, which is passed on.
pub proof fn other_events_reveal_nothing(
    event: EventView,
    name: Seq<char>,
    document: Option<JsonView>,
    known: KnownView,
)
    requires
        event.event == Some(name),
    ensures
        ({
            let after = revealed(event, document, known);
            &&& name != "error"@ && !tells_of_life(name) ==> after.observations.len() == 0
                && after.known == known && after.failure is None
            &&& name == "error"@ ==> after.known == known && after.failure is None
                && after.observations.len() == 1 && (after.observations[0] matches ObservationView::StreamError {
                code,
                message,
            } && code == told(document, "code"@) && message == told(document, "message"@))
            &&& name != "error"@ && tells_of_life(name) && (document is None || (document matches Some(
                value,
            ) && (json_get(value, "response"@) is None || (json_get(value, "type"@) matches Some(
                JsonView::Text(kind),
            ) && kind != name)))) ==> after.known == known && after.observations.len() == 0
                && after.failure == Some(ObserveFailure::MalformedLifecycleEvent)
        }),
{
}

/// Law: what a relay learned is acted on in turn. An id is attached; the end
/// of an unsettled response is settled with the usage, model and service tier
/// that were read.
pub proof fn a_relay_acts_on_what_was_revealed(s: RelayView, now: u64)
    requires
        s.pending.len() > 0,
    ensures
        match s.pending[0] {
            ObservationView::ResponseId(id) => next_pending(s, now).1 == (
            RelayActionView::Attach { response_id: id }),
            ObservationView::Terminal(summary) => s.settled is None ==> (next_pending(
                s,
                now,
            ).1 matches RelayActionView::Settle(response) && response.usage == summary.usage && (
            summary.model matches Some(model) ==> response.model == model) && (
            summary.service_tier matches Some(tier) ==> response.service_tier == tier)),
            _ => true,
        },
{
}

/// Law: a reservation is settled at the sum of the two counts exactly where
/// both are there, neither is negative, their sum can be held, and the model,
/// the service tier and the accounting revision are those it was made with.
/// Anything else is written off, by the first of these that fails.
pub proof fn a_reservation_is_settled_at_the_sum(
    t: TablesView,
    id: ReservationId,
    response: ResponseView,
    accounting_rev: i64,
    now: i64,
    head: int,
)
    requires
        transition_group(t, id, Transition::Settle) == Ok::<int, crate::error::ErrorView>(head),
    ensures
        settle_outcome(t, id, response, accounting_rev, now) matches Ok((settlement, after)) ==> {
            let row = t.rows[head];
            match response.usage {
                None => settlement == Settlement::WrittenOff(UsageDefect::Missing),
                Some(usage) => {
                    let sum = usage.input_tokens + usage.output_tokens;
                    if usage.input_tokens < 0 || usage.output_tokens < 0 {
                        settlement == Settlement::WrittenOff(UsageDefect::Negative)
                    } else if response.model != row.model_snapshot {
                        settlement == Settlement::WrittenOff(UsageDefect::ModelMismatch)
                    } else if response.service_tier != row.service_tier {
                        settlement == Settlement::WrittenOff(UsageDefect::ServiceTierMismatch)
                    } else if accounting_rev != row.accounting_rev {
                        settlement == Settlement::WrittenOff(
                            UsageDefect::AccountingRevisionMismatch,
                        )
                    } else if sum > i64::MAX {
                        settlement == Settlement::WrittenOff(UsageDefect::Overflow)
                    } else {
                        settlement matches Settlement::Settled { actual, overrun } && actual == sum
                            && overrun == (sum > row.liability)
                    }
                },
            }
        },
{
}

/// Law: usage that cannot be trusted latches the pool, and usage beyond the
/// liability latches the model. Nothing else latches anything, and no latch
/// that was there is touched.
pub proof fn settling_latches_on_what_it_cannot_trust(
    t: TablesView,
    id: ReservationId,
    response: ResponseView,
    accounting_rev: i64,
    now: i64,
    head: int,
)
    requires
        transition_group(t, id, Transition::Settle) == Ok::<int, crate::error::ErrorView>(head),
    ensures
        settle_outcome(t, id, response, accounting_rev, now) matches Ok((settlement, after)) ==> {
            let row = t.rows[head];
            let latched = settlement is WrittenOff || (settlement matches Settlement::Settled {
                overrun,
                ..
            } && overrun);
            &&& after.latches.len() == t.latches.len() + if latched {
                1int
            } else {
                0
            }
            &&& forall|i: int|
                0 <= i < t.latches.len() ==> #[trigger] after.latches[i] == t.latches[i]
            &&& latched ==> {
                let latch = after.latches.last();
                &&& latch.cleared is None
                &&& latch.set_at == now
                &&& latch.scope == if settlement is WrittenOff {
                    row.pool_id
                } else {
                    "model:"@ + row.model_snapshot
                }
            }
        },
{
}

} // verus!
