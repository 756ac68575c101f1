//! Serving one request, step by step: what is read, admitted, sent and
//! answered, and in what order.
use vstd::prelude::*;
use vstd::string::*;

use crate::admission::{
    admission_view, answer_view, counted_step, decision_on, first_step, Admitter, AdmitStep,
    Counting, CountingView, Decision, DecisionView, EntryView, PolicyView, Refused, RefusedView,
    StepView,
};
use crate::bodies::{openrouter_fields, structured};
use crate::codec::json_bytes;
use crate::config::{OpenRouterModel, RouteModelView};
use crate::dispatch::{DispatchPermit, Head, HeadView, PermitView};
use crate::epoch::{epoch_of, Window};
use crate::json::{Json, JsonView};
use crate::ledger::{
    Admission, AdmissionView, Refusal, RefusalView, RequestView as ReserveView, ReservationRequest,
};
use crate::openrouter::{covers, model_for};
use crate::openrouter_dispatch::{Sent, SentView};
use crate::replies::{
    by_openai, by_openrouter, error_reply, error_view, head_response, head_view, refusal_response,
    refused_view, rejection_reply, rejection_view, sent_response, sent_view, timeless_reply,
    timeless_view, upgrade_reply, upgrade_view, Attribution, AttributionView, Reply, ReplyView,
};
use crate::request::{parsed_request, CreateRequest, RequestView};
use crate::tools::usage_of;

verus! {

/// What serving works from.
pub struct Server {
    pub admitter: Admitter,
    /// The models a request may be routed to when the day's grant is spent.
    /// None where there is no route.
    pub route: Vec<OpenRouterModel>,
}

pub struct ServerView {
    pub catalog: Seq<(Seq<char>, EntryView)>,
    pub policy: PolicyView,
    pub route: Seq<RouteModelView>,
}

pub open spec fn route_models_view(models: Seq<OpenRouterModel>) -> Seq<RouteModelView> {
    Seq::new(models.len(), |i: int| models[i]@)
}

impl View for Server {
    type V = ServerView;

    open spec fn view(&self) -> ServerView {
        ServerView {
            catalog: self.admitter.catalog@,
            policy: self.admitter.policy@,
            route: route_models_view(self.route@),
        }
    }
}

/// What serving a request is waiting for.
#[derive(Debug)]
pub enum Exchange {
    /// The request.
    Starting,
    /// Whether the day's pool may be spent. A window that is read again after
    /// the day was opened is taken as it is.
    Windowing { request: CreateRequest, now: i64, again: bool },
    /// The day to be opened in the ledger.
    Opening { request: CreateRequest, now: i64 },
    /// The next body's count.
    Counting { request: CreateRequest, now: i64, counting: Counting },
    /// The ledger's answer.
    Reserving { request: CreateRequest, now: i64, body: Vec<u8> },
    /// OpenAI's answer.
    Dispatching { model: String, now: i64 },
    /// OpenRouter's answer.
    Routing { model: String, refusal: Reply, now: i64 },
    Done,
}

pub enum ExchangeView {
    Starting,
    Windowing { request: RequestView, now: i64, again: bool },
    Opening { request: RequestView, now: i64 },
    Counting { request: RequestView, now: i64, counting: CountingView },
    Reserving { request: RequestView, now: i64, body: Seq<u8> },
    Dispatching { model: Seq<char>, now: i64 },
    Routing { model: Seq<char>, refusal: ReplyView, now: i64 },
    Done,
}

impl View for Exchange {
    type V = ExchangeView;

    open spec fn view(&self) -> ExchangeView {
        match *self {
            Exchange::Starting => ExchangeView::Starting,
            Exchange::Windowing { request, now, again } => ExchangeView::Windowing {
                request: request@,
                now,
                again,
            },
            Exchange::Opening { request, now } => ExchangeView::Opening { request: request@, now },
            Exchange::Counting { request, now, counting } => ExchangeView::Counting {
                request: request@,
                now,
                counting: counting@,
            },
            Exchange::Reserving { request, now, body } => ExchangeView::Reserving {
                request: request@,
                now,
                body: body@,
            },
            Exchange::Dispatching { model, now } => ExchangeView::Dispatching { model: model@, now },
            Exchange::Routing { model, refusal, now } => ExchangeView::Routing {
                model: model@,
                refusal: refusal@,
                now,
            },
            Exchange::Done => ExchangeView::Done,
        }
    }
}

/// Something is left to count.
pub open spec fn exchange_ok(state: ExchangeView) -> bool {
    state matches ExchangeView::Counting { request, now, counting } ==> 0 <= counting.next
        < counting.bodies.len()
}

/// What became of an action.
#[derive(Debug)]
pub enum ExchangeEvent {
    /// A request came: whether it asks for an upgrade, its body, and the
    /// trusted time, where there is one.
    Arrived { upgrade: bool, body: Vec<u8>, now: Option<i64> },
    Window(Result<Window, String>),
    Opened(Result<(), String>),
    Counted(Result<u64, String>),
    /// The ledger's answer, and whether the OpenRouter account is open.
    Reserved { answer: Result<Admission, String>, route_open: bool },
    Dispatched(Head),
    Routed(Sent),
    /// The provider streams its answer.
    Streaming,
}

pub enum ExchangeEventView {
    Arrived { upgrade: bool, body: Seq<u8>, now: Option<i64> },
    Window(Result<Window, Seq<char>>),
    Opened(Result<(), Seq<char>>),
    Counted(Result<u64, Seq<char>>),
    Reserved { answer: Result<AdmissionView, Seq<char>>, route_open: bool },
    Dispatched(HeadView),
    Routed(SentView),
    Streaming,
}

impl View for ExchangeEvent {
    type V = ExchangeEventView;

    open spec fn view(&self) -> ExchangeEventView {
        match *self {
            ExchangeEvent::Arrived { upgrade, body, now } => ExchangeEventView::Arrived {
                upgrade,
                body: body@,
                now,
            },
            ExchangeEvent::Window(Ok(window)) => ExchangeEventView::Window(Ok(window)),
            ExchangeEvent::Window(Err(detail)) => ExchangeEventView::Window(Err(detail@)),
            ExchangeEvent::Opened(Ok(done)) => ExchangeEventView::Opened(Ok(done)),
            ExchangeEvent::Opened(Err(detail)) => ExchangeEventView::Opened(Err(detail@)),
            ExchangeEvent::Counted(answer) => ExchangeEventView::Counted(answer_view(answer)),
            ExchangeEvent::Reserved { answer, route_open } => ExchangeEventView::Reserved {
                answer: admission_view(answer),
                route_open,
            },
            ExchangeEvent::Dispatched(head) => ExchangeEventView::Dispatched(head@),
            ExchangeEvent::Routed(sent) => ExchangeEventView::Routed(sent@),
            ExchangeEvent::Streaming => ExchangeEventView::Streaming,
        }
    }
}

/// What is to be done next.
#[derive(Debug)]
pub enum ExchangeAction {
    ReadWindow,
    OpenEpoch { epoch: i64 },
    /// Have the provider count a body.
    Count { document: Json },
    /// Ask the ledger for a reservation.
    Reserve { request: ReservationRequest, now: i64 },
    Dispatch(DispatchPermit),
    /// Send to OpenRouter, counted against the epoch.
    Route { model: String, body: Vec<u8>, epoch: i64 },
    Respond(Reply),
    /// Relay the stream.
    Stream(Attribution),
}

pub enum ExchangeActionView {
    ReadWindow,
    OpenEpoch { epoch: i64 },
    Count { document: JsonView },
    Reserve { request: ReserveView, now: i64 },
    Dispatch(PermitView),
    Route { model: Seq<char>, body: Seq<u8>, epoch: i64 },
    Respond(ReplyView),
    Stream(AttributionView),
}

impl View for ExchangeAction {
    type V = ExchangeActionView;

    open spec fn view(&self) -> ExchangeActionView {
        match *self {
            ExchangeAction::ReadWindow => ExchangeActionView::ReadWindow,
            ExchangeAction::OpenEpoch { epoch } => ExchangeActionView::OpenEpoch { epoch },
            ExchangeAction::Count { document } => ExchangeActionView::Count {
                document: document@,
            },
            ExchangeAction::Reserve { request, now } => ExchangeActionView::Reserve {
                request: request@,
                now,
            },
            ExchangeAction::Dispatch(permit) => ExchangeActionView::Dispatch(permit@),
            ExchangeAction::Route { model, body, epoch } => ExchangeActionView::Route {
                model: model@,
                body: body@,
                epoch,
            },
            ExchangeAction::Respond(reply) => ExchangeActionView::Respond(reply@),
            ExchangeAction::Stream(who) => ExchangeActionView::Stream(who@),
        }
    }
}

/// An answer ends the exchange.
pub open spec fn answered(reply: ReplyView) -> (ExchangeView, ExchangeActionView) {
    (ExchangeView::Done, ExchangeActionView::Respond(reply))
}

/// What a request that came leads to.
pub open spec fn on_arrival(upgrade: bool, body: Seq<u8>, now: Option<i64>) -> (
    ExchangeView,
    ExchangeActionView,
) {
    if upgrade {
        answered(upgrade_view())
    } else {
        match parsed_request(body) {
            Err(rejection) => answered(rejection_view(rejection)),
            Ok(request) => match now {
                None => answered(timeless_view()),
                Some(now) => (
                    ExchangeView::Windowing { request, now, again: false },
                    ExchangeActionView::ReadWindow,
                ),
            },
        }
    }
}

/// What a step of admission leads to.
pub open spec fn on_step(request: RequestView, now: i64, step: StepView) -> (
    ExchangeView,
    ExchangeActionView,
) {
    match step {
        StepView::Refuse(refused) => answered(refused_view(refused, now)),
        StepView::Count(counting) => (
            ExchangeView::Counting { request, now, counting },
            ExchangeActionView::Count { document: counting.bodies[counting.next] },
        ),
        StepView::Reserve(proposal) => (
            ExchangeView::Reserving { request, now, body: proposal.body },
            ExchangeActionView::Reserve { request: proposal.request, now },
        ),
    }
}

/// The first model that covers a request, from a position on.
pub open spec fn first_covering(
    models: Seq<RouteModelView>,
    request: RequestView,
    from: int,
) -> Option<RouteModelView>
    decreases models.len() - from,
{
    if from < 0 || from >= models.len() {
        None
    } else if covers(models[from], usage_of(request.fields), structured(request.fields)) {
        Some(models[from])
    } else {
        first_covering(models, request, from + 1)
    }
}

/// What a refused request leads to. Only a request that OpenAI's grant could
/// not cover is routed on: what the allowlist or the catalog refuses would be
/// as wrong anywhere else.
pub open spec fn on_refused(
    server: ServerView,
    request: RequestView,
    now: i64,
    refused: RefusedView,
    route_open: bool,
) -> (ExchangeView, ExchangeActionView) {
    let covering = first_covering(server.route, request, 0);
    if refused matches RefusedView::Ledger(RefusalView::InsufficientQuota { .. }) && route_open
        && covering is Some {
        let model = covering->0.id;
        (
            ExchangeView::Routing { model, refusal: refused_view(refused, now), now },
            ExchangeActionView::Route {
                model,
                body: json_bytes(JsonView::Object(openrouter_fields(request.fields, model))),
                epoch: (now as int / 86_400) as i64,
            },
        )
    } else {
        answered(refused_view(refused, now))
    }
}

/// The next state and action; `None` where the event does not answer what the
/// exchange is waiting for.
pub open spec fn exchange_step(
    server: ServerView,
    state: ExchangeView,
    event: ExchangeEventView,
) -> Option<(ExchangeView, ExchangeActionView)> {
    match (state, event) {
        (
            ExchangeView::Starting,
            ExchangeEventView::Arrived { upgrade, body, now },
        ) => Some(on_arrival(upgrade, body, now)),
        (
            ExchangeView::Windowing { request, now, again },
            ExchangeEventView::Window(result),
        ) => Some(
            match result {
                Err(detail) => answered(error_view(503, detail)),
                Ok(window) => match window {
                    Window::RolloverDue { epoch } if !again => (
                        ExchangeView::Opening { request, now },
                        ExchangeActionView::OpenEpoch { epoch },
                    ),
                    _ => on_step(
                        request,
                        now,
                        first_step(server.catalog, server.policy, request, window),
                    ),
                },
            },
        ),
        (ExchangeView::Opening { request, now }, ExchangeEventView::Opened(result)) => Some(
            match result {
                Err(detail) => answered(error_view(503, detail)),
                Ok(_) => (
                    ExchangeView::Windowing { request, now, again: true },
                    ExchangeActionView::ReadWindow,
                ),
            },
        ),
        (
            ExchangeView::Counting { request, now, counting },
            ExchangeEventView::Counted(answer),
        ) => Some(
            on_step(request, now, counted_step(server.policy, request, counting, answer)),
        ),
        (
            ExchangeView::Reserving { request, now, body },
            ExchangeEventView::Reserved { answer, route_open },
        ) => Some(
            match decision_on(server.policy, body, answer) {
                DecisionView::Admitted(permit) => (
                    ExchangeView::Dispatching { model: request.model, now },
                    ExchangeActionView::Dispatch(permit),
                ),
                DecisionView::Refused(refused) => on_refused(
                    server,
                    request,
                    now,
                    refused,
                    route_open,
                ),
            },
        ),
        (ExchangeView::Dispatching { model, now }, ExchangeEventView::Dispatched(head)) => Some(
            answered(head_view(head, model, now)),
        ),
        (ExchangeView::Dispatching { model, now }, ExchangeEventView::Streaming) => Some(
            (
                ExchangeView::Done,
                ExchangeActionView::Stream(AttributionView { provider: "openai"@, model }),
            ),
        ),
        (ExchangeView::Routing { model, refusal, now }, ExchangeEventView::Routed(sent)) => Some(
            answered(sent_view(sent, model, refusal, now)),
        ),
        (ExchangeView::Routing { model, refusal, now }, ExchangeEventView::Streaming) => Some(
            (
                ExchangeView::Done,
                ExchangeActionView::Stream(AttributionView { provider: "openrouter"@, model }),
            ),
        ),
        _ => None,
    }
}

pub open spec fn exchange_view(step: Option<(Exchange, ExchangeAction)>) -> Option<
    (ExchangeView, ExchangeActionView),
> {
    match step {
        Some((state, action)) => Some((state@, action@)),
        None => None,
    }
}

proof fn lemma_first_covering(models: Seq<RouteModelView>, request: RequestView, from: int, at: int)
    requires
        0 <= from <= at <= models.len(),
        forall|k: int|
            from <= k < at ==> !covers(
                #[trigger] models[k],
                usage_of(request.fields),
                structured(request.fields),
            ),
        at < models.len() ==> covers(
            models[at],
            usage_of(request.fields),
            structured(request.fields),
        ),
    ensures
        first_covering(models, request, from) == (if at < models.len() {
            Some(models[at])
        } else {
            None
        }),
    decreases at - from,
{
    if from < at {
        lemma_first_covering(models, request, from + 1, at);
    }
}

fn respond(reply: Reply) -> (next: Option<(Exchange, ExchangeAction)>)
    ensures
        exchange_view(next) == Some(answered(reply@)),
{
    Some((Exchange::Done, ExchangeAction::Respond(reply)))
}

impl Server {
    /// The first model of the route that covers a request.
    fn covering(&self, request: &CreateRequest) -> (found: Option<&OpenRouterModel>)
        ensures
            match found {
                Some(model) => first_covering(self@.route, request@, 0) == Some(model@),
                None => first_covering(self@.route, request@, 0) is None,
            },
    {
        let usage = request.tool_usage();
        let needs = request.needs_structured_output();
        let found = model_for(self.route.as_slice(), usage, needs);
        proof {
            let models = self.route@;
            let views = route_models_view(models);
            match found {
                Some(model) => {
                    let at = choose|i: int|
                        0 <= i < models.len() && *model == #[trigger] models[i] && covers(
                            models[i]@,
                            usage,
                            needs,
                        ) && forall|k: int|
                            0 <= k < i ==> !covers((#[trigger] models[k])@, usage, needs);
                    assert forall|k: int| 0 <= k < at implies !covers(
                        #[trigger] views[k],
                        usage,
                        needs,
                    ) by {
                        assert(views[k] == models[k]@);
                    }
                    lemma_first_covering(views, request@, 0, at);
                },
                None => {
                    assert forall|k: int| 0 <= k < views.len() implies !covers(
                        #[trigger] views[k],
                        usage,
                        needs,
                    ) by {
                        assert(views[k] == models[k]@);
                    }
                    lemma_first_covering(views, request@, 0, views.len() as int);
                },
            }
        }
        found
    }

    fn arrival(&self, upgrade: bool, body: &Vec<u8>, now: Option<i64>) -> (next: Option<
        (Exchange, ExchangeAction),
    >)
        ensures
            exchange_view(next) == Some(on_arrival(upgrade, body@, now)),
    {
        if upgrade {
            return respond(upgrade_reply());
        }
        match CreateRequest::parse(body.as_slice()) {
            Err(rejection) => respond(rejection_reply(&rejection)),
            Ok(request) => match now {
                None => respond(timeless_reply()),
                Some(now) => Some(
                    (
                        Exchange::Windowing { request, now, again: false },
                        ExchangeAction::ReadWindow,
                    ),
                ),
            },
        }
    }

    fn admitting(&self, request: CreateRequest, now: i64, step: AdmitStep) -> (next: Option<
        (Exchange, ExchangeAction),
    >)
        requires
            step@ matches StepView::Count(counting) ==> 0 <= counting.next
                < counting.bodies.len(),
        ensures
            exchange_view(next) == Some(on_step(request@, now, step@)),
    {
        match step {
            AdmitStep::Refuse(refused) => respond(refusal_response(&refused, now)),
            AdmitStep::Count(counting) => {
                let document = counting.bodies[counting.next].copy();
                assert(document@ == counting@.bodies[counting@.next]);
                Some(
                    (
                        Exchange::Counting { request, now, counting },
                        ExchangeAction::Count { document },
                    ),
                )
            },
            AdmitStep::Reserve(proposal) => Some(
                (
                    Exchange::Reserving { request, now, body: proposal.body },
                    ExchangeAction::Reserve { request: proposal.request, now },
                ),
            ),
        }
    }

    fn refusing(&self, request: &CreateRequest, now: i64, refused: Refused, route_open: bool) -> (next:
        Option<(Exchange, ExchangeAction)>)
        ensures
            exchange_view(next) == Some(on_refused(self@, request@, now, refused@, route_open)),
    {
        let refusal = refusal_response(&refused, now);
        let short = matches!(refused, Refused::Ledger(Refusal::InsufficientQuota { .. }));
        if !short || !route_open {
            return respond(refusal);
        }
        match self.covering(request) {
            None => respond(refusal),
            Some(found) => {
                let body = request.openrouter_body(found.id.as_str());
                let epoch: i64 = epoch_of(now);
                Some(
                    (
                        Exchange::Routing { model: found.id.clone(), refusal, now },
                        ExchangeAction::Route { model: found.id.clone(), body, epoch },
                    ),
                )
            },
        }
    }

    /// The next state and action; `None` where the event does not answer what
    /// the exchange is waiting for.
    pub fn step(&self, state: Exchange, event: ExchangeEvent) -> (next: Option<
        (Exchange, ExchangeAction),
    >)
        requires
            exchange_ok(state@),
        ensures
            exchange_view(next) == exchange_step(self@, state@, event@),
            next matches Some((after, _)) ==> exchange_ok(after@),
    {
        match (state, event) {
            (Exchange::Starting, ExchangeEvent::Arrived { upgrade, body, now }) => self.arrival(
                upgrade,
                &body,
                now,
            ),
            (Exchange::Windowing { request, now, again }, ExchangeEvent::Window(result)) => {
                match result {
                    Err(detail) => respond(error_reply(503, detail.as_str())),
                    Ok(window) => {
                        // A request arriving between two runs of the clock
                        // loop opens the day itself rather than waiting for
                        // the loop.
                        if let Window::RolloverDue { epoch } = window {
                            if !again {
                                return Some(
                                    (
                                        Exchange::Opening { request, now },
                                        ExchangeAction::OpenEpoch { epoch },
                                    ),
                                );
                            }
                        }
                        let step = self.admitter.begin(&request, window);
                        self.admitting(request, now, step)
                    },
                }
            },
            (Exchange::Opening { request, now }, ExchangeEvent::Opened(result)) => match result {
                Err(detail) => respond(error_reply(503, detail.as_str())),
                Ok(_) => Some(
                    (
                        Exchange::Windowing { request, now, again: true },
                        ExchangeAction::ReadWindow,
                    ),
                ),
            },
            (
                Exchange::Counting { request, now, counting },
                ExchangeEvent::Counted(answer),
            ) => {
                let step = self.admitter.counted(&request, counting, answer);
                self.admitting(request, now, step)
            },
            (
                Exchange::Reserving { request, now, body },
                ExchangeEvent::Reserved { answer, route_open },
            ) => match self.admitter.reserved(body, answer) {
                Decision::Admitted(permit) => Some(
                    (
                        Exchange::Dispatching { model: request.model().to_owned(), now },
                        ExchangeAction::Dispatch(permit),
                    ),
                ),
                Decision::Refused(refused) => self.refusing(&request, now, refused, route_open),
            },
            (Exchange::Dispatching { model, now }, ExchangeEvent::Dispatched(head)) => respond(
                head_response(head, model.as_str(), now),
            ),
            (Exchange::Dispatching { model, now: _ }, ExchangeEvent::Streaming) => Some(
                (Exchange::Done, ExchangeAction::Stream(by_openai(model.as_str()))),
            ),
            (Exchange::Routing { model, refusal, now }, ExchangeEvent::Routed(sent)) => respond(
                sent_response(sent, model.as_str(), refusal, now),
            ),
            (Exchange::Routing { model, refusal: _, now: _ }, ExchangeEvent::Streaming) => Some(
                (Exchange::Done, ExchangeAction::Stream(by_openrouter(model.as_str()))),
            ),
            _ => None,
        }
    }
}

// ---------------------------------------------------------------------------
// Laws.

/// Law: a request is dispatched only against a reservation the ledger made for
/// the body it is sent with.
pub proof fn nothing_is_dispatched_without_a_reservation(
    server: ServerView,
    state: ExchangeView,
    event: ExchangeEventView,
)
    ensures
        exchange_step(server, state, event) matches Some((_, ExchangeActionView::Dispatch(permit)))
            ==> {
            &&& (state matches ExchangeView::Reserving { body, .. } && permit.body == body)
            &&& (event matches ExchangeEventView::Reserved { answer, .. } && answer
                == Ok::<AdmissionView, Seq<char>>(AdmissionView::Reserved(permit.reservation)))
        },
{
}

/// Law: a request is routed to OpenRouter only where OpenAI's grant could not
/// cover it, the account is open, and a measured model covers its shape.
pub proof fn only_insufficient_quota_is_routed_on(
    server: ServerView,
    state: ExchangeView,
    event: ExchangeEventView,
)
    ensures
        exchange_step(server, state, event) matches Some(
            (_, ExchangeActionView::Route { model, .. }),
        ) ==> {
            &&& event matches ExchangeEventView::Reserved { answer, route_open }
            &&& route_open
            &&& answer matches Ok(AdmissionView::Refused(RefusalView::InsufficientQuota { .. }))
            &&& state matches ExchangeView::Reserving { request, .. }
            &&& exists|i: int|
                0 <= i < server.route.len() && #[trigger] server.route[i].id == model && covers(
                    server.route[i],
                    usage_of(request.fields),
                    structured(request.fields),
                )
        },
{
    if let ExchangeView::Reserving { request, now, body } = state {
        lemma_covering_is_listed(server.route, request, 0);
    }
}

proof fn lemma_covering_is_listed(models: Seq<RouteModelView>, request: RequestView, from: int)
    requires
        0 <= from <= models.len(),
    ensures
        first_covering(models, request, from) matches Some(found) ==> exists|i: int|
            0 <= i < models.len() && found == #[trigger] models[i] && covers(
                models[i],
                usage_of(request.fields),
                structured(request.fields),
            ),
    decreases models.len() - from,
{
    if from < models.len() && !covers(
        models[from],
        usage_of(request.fields),
        structured(request.fields),
    ) {
        lemma_covering_is_listed(models, request, from + 1);
    }
}

/// Law: what the allowlist refuses touches neither the ledger nor a provider.
pub proof fn a_rejected_request_goes_nowhere(
    server: ServerView,
    upgrade: bool,
    body: Seq<u8>,
    now: Option<i64>,
)
    requires
        upgrade || parsed_request(body) is Err || now is None,
    ensures
        exchange_step(
            server,
            ExchangeView::Starting,
            ExchangeEventView::Arrived { upgrade, body, now },
        ) matches Some((ExchangeView::Done, ExchangeActionView::Respond(_))),
{
}

/// Law: an exchange opens the day at most once: the window read after that is
/// taken as it is.
pub proof fn the_day_is_opened_at_most_once(
    server: ServerView,
    state: ExchangeView,
    event: ExchangeEventView,
)
    ensures
        exchange_step(server, state, event) matches Some((_, ExchangeActionView::OpenEpoch { .. }))
            ==> (state matches ExchangeView::Windowing { again, .. } && !again),
        exchange_step(server, state, event) matches Some((ExchangeView::Windowing { again, .. }, _))
            ==> again == (state is Opening),
{
}

} // verus!
