//! Reading the provider's usage reporting.
//!
//! Two uses, both read-only. Recovering a day's consumption when the ledger
//! cannot be trusted, and checking that the traffic this organization sends is
//! still being served from the complimentary grant.
use vstd::prelude::*;
use vstd::string::*;
use vstd::utf8::*;

use crate::epoch::SECONDS_PER_DAY;
use crate::json::{
    items_view, json_get, json_u64, lemma_array_view, text_member, Json, JsonView,
};
use crate::openrouter::{answer_document, read_answer, AnswerFault, AnswerFaultView};
use crate::tables::text_view;
use crate::text::{decimal_text, push_decimal, push_signed, signed_text, str_eq};
use crate::upstream::{with_detail, BaseUrlError};

verus! {

/// The service tier the Usage API reports for traffic served from the
/// complimentary (data-sharing) grant.
pub const INCENTIVIZED_TIER: &'static str = "incentivized-tier";

/// How many pages of a day are read at most. The reporting returns one bucket
/// a day, so a handful of pages covers every grouping of it.
pub const MAX_PAGES: u32 = 20;

#[derive(Debug, PartialEq, Eq)]
pub enum UsageApiError {
    InvalidBaseUrl(String),
    InsecureBaseUrl(String),
    Build(String),
    Transport(String),
    Status { status: u16, body: String },
    Unreadable,
}

/// What went wrong, in words.
pub open spec fn usage_text(error: UsageApiError) -> Seq<char> {
    match error {
        UsageApiError::InvalidBaseUrl(url) => "the usage base URL is invalid: "@ + url@,
        UsageApiError::InsecureBaseUrl(url) =>
            "the usage base URL must use https unless it is loopback: "@ + url@,
        UsageApiError::Build(detail) => "could not build the usage client: "@ + detail@,
        UsageApiError::Transport(detail) => "the usage request failed: "@ + detail@,
        UsageApiError::Status { status, body } => "the usage API answered with status "@ + decimal_text(
            status as nat,
        ) + ": "@ + body@,
        UsageApiError::Unreadable =>
            "the usage API answered with a body this code cannot read"@,
    }
}

impl UsageApiError {
    pub fn message(&self) -> (text: String)
        ensures
            text@ == usage_text(*self),
    {
        match self {
            UsageApiError::InvalidBaseUrl(url) => with_detail(
                "the usage base URL is invalid: ",
                url,
            ),
            UsageApiError::InsecureBaseUrl(url) => with_detail(
                "the usage base URL must use https unless it is loopback: ",
                url,
            ),
            UsageApiError::Build(detail) => with_detail(
                "could not build the usage client: ",
                detail,
            ),
            UsageApiError::Transport(detail) => with_detail(
                "the usage request failed: ",
                detail,
            ),
            UsageApiError::Status { status, body } => {
                let mut text = String::from_str("the usage API answered with status ");
                push_decimal(&mut text, *status as u128);
                text.push_str(": ");
                text.push_str(body.as_str());
                text
            },
            UsageApiError::Unreadable => String::from_str(
                "the usage API answered with a body this code cannot read",
            ),
        }
    }

    /// The error of a base URL that is not used.
    pub fn of_base(error: BaseUrlError) -> (out: UsageApiError)
        ensures
            match error {
                BaseUrlError::Invalid(url) => out == UsageApiError::InvalidBaseUrl(url),
                BaseUrlError::Insecure(url) => out == UsageApiError::InsecureBaseUrl(url),
            },
    {
        match error {
            BaseUrlError::Invalid(url) => UsageApiError::InvalidBaseUrl(url),
            BaseUrlError::Insecure(url) => UsageApiError::InsecureBaseUrl(url),
        }
    }

    /// The error of an answer that cannot be used.
    pub fn of_fault(fault: AnswerFault) -> (out: UsageApiError)
        ensures
            match fault {
                AnswerFault::Status { status, body } => out == (UsageApiError::Status {
                    status,
                    body,
                }),
                AnswerFault::Unreadable => out == UsageApiError::Unreadable,
            },
    {
        match fault {
            AnswerFault::Status { status, body } => UsageApiError::Status { status, body },
            AnswerFault::Unreadable => UsageApiError::Unreadable,
        }
    }
}

/// What a day's usage reporting says.
#[derive(Debug, PartialEq, Eq)]
pub struct DayUsage {
    /// Input plus output tokens, by model id. No model is named twice.
    pub tokens_by_model: Vec<(String, u64)>,
    /// Requests reported under a service tier that is not the complimentary
    /// one. Anything above zero means traffic was served outside the grant.
    pub requests_outside_the_grant: u64,
    /// Requests whose tier the reporting did not name. Not evidence either
    /// way; counted so it can be logged rather than silently read as proof.
    pub requests_of_unknown_tier: u64,
}

pub struct DayView {
    pub tokens: Seq<(Seq<char>, u64)>,
    pub outside: u64,
    pub unknown: u64,
}

pub open spec fn tokens_view(tokens: Seq<(String, u64)>) -> Seq<(Seq<char>, u64)> {
    Seq::new(tokens.len(), |i: int| (tokens[i].0@, tokens[i].1))
}

impl View for DayUsage {
    type V = DayView;

    open spec fn view(&self) -> DayView {
        DayView {
            tokens: tokens_view(self.tokens_by_model@),
            outside: self.requests_outside_the_grant,
            unknown: self.requests_of_unknown_tier,
        }
    }
}

pub open spec fn empty_day() -> DayView {
    DayView { tokens: Seq::empty(), outside: 0, unknown: 0 }
}

impl Default for DayUsage {
    fn default() -> (usage: DayUsage)
        ensures
            usage@ == empty_day(),
    {
        let usage = DayUsage {
            tokens_by_model: Vec::new(),
            requests_outside_the_grant: 0,
            requests_of_unknown_tier: 0,
        };
        assert(usage@.tokens =~= Seq::empty());
        usage
    }
}

/// A sum as far as a counter goes.
pub open spec fn capped_sum(a: u64, b: u64) -> u64 {
    if a + b <= u64::MAX {
        (a + b) as u64
    } else {
        u64::MAX
    }
}

pub fn add_capped(a: u64, b: u64) -> (sum: u64)
    ensures
        sum == capped_sum(a, b),
{
    match a.checked_add(b) {
        Some(sum) => sum,
        None => u64::MAX,
    }
}

/// Where a model stands, from a position on.
pub open spec fn model_index(tokens: Seq<(Seq<char>, u64)>, model: Seq<char>, from: int) -> int
    decreases tokens.len() - from,
{
    if from < 0 || from >= tokens.len() || tokens[from].0 == model {
        from
    } else {
        model_index(tokens, model, from + 1)
    }
}

/// The tokens with more for one model.
pub open spec fn with_tokens(tokens: Seq<(Seq<char>, u64)>, model: Seq<char>, more: u64) -> Seq<
    (Seq<char>, u64),
> {
    let at = model_index(tokens, model, 0);
    if at < tokens.len() {
        tokens.update(at, (model, capped_sum(tokens[at].1, more)))
    } else {
        tokens.push((model, more))
    }
}

/// A count in a result, zero where it is not there.
pub open spec fn count_of(result: JsonView, name: Seq<char>) -> u64 {
    match json_get(result, name) {
        Some(held) => match json_u64(held) {
            Some(n) => n,
            None => 0,
        },
        None => 0,
    }
}

/// A day's usage with one result of the reporting.
pub open spec fn absorbed(usage: DayView, result: JsonView) -> DayView {
    let total = capped_sum(
        count_of(result, "input_tokens"@),
        count_of(result, "output_tokens"@),
    );
    let requests = count_of(result, "num_model_requests"@);
    DayView {
        tokens: match text_member(result, "model"@) {
            Some(model) => with_tokens(usage.tokens, model, total),
            None => usage.tokens,
        },
        outside: match text_member(result, "service_tier"@) {
            Some(tier) => if tier == INCENTIVIZED_TIER@ {
                usage.outside
            } else {
                capped_sum(usage.outside, requests)
            },
            None => usage.outside,
        },
        unknown: match text_member(result, "service_tier"@) {
            Some(_) => usage.unknown,
            None => capped_sum(usage.unknown, requests),
        },
    }
}

/// A day's usage with the results of a bucket.
pub open spec fn with_results(usage: DayView, results: Seq<JsonView>) -> DayView
    decreases results.len(),
{
    if results.len() == 0 {
        usage
    } else {
        absorbed(with_results(usage, results.drop_last()), results.last())
    }
}

/// The results of a bucket.
pub open spec fn results_of(bucket: JsonView) -> Seq<JsonView> {
    match json_get(bucket, "results"@) {
        Some(JsonView::Array(results)) => results,
        _ => Seq::empty(),
    }
}

/// A day's usage with the buckets of a page.
pub open spec fn with_buckets(usage: DayView, buckets: Seq<JsonView>) -> DayView
    decreases buckets.len(),
{
    if buckets.len() == 0 {
        usage
    } else {
        with_results(with_buckets(usage, buckets.drop_last()), results_of(buckets.last()))
    }
}

/// Where the next page starts, where there is one.
pub open spec fn next_cursor(page: JsonView) -> Option<Seq<char>> {
    match text_member(page, "next_page"@) {
        Some(cursor) => if json_get(page, "has_more"@) == Some(JsonView::Bool(true)) {
            Some(cursor)
        } else {
            None
        },
        None => None,
    }
}

/// A day that is being read, page by page.
#[derive(Debug)]
pub struct DayReading {
    pub epoch: i64,
    pub usage: DayUsage,
    /// Where the next page starts.
    pub cursor: Option<String>,
    /// How many pages were read.
    pub pages: u32,
}

pub struct ReadingView {
    pub epoch: i64,
    pub usage: DayView,
    pub cursor: Option<Seq<char>>,
    pub pages: u32,
}

impl View for DayReading {
    type V = ReadingView;

    open spec fn view(&self) -> ReadingView {
        ReadingView {
            epoch: self.epoch,
            usage: self.usage@,
            cursor: text_view(self.cursor),
            pages: self.pages,
        }
    }
}

/// What a page leads to.
#[derive(Debug)]
pub enum DayStep {
    More(DayReading),
    Done(DayUsage),
}

pub enum DayStepView {
    More(ReadingView),
    Done(DayView),
}

impl View for DayStep {
    type V = DayStepView;

    open spec fn view(&self) -> DayStepView {
        match *self {
            DayStep::More(reading) => DayStepView::More(reading@),
            DayStep::Done(usage) => DayStepView::Done(usage@),
        }
    }
}

/// What the document of a page leads to.
pub open spec fn page_step(reading: ReadingView, page: JsonView) -> Result<
    DayStepView,
    AnswerFaultView,
> {
    match json_get(page, "data"@) {
        Some(JsonView::Array(buckets)) => {
            let usage = with_buckets(reading.usage, buckets);
            match next_cursor(page) {
                Some(cursor) => if reading.pages + 1 < MAX_PAGES {
                    Ok(
                        DayStepView::More(
                            ReadingView {
                                epoch: reading.epoch,
                                usage,
                                cursor: Some(cursor),
                                pages: (reading.pages + 1) as u32,
                            },
                        ),
                    )
                } else {
                    Ok(DayStepView::Done(usage))
                },
                None => Ok(DayStepView::Done(usage)),
            }
        },
        _ => Err(AnswerFaultView::Unreadable),
    }
}

/// What an answer leads to. A failed answer is an error, not an empty day.
pub open spec fn day_step(reading: ReadingView, status: u16, body: Seq<char>) -> Result<
    DayStepView,
    AnswerFaultView,
> {
    match answer_document(status, body, 500) {
        Err(fault) => Err(fault),
        Ok(page) => page_step(reading, page),
    }
}

pub open spec fn day_step_view(result: Result<DayStep, AnswerFault>) -> Result<
    DayStepView,
    AnswerFaultView,
> {
    match result {
        Ok(step) => Ok(step@),
        Err(fault) => Err(fault@),
    }
}

/// A product as far as a timestamp goes.
pub open spec fn clamped(n: int) -> i64 {
    if n < i64::MIN {
        i64::MIN
    } else if n > i64::MAX {
        i64::MAX
    } else {
        n as i64
    }
}

/// When a day starts, and when it ends.
pub open spec fn day_bounds(epoch: i64) -> (i64, i64) {
    let start = clamped(epoch * SECONDS_PER_DAY);
    (start, clamped(start + SECONDS_PER_DAY))
}

/// The URL of a page of a day's usage.
pub open spec fn day_url(base: Seq<char>, epoch: i64, cursor: Option<Seq<char>>) -> Seq<char> {
    let (start, end) = day_bounds(epoch);
    let url = base + "/organization/usage/completions?start_time="@ + signed_text(start as int)
        + "&end_time="@ + signed_text(end as int)
        + "&bucket_width=1d&group_by=model&group_by=service_tier&limit=31"@;
    match cursor {
        Some(text) => url + "&page="@ + text,
        None => url,
    }
}

/// Finds a model.
fn find_model(tokens: &Vec<(String, u64)>, model: &str) -> (found: Option<usize>)
    ensures
        match found {
            Some(i) => i < tokens@.len() && model_index(tokens_view(tokens@), model@, 0) == i,
            None => model_index(tokens_view(tokens@), model@, 0) == tokens@.len(),
        },
{
    let ghost all = tokens_view(tokens@);
    let mut i: usize = 0;
    while i < tokens.len()
        invariant
            i <= tokens@.len(),
            all == tokens_view(tokens@),
            model_index(all, model@, i as int) == model_index(all, model@, 0),
        decreases tokens.len() - i,
    {
        assert(all[i as int].0 == tokens@[i as int].0@);
        if str_eq(tokens[i].0.as_str(), model) {
            return Some(i);
        }
        i = i + 1;
    }
    None
}

/// Adds tokens to a model.
fn add_tokens(tokens: &mut Vec<(String, u64)>, model: &str, more: u64)
    ensures
        tokens_view(final(tokens)@) == with_tokens(tokens_view(old(tokens)@), model@, more),
{
    let ghost before = tokens_view(tokens@);
    match find_model(tokens, model) {
        Some(i) => {
            let sum = add_capped(tokens[i].1, more);
            tokens.set(i, (model.to_owned(), sum));
        },
        None => {
            tokens.push((model.to_owned(), more));
        },
    }
    assert(tokens_view(tokens@) =~= with_tokens(before, model@, more));
}

/// A count in a result.
fn count_in(result: &Json, name: &str) -> (count: u64)
    ensures
        count == count_of(result@, name@),
{
    match result.get(name) {
        Some(held) => match held.as_u64() {
            Some(n) => n,
            None => 0,
        },
        None => 0,
    }
}

/// Adds one result of the reporting to a day's usage.
pub fn absorb(usage: &mut DayUsage, result: &Json)
    ensures
        final(usage)@ == absorbed(old(usage)@, result@),
{
    let total = add_capped(count_in(result, "input_tokens"), count_in(result, "output_tokens"));
    if let Some(model) = result.text_of("model") {
        add_tokens(&mut usage.tokens_by_model, model, total);
    }
    let requests = count_in(result, "num_model_requests");
    match result.text_of("service_tier") {
        Some(tier) => {
            if !str_eq(tier, INCENTIVIZED_TIER) {
                usage.requests_outside_the_grant = add_capped(
                    usage.requests_outside_the_grant,
                    requests,
                );
            }
        },
        None => {
            usage.requests_of_unknown_tier = add_capped(usage.requests_of_unknown_tier, requests);
        },
    }
}

/// Adds the results of a bucket.
fn absorb_results(usage: &mut DayUsage, results: &Vec<Json>)
    ensures
        final(usage)@ == with_results(old(usage)@, items_view(results@)),
{
    let ghost before = usage@;
    let ghost all = items_view(results@);
    assert(all.take(0) =~= Seq::empty());
    let mut i: usize = 0;
    while i < results.len()
        invariant
            i <= results@.len(),
            all == items_view(results@),
            usage@ == with_results(before, all.take(i as int)),
        decreases results.len() - i,
    {
        proof {
            assert(all.take(i + 1).drop_last() =~= all.take(i as int));
            assert(all.take(i + 1).last() == results@[i as int]@);
        }
        absorb(usage, &results[i]);
        i = i + 1;
    }
    assert(all.take(all.len() as int) =~= all);
}

/// Adds the buckets of a page.
fn absorb_buckets(usage: &mut DayUsage, buckets: &Vec<Json>)
    ensures
        final(usage)@ == with_buckets(old(usage)@, items_view(buckets@)),
{
    let ghost before = usage@;
    let ghost all = items_view(buckets@);
    assert(all.take(0) =~= Seq::empty());
    let mut i: usize = 0;
    while i < buckets.len()
        invariant
            i <= buckets@.len(),
            all == items_view(buckets@),
            usage@ == with_buckets(before, all.take(i as int)),
        decreases buckets.len() - i,
    {
        proof {
            assert(all.take(i + 1).drop_last() =~= all.take(i as int));
            assert(all.take(i + 1).last() == buckets@[i as int]@);
        }
        match buckets[i].get("results") {
            Some(held) => match held {
                Json::Array(results) => {
                    proof {
                        lemma_array_view(*results);
                    }
                    absorb_results(usage, results);
                },
                _ => {
                    assert(results_of(buckets@[i as int]@) =~= Seq::empty());
                },
            },
            None => {},
        }
        i = i + 1;
    }
    assert(all.take(all.len() as int) =~= all);
}

/// Adds up a timestamp as far as it goes.
fn clamp_sum(a: i128) -> (n: i64)
    ensures
        n == clamped(a as int),
{
    if a < i64::MIN as i128 {
        i64::MIN
    } else if a > i64::MAX as i128 {
        i64::MAX
    } else {
        a as i64
    }
}

impl DayReading {
    /// A day of which nothing is read yet. `epoch` is a UTC day index.
    pub fn new(epoch: i64) -> (reading: DayReading)
        ensures
            reading@ == (ReadingView { epoch, usage: empty_day(), cursor: None, pages: 0 }),
    {
        DayReading { epoch, usage: DayUsage::default(), cursor: None, pages: 0 }
    }

    /// The URL of the next page.
    pub fn url(&self, base: &str) -> (url: String)
        ensures
            url@ == day_url(base@, self.epoch, text_view(self.cursor)),
    {
        let start: i64 = clamp_sum(self.epoch as i128 * 86_400);
        let end: i64 = clamp_sum(start as i128 + SECONDS_PER_DAY as i128);
        let mut url = base.to_owned();
        url.push_str("/organization/usage/completions?start_time=");
        push_signed(&mut url, start);
        url.push_str("&end_time=");
        push_signed(&mut url, end);
        url.push_str("&bucket_width=1d&group_by=model&group_by=service_tier&limit=31");
        if let Some(cursor) = &self.cursor {
            url.push_str("&page=");
            url.push_str(cursor.as_str());
        }
        url
    }

    /// Takes the answer for the next page.
    pub fn take(self, status: u16, body: &str) -> (result: Result<DayStep, AnswerFault>)
        requires
            self.pages < MAX_PAGES,
        ensures
            day_step_view(result) == day_step(self@, status, body@),
    {
        match read_answer(status, body, 500) {
            Err(fault) => Err(fault),
            Ok(page) => self.take_page(&page),
        }
    }

    /// Takes the document of the next page.
    pub fn take_page(self, page: &Json) -> (result: Result<DayStep, AnswerFault>)
        requires
            self.pages < MAX_PAGES,
        ensures
            day_step_view(result) == page_step(self@, page@),
    {
        let mut usage = self.usage;
        match page.get("data") {
            Some(held) => match held {
                Json::Array(buckets) => {
                    proof {
                        lemma_array_view(*buckets);
                    }
                    absorb_buckets(&mut usage, buckets);
                },
                _ => {
                    return Err(AnswerFault::Unreadable);
                },
            },
            None => {
                return Err(AnswerFault::Unreadable);
            },
        }
        let more = match page.get("has_more") {
            Some(Json::Bool(true)) => true,
            _ => false,
        };
        match page.text_of("next_page") {
            Some(cursor) => {
                if more && self.pages + 1 < MAX_PAGES {
                    return Ok(
                        DayStep::More(
                            DayReading {
                                epoch: self.epoch,
                                usage,
                                cursor: Some(cursor.to_owned()),
                                pages: self.pages + 1,
                            },
                        ),
                    );
                }
            },
            None => {},
        }
        Ok(DayStep::Done(usage))
    }
}

/// Law: reporting only ever adds up. No result takes anything back.
pub proof fn a_day_only_adds_up(usage: DayView, result: JsonView)
    ensures
        absorbed(usage, result).outside >= usage.outside,
        absorbed(usage, result).unknown >= usage.unknown,
        absorbed(usage, result).tokens.len() >= usage.tokens.len(),
        forall|i: int|
            0 <= i < usage.tokens.len() ==> (#[trigger] usage.tokens[i]).0 == absorbed(
                usage,
                result,
            ).tokens[i].0 && usage.tokens[i].1 <= absorbed(usage, result).tokens[i].1,
{
    if let Some(model) = text_member(result, "model"@) {
        lemma_model_index(usage.tokens, model, 0);
    }
}

proof fn lemma_model_index(tokens: Seq<(Seq<char>, u64)>, model: Seq<char>, from: int)
    requires
        0 <= from <= tokens.len(),
    ensures
        from <= model_index(tokens, model, from) <= tokens.len(),
        model_index(tokens, model, from) < tokens.len() ==> tokens[model_index(
            tokens,
            model,
            from,
        )].0 == model,
    decreases tokens.len() - from,
{
    if from < tokens.len() && tokens[from].0 != model {
        lemma_model_index(tokens, model, from + 1);
    }
}

/// The tokens that a day has for a model.
pub open spec fn tokens_of(usage: DayView, model: Seq<char>) -> int {
    let at = model_index(usage.tokens, model, 0);
    if at < usage.tokens.len() {
        usage.tokens[at].1 as int
    } else {
        0
    }
}

proof fn lemma_model_first(tokens: Seq<(Seq<char>, u64)>, model: Seq<char>, from: int, at: int)
    requires
        0 <= from <= at <= tokens.len(),
        forall|k: int| from <= k < at ==> (#[trigger] tokens[k]).0 != model,
        at < tokens.len() ==> tokens[at].0 == model,
    ensures
        model_index(tokens, model, from) == at,
    decreases at - from,
{
    if from < at {
        lemma_model_first(tokens, model, from + 1, at);
    }
}

proof fn lemma_before_model(tokens: Seq<(Seq<char>, u64)>, model: Seq<char>, from: int)
    requires
        0 <= from <= tokens.len(),
    ensures
        forall|k: int|
            from <= k < model_index(tokens, model, from) ==> (#[trigger] tokens[k]).0 != model,
    decreases tokens.len() - from,
{
    if from < tokens.len() && tokens[from].0 != model {
        lemma_before_model(tokens, model, from + 1);
    }
}

/// What more tokens for one model do to the tokens of another.
pub proof fn lemma_other_tokens(
    tokens: Seq<(Seq<char>, u64)>,
    model: Seq<char>,
    more: u64,
    other: Seq<char>,
)
    ensures
        ({
            let after = with_tokens(tokens, model, more);
            let at = model_index(tokens, other, 0);
            let then = model_index(after, other, 0);
            &&& after.len() >= tokens.len()
            &&& if other == model {
                &&& then < after.len()
                &&& after[then].1 == capped_sum(
                    if at < tokens.len() {
                        tokens[at].1
                    } else {
                        0
                    },
                    more,
                )
            } else if at < tokens.len() {
                then == at && after[then] == tokens[at]
            } else {
                then == after.len()
            }
        }),
{
    let after = with_tokens(tokens, model, more);
    lemma_model_index(tokens, model, 0);
    lemma_model_index(tokens, other, 0);
    lemma_before_model(tokens, model, 0);
    lemma_before_model(tokens, other, 0);
    let at = model_index(tokens, other, 0);
    let held = model_index(tokens, model, 0);
    assert forall|k: int| 0 <= k < at implies (#[trigger] after[k]).0 != other by {
        assert(tokens[k].0 != other);
    }
    if other == model || at < tokens.len() {
        lemma_model_first(after, other, 0, at);
    } else {
        assert forall|k: int| 0 <= k < after.len() implies (#[trigger] after[k]).0 != other by {
            if k < tokens.len() {
                assert(tokens[k].0 != other);
            }
        }
        lemma_model_first(after, other, 0, after.len() as int);
    }
}

/// Law: a result adds its input and output tokens to the model it names and
/// nothing to any other. Its requests are outside the grant where it names a
/// service tier that is not the complimentary one, of unknown tier where it
/// names none, and neither where it names the complimentary one. A sum stops at
/// the most that a counter holds.
pub proof fn a_result_is_added_where_it_belongs(usage: DayView, result: JsonView, model: Seq<char>)
    ensures
        ({
            let after = absorbed(usage, result);
            let counted = count_of(result, "input_tokens"@) + count_of(result, "output_tokens"@);
            let requests = count_of(result, "num_model_requests"@);
            let named = json_get(result, "model"@) == Some(JsonView::Text(model));
            &&& !named ==> tokens_of(after, model) == tokens_of(usage, model)
            &&& named && tokens_of(usage, model) + counted <= u64::MAX ==> tokens_of(after, model)
                == tokens_of(usage, model) + counted
            &&& named && tokens_of(usage, model) + counted > u64::MAX ==> tokens_of(after, model)
                == u64::MAX
            &&& match json_get(result, "service_tier"@) {
                Some(JsonView::Text(tier)) => if tier == "incentivized-tier"@ {
                    after.outside == usage.outside && after.unknown == usage.unknown
                } else {
                    &&& after.unknown == usage.unknown
                    &&& after.outside == usage.outside + requests || (usage.outside + requests
                        > u64::MAX && after.outside == u64::MAX)
                },
                _ => {
                    &&& after.outside == usage.outside
                    &&& after.unknown == usage.unknown + requests || (usage.unknown + requests
                        > u64::MAX && after.unknown == u64::MAX)
                },
            }
        }),
{
    match text_member(result, "model"@) {
        Some(name) => {
            lemma_other_tokens(
                usage.tokens,
                name,
                capped_sum(count_of(result, "input_tokens"@), count_of(result, "output_tokens"@)),
                model,
            );
            if name != model {
                assert(tokens_of(absorbed(usage, result), model) == tokens_of(usage, model));
            }
        },
        None => {
            assert(absorbed(usage, result).tokens == usage.tokens);
        },
    }
}

/// Law: a day is read on from a page exactly where the page says that there is
/// more and where, up to twenty pages; a page that lists nothing is an error
/// rather than an empty day.
pub proof fn a_day_is_read_to_its_last_page(reading: ReadingView, page: JsonView)
    requires
        reading.pages < 20,
    ensures
        match page_step(reading, page) {
            Ok(DayStepView::More(next)) => {
                &&& json_get(page, "has_more"@) == Some(JsonView::Bool(true))
                &&& json_get(page, "next_page"@) == Some(JsonView::Text(next.cursor->0))
                &&& next.cursor is Some
                &&& next.epoch == reading.epoch
                &&& next.pages == reading.pages + 1
                &&& next.pages < 20
            },
            Ok(DayStepView::Done(_)) => {
                ||| json_get(page, "has_more"@) != Some(JsonView::Bool(true))
                ||| !(json_get(page, "next_page"@) matches Some(JsonView::Text(_)))
                ||| reading.pages == 19
            },
            Err(fault) => fault is Unreadable && !(json_get(page, "data"@) matches Some(
                JsonView::Array(_),
            )),
        },
        json_get(page, "data"@) matches Some(JsonView::Array(_)) ==> page_step(reading, page) is Ok,
{
}

/// Law: every result of every bucket of a page is counted, in order, and
/// nothing else is.
pub proof fn every_result_is_counted(usage: DayView, before: Seq<JsonView>, bucket: JsonView)
    ensures
        with_buckets(usage, before.push(bucket)) == match json_get(bucket, "results"@) {
            Some(JsonView::Array(results)) => with_results(with_buckets(usage, before), results),
            _ => with_buckets(usage, before),
        },
        with_buckets(usage, Seq::empty()) == usage,
        forall|results: Seq<JsonView>, last: JsonView|
            #[trigger] with_results(usage, results.push(last)) == absorbed(
                with_results(usage, results),
                last,
            ),
        with_results(usage, Seq::empty()) == usage,
{
    assert(before.push(bucket).drop_last() =~= before);
    assert forall|results: Seq<JsonView>, last: JsonView|
        #[trigger] with_results(usage, results.push(last)) == absorbed(
            with_results(usage, results),
            last,
        ) by {
        assert(results.push(last).drop_last() =~= results);
    }
}

/// Law: a day is asked for from its midnight to the next, by model and tier.
pub proof fn a_day_is_asked_for_by_its_bounds(base: Seq<char>, epoch: i64, cursor: Option<Seq<char>>)
    requires
        i64::MIN <= epoch * 86_400,
        epoch * 86_400 + 86_400 <= i64::MAX,
    ensures
        ({
            let first = base + "/organization/usage/completions?start_time="@ + signed_text(
                epoch * 86_400,
            ) + "&end_time="@ + signed_text((epoch + 1) * 86_400)
                + "&bucket_width=1d&group_by=model&group_by=service_tier&limit=31"@;
            day_url(base, epoch, cursor) == match cursor {
                Some(text) => first + "&page="@ + text,
                None => first,
            }
        }),
{
}

/// Law: the bounds of a day beyond what a timestamp holds are as far as it goes,
/// and a day never ends before it starts.
pub proof fn the_bounds_of_a_day_stay_in_range(epoch: i64)
    ensures
        ({
            let (start, end) = day_bounds(epoch);
            &&& start == epoch * 86_400 || (epoch * 86_400 > i64::MAX && start == i64::MAX) || (epoch
                * 86_400 < i64::MIN && start == i64::MIN)
            &&& end == start + 86_400 || (start + 86_400 > i64::MAX && end == i64::MAX)
        }),
{
}

/// Law: an answer that is no success is no day: it is reported by its status and
/// the first 500 characters of its body.
pub proof fn a_failed_answer_is_no_day(reading: ReadingView, status: u16, body: Seq<char>)
    requires
        !(200 <= status < 300),
    ensures
        day_step(reading, status, body) matches Err(
            AnswerFaultView::Status { status: given, body: shown },
        ) && given == status && shown.is_prefix_of(body) && (shown == body || shown.len() == 500)
            && shown.len() <= 500,
{
}

} // verus!
