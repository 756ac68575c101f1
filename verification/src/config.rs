//! The configuration, and the typed pieces the runtime builds from it.
//!
//! Credentials are never in the configuration: it names the environment
//! variables that carry them.
use vstd::prelude::*;
use vstd::string::*;

use crate::admission::{models_view, Catalog, CatalogEntry, EntryView};
use crate::epoch::{policy_text, ClockPolicy, PolicyError, MAX_READING_AGE, MIN_OPEN_DELAY};
use crate::liability::ModelSpec;
use crate::requests::RequestWindow;
use crate::rollover::grants_view;
use crate::schema::LedgerConfig;
use crate::tables::{copy_text, text_view, views};
use crate::text::{
    all_blank, chars_of, is_blank, str_eq, strip_slashes, trim, trimmed,
    trimming_takes_white_space_alone, without_slashes,
};
use crate::upstream::{with_detail, UpstreamConfig};

verus! {

/// The request counter's key for the OpenRouter route. It is not a token
/// pool, and nothing denominated in tokens may use this name.
pub const OPENROUTER_POOL: &'static str = "openrouter:free";

// ---------------------------------------------------------------------------
// The sections.

#[derive(Debug)]
pub struct Config {
    pub server: Server,
    pub upstream: Upstream,
    pub ledger: Ledger,
    pub clock: Clock,
    pub safety: Safety,
    /// The second free route. Absent means OpenAI only.
    pub openrouter: Option<OpenRouterSection>,
    pub pools: Vec<Pool>,
    pub models: Vec<Model>,
}

#[derive(Debug)]
pub struct Server {
    /// Loopback only. There is no authentication.
    pub bind: String,
}

#[derive(Debug)]
pub struct Upstream {
    /// Including the version prefix, e.g. `https://api.openai.com/v1`.
    pub base_url: String,
    /// The environment variable holding the inference key.
    pub api_key_env: String,
    /// The environment variable holding the Admin key, used only to read the
    /// Usage API.
    pub admin_key_env: String,
    pub project: Option<String>,
    pub connect_timeout_seconds: u64,
    pub read_timeout_seconds: u64,
}

#[derive(Debug)]
pub struct Ledger {
    pub path: String,
    /// Must be on a different volume from `path`, so that losing one does not
    /// lose both.
    pub external_record_path: String,
    pub lock_dir: String,
    /// The organization whose grant this ledger is the inventory for.
    pub organization: String,
    /// Only for a single-volume test machine. Never in real use.
    pub allow_same_volume_external_record: bool,
}

#[derive(Debug, Clone, Copy, PartialEq, Eq, Structural)]
pub struct Clock {
    pub reading_uncertainty_seconds: i64,
    pub open_delay_seconds: i64,
    pub max_reading_age_seconds: i64,
    /// How often the provider's clock is re-read. Free of charge.
    pub refresh_seconds: u64,
}

impl Default for Clock {
    fn default() -> (clock: Clock)
        ensures
            clock == (Clock {
                reading_uncertainty_seconds: 5,
                open_delay_seconds: 300,
                max_reading_age_seconds: 900,
                refresh_seconds: 120,
            }),
    {
        Clock {
            reading_uncertainty_seconds: 5,
            open_delay_seconds: 300,
            max_reading_age_seconds: 900,
            refresh_seconds: 120,
        }
    }
}

#[derive(Debug, Clone, Copy, PartialEq, Eq, Structural)]
pub struct Safety {
    /// How long a data-sharing check stands before admission stops.
    pub data_sharing_ttl_seconds: u64,
    /// The liability a single verification may cover, as a fraction of the
    /// day's grant: 4 means a quarter of it.
    pub liability_budget_divisor: u64,
}

impl Default for Safety {
    fn default() -> (safety: Safety)
        ensures
            safety == (Safety { data_sharing_ttl_seconds: 900, liability_budget_divisor: 4 }),
    {
        Safety { data_sharing_ttl_seconds: 900, liability_budget_divisor: 4 }
    }
}

#[derive(Debug)]
pub struct Pool {
    pub id: String,
    pub granted_per_day: u64,
}

#[derive(Debug)]
pub struct Model {
    pub id: String,
    pub pool: String,
    /// Including reasoning tokens. The liability of a request that names no
    /// cap of its own.
    pub max_output_tokens: u64,
    /// Only for a model whose encoding is known to cover all 256 byte values.
    /// GPT-5.6's is unpublished, so it stays false there.
    pub byte_level_encoding_known: bool,
}

/// OpenRouter's free allowance is a number of requests a day, not tokens, so
/// this section is denominated in requests throughout.
#[derive(Debug)]
pub struct OpenRouterSection {
    pub enabled: bool,
    pub base_url: String,
    pub api_key_env: String,
    /// Only a management key can list BYOK endpoints. Without one, BYOK is
    /// recorded as unchecked rather than assumed absent.
    pub management_key_env: Option<String>,
    /// 50 a day on an account that has never bought credits, 1,000 after $10.
    pub daily_request_limit: u64,
    /// OpenRouter answers successful requests with no rate-limit headers, so
    /// the short window is enforced before sending, not after a 429.
    pub max_requests_per_window: u32,
    pub window_seconds: i64,
    pub account_ttl_seconds: u64,
    /// Ordered. The first whose capabilities cover a request is used, so the
    /// catch-all router belongs last.
    pub models: Vec<OpenRouterModelSection>,
}

/// What a `:free` model was **measured** to accept. Not what it advertises:
/// the providers behind one model id differ, and `supported_parameters` does
/// not describe Codex's custom or namespace tool shapes.
#[derive(Debug)]
pub struct OpenRouterModelSection {
    pub id: String,
    pub function_tools: bool,
    pub custom_tools: bool,
    pub namespace_tools: bool,
    pub structured_outputs: bool,
}

// ---------------------------------------------------------------------------
// What it resolves to.

/// The configuration, checked and turned into the shapes the runtime uses.
pub struct Resolved {
    pub upstream: UpstreamConfig,
    pub admin_key: String,
    pub usage_base_url: String,
    pub ledger: LedgerConfig,
    pub clock_policy: ClockPolicy,
    pub clock_refresh_seconds: u64,
    pub data_sharing_ttl: i64,
    pub safety_budget_divisor: u64,
    /// Pool grants for a day, in the order the ledger is given them.
    pub grants: Vec<(String, u64)>,
    pub catalog: Catalog,
    /// `None` when the route is absent or switched off.
    pub openrouter: Option<ResolvedOpenRouter>,
}

/// One `:free` model and what it was measured to accept.
#[derive(Debug, PartialEq, Eq)]
pub struct OpenRouterModel {
    pub id: String,
    pub function_tools: bool,
    pub custom_tools: bool,
    pub namespace_tools: bool,
    pub structured_outputs: bool,
}

pub struct RouteModelView {
    pub id: Seq<char>,
    pub function_tools: bool,
    pub custom_tools: bool,
    pub namespace_tools: bool,
    pub structured_outputs: bool,
}

impl View for OpenRouterModel {
    type V = RouteModelView;

    open spec fn view(&self) -> RouteModelView {
        RouteModelView {
            id: self.id@,
            function_tools: self.function_tools,
            custom_tools: self.custom_tools,
            namespace_tools: self.namespace_tools,
            structured_outputs: self.structured_outputs,
        }
    }
}

impl View for OpenRouterModelSection {
    type V = RouteModelView;

    open spec fn view(&self) -> RouteModelView {
        RouteModelView {
            id: self.id@,
            function_tools: self.function_tools,
            custom_tools: self.custom_tools,
            namespace_tools: self.namespace_tools,
            structured_outputs: self.structured_outputs,
        }
    }
}

#[derive(Debug)]
pub struct ResolvedOpenRouter {
    pub base_url: String,
    pub api_key: String,
    pub management_key: Option<String>,
    /// The request counter's key. Not a token pool; the two are different
    /// resources and never share a counter.
    pub pool_id: String,
    pub daily_request_limit: u64,
    pub window: RequestWindow,
    pub account_ttl: i64,
    pub connect_timeout_seconds: u64,
    pub read_timeout_seconds: u64,
    pub models: Vec<OpenRouterModel>,
}

pub struct RouteView {
    pub base_url: Seq<char>,
    pub api_key: Seq<char>,
    pub management_key: Option<Seq<char>>,
    pub pool_id: Seq<char>,
    pub daily_request_limit: u64,
    pub window: RequestWindow,
    pub account_ttl: i64,
    pub connect_timeout_seconds: u64,
    pub read_timeout_seconds: u64,
    pub models: Seq<RouteModelView>,
}

impl View for ResolvedOpenRouter {
    type V = RouteView;

    open spec fn view(&self) -> RouteView {
        RouteView {
            base_url: self.base_url@,
            api_key: self.api_key@,
            management_key: text_view(self.management_key),
            pool_id: self.pool_id@,
            daily_request_limit: self.daily_request_limit,
            window: self.window,
            account_ttl: self.account_ttl,
            connect_timeout_seconds: self.connect_timeout_seconds,
            read_timeout_seconds: self.read_timeout_seconds,
            models: views(self.models@),
        }
    }
}

/// What a configuration resolves to, with its texts as characters.
pub struct ResolvedView {
    pub base_url: Seq<char>,
    pub api_key: Seq<char>,
    pub project: Option<Seq<char>>,
    pub connect_timeout_seconds: u64,
    pub read_timeout_seconds: u64,
    pub admin_key: Seq<char>,
    pub usage_base_url: Seq<char>,
    pub ledger_path: Seq<char>,
    pub external_hwm_path: Seq<char>,
    pub lock_dir: Seq<char>,
    pub organization: Seq<char>,
    pub ledger_pools: Seq<Seq<char>>,
    pub allow_same_volume_external_record: bool,
    pub uncertainty: int,
    pub open_delay: int,
    pub max_age: int,
    pub clock_refresh_seconds: u64,
    pub data_sharing_ttl: i64,
    pub safety_budget_divisor: u64,
    pub grants: Seq<(Seq<char>, u64)>,
    pub catalog: Seq<(Seq<char>, EntryView)>,
    pub openrouter: Option<RouteView>,
}

pub open spec fn route_view(route: Option<ResolvedOpenRouter>) -> Option<RouteView> {
    match route {
        Some(r) => Some(r@),
        None => None,
    }
}

impl View for Resolved {
    type V = ResolvedView;

    open spec fn view(&self) -> ResolvedView {
        ResolvedView {
            base_url: self.upstream.base_url@,
            api_key: self.upstream.api_key@,
            project: text_view(self.upstream.project),
            connect_timeout_seconds: self.upstream.connect_timeout_seconds,
            read_timeout_seconds: self.upstream.read_timeout_seconds,
            admin_key: self.admin_key@,
            usage_base_url: self.usage_base_url@,
            ledger_path: self.ledger.ledger_path@,
            external_hwm_path: self.ledger.external_hwm_path@,
            lock_dir: self.ledger.lock_dir@,
            organization: self.ledger.organization@,
            ledger_pools: views(self.ledger.pools@),
            allow_same_volume_external_record: self.ledger.allow_same_volume_external_record,
            uncertainty: self.clock_policy.uncertainty(),
            open_delay: self.clock_policy.delay(),
            max_age: self.clock_policy.max_age(),
            clock_refresh_seconds: self.clock_refresh_seconds,
            data_sharing_ttl: self.data_sharing_ttl,
            safety_budget_divisor: self.safety_budget_divisor,
            grants: grants_view(self.grants@),
            catalog: self.catalog@,
            openrouter: route_view(self.openrouter),
        }
    }
}

#[derive(Debug, PartialEq, Eq)]
pub enum ConfigError {
    MissingCredential(String),
    BadBindAddress(String),
    NotLoopback,
    Empty,
    UnknownPool { model: String, pool: String },
    ZeroOutput(String),
    DuplicatePool(String),
    DuplicateModel(String),
    PoolNameReserved(String),
    NoOpenRouterModels,
    EmptyOpenRouterWindow,
    Clock(PolicyError),
}

pub enum ConfigErrorView {
    MissingCredential(Seq<char>),
    BadBindAddress(Seq<char>),
    NotLoopback,
    Empty,
    UnknownPool { model: Seq<char>, pool: Seq<char> },
    ZeroOutput(Seq<char>),
    DuplicatePool(Seq<char>),
    DuplicateModel(Seq<char>),
    PoolNameReserved(Seq<char>),
    NoOpenRouterModels,
    EmptyOpenRouterWindow,
    Clock(PolicyError),
}

impl View for ConfigError {
    type V = ConfigErrorView;

    open spec fn view(&self) -> ConfigErrorView {
        match *self {
            ConfigError::MissingCredential(name) => ConfigErrorView::MissingCredential(name@),
            ConfigError::BadBindAddress(text) => ConfigErrorView::BadBindAddress(text@),
            ConfigError::NotLoopback => ConfigErrorView::NotLoopback,
            ConfigError::Empty => ConfigErrorView::Empty,
            ConfigError::UnknownPool { model, pool } => ConfigErrorView::UnknownPool {
                model: model@,
                pool: pool@,
            },
            ConfigError::ZeroOutput(model) => ConfigErrorView::ZeroOutput(model@),
            ConfigError::DuplicatePool(pool) => ConfigErrorView::DuplicatePool(pool@),
            ConfigError::DuplicateModel(model) => ConfigErrorView::DuplicateModel(model@),
            ConfigError::PoolNameReserved(pool) => ConfigErrorView::PoolNameReserved(pool@),
            ConfigError::NoOpenRouterModels => ConfigErrorView::NoOpenRouterModels,
            ConfigError::EmptyOpenRouterWindow => ConfigErrorView::EmptyOpenRouterWindow,
            ConfigError::Clock(error) => ConfigErrorView::Clock(error),
        }
    }
}

/// What is wrong with a configuration, in words.
pub open spec fn config_text(error: ConfigErrorView) -> Seq<char> {
    match error {
        ConfigErrorView::MissingCredential(name) => "the environment variable "@ + name
            + " is not set, or is empty"@,
        ConfigErrorView::BadBindAddress(text) => "`bind` is not an address: "@ + text,
        ConfigErrorView::NotLoopback =>
            "`bind` must be a loopback address: QuotaMiser has no authentication, so it must not be reachable from the network"@,
        ConfigErrorView::Empty => "at least one pool and one model must be configured"@,
        ConfigErrorView::UnknownPool { model, pool } => "model "@ + model + " names pool "@ + pool
            + ", which is not configured"@,
        ConfigErrorView::ZeroOutput(model) => "model "@ + model
            + " has a maximum output of zero tokens"@,
        ConfigErrorView::DuplicatePool(pool) => "pool "@ + pool + " is configured twice"@,
        ConfigErrorView::DuplicateModel(model) => "model "@ + model + " is configured twice"@,
        ConfigErrorView::PoolNameReserved(pool) => "pool "@ + pool
            + " is reserved for the request counter, which counts requests rather than tokens"@,
        ConfigErrorView::NoOpenRouterModels =>
            "the OpenRouter route is enabled but lists no models, so it could never serve one"@,
        ConfigErrorView::EmptyOpenRouterWindow =>
            "the OpenRouter rate-limit window must allow at least one request in a positive time"@,
        ConfigErrorView::Clock(error) => "the clock policy is not acceptable: "@ + policy_text(
            error,
        ),
    }
}

/// A text between two others.
fn around(before: &str, text: &str, after: &str) -> (out: String)
    ensures
        out@ == before@ + text@ + after@,
{
    let mut out = before.to_owned();
    out.push_str(text);
    out.push_str(after);
    out
}

impl ConfigError {
    pub fn message(&self) -> (text: String)
        ensures
            text@ == config_text(self@),
    {
        match self {
            ConfigError::MissingCredential(name) => around(
                "the environment variable ",
                name.as_str(),
                " is not set, or is empty",
            ),
            ConfigError::BadBindAddress(text) => with_detail("`bind` is not an address: ", text),
            ConfigError::NotLoopback => String::from_str(
                "`bind` must be a loopback address: QuotaMiser has no authentication, so it must not be reachable from the network",
            ),
            ConfigError::Empty => String::from_str(
                "at least one pool and one model must be configured",
            ),
            ConfigError::UnknownPool { model, pool } => {
                let mut text = around("model ", model.as_str(), " names pool ");
                text.push_str(pool.as_str());
                text.push_str(", which is not configured");
                text
            },
            ConfigError::ZeroOutput(model) => around(
                "model ",
                model.as_str(),
                " has a maximum output of zero tokens",
            ),
            ConfigError::DuplicatePool(pool) => around(
                "pool ",
                pool.as_str(),
                " is configured twice",
            ),
            ConfigError::DuplicateModel(model) => around(
                "model ",
                model.as_str(),
                " is configured twice",
            ),
            ConfigError::PoolNameReserved(pool) => around(
                "pool ",
                pool.as_str(),
                " is reserved for the request counter, which counts requests rather than tokens",
            ),
            ConfigError::NoOpenRouterModels => String::from_str(
                "the OpenRouter route is enabled but lists no models, so it could never serve one",
            ),
            ConfigError::EmptyOpenRouterWindow => String::from_str(
                "the OpenRouter rate-limit window must allow at least one request in a positive time",
            ),
            ConfigError::Clock(error) => {
                let mut text = String::from_str("the clock policy is not acceptable: ");
                text.push_str(error.message());
                text
            },
        }
    }
}

/// What the bind address is, as far as an address parser can tell.
#[derive(Debug, Clone, Copy, PartialEq, Eq, Structural)]
pub enum Bind {
    NotAnAddress,
    Address { loopback: bool },
}

/// The variables of an environment. They hold credentials, so they are not to
/// be printed.
pub struct Environment {
    pub variables: Vec<(String, String)>,
}

pub open spec fn variables_view(variables: Seq<(String, String)>) -> Seq<(Seq<char>, Seq<char>)> {
    Seq::new(variables.len(), |i: int| (variables[i].0@, variables[i].1@))
}

impl View for Environment {
    type V = Seq<(Seq<char>, Seq<char>)>;

    open spec fn view(&self) -> Seq<(Seq<char>, Seq<char>)> {
        variables_view(self.variables@)
    }
}

/// The value of a variable, from a position on.
pub open spec fn variable_of(
    variables: Seq<(Seq<char>, Seq<char>)>,
    name: Seq<char>,
    from: int,
) -> Option<Seq<char>>
    decreases variables.len() - from,
{
    if from < 0 || from >= variables.len() {
        None
    } else if variables[from].0 == name {
        Some(variables[from].1)
    } else {
        variable_of(variables, name, from + 1)
    }
}

/// The credential a variable holds: one that is unset or blank is missing.
pub open spec fn credential_of(variables: Seq<(Seq<char>, Seq<char>)>, name: Seq<char>) -> Result<
    Seq<char>,
    ConfigErrorView,
> {
    match variable_of(variables, name, 0) {
        Some(value) if trimmed(value).len() > 0 => Ok(value),
        _ => Err(ConfigErrorView::MissingCredential(name)),
    }
}

/// Whether a pool is among grants.
pub open spec fn has_grant(grants: Seq<(Seq<char>, u64)>, pool: Seq<char>) -> bool {
    exists|i: int| 0 <= i < grants.len() && (#[trigger] grants[i]).0 == pool
}

/// The grants of the configured pools; the first pool that cannot be one
/// decides.
pub open spec fn grants_of(pools: Seq<Pool>) -> Result<Seq<(Seq<char>, u64)>, ConfigErrorView>
    decreases pools.len(),
{
    if pools.len() == 0 {
        Ok(Seq::empty())
    } else {
        match grants_of(pools.drop_last()) {
            Err(error) => Err(error),
            Ok(grants) => {
                let id = pools.last().id@;
                if has_grant(grants, id) {
                    Err(ConfigErrorView::DuplicatePool(id))
                } else if id == OPENROUTER_POOL@ {
                    Err(ConfigErrorView::PoolNameReserved(id))
                } else {
                    Ok(grants.push((id, pools.last().granted_per_day)))
                }
            },
        }
    }
}

/// Whether a model is in a catalog.
pub open spec fn has_model(catalog: Seq<(Seq<char>, EntryView)>, model: Seq<char>) -> bool {
    exists|i: int| 0 <= i < catalog.len() && (#[trigger] catalog[i]).0 == model
}

/// The catalog of the configured models; the first model that cannot be in it
/// decides.
pub open spec fn catalog_of(models: Seq<Model>, grants: Seq<(Seq<char>, u64)>) -> Result<
    Seq<(Seq<char>, EntryView)>,
    ConfigErrorView,
>
    decreases models.len(),
{
    if models.len() == 0 {
        Ok(Seq::empty())
    } else {
        match catalog_of(models.drop_last(), grants) {
            Err(error) => Err(error),
            Ok(catalog) => {
                let model = models.last();
                if model.max_output_tokens == 0 {
                    Err(ConfigErrorView::ZeroOutput(model.id@))
                } else if !has_grant(grants, model.pool@) {
                    Err(ConfigErrorView::UnknownPool { model: model.id@, pool: model.pool@ })
                } else if has_model(catalog, model.id@) {
                    Err(ConfigErrorView::DuplicateModel(model.id@))
                } else {
                    Ok(
                        catalog.push(
                            (
                                model.id@,
                                EntryView {
                                    pool_id: model.pool@,
                                    spec: ModelSpec {
                                        max_output_tokens: model.max_output_tokens,
                                        byte_level_encoding_known: model.byte_level_encoding_known,
                                    },
                                },
                            ),
                        ),
                    )
                }
            },
        }
    }
}

/// A number of seconds as a signed one, as far as it goes.
pub open spec fn signed_seconds(n: u64) -> i64 {
    if n <= i64::MAX {
        n as i64
    } else {
        i64::MAX
    }
}

/// The OpenRouter route.
pub open spec fn route_of(
    section: Option<OpenRouterSection>,
    upstream: Upstream,
    env: Seq<(Seq<char>, Seq<char>)>,
) -> Result<Option<RouteView>, ConfigErrorView> {
    match section {
        Some(s) if s.enabled => {
            let key = credential_of(env, s.api_key_env@);
            let management = match s.management_key_env {
                Some(name) => match credential_of(env, name@) {
                    Ok(value) => Ok(Some(value)),
                    Err(error) => Err(error),
                },
                None => Ok(None),
            };
            if s.models@.len() == 0 {
                Err(ConfigErrorView::NoOpenRouterModels)
            } else if s.max_requests_per_window == 0 || s.window_seconds <= 0 {
                Err(ConfigErrorView::EmptyOpenRouterWindow)
            } else {
                match (key, management) {
                    (Err(error), _) => Err(error),
                    (Ok(_), Err(error)) => Err(error),
                    (Ok(api_key), Ok(management_key)) => Ok(
                        Some(
                            RouteView {
                                base_url: s.base_url@,
                                api_key,
                                management_key,
                                pool_id: OPENROUTER_POOL@,
                                daily_request_limit: s.daily_request_limit,
                                window: RequestWindow {
                                    max_in_window: s.max_requests_per_window,
                                    window_seconds: s.window_seconds,
                                },
                                account_ttl: signed_seconds(s.account_ttl_seconds),
                                connect_timeout_seconds: upstream.connect_timeout_seconds,
                                read_timeout_seconds: upstream.read_timeout_seconds,
                                models: views(s.models@),
                            },
                        ),
                    ),
                }
            }
        },
        _ => Ok(None),
    }
}

/// What is wrong with a clock policy, where something is.
pub open spec fn clock_fault(clock: Clock) -> Option<PolicyError> {
    if clock.reading_uncertainty_seconds < 1 {
        Some(PolicyError::UncertaintyTooSmall)
    } else if clock.open_delay_seconds < MIN_OPEN_DELAY {
        Some(PolicyError::OpenDelayTooShort)
    } else if !(1 <= clock.max_reading_age_seconds <= MAX_READING_AGE) {
        Some(PolicyError::ReadingAgeOutOfRange)
    } else {
        None
    }
}

/// The names of the pools.
pub open spec fn pool_names(pools: Seq<Pool>) -> Seq<Seq<char>> {
    Seq::new(pools.len(), |i: int| pools[i].id@)
}

/// What a configuration resolves to. The first thing that is wrong decides.
pub open spec fn resolved(config: Config, bind: Bind, env: Seq<(Seq<char>, Seq<char>)>) -> Result<
    ResolvedView,
    ConfigErrorView,
> {
    let key = credential_of(env, config.upstream.api_key_env@);
    let admin = credential_of(env, config.upstream.admin_key_env@);
    let grants = grants_of(config.pools@);
    match bind {
        Bind::NotAnAddress => Err(ConfigErrorView::BadBindAddress(config.server.bind@)),
        Bind::Address { loopback } => if !loopback {
            Err(ConfigErrorView::NotLoopback)
        } else {
            match (key, admin) {
                (Err(error), _) => Err(error),
                (Ok(_), Err(error)) => Err(error),
                (Ok(api_key), Ok(admin_key)) => if config.pools@.len() == 0
                    || config.models@.len() == 0 {
                    Err(ConfigErrorView::Empty)
                } else {
                    match grants {
                        Err(error) => Err(error),
                        Ok(grants) => match catalog_of(config.models@, grants) {
                            Err(error) => Err(error),
                            Ok(catalog) => match route_of(
                                config.openrouter,
                                config.upstream,
                                env,
                            ) {
                                Err(error) => Err(error),
                                Ok(route) => match clock_fault(config.clock) {
                                    Some(error) => Err(ConfigErrorView::Clock(error)),
                                    None => Ok(
                                        settled_config(
                                            config,
                                            api_key,
                                            admin_key,
                                            grants,
                                            catalog,
                                            route,
                                        ),
                                    ),
                                },
                            },
                        },
                    }
                },
            }
        },
    }
}

/// What a configuration with nothing wrong resolves to.
pub open spec fn settled_config(
    config: Config,
    api_key: Seq<char>,
    admin_key: Seq<char>,
    grants: Seq<(Seq<char>, u64)>,
    catalog: Seq<(Seq<char>, EntryView)>,
    route: Option<RouteView>,
) -> ResolvedView {
    ResolvedView {
        base_url: config.upstream.base_url@,
        api_key,
        project: text_view(config.upstream.project),
        connect_timeout_seconds: config.upstream.connect_timeout_seconds,
        read_timeout_seconds: config.upstream.read_timeout_seconds,
        admin_key,
        // The Usage API shares the origin the inference base URL carries.
        usage_base_url: without_slashes(config.upstream.base_url@),
        ledger_path: config.ledger.path@,
        external_hwm_path: config.ledger.external_record_path@,
        lock_dir: config.ledger.lock_dir@,
        organization: config.ledger.organization@,
        ledger_pools: pool_names(config.pools@),
        allow_same_volume_external_record: config.ledger.allow_same_volume_external_record,
        uncertainty: config.clock.reading_uncertainty_seconds as int,
        open_delay: config.clock.open_delay_seconds as int,
        max_age: config.clock.max_reading_age_seconds as int,
        clock_refresh_seconds: config.clock.refresh_seconds,
        data_sharing_ttl: signed_seconds(config.safety.data_sharing_ttl_seconds),
        safety_budget_divisor: if config.safety.liability_budget_divisor >= 1 {
            config.safety.liability_budget_divisor
        } else {
            1
        },
        grants,
        catalog,
        openrouter: route,
    }
}

pub open spec fn resolved_view(result: Result<Resolved, ConfigError>) -> Result<
    ResolvedView,
    ConfigErrorView,
> {
    match result {
        Ok(resolved) => Ok(resolved@),
        Err(error) => Err(error@),
    }
}

// ---------------------------------------------------------------------------
// Resolving.

impl Environment {
    /// The value of a variable.
    fn get(&self, name: &str) -> (value: Option<&String>)
        ensures
            match value {
                Some(text) => variable_of(self@, name@, 0) == Some(text@),
                None => variable_of(self@, name@, 0) is None,
            },
    {
        let mut i: usize = 0;
        while i < self.variables.len()
            invariant
                i <= self.variables@.len(),
                variable_of(self@, name@, i as int) == variable_of(self@, name@, 0),
            decreases self.variables.len() - i,
        {
            assert(self@[i as int].0 == self.variables@[i as int].0@);
            if str_eq(self.variables[i].0.as_str(), name) {
                return Some(&self.variables[i].1);
            }
            i = i + 1;
        }
        None
    }

    /// The credential a variable holds.
    fn credential(&self, name: &str) -> (result: Result<String, ConfigError>)
        ensures
            match result {
                Ok(value) => credential_of(self@, name@) == Ok::<Seq<char>, ConfigErrorView>(
                    value@,
                ),
                Err(error) => credential_of(self@, name@) == Err::<Seq<char>, ConfigErrorView>(
                    error@,
                ),
            },
    {
        match self.get(name) {
            Some(value) => {
                let chars = chars_of(value.as_str());
                let (from, to) = trim(&chars);
                assert(trimmed(value@).len() == to - from);
                if from < to {
                    Ok(value.clone())
                } else {
                    Err(ConfigError::MissingCredential(name.to_owned()))
                }
            },
            None => Err(ConfigError::MissingCredential(name.to_owned())),
        }
    }
}

/// Whether a pool is among grants.
fn granted(grants: &Vec<(String, u64)>, pool: &str) -> (found: bool)
    ensures
        found == has_grant(grants_view(grants@), pool@),
{
    let ghost all = grants_view(grants@);
    let mut i: usize = 0;
    while i < grants.len()
        invariant
            i <= grants@.len(),
            all == grants_view(grants@),
            forall|k: int| 0 <= k < i ==> (#[trigger] all[k]).0 != pool@,
        decreases grants.len() - i,
    {
        assert(all[i as int].0 == grants@[i as int].0@);
        if str_eq(grants[i].0.as_str(), pool) {
            return true;
        }
        i = i + 1;
    }
    false
}

/// Whether a model is in a catalog.
fn catalogued(models: &Vec<(String, CatalogEntry)>, model: &str) -> (found: bool)
    ensures
        found == has_model(models_view(models@), model@),
{
    let ghost all = models_view(models@);
    let mut i: usize = 0;
    while i < models.len()
        invariant
            i <= models@.len(),
            all == models_view(models@),
            forall|k: int| 0 <= k < i ==> (#[trigger] all[k]).0 != model@,
        decreases models.len() - i,
    {
        assert(all[i as int].0 == models@[i as int].0@);
        if str_eq(models[i].0.as_str(), model) {
            return true;
        }
        i = i + 1;
    }
    false
}

proof fn lemma_grants_fail(pools: Seq<Pool>, n: int)
    requires
        0 <= n <= pools.len(),
        grants_of(pools.take(n)) is Err,
    ensures
        grants_of(pools) == grants_of(pools.take(n)),
    decreases pools.len() - n,
{
    if n < pools.len() {
        assert(pools.take(n + 1).drop_last() =~= pools.take(n));
        lemma_grants_fail(pools, n + 1);
    } else {
        assert(pools.take(n) =~= pools);
    }
}

proof fn lemma_catalog_fails(models: Seq<Model>, grants: Seq<(Seq<char>, u64)>, n: int)
    requires
        0 <= n <= models.len(),
        catalog_of(models.take(n), grants) is Err,
    ensures
        catalog_of(models, grants) == catalog_of(models.take(n), grants),
    decreases models.len() - n,
{
    if n < models.len() {
        assert(models.take(n + 1).drop_last() =~= models.take(n));
        lemma_catalog_fails(models, grants, n + 1);
    } else {
        assert(models.take(n) =~= models);
    }
}

/// The grants of the configured pools.
fn resolve_grants(pools: &Vec<Pool>) -> (result: Result<Vec<(String, u64)>, ConfigError>)
    ensures
        match result {
            Ok(grants) => grants_of(pools@) == Ok::<Seq<(Seq<char>, u64)>, ConfigErrorView>(
                grants_view(grants@),
            ),
            Err(error) => grants_of(pools@) == Err::<Seq<(Seq<char>, u64)>, ConfigErrorView>(
                error@,
            ),
        },
{
    let ghost all = pools@;
    let mut grants: Vec<(String, u64)> = Vec::new();
    assert(all.take(0) =~= Seq::empty());
    assert(grants_view(grants@) =~= Seq::empty());
    let mut i: usize = 0;
    while i < pools.len()
        invariant
            i <= pools@.len(),
            all == pools@,
            grants_of(all.take(i as int)) == Ok::<Seq<(Seq<char>, u64)>, ConfigErrorView>(
                grants_view(grants@),
            ),
        decreases pools.len() - i,
    {
        let pool = &pools[i];
        let ghost done = grants_view(grants@);
        proof {
            assert(all.take(i + 1).drop_last() =~= all.take(i as int));
            assert(all.take(i + 1).last() == *pool);
        }
        if granted(&grants, pool.id.as_str()) {
            proof {
                lemma_grants_fail(all, i + 1);
            }
            return Err(ConfigError::DuplicatePool(pool.id.clone()));
        }
        // Token pools and the request counter must never share a name: one is
        // denominated in tokens and the other in requests.
        if str_eq(pool.id.as_str(), OPENROUTER_POOL) {
            proof {
                lemma_grants_fail(all, i + 1);
            }
            return Err(ConfigError::PoolNameReserved(pool.id.clone()));
        }
        grants.push((pool.id.clone(), pool.granted_per_day));
        assert(grants_view(grants@) =~= done.push((pool.id@, pool.granted_per_day)));
        i = i + 1;
    }
    assert(all.take(all.len() as int) =~= all);
    Ok(grants)
}

/// The catalog of the configured models.
fn resolve_catalog(models: &Vec<Model>, grants: &Vec<(String, u64)>) -> (result: Result<
    Catalog,
    ConfigError,
>)
    ensures
        match result {
            Ok(catalog) => catalog_of(models@, grants_view(grants@)) == Ok::<
                Seq<(Seq<char>, EntryView)>,
                ConfigErrorView,
            >(catalog@),
            Err(error) => catalog_of(models@, grants_view(grants@)) == Err::<
                Seq<(Seq<char>, EntryView)>,
                ConfigErrorView,
            >(error@),
        },
{
    let ghost all = models@;
    let ghost paid = grants_view(grants@);
    let mut entries: Vec<(String, CatalogEntry)> = Vec::new();
    assert(all.take(0) =~= Seq::empty());
    assert(models_view(entries@) =~= Seq::empty());
    let mut i: usize = 0;
    while i < models.len()
        invariant
            i <= models@.len(),
            all == models@,
            paid == grants_view(grants@),
            catalog_of(all.take(i as int), paid) == Ok::<
                Seq<(Seq<char>, EntryView)>,
                ConfigErrorView,
            >(models_view(entries@)),
        decreases models.len() - i,
    {
        let model = &models[i];
        let ghost done = models_view(entries@);
        proof {
            assert(all.take(i + 1).drop_last() =~= all.take(i as int));
            assert(all.take(i + 1).last() == *model);
        }
        if model.max_output_tokens == 0 {
            proof {
                lemma_catalog_fails(all, paid, i + 1);
            }
            return Err(ConfigError::ZeroOutput(model.id.clone()));
        }
        if !granted(grants, model.pool.as_str()) {
            proof {
                lemma_catalog_fails(all, paid, i + 1);
            }
            return Err(
                ConfigError::UnknownPool { model: model.id.clone(), pool: model.pool.clone() },
            );
        }
        if catalogued(&entries, model.id.as_str()) {
            proof {
                lemma_catalog_fails(all, paid, i + 1);
            }
            return Err(ConfigError::DuplicateModel(model.id.clone()));
        }
        let entry = CatalogEntry {
            pool_id: model.pool.clone(),
            spec: ModelSpec {
                max_output_tokens: model.max_output_tokens,
                byte_level_encoding_known: model.byte_level_encoding_known,
            },
        };
        let ghost view = entry@;
        entries.push((model.id.clone(), entry));
        assert(models_view(entries@) =~= done.push((model.id@, view)));
        i = i + 1;
    }
    assert(all.take(all.len() as int) =~= all);
    Ok(Catalog { models: entries })
}

/// A number of seconds as a signed one, as far as it goes.
fn to_signed(n: u64) -> (seconds: i64)
    ensures
        seconds == signed_seconds(n),
{
    if n <= i64::MAX as u64 {
        n as i64
    } else {
        i64::MAX
    }
}

/// The models of the OpenRouter route.
fn resolve_route_models(sections: &Vec<OpenRouterModelSection>) -> (models: Vec<OpenRouterModel>)
    ensures
        views(models@) == views(sections@),
{
    let mut models: Vec<OpenRouterModel> = Vec::new();
    let mut i: usize = 0;
    while i < sections.len()
        invariant
            i <= sections@.len(),
            models@.len() == i,
            forall|k: int| 0 <= k < i ==> (#[trigger] models@[k])@ == sections@[k]@,
        decreases sections.len() - i,
    {
        let section = &sections[i];
        models.push(
            OpenRouterModel {
                id: section.id.clone(),
                function_tools: section.function_tools,
                custom_tools: section.custom_tools,
                namespace_tools: section.namespace_tools,
                structured_outputs: section.structured_outputs,
            },
        );
        i = i + 1;
    }
    assert(views(models@) =~= views(sections@));
    models
}

/// The OpenRouter route.
fn resolve_route(
    section: &Option<OpenRouterSection>,
    upstream: &Upstream,
    env: &Environment,
) -> (result: Result<Option<ResolvedOpenRouter>, ConfigError>)
    ensures
        match result {
            Ok(route) => route_of(*section, *upstream, env@) == Ok::<
                Option<RouteView>,
                ConfigErrorView,
            >(route_view(route)),
            Err(error) => route_of(*section, *upstream, env@) == Err::<
                Option<RouteView>,
                ConfigErrorView,
            >(error@),
        },
{
    let s = match section {
        Some(s) => s,
        None => {
            return Ok(None);
        },
    };
    if !s.enabled {
        return Ok(None);
    }
    if s.models.len() == 0 {
        return Err(ConfigError::NoOpenRouterModels);
    }
    if s.max_requests_per_window == 0 || s.window_seconds <= 0 {
        return Err(ConfigError::EmptyOpenRouterWindow);
    }
    let api_key = match env.credential(s.api_key_env.as_str()) {
        Ok(key) => key,
        Err(error) => {
            return Err(error);
        },
    };
    let management_key: Option<String> = match &s.management_key_env {
        Some(name) => match env.credential(name.as_str()) {
            Ok(key) => Some(key),
            Err(error) => {
                return Err(error);
            },
        },
        None => None,
    };
    Ok(
        Some(
            ResolvedOpenRouter {
                base_url: s.base_url.clone(),
                api_key,
                management_key,
                pool_id: OPENROUTER_POOL.to_owned(),
                daily_request_limit: s.daily_request_limit,
                window: RequestWindow {
                    max_in_window: s.max_requests_per_window,
                    window_seconds: s.window_seconds,
                },
                account_ttl: to_signed(s.account_ttl_seconds),
                connect_timeout_seconds: upstream.connect_timeout_seconds,
                read_timeout_seconds: upstream.read_timeout_seconds,
                models: resolve_route_models(&s.models),
            },
        ),
    )
}

/// The names of the pools.
fn names_of_pools(pools: &Vec<Pool>) -> (names: Vec<String>)
    ensures
        views(names@) == pool_names(pools@),
{
    let mut names: Vec<String> = Vec::new();
    let mut i: usize = 0;
    while i < pools.len()
        invariant
            i <= pools@.len(),
            names@.len() == i,
            forall|k: int| 0 <= k < i ==> (#[trigger] names@[k])@ == pools@[k].id@,
        decreases pools.len() - i,
    {
        names.push(pools[i].id.clone());
        i = i + 1;
    }
    assert(views(names@) =~= pool_names(pools@));
    names
}

impl Config {
    /// Reads the credentials from the environment and checks every value that
    /// startup depends on. `bind` is what an address parser makes of the bind
    /// address.
    pub fn resolve(self, bind: Bind, env: &Environment) -> (result: Result<Resolved, ConfigError>)
        ensures
            resolved_view(result) == resolved(self, bind, env@),
            result matches Ok(resolved) ==> resolved.clock_policy.ok(),
    {
        match bind {
            Bind::NotAnAddress => {
                return Err(ConfigError::BadBindAddress(self.server.bind));
            },
            Bind::Address { loopback } => {
                if !loopback {
                    return Err(ConfigError::NotLoopback);
                }
            },
        }
        let api_key = match env.credential(self.upstream.api_key_env.as_str()) {
            Ok(key) => key,
            Err(error) => {
                return Err(error);
            },
        };
        let admin_key = match env.credential(self.upstream.admin_key_env.as_str()) {
            Ok(key) => key,
            Err(error) => {
                return Err(error);
            },
        };
        if self.pools.len() == 0 || self.models.len() == 0 {
            return Err(ConfigError::Empty);
        }
        let grants = match resolve_grants(&self.pools) {
            Ok(grants) => grants,
            Err(error) => {
                return Err(error);
            },
        };
        let catalog = match resolve_catalog(&self.models, &grants) {
            Ok(catalog) => catalog,
            Err(error) => {
                return Err(error);
            },
        };
        let openrouter = match resolve_route(&self.openrouter, &self.upstream, env) {
            Ok(route) => route,
            Err(error) => {
                return Err(error);
            },
        };
        let clock_policy = match ClockPolicy::new(
            self.clock.reading_uncertainty_seconds,
            self.clock.open_delay_seconds,
            self.clock.max_reading_age_seconds,
        ) {
            Ok(policy) => policy,
            Err(error) => {
                return Err(ConfigError::Clock(error));
            },
        };
        let safety_budget_divisor: u64 = if self.safety.liability_budget_divisor >= 1 {
            self.safety.liability_budget_divisor
        } else {
            1
        };
        Ok(
            Resolved {
                upstream: UpstreamConfig {
                    base_url: self.upstream.base_url.clone(),
                    api_key,
                    project: copy_text(&self.upstream.project),
                    connect_timeout_seconds: self.upstream.connect_timeout_seconds,
                    read_timeout_seconds: self.upstream.read_timeout_seconds,
                },
                admin_key,
                usage_base_url: strip_slashes(self.upstream.base_url.as_str()),
                ledger: LedgerConfig {
                    ledger_path: self.ledger.path.clone(),
                    external_hwm_path: self.ledger.external_record_path.clone(),
                    lock_dir: self.ledger.lock_dir.clone(),
                    organization: self.ledger.organization.clone(),
                    pools: names_of_pools(&self.pools),
                    allow_same_volume_external_record:
                        self.ledger.allow_same_volume_external_record,
                },
                clock_policy,
                clock_refresh_seconds: self.clock.refresh_seconds,
                data_sharing_ttl: to_signed(self.safety.data_sharing_ttl_seconds),
                safety_budget_divisor,
                grants,
                catalog,
                openrouter,
            },
        )
    }
}

// ---------------------------------------------------------------------------
// Laws.

/// Law: what a configuration resolves to is a sound inventory. Every pool is
/// named once and none takes the request counter's name; every model is named
/// once, can produce output, and is paid for by a configured pool.
pub proof fn a_resolved_inventory_is_sound(
    config: Config,
    bind: Bind,
    env: Seq<(Seq<char>, Seq<char>)>,
)
    ensures
        resolved(config, bind, env) matches Ok(r) ==> {
            &&& bind == (Bind::Address { loopback: true })
            &&& distinct_grants(r.grants)
            &&& distinct_models(r.catalog)
            &&& !has_grant(r.grants, OPENROUTER_POOL@)
            &&& r.grants.len() > 0
            &&& r.catalog.len() > 0
            &&& forall|i: int|
                0 <= i < r.catalog.len() ==> has_grant(
                    r.grants,
                    (#[trigger] r.catalog[i]).1.pool_id,
                ) && r.catalog[i].1.spec.max_output_tokens > 0
            &&& r.safety_budget_divisor >= 1
        },
{
    lemma_grants_distinct(config.pools@);
    if let Ok(grants) = grants_of(config.pools@) {
        lemma_catalog_sound(config.models@, grants);
    }
}

pub open spec fn distinct_grants(grants: Seq<(Seq<char>, u64)>) -> bool {
    forall|i: int, j: int|
        0 <= i < j < grants.len() ==> (#[trigger] grants[i]).0 != (#[trigger] grants[j]).0
}

pub open spec fn distinct_models(catalog: Seq<(Seq<char>, EntryView)>) -> bool {
    forall|i: int, j: int|
        0 <= i < j < catalog.len() ==> (#[trigger] catalog[i]).0 != (#[trigger] catalog[j]).0
}

proof fn lemma_grants_distinct(pools: Seq<Pool>)
    ensures
        grants_of(pools) matches Ok(grants) ==> distinct_grants(grants) && grants.len()
            == pools.len() && !has_grant(grants, OPENROUTER_POOL@),
    decreases pools.len(),
{
    if pools.len() > 0 {
        lemma_grants_distinct(pools.drop_last());
        if let Ok(before) = grants_of(pools.drop_last()) {
            if let Ok(grants) = grants_of(pools) {
                assert(grants.drop_last() =~= before);
                assert forall|i: int| 0 <= i < grants.len() implies (#[trigger] grants[i]).0
                    != OPENROUTER_POOL@ by {
                    if i < before.len() {
                        assert(before[i] == grants[i]);
                    }
                }
                assert forall|i: int, j: int|
                    0 <= i < j < grants.len() implies (#[trigger] grants[i]).0 != (
                #[trigger] grants[j]).0 by {
                    assert(before[i] == grants[i]);
                    if j < before.len() {
                        assert(before[j] == grants[j]);
                    }
                }
            }
        }
    }
}

proof fn lemma_catalog_sound(models: Seq<Model>, grants: Seq<(Seq<char>, u64)>)
    ensures
        catalog_of(models, grants) matches Ok(catalog) ==> {
            &&& distinct_models(catalog)
            &&& catalog.len() == models.len()
            &&& forall|i: int|
                0 <= i < catalog.len() ==> has_grant(grants, (#[trigger] catalog[i]).1.pool_id)
                    && catalog[i].1.spec.max_output_tokens > 0
        },
    decreases models.len(),
{
    if models.len() > 0 {
        lemma_catalog_sound(models.drop_last(), grants);
        if let Ok(before) = catalog_of(models.drop_last(), grants) {
            if let Ok(catalog) = catalog_of(models, grants) {
                assert(catalog.drop_last() =~= before);
                assert forall|i: int| 0 <= i < catalog.len() implies has_grant(
                    grants,
                    (#[trigger] catalog[i]).1.pool_id,
                ) && catalog[i].1.spec.max_output_tokens > 0 by {
                    if i < before.len() {
                        assert(before[i] == catalog[i]);
                    }
                }
                assert forall|i: int, j: int|
                    0 <= i < j < catalog.len() implies (#[trigger] catalog[i]).0 != (
                #[trigger] catalog[j]).0 by {
                    assert(before[i] == catalog[i]);
                    if j < before.len() {
                        assert(before[j] == catalog[j]);
                    }
                }
            }
        }
    }
}

/// Law: a variable has the value of the first entry under its name, and one
/// without an entry has none.
pub proof fn a_variable_is_found_by_its_name(
    variables: Seq<(Seq<char>, Seq<char>)>,
    name: Seq<char>,
    at: int,
)
    requires
        0 <= at <= variables.len(),
        forall|k: int| 0 <= k < at ==> (#[trigger] variables[k]).0 != name,
        at < variables.len() ==> variables[at].0 == name,
    ensures
        variable_of(variables, name, 0) == (if at < variables.len() {
            Some(variables[at].1)
        } else {
            None
        }),
{
    lemma_variable_from(variables, name, 0, at);
}

proof fn lemma_variable_from(
    variables: Seq<(Seq<char>, Seq<char>)>,
    name: Seq<char>,
    from: int,
    at: int,
)
    requires
        0 <= from <= at <= variables.len(),
        forall|k: int| 0 <= k < at ==> (#[trigger] variables[k]).0 != name,
        at < variables.len() ==> variables[at].0 == name,
    ensures
        variable_of(variables, name, from) == (if at < variables.len() {
            Some(variables[at].1)
        } else {
            None
        }),
    decreases at - from,
{
    if from < at {
        lemma_variable_from(variables, name, from + 1, at);
    }
}

/// Law: a credential is what its variable holds, as it stands, where that is
/// more than white space; otherwise the variable is named as missing.
pub proof fn a_credential_is_what_its_variable_holds(
    variables: Seq<(Seq<char>, Seq<char>)>,
    name: Seq<char>,
)
    ensures
        match variable_of(variables, name, 0) {
            Some(value) if !all_blank(value) => credential_of(variables, name) matches Ok(held)
                && held == value,
            _ => credential_of(variables, name) matches Err(
                ConfigErrorView::MissingCredential(missing),
            ) && missing == name,
        },
{
    if let Some(value) = variable_of(variables, name, 0) {
        trimming_takes_white_space_alone(value);
        let (before, after) = choose|before: Seq<char>, after: Seq<char>|
            all_blank(before) && all_blank(after) && value == #[trigger] (before + trimmed(value)
                + after);
        if trimmed(value).len() > 0 {
            assert(value[before.len() as int] == trimmed(value)[0]);
        } else {
            assert forall|i: int| 0 <= i < value.len() implies is_blank(#[trigger] value[i]) by {
                if i < before.len() {
                    assert(value[i] == before[i]);
                } else {
                    assert(value[i] == after[i - before.len()]);
                }
            }
        }
    }
}

/// Whether every pool has a name of its own, and none the name of the counter
/// of requests.
pub open spec fn pools_are_sound(pools: Seq<Pool>) -> bool {
    forall|i: int|
        0 <= i < pools.len() ==> (#[trigger] pools[i]).id@ != "openrouter:free"@ && forall|j: int|
            0 <= j < i ==> (#[trigger] pools[j]).id@ != pools[i].id@
}

/// Whether every model has a name of its own, can produce output, and is paid
/// for by a configured pool.
pub open spec fn models_are_sound(models: Seq<Model>, pools: Seq<Pool>) -> bool {
    forall|i: int|
        0 <= i < models.len() ==> {
            &&& (#[trigger] models[i]).max_output_tokens > 0
            &&& exists|k: int| 0 <= k < pools.len() && (#[trigger] pools[k]).id@ == models[i].pool@
            &&& forall|j: int| 0 <= j < i ==> (#[trigger] models[j]).id@ != models[i].id@
        }
}

/// Whether a route can serve: it lists models, its window lets requests
/// through, and its credentials are there. One that is off needs nothing.
pub open spec fn route_is_sound(
    section: Option<OpenRouterSection>,
    env: Seq<(Seq<char>, Seq<char>)>,
) -> bool {
    match section {
        Some(s) if s.enabled => {
            &&& s.models@.len() > 0
            &&& s.max_requests_per_window > 0
            &&& s.window_seconds > 0
            &&& credential_of(env, s.api_key_env@) is Ok
            &&& s.management_key_env matches Some(name) ==> credential_of(env, name@) is Ok
        },
        _ => true,
    }
}

proof fn lemma_grants(pools: Seq<Pool>)
    ensures
        grants_of(pools) is Ok <==> pools_are_sound(pools),
        grants_of(pools) matches Ok(grants) ==> grants.len() == pools.len() && forall|i: int|
            0 <= i < pools.len() ==> #[trigger] grants[i] == (
                pools[i].id@,
                pools[i].granted_per_day,
            ),
    decreases pools.len(),
{
    if pools.len() > 0 {
        let front = pools.drop_last();
        let last = pools[pools.len() - 1];
        lemma_grants(front);
        assert forall|i: int| 0 <= i < front.len() implies front[i] == #[trigger] pools[i] by {}
        if let Ok(grants) = grants_of(front) {
            if has_grant(grants, last.id@) {
                let k = choose|k: int| 0 <= k < grants.len() && (#[trigger] grants[k]).0 == last.id@;
                assert(pools[k].id@ == last.id@);
            }
            if grants_of(pools) is Ok {
                assert forall|i: int| 0 <= i < pools.len() implies (#[trigger] pools[i]).id@
                    != "openrouter:free"@ && forall|j: int|
                    0 <= j < i ==> (#[trigger] pools[j]).id@ != pools[i].id@ by {
                    if i < front.len() {
                        assert(front[i] == pools[i]);
                        assert forall|j: int| 0 <= j < i implies (#[trigger] pools[j]).id@
                            != pools[i].id@ by {
                            assert(front[j] == pools[j]);
                        }
                    } else {
                        assert forall|j: int| 0 <= j < i implies (#[trigger] pools[j]).id@
                            != pools[i].id@ by {
                            assert(grants[j].0 == pools[j].id@);
                        }
                    }
                }
            }
            if pools_are_sound(pools) {
                assert(last.id@ != "openrouter:free"@);
            }
        } else {
            if pools_are_sound(pools) {
                assert forall|i: int| 0 <= i < front.len() implies (#[trigger] front[i]).id@
                    != "openrouter:free"@ && forall|j: int|
                    0 <= j < i ==> (#[trigger] front[j]).id@ != front[i].id@ by {
                    assert(pools[i] == front[i]);
                    assert forall|j: int| 0 <= j < i implies (#[trigger] front[j]).id@
                        != front[i].id@ by {
                        assert(pools[j] == front[j]);
                    }
                }
            }
        }
    }
}

proof fn lemma_catalog(models: Seq<Model>, pools: Seq<Pool>, grants: Seq<(Seq<char>, u64)>)
    requires
        grants_of(pools) matches Ok(given) && given == grants,
    ensures
        catalog_of(models, grants) is Ok <==> models_are_sound(models, pools),
        catalog_of(models, grants) matches Ok(catalog) ==> catalog.len() == models.len()
            && forall|i: int|
            0 <= i < models.len() ==> {
                &&& (#[trigger] catalog[i]).0 == models[i].id@
                &&& catalog[i].1.pool_id == models[i].pool@
                &&& catalog[i].1.spec.max_output_tokens == models[i].max_output_tokens
                &&& catalog[i].1.spec.byte_level_encoding_known
                    == models[i].byte_level_encoding_known
            },
    decreases models.len(),
{
    lemma_grants(pools);
    if models.len() > 0 {
        let front = models.drop_last();
        let last = models[models.len() - 1];
        lemma_catalog(front, pools, grants);
        assert(has_grant(grants, last.pool@) <==> exists|k: int|
            0 <= k < pools.len() && (#[trigger] pools[k]).id@ == last.pool@) by {
            if has_grant(grants, last.pool@) {
                let k = choose|k: int|
                    0 <= k < grants.len() && (#[trigger] grants[k]).0 == last.pool@;
                assert(pools[k].id@ == last.pool@);
            }
            if exists|k: int| 0 <= k < pools.len() && (#[trigger] pools[k]).id@ == last.pool@ {
                let k = choose|k: int|
                    0 <= k < pools.len() && (#[trigger] pools[k]).id@ == last.pool@;
                assert(grants[k].0 == last.pool@);
            }
        }
        if let Ok(catalog) = catalog_of(front, grants) {
            assert(has_model(catalog, last.id@) <==> exists|j: int|
                0 <= j < front.len() && (#[trigger] front[j]).id@ == last.id@) by {
                if has_model(catalog, last.id@) {
                    let j = choose|j: int|
                        0 <= j < catalog.len() && (#[trigger] catalog[j]).0 == last.id@;
                    assert(front[j].id@ == last.id@);
                }
                if exists|j: int| 0 <= j < front.len() && (#[trigger] front[j]).id@ == last.id@ {
                    let j = choose|j: int|
                        0 <= j < front.len() && (#[trigger] front[j]).id@ == last.id@;
                    assert(catalog[j].0 == last.id@);
                }
            }
        }
        lemma_models_last(models, pools);
    }
}

proof fn lemma_models_last(models: Seq<Model>, pools: Seq<Pool>)
    requires
        models.len() > 0,
    ensures
        ({
            let front = models.drop_last();
            let last = models.last();
            models_are_sound(models, pools) <==> models_are_sound(front, pools)
                && last.max_output_tokens > 0 && (exists|k: int|
                0 <= k < pools.len() && (#[trigger] pools[k]).id@ == last.pool@) && !(exists|j: int|
                0 <= j < front.len() && (#[trigger] front[j]).id@ == last.id@)
        }),
{
    let front = models.drop_last();
    let last = models[models.len() - 1];
    assert(last == models.last());
    if models_are_sound(models, pools) {
        assert forall|i: int| 0 <= i < front.len() implies {
            &&& (#[trigger] front[i]).max_output_tokens > 0
            &&& exists|k: int| 0 <= k < pools.len() && (#[trigger] pools[k]).id@ == front[i].pool@
            &&& forall|j: int| 0 <= j < i ==> (#[trigger] front[j]).id@ != front[i].id@
        } by {
            assert(models[i] == front[i]);
            assert forall|j: int| 0 <= j < i implies (#[trigger] front[j]).id@ != front[i].id@ by {
                assert(models[j] == front[j]);
            }
        }
        assert(last.max_output_tokens > 0);
        assert forall|j: int| 0 <= j < front.len() implies (#[trigger] front[j]).id@
            != last.id@ by {
            assert(models[j] == front[j]);
        }
    }
    if models_are_sound(front, pools) && last.max_output_tokens > 0 && (exists|k: int|
        0 <= k < pools.len() && (#[trigger] pools[k]).id@ == last.pool@) && !(exists|j: int|
        0 <= j < front.len() && (#[trigger] front[j]).id@ == last.id@) {
        assert forall|i: int| 0 <= i < models.len() implies {
            &&& (#[trigger] models[i]).max_output_tokens > 0
            &&& exists|k: int| 0 <= k < pools.len() && (#[trigger] pools[k]).id@ == models[i].pool@
            &&& forall|j: int| 0 <= j < i ==> (#[trigger] models[j]).id@ != models[i].id@
        } by {
            if i < front.len() {
                assert(front[i] == models[i]);
            }
            assert forall|j: int| 0 <= j < i implies (#[trigger] models[j]).id@
                != models[i].id@ by {
                assert(front[j] == models[j]);
            }
        }
    }
}

/// Law: a configuration is used exactly where nothing is wrong with it: it
/// binds a loopback address, both credentials are there, it has pools and
/// models that are sound, its route can serve where it has one, and its clock
/// keeps a second's uncertainty, a five minutes' delay and an hour's age.
pub proof fn exactly_sound_configurations_are_used(
    config: Config,
    bind: Bind,
    env: Seq<(Seq<char>, Seq<char>)>,
)
    ensures
        resolved(config, bind, env) is Ok <==> {
            &&& bind == (Bind::Address { loopback: true })
            &&& credential_of(env, config.upstream.api_key_env@) is Ok
            &&& credential_of(env, config.upstream.admin_key_env@) is Ok
            &&& config.pools@.len() > 0
            &&& config.models@.len() > 0
            &&& pools_are_sound(config.pools@)
            &&& models_are_sound(config.models@, config.pools@)
            &&& route_is_sound(config.openrouter, env)
            &&& config.clock.reading_uncertainty_seconds >= 1
            &&& config.clock.open_delay_seconds >= 300
            &&& 1 <= config.clock.max_reading_age_seconds <= 3_600
        },
{
    lemma_grants(config.pools@);
    if let Ok(grants) = grants_of(config.pools@) {
        lemma_catalog(config.models@, config.pools@, grants);
    }
}

/// Law: what is used is what is configured. Every pool keeps its grant and
/// every model its pool and its maximum, in order; the keys are those their
/// variables hold; and everything else is taken over as it stands.
pub proof fn what_is_configured_is_what_is_used(
    config: Config,
    bind: Bind,
    env: Seq<(Seq<char>, Seq<char>)>,
)
    requires
        resolved(config, bind, env) is Ok,
    ensures
        ({
            let r = resolved(config, bind, env)->Ok_0;
            &&& credential_of(env, config.upstream.api_key_env@) matches Ok(key) && key == r.api_key
            &&& credential_of(env, config.upstream.admin_key_env@) matches Ok(key) && key
                == r.admin_key
            &&& r.base_url == config.upstream.base_url@
            &&& r.usage_base_url == without_slashes(config.upstream.base_url@)
            &&& match config.upstream.project {
                Some(project) => r.project == Some(project@),
                None => r.project is None,
            }
            &&& r.connect_timeout_seconds == config.upstream.connect_timeout_seconds
            &&& r.read_timeout_seconds == config.upstream.read_timeout_seconds
            &&& r.ledger_path == config.ledger.path@
            &&& r.external_hwm_path == config.ledger.external_record_path@
            &&& r.lock_dir == config.ledger.lock_dir@
            &&& r.organization == config.ledger.organization@
            &&& r.allow_same_volume_external_record
                == config.ledger.allow_same_volume_external_record
            &&& r.uncertainty == config.clock.reading_uncertainty_seconds
            &&& r.open_delay == config.clock.open_delay_seconds
            &&& r.max_age == config.clock.max_reading_age_seconds
            &&& r.clock_refresh_seconds == config.clock.refresh_seconds
            &&& r.data_sharing_ttl == config.safety.data_sharing_ttl_seconds || (
            config.safety.data_sharing_ttl_seconds > i64::MAX && r.data_sharing_ttl == i64::MAX)
            &&& r.safety_budget_divisor == config.safety.liability_budget_divisor
                || config.safety.liability_budget_divisor == 0
            &&& r.grants.len() == config.pools@.len()
            &&& r.ledger_pools.len() == config.pools@.len()
            &&& forall|i: int|
                0 <= i < config.pools@.len() ==> {
                    &&& #[trigger] r.grants[i] == (
                        config.pools@[i].id@,
                        config.pools@[i].granted_per_day,
                    )
                    &&& r.ledger_pools[i] == config.pools@[i].id@
                }
            &&& r.catalog.len() == config.models@.len()
            &&& forall|i: int|
                0 <= i < config.models@.len() ==> {
                    &&& (#[trigger] r.catalog[i]).0 == config.models@[i].id@
                    &&& r.catalog[i].1.pool_id == config.models@[i].pool@
                    &&& r.catalog[i].1.spec.max_output_tokens
                        == config.models@[i].max_output_tokens
                    &&& r.catalog[i].1.spec.byte_level_encoding_known
                        == config.models@[i].byte_level_encoding_known
                }
        }),
{
    lemma_grants(config.pools@);
    if let Ok(grants) = grants_of(config.pools@) {
        lemma_catalog(config.models@, config.pools@, grants);
    }
}

/// Law: there is a route exactly where one is configured and switched on, with
/// its own address, keys, limits and models, in order, and the timeouts of the
/// upstream. It is counted under the counter's own name.
pub proof fn a_route_is_used_as_configured(
    config: Config,
    bind: Bind,
    env: Seq<(Seq<char>, Seq<char>)>,
)
    requires
        resolved(config, bind, env) is Ok,
    ensures
        match (config.openrouter, resolved(config, bind, env)->Ok_0.openrouter) {
            (Some(section), Some(route)) => {
                &&& section.enabled
                &&& route.base_url == section.base_url@
                &&& credential_of(env, section.api_key_env@) matches Ok(key) && key
                    == route.api_key
                &&& match (section.management_key_env, route.management_key) {
                    (Some(name), Some(held)) => credential_of(env, name@) matches Ok(key) && key
                        == held,
                    (None, None) => true,
                    _ => false,
                }
                &&& route.pool_id == "openrouter:free"@
                &&& route.daily_request_limit == section.daily_request_limit
                &&& route.window.max_in_window == section.max_requests_per_window
                &&& route.window.window_seconds == section.window_seconds
                &&& route.account_ttl == section.account_ttl_seconds || (
                section.account_ttl_seconds > i64::MAX && route.account_ttl == i64::MAX)
                &&& route.connect_timeout_seconds == config.upstream.connect_timeout_seconds
                &&& route.read_timeout_seconds == config.upstream.read_timeout_seconds
                &&& route.models.len() == section.models@.len()
                &&& forall|i: int|
                    0 <= i < section.models@.len() ==> {
                        let model = section.models@[i];
                        #[trigger] route.models[i] == (RouteModelView {
                            id: model.id@,
                            function_tools: model.function_tools,
                            custom_tools: model.custom_tools,
                            namespace_tools: model.namespace_tools,
                            structured_outputs: model.structured_outputs,
                        })
                    }
            },
            (Some(section), None) => !section.enabled,
            (None, route) => route is None,
        },
{
}

/// Law: a configuration that is not used says what is wrong with it.
pub proof fn a_refused_configuration_says_why(
    config: Config,
    bind: Bind,
    env: Seq<(Seq<char>, Seq<char>)>,
)
    ensures
        resolved(config, bind, env) matches Err(error) ==> match error {
            ConfigErrorView::BadBindAddress(text) => bind is NotAnAddress && text
                == config.server.bind@,
            ConfigErrorView::NotLoopback => bind == (Bind::Address { loopback: false }),
            ConfigErrorView::Empty => config.pools@.len() == 0 || config.models@.len() == 0,
            ConfigErrorView::MissingCredential(name) => credential_of(env, name) is Err && (name
                == config.upstream.api_key_env@ || name == config.upstream.admin_key_env@ || (
            config.openrouter matches Some(section) && section.enabled && (name
                == section.api_key_env@ || (section.management_key_env matches Some(key) && name
                == key@)))),
            ConfigErrorView::NoOpenRouterModels => config.openrouter matches Some(section)
                && section.enabled && section.models@.len() == 0,
            ConfigErrorView::EmptyOpenRouterWindow => config.openrouter matches Some(section)
                && section.enabled && (section.max_requests_per_window == 0
                || section.window_seconds <= 0),
            ConfigErrorView::Clock(PolicyError::UncertaintyTooSmall) =>
                config.clock.reading_uncertainty_seconds < 1,
            ConfigErrorView::Clock(PolicyError::OpenDelayTooShort) =>
                config.clock.open_delay_seconds < 300,
            ConfigErrorView::Clock(PolicyError::ReadingAgeOutOfRange) => !(1
                <= config.clock.max_reading_age_seconds <= 3_600),
            ConfigErrorView::DuplicatePool(pool) => !pools_are_sound(config.pools@)
                && pool_names(config.pools@).contains(pool),
            ConfigErrorView::PoolNameReserved(pool) => pool == "openrouter:free"@ && pool_names(
                config.pools@,
            ).contains(pool),
            ConfigErrorView::UnknownPool { model, pool } => exists|i: int|
                0 <= i < config.models@.len() && (#[trigger] config.models@[i]).id@ == model
                    && config.models@[i].pool@ == pool && !pool_names(config.pools@).contains(pool),
            ConfigErrorView::ZeroOutput(model) => exists|i: int|
                0 <= i < config.models@.len() && (#[trigger] config.models@[i]).id@ == model
                    && config.models@[i].max_output_tokens == 0,
            ConfigErrorView::DuplicateModel(model) => exists|i: int, j: int|
                0 <= j < i < config.models@.len() && (#[trigger] config.models@[i]).id@ == model
                    && (#[trigger] config.models@[j]).id@ == model,
        },
{
    lemma_grants(config.pools@);
    lemma_grants_error(config.pools@);
    if let Ok(grants) = grants_of(config.pools@) {
        lemma_catalog_error(config.models@, config.pools@, grants);
    }
}

proof fn lemma_grants_error(pools: Seq<Pool>)
    ensures
        grants_of(pools) matches Err(error) ==> match error {
            ConfigErrorView::DuplicatePool(pool) => pool_names(pools).contains(pool),
            ConfigErrorView::PoolNameReserved(pool) => pool == "openrouter:free"@ && pool_names(
                pools,
            ).contains(pool),
            _ => false,
        },
    decreases pools.len(),
{
    if pools.len() > 0 {
        let front = pools.drop_last();
        lemma_grants_error(front);
        assert(pool_names(pools)[pools.len() - 1] == pools.last().id@);
        if let Err(ConfigErrorView::DuplicatePool(pool)) = grants_of(front) {
            let i = pool_names(front).index_of(pool);
            assert(pool_names(pools)[i] == pool_names(front)[i]);
        }
        if let Err(ConfigErrorView::PoolNameReserved(pool)) = grants_of(front) {
            let i = pool_names(front).index_of(pool);
            assert(pool_names(pools)[i] == pool_names(front)[i]);
        }
    }
}

proof fn lemma_catalog_error(models: Seq<Model>, pools: Seq<Pool>, grants: Seq<(Seq<char>, u64)>)
    requires
        grants_of(pools) matches Ok(given) && given == grants,
    ensures
        catalog_of(models, grants) matches Err(error) ==> match error {
            ConfigErrorView::UnknownPool { model, pool } => exists|i: int|
                0 <= i < models.len() && (#[trigger] models[i]).id@ == model && models[i].pool@
                    == pool && !pool_names(pools).contains(pool),
            ConfigErrorView::ZeroOutput(model) => exists|i: int|
                0 <= i < models.len() && (#[trigger] models[i]).id@ == model
                    && models[i].max_output_tokens == 0,
            ConfigErrorView::DuplicateModel(model) => exists|i: int, j: int|
                0 <= j < i < models.len() && (#[trigger] models[i]).id@ == model && (
                #[trigger] models[j]).id@ == model,
            _ => false,
        },
    decreases models.len(),
{
    lemma_grants(pools);
    if models.len() > 0 {
        let front = models.drop_last();
        let n = models.len() - 1;
        lemma_catalog_error(front, pools, grants);
        lemma_catalog(front, pools, grants);
        assert forall|i: int| 0 <= i < front.len() implies front[i] == #[trigger] models[i] by {}
        match catalog_of(front, grants) {
            Err(ConfigErrorView::UnknownPool { model, pool }) => {
                let i = choose|i: int|
                    0 <= i < front.len() && (#[trigger] front[i]).id@ == model && front[i].pool@
                        == pool && !pool_names(pools).contains(pool);
                assert(models[i].id@ == model);
            },
            Err(ConfigErrorView::ZeroOutput(model)) => {
                let i = choose|i: int|
                    0 <= i < front.len() && (#[trigger] front[i]).id@ == model
                        && front[i].max_output_tokens == 0;
                assert(models[i].id@ == model);
            },
            Err(ConfigErrorView::DuplicateModel(model)) => {
                let (i, j) = choose|i: int, j: int|
                    0 <= j < i < front.len() && (#[trigger] front[i]).id@ == model && (
                    #[trigger] front[j]).id@ == model;
                assert(models[i].id@ == model && models[j].id@ == model);
            },
            Err(_) => {},
            Ok(catalog) => {
                let last = models[n];
                if pool_names(pools).contains(last.pool@) {
                    let k = pool_names(pools).index_of(last.pool@);
                    assert(grants[k].0 == last.pool@);
                }
                if has_model(catalog, last.id@) {
                    let j = choose|j: int|
                        0 <= j < catalog.len() && (#[trigger] catalog[j]).0 == last.id@;
                    assert(models[j].id@ == last.id@);
                }
                assert(models[n].id@ == last.id@);
            },
        }
    }
}

} // verus!
