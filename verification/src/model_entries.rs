//! The models of a ChatGPT subscription as the model picker knows them.

use vstd::prelude::*;

use crate::chatgpt_auth::{pair, pairs, Tokens, TokensView};
use crate::chatgpt_catalog::{
    effort_label, effort_spelled, humanize_effort, models_of, parse_catalog, parse_wire_effort,
    spec_views, CACHE_FILE, CACHE_VERSION, CHATGPT_BASE_URL, EffortSpelling, MAX_CACHE_BYTES,
    MAX_CONTEXT_WINDOW, MAX_MODELS, ModelSpec, ModelSpecView, RawModel, ReasoningEffort,
};
use crate::manifest::is_uuid;
use crate::paths::{join_path, path_join};
use crate::text::{
    blank, cat2, cat3, cat6, decimal, decimal_string, ends_with, is_blank, opt, same_str,
    starts_with, trim_end_by, CharClass,
};

verus! {

// ---------------------------------------------------------------------------
// Ordered maps

#[verifier::external_type_specification]
#[verifier::external_body]
#[verifier::reject_recursive_types(K)]
#[verifier::reject_recursive_types(V)]
#[verifier::reject_recursive_types(S)]
pub struct ExIndexMap<K, V, S>(indexmap::IndexMap<K, V, S>);

/// The first place of a key among pairs; their number where it has none.
pub open spec fn place_of<V>(list: Seq<(Seq<char>, V)>, key: Seq<char>) -> int
    decreases list.len(),
{
    if list.len() == 0 || list[0].0 == key {
        0
    } else {
        1 + place_of(list.drop_first(), key)
    }
}

/// The pairs with a value under a key: in place of the one that it has, or else
/// at the end.
pub open spec fn put<V>(list: Seq<(Seq<char>, V)>, key: Seq<char>, value: V) -> Seq<(Seq<char>, V)> {
    let i = place_of(list, key);
    if i < list.len() {
        list.update(i, (key, value))
    } else {
        list.push((key, value))
    }
}

pub open spec fn got<V>(list: Seq<(Seq<char>, V)>, key: Seq<char>) -> Option<V> {
    let i = place_of(list, key);
    if i < list.len() {
        Some(list[i].1)
    } else {
        None
    }
}

/// The headers in a map, in order.
pub uninterp spec fn headers_in(map: indexmap::IndexMap<String, String>) -> Seq<
    (Seq<char>, Seq<char>),
>;

/// `indexmap::IndexMap::new`: a map without headers.
#[verifier::external_body]
fn no_headers() -> (r: indexmap::IndexMap<String, String>)
    ensures
        headers_in(r).len() == 0,
{
    indexmap::IndexMap::new()
}

/// `indexmap::IndexMap::insert`: the header takes the place that it has, or else
/// goes to the end.
#[verifier::external_body]
fn put_header(map: &mut indexmap::IndexMap<String, String>, name: &str, value: &str)
    ensures
        headers_in(*final(map)) == put(headers_in(*old(map)), name@, value@),
{
    map.insert(name.to_owned(), value.to_owned());
}

/// `indexmap::IndexMap::get`: the value of a header.
#[verifier::external_body]
fn header_value(map: &indexmap::IndexMap<String, String>, name: &str) -> (r: Option<String>)
    ensures
        opt(r) == got(headers_in(*map), name@),
{
    map.get(name).cloned()
}

// ---------------------------------------------------------------------------
// Entries

#[derive(Clone, Copy, Debug, PartialEq, Eq, Structural)]
pub enum ApiBackend {
    ChatCompletions,
    Responses,
}

#[derive(Clone, Copy, Debug, PartialEq, Eq, Structural)]
pub enum AuthScheme {
    Bearer,
}

/// An effort that can be picked.
#[derive(Debug)]
pub struct ReasoningEffortOption {
    pub id: String,
    pub value: ReasoningEffort,
    pub label: String,
    pub description: Option<String>,
    pub default: bool,
}

/// What an effort says, as values.
pub struct OptionView {
    pub id: Seq<char>,
    pub value: ReasoningEffort,
    pub label: Seq<char>,
    pub description: Option<Seq<char>>,
    pub default: bool,
}

/// A model that can be picked.
#[derive(Debug)]
pub struct ModelEntry {
    pub id: String,
    pub model: String,
    pub base_url: String,
    pub name: String,
    pub description: String,
    pub api_backend: ApiBackend,
    pub auth_scheme: AuthScheme,
    pub extra_headers: indexmap::IndexMap<String, String>,
    pub context_window: u64,
    pub reasoning_effort: Option<ReasoningEffort>,
    pub supports_reasoning_effort: bool,
    pub reasoning_efforts: Vec<ReasoningEffortOption>,
    pub api_key: String,
}

/// What a model says, as values.
pub struct EntryView {
    pub id: Seq<char>,
    pub model: Seq<char>,
    pub base_url: Seq<char>,
    pub name: Seq<char>,
    pub description: Seq<char>,
    pub api_backend: ApiBackend,
    pub auth_scheme: AuthScheme,
    pub extra_headers: Seq<(Seq<char>, Seq<char>)>,
    pub context_window: u64,
    pub reasoning_effort: Option<ReasoningEffort>,
    pub supports_reasoning_effort: bool,
    pub reasoning_efforts: Seq<OptionView>,
    pub api_key: Seq<char>,
}

impl View for ReasoningEffortOption {
    type V = OptionView;

    open spec fn view(&self) -> OptionView {
        OptionView {
            id: self.id@,
            value: self.value,
            label: self.label@,
            description: opt(self.description),
            default: self.default,
        }
    }
}

pub open spec fn option_views(v: Seq<ReasoningEffortOption>) -> Seq<OptionView> {
    Seq::new(v.len(), |i: int| v[i]@)
}

impl View for ModelEntry {
    type V = EntryView;

    open spec fn view(&self) -> EntryView {
        EntryView {
            id: self.id@,
            model: self.model@,
            base_url: self.base_url@,
            name: self.name@,
            description: self.description@,
            api_backend: self.api_backend,
            auth_scheme: self.auth_scheme,
            extra_headers: headers_in(self.extra_headers),
            context_window: self.context_window,
            reasoning_effort: self.reasoning_effort,
            supports_reasoning_effort: self.supports_reasoning_effort,
            reasoning_efforts: option_views(self.reasoning_efforts@),
            api_key: self.api_key@,
        }
    }
}

/// The models in a map, by their keys and in order.
pub uninterp spec fn entries_in(map: indexmap::IndexMap<String, ModelEntry>) -> Seq<
    (Seq<char>, EntryView),
>;

/// `indexmap::IndexMap::new`: a map without models.
#[verifier::external_body]
fn no_entries() -> (r: indexmap::IndexMap<String, ModelEntry>)
    ensures
        entries_in(r).len() == 0,
{
    indexmap::IndexMap::new()
}

/// `indexmap::IndexMap::insert`: the model takes the place of the one under its
/// key, or else goes to the end.
#[verifier::external_body]
fn put_entry(map: &mut indexmap::IndexMap<String, ModelEntry>, key: &str, entry: ModelEntry)
    ensures
        entries_in(*final(map)) == put(entries_in(*old(map)), key@, entry@),
{
    map.insert(key.to_owned(), entry);
}

/// `indexmap::IndexMap::first`: the first pair of a map.
#[verifier::external_body]
fn first_entry<'a>(map: &'a indexmap::IndexMap<String, ModelEntry>) -> (r: Option<
    (&'a String, &'a ModelEntry),
>)
    ensures
        r is Some <==> entries_in(*map).len() > 0,
        r is Some ==> entries_in(*map)[0] == ((r->0).0@, (r->0).1@),
{
    map.first()
}

/// `indexmap::IndexMap::len`: the number of pairs in a map.
#[verifier::external_body]
fn entry_count(map: &indexmap::IndexMap<String, ModelEntry>) -> (r: usize)
    ensures
        r == entries_in(*map).len(),
{
    map.len()
}

/// What can be wrong with a catalog or its cache.
#[derive(Debug)]
pub enum CatalogError {
    NoContextWindow(String),
    /// The provider turned the saved session down.
    SessionRejected,
    /// Another session took its place in the meantime.
    SessionChanged,
    Status(String),
    TooManyModels,
    NoUsableModels,
    CacheNotRegular(String),
    CacheTooLarge,
}

impl CatalogError {
    pub open spec fn text(self) -> Seq<char> {
        match self {
            CatalogError::NoContextWindow(slug) => "ChatGPT model "@ + slug@
                + " has no context window"@,
            CatalogError::SessionRejected =>
            "ChatGPT rejected the saved session; run `ds login --chatgpt` to sign in again"@,
            CatalogError::SessionChanged =>
            "the active ChatGPT session changed while its model catalog was loading; retry"@,
            CatalogError::Status(status) => "ChatGPT model catalog returned HTTP "@ + status@,
            CatalogError::TooManyModels => "ChatGPT model catalog exceeded 10000 entries"@,
            CatalogError::NoUsableModels =>
            "the ChatGPT account returned no usable Codex models"@,
            CatalogError::CacheNotRegular(path) => "ChatGPT model cache is not a regular file: "@
                + path@,
            CatalogError::CacheTooLarge => "ChatGPT model cache exceeded the size limit"@,
        }
    }

    /// The message to show.
    pub fn message(&self) -> (r: String)
        ensures
            r@ == self.text(),
    {
        match self {
            CatalogError::NoContextWindow(slug) => cat3(
                "ChatGPT model ",
                slug.as_str(),
                " has no context window",
            ),
            CatalogError::SessionRejected =>
            "ChatGPT rejected the saved session; run `ds login --chatgpt` to sign in again".to_owned(),
            CatalogError::SessionChanged =>
            "the active ChatGPT session changed while its model catalog was loading; retry".to_owned(),
            CatalogError::Status(status) => cat2(
                "ChatGPT model catalog returned HTTP ",
                status.as_str(),
            ),
            CatalogError::TooManyModels =>
            "ChatGPT model catalog exceeded 10000 entries".to_owned(),
            CatalogError::NoUsableModels =>
            "the ChatGPT account returned no usable Codex models".to_owned(),
            CatalogError::CacheNotRegular(path) => cat2(
                "ChatGPT model cache is not a regular file: ",
                path.as_str(),
            ),
            CatalogError::CacheTooLarge =>
            "ChatGPT model cache exceeded the size limit".to_owned(),
        }
    }
}

/// An effort of a model as it can be picked.
pub open spec fn option_of(
    effort: Seq<char>,
    description: Seq<char>,
    value: ReasoningEffort,
    default: Option<Seq<char>>,
) -> OptionView {
    OptionView {
        id: effort,
        value,
        label: effort_label(effort),
        description: if description.len() == 0 {
            None
        } else {
            Some(description)
        },
        default: default == Some(effort),
    }
}

/// Those of the first `n` efforts that can be represented.
pub open spec fn options_of(spec: ModelSpecView, known: Seq<EffortSpelling>, n: int) -> Seq<
    OptionView,
>
    decreases n,
{
    if n <= 0 {
        seq![]
    } else {
        let before = options_of(spec, known, n - 1);
        let (effort, description) = spec.reasoning[n - 1];
        match effort_spelled(known, effort) {
            Some(value) => before.push(
                option_of(effort, description, value, spec.default_reasoning),
            ),
            None => before,
        }
    }
}

/// The headers that every request of an account carries.
pub open spec fn account_headers(account_id: Seq<char>, session_id: Seq<char>) -> Seq<
    (Seq<char>, Seq<char>),
> {
    put(
        put(
            put(
                put(
                    put(seq![], "chatgpt-account-id"@, account_id),
                    "originator"@,
                    "codex_cli_rs"@,
                ),
                "OpenAI-Beta"@,
                "responses=experimental"@,
            ),
            "session_id"@,
            session_id,
        ),
        "conversation_id"@,
        session_id,
    )
}

pub open spec fn entry_key(slug: Seq<char>) -> Seq<char> {
    "openai/"@ + slug
}

/// A model of the catalog as it can be picked. It carries the access token of
/// the account, so that no request falls through to another provider.
pub open spec fn entry_of(
    spec: ModelSpecView,
    tokens: TokensView,
    session_id: Seq<char>,
    known: Seq<EffortSpelling>,
) -> EntryView {
    let options = options_of(spec, known, spec.reasoning.len() as int);
    EntryView {
        id: entry_key(spec.slug),
        model: spec.slug,
        base_url: CHATGPT_BASE_URL@,
        name: "ChatGPT · "@ + spec.display_name,
        description: if spec.description.len() == 0 {
            "ChatGPT subscription · Codex"@
        } else {
            "ChatGPT subscription · "@ + spec.description
        },
        api_backend: ApiBackend::Responses,
        auth_scheme: AuthScheme::Bearer,
        extra_headers: account_headers(tokens.account_id, session_id),
        context_window: spec.context_window,
        reasoning_effort: match spec.default_reasoning {
            Some(effort) => effort_spelled(known, effort),
            None => None,
        },
        supports_reasoning_effort: options.len() > 0,
        reasoning_efforts: options,
        api_key: tokens.access,
    }
}

/// The entries of the first `n` models.
pub open spec fn entries_of(
    specs: Seq<ModelSpecView>,
    tokens: TokensView,
    session_id: Seq<char>,
    known: Seq<EffortSpelling>,
    n: int,
) -> Seq<(Seq<char>, EntryView)>
    decreases n,
{
    if n <= 0 {
        seq![]
    } else {
        put(
            entries_of(specs, tokens, session_id, known, n - 1),
            entry_key(specs[n - 1].slug),
            entry_of(specs[n - 1], tokens, session_id, known),
        )
    }
}

/// The first model from `i` on without a context window.
pub open spec fn windowless_from(specs: Seq<ModelSpecView>, i: int) -> Option<Seq<char>>
    decreases specs.len() - i,
{
    if i < 0 || i >= specs.len() {
        None
    } else if specs[i].context_window == 0 {
        Some(specs[i].slug)
    } else {
        windowless_from(specs, i + 1)
    }
}

fn options_of_spec(spec: &ModelSpec, known: &Vec<EffortSpelling>) -> (r: Vec<ReasoningEffortOption>)
    ensures
        option_views(r@) == options_of(spec@, known@, spec@.reasoning.len() as int),
{
    let ghost v = spec@;
    let mut out: Vec<ReasoningEffortOption> = Vec::new();
    let mut n: usize = 0;
    proof {
        assert(option_views(out@) =~= options_of(v, known@, 0));
        assert(v.reasoning.len() == spec.reasoning@.len());
    }
    while n < spec.reasoning.len()
        invariant
            n <= spec.reasoning@.len(),
            v == spec@,
            v.reasoning.len() == spec.reasoning@.len(),
            option_views(out@) == options_of(v, known@, n as int),
        decreases spec.reasoning@.len() - n,
    {
        let item = &spec.reasoning[n];
        proof {
            assert(v.reasoning[n as int] == (item.effort@, item.description@));
        }
        if let Some(value) = parse_wire_effort(known, item.effort.as_str()) {
            let default = match &spec.default_reasoning {
                Some(effort) => same_str(effort.as_str(), item.effort.as_str()),
                None => false,
            };
            let option = ReasoningEffortOption {
                id: item.effort.clone(),
                value,
                label: humanize_effort(item.effort.as_str()),
                description: if item.description.as_str().is_empty() {
                    None
                } else {
                    Some(item.description.clone())
                },
                default,
            };
            proof {
                assert(option_views(out@.push(option)) =~= option_views(out@).push(option@));
            }
            out.push(option);
        }
        n += 1;
    }
    out
}

fn account_headers_of(account_id: &str, session_id: &str) -> (r: indexmap::IndexMap<String, String>)
    ensures
        headers_in(r) == account_headers(account_id@, session_id@),
{
    let mut headers = no_headers();
    proof {
        assert(headers_in(headers) =~= seq![]);
    }
    put_header(&mut headers, "chatgpt-account-id", account_id);
    put_header(&mut headers, "originator", "codex_cli_rs");
    put_header(&mut headers, "OpenAI-Beta", "responses=experimental");
    put_header(&mut headers, "session_id", session_id);
    put_header(&mut headers, "conversation_id", session_id);
    headers
}

fn entry_of_spec(
    spec: &ModelSpec,
    tokens: &Tokens,
    session_id: &str,
    known: &Vec<EffortSpelling>,
) -> (r: ModelEntry)
    ensures
        r@ == entry_of(spec@, tokens@, session_id@, known@),
{
    let reasoning_efforts = options_of_spec(spec, known);
    proof {
        assert(option_views(reasoning_efforts@).len() == reasoning_efforts@.len());
    }
    ModelEntry {
        id: cat2("openai/", spec.slug.as_str()),
        model: spec.slug.clone(),
        base_url: CHATGPT_BASE_URL.to_owned(),
        name: cat2("ChatGPT · ", spec.display_name.as_str()),
        description: if spec.description.as_str().is_empty() {
            "ChatGPT subscription · Codex".to_owned()
        } else {
            cat2("ChatGPT subscription · ", spec.description.as_str())
        },
        api_backend: ApiBackend::Responses,
        auth_scheme: AuthScheme::Bearer,
        extra_headers: account_headers_of(tokens.account_id.as_str(), session_id),
        context_window: spec.context_window,
        reasoning_effort: match &spec.default_reasoning {
            Some(effort) => parse_wire_effort(known, effort.as_str()),
            None => None,
        },
        supports_reasoning_effort: reasoning_efforts.len() > 0,
        reasoning_efforts,
        api_key: tokens.access.clone(),
    }
}

/// The entries of some models for one session.
pub fn entries_for_session(
    specs: &[ModelSpec],
    tokens: &Tokens,
    session_id: &str,
    known: &Vec<EffortSpelling>,
) -> (r: Result<indexmap::IndexMap<String, ModelEntry>, CatalogError>)
    ensures
        match windowless_from(spec_views(specs@), 0) {
            Some(slug) => r is Err && r->Err_0 is NoContextWindow && r->Err_0->NoContextWindow_0@
                == slug,
            None => r is Ok && entries_in(r->Ok_0) == entries_of(
                spec_views(specs@),
                tokens@,
                session_id@,
                known@,
                specs@.len() as int,
            ),
        },
{
    let ghost all = spec_views(specs@);
    let mut entries = no_entries();
    let mut n: usize = 0;
    proof {
        assert(entries_in(entries) =~= entries_of(all, tokens@, session_id@, known@, 0));
    }
    while n < specs.len()
        invariant
            n <= specs@.len(),
            all == spec_views(specs@),
            windowless_from(all, 0) == windowless_from(all, n as int),
            entries_in(entries) == entries_of(all, tokens@, session_id@, known@, n as int),
        decreases specs@.len() - n,
    {
        let spec = &specs[n];
        proof {
            assert(all[n as int] == spec@);
        }
        if spec.context_window == 0 {
            return Err(CatalogError::NoContextWindow(spec.slug.clone()));
        }
        let key = cat2("openai/", spec.slug.as_str());
        let entry = entry_of_spec(spec, tokens, session_id, known);
        put_entry(&mut entries, key.as_str(), entry);
        n += 1;
    }
    Ok(entries)
}

/// `uuid::Uuid::new_v4` in its hyphenated form: 36 characters, drawn at random.
#[verifier::external_body]
fn random_uuid() -> (r: String)
    ensures
        is_uuid(r@),
        r@.len() == 36,
{
    uuid::Uuid::new_v4().to_string()
}

/// The entries of some models for a fresh session.
pub fn specs_to_entries(specs: &[ModelSpec], tokens: &Tokens, known: &Vec<EffortSpelling>) -> (r:
    Result<indexmap::IndexMap<String, ModelEntry>, CatalogError>)
    ensures
        match windowless_from(spec_views(specs@), 0) {
            Some(slug) => r is Err && r->Err_0 is NoContextWindow && r->Err_0->NoContextWindow_0@
                == slug,
            None => r is Ok && exists|session_id: Seq<char>|
                is_uuid(session_id) && session_id.len() == 36 && entries_in(r->Ok_0) == #[trigger] entries_of(
                    spec_views(specs@),
                    tokens@,
                    session_id,
                    known@,
                    specs@.len() as int,
                ),
        },
{
    let session_id = random_uuid();
    entries_for_session(specs, tokens, session_id.as_str(), known)
}

/// The first option from `i` on that is the default.
pub open spec fn default_from(options: Seq<OptionView>, i: int) -> Seq<char>
    decreases options.len() - i,
{
    if i < 0 || i >= options.len() {
        "provider default"@
    } else if options[i].default {
        options[i].id
    } else {
        default_from(options, i + 1)
    }
}

/// What is said of the models after a sign-in.
pub open spec fn entries_summary(entries: Seq<(Seq<char>, EntryView)>) -> Option<Seq<char>> {
    if entries.len() == 0 {
        None
    } else {
        let (id, entry) = entries[0];
        Some(
            decimal(entries.len()) + " models; default "@ + id + " ("@ + decimal(
                entry.context_window as nat,
            ) + " tokens, "@ + default_from(entry.reasoning_efforts, 0) + " reasoning)"@,
        )
    }
}

fn default_of(options: &Vec<ReasoningEffortOption>) -> (r: String)
    ensures
        r@ == default_from(option_views(options@), 0),
{
    let ghost all = option_views(options@);
    let mut i: usize = 0;
    while i < options.len()
        invariant
            i <= options@.len(),
            all == option_views(options@),
            default_from(all, 0) == default_from(all, i as int),
        decreases options@.len() - i,
    {
        proof {
            assert(all[i as int] == options@[i as int]@);
        }
        if options[i].default {
            return options[i].id.clone();
        }
        i += 1;
    }
    "provider default".to_owned()
}

pub fn describe_entries(entries: &indexmap::IndexMap<String, ModelEntry>) -> (r: Option<String>)
    ensures
        opt(r) == entries_summary(entries_in(*entries)),
{
    let count = entry_count(entries);
    match first_entry(entries) {
        Some((id, entry)) => {
            let n = decimal_string(count as u128);
            let window = decimal_string(entry.context_window as u128);
            let effort = default_of(&entry.reasoning_efforts);
            let head = cat3(n.as_str(), " models; default ", id.as_str());
            Some(
                cat6(
                    head.as_str(),
                    " (",
                    window.as_str(),
                    " tokens, ",
                    effort.as_str(),
                    " reasoning)",
                ),
            )
        },
        None => None,
    }
}

// ---------------------------------------------------------------------------
// Fetching

/// The version that the catalog is asked for: the configured one, unless it is
/// blank.
pub fn client_version(configured: &Option<String>) -> (r: String)
    ensures
        r@ == (if configured is Some && !is_blank(configured->0@) {
            configured->0@
        } else {
            "1.0.0"@
        }),
{
    match configured {
        Some(version) => {
            if blank(version.as_str()) {
                "1.0.0".to_owned()
            } else {
                version.clone()
            }
        },
        None => "1.0.0".to_owned(),
    }
}

/// The headers that the catalog is asked with, the bearer aside.
pub fn catalog_headers(tokens: &Tokens) -> (r: Vec<(String, String)>)
    ensures
        pairs(r@) == seq![
            ("chatgpt-account-id"@, tokens@.account_id),
            ("originator"@, "codex_cli_rs"@),
            ("accept"@, "application/json"@),
        ],
{
    let mut headers: Vec<(String, String)> = Vec::new();
    headers.push(pair("chatgpt-account-id", tokens.account_id.as_str()));
    headers.push(pair("originator", "codex_cli_rs"));
    headers.push(pair("accept", "application/json"));
    proof {
        assert(pairs(headers@) =~= seq![
            ("chatgpt-account-id"@, tokens@.account_id),
            ("originator"@, "codex_cli_rs"@),
            ("accept"@, "application/json"@),
        ]);
    }
    headers
}

/// How to go on with an answer of the catalog endpoint.
#[derive(Clone, Copy, Debug, PartialEq, Eq, Structural)]
pub enum FetchStep {
    /// Refresh the tokens and ask once more.
    RefreshAndRetry,
    /// The session is no good: clear it.
    ClearSession,
    /// Something else is wrong.
    Fail,
    /// Read the catalog.
    Read,
}

/// An answer that the session is not accepted is worth one retry with refreshed
/// tokens; after that the session is given up.
pub fn fetch_step(status: u16, retried: bool) -> (r: FetchStep)
    ensures
        r == (if status == 401 && !retried {
            FetchStep::RefreshAndRetry
        } else if status == 401 {
            FetchStep::ClearSession
        } else if 200 <= status < 300 {
            FetchStep::Read
        } else {
            FetchStep::Fail
        }),
{
    if status == 401 {
        if retried {
            FetchStep::ClearSession
        } else {
            FetchStep::RefreshAndRetry
        }
    } else if 200 <= status && status < 300 {
        FetchStep::Read
    } else {
        FetchStep::Fail
    }
}

/// What is reported once the session was cleared, or found to be another one.
pub fn rejected_session(cleared: bool) -> (r: CatalogError)
    ensures
        cleared ==> r is SessionRejected,
        !cleared ==> r is SessionChanged,
{
    if cleared {
        CatalogError::SessionRejected
    } else {
        CatalogError::SessionChanged
    }
}

/// Takes a catalog in, unless it is too long or of no use.
pub fn accept_catalog(raw: &Vec<RawModel>, known: &Vec<EffortSpelling>) -> (r: Result<
    Vec<ModelSpec>,
    CatalogError,
>)
    ensures
        raw@.len() > MAX_MODELS ==> r is Err && r->Err_0 is TooManyModels,
        raw@.len() <= MAX_MODELS && models_of(raw@, known@, raw@.len() as int).len() == 0 ==> r is Err
            && r->Err_0 is NoUsableModels,
        raw@.len() <= MAX_MODELS && models_of(raw@, known@, raw@.len() as int).len() > 0 ==> r is Ok
            && spec_views(r->Ok_0@) == models_of(raw@, known@, raw@.len() as int),
{
    if raw.len() > MAX_MODELS {
        return Err(CatalogError::TooManyModels);
    }
    let specs = parse_catalog(raw, known);
    proof {
        assert(spec_views(specs@).len() == specs@.len());
    }
    if specs.len() == 0 {
        return Err(CatalogError::NoUsableModels);
    }
    Ok(specs)
}

// ---------------------------------------------------------------------------
// The cache

/// The catalog of one account as it is kept on disk.
#[derive(Debug)]
pub struct DiskCache {
    pub version: u8,
    pub account_id: String,
    pub models: Vec<ModelSpec>,
}

pub fn cache_path(ds_home: &str) -> (r: String)
    ensures
        r@ == join_path(ds_home@, CACHE_FILE@),
{
    path_join(ds_home, CACHE_FILE)
}

/// Whether a cache file may be read: a regular file within the limit.
pub fn check_cache_file(is_regular: bool, len: u64, path: &str) -> (r: Result<(), CatalogError>)
    ensures
        r is Ok <==> is_regular && len <= MAX_CACHE_BYTES,
        !is_regular ==> r is Err && r->Err_0 is CacheNotRegular && r->Err_0->CacheNotRegular_0@
            == path@,
        is_regular && len > MAX_CACHE_BYTES ==> r is Err && r->Err_0 is CacheTooLarge,
{
    if !is_regular {
        return Err(CatalogError::CacheNotRegular(path.to_owned()));
    }
    if len > MAX_CACHE_BYTES {
        return Err(CatalogError::CacheTooLarge);
    }
    Ok(())
}

/// A model that a cache may hold.
pub open spec fn is_cacheable(spec: ModelSpecView) -> bool {
    spec.slug.len() > 0 && 0 < spec.context_window <= MAX_CONTEXT_WINDOW
}

/// A cache that can be used: of the known version, of some account, with models
/// and none of them unusable.
pub open spec fn is_usable(cache: DiskCache) -> bool {
    cache.version == CACHE_VERSION && cache.account_id@.len() > 0 && 0 < cache.models@.len()
        <= MAX_MODELS && forall|i: int|
        0 <= i < cache.models@.len() ==> is_cacheable((#[trigger] cache.models@[i])@)
}

pub fn usable_cache(cache: &DiskCache) -> (r: bool)
    ensures
        r == is_usable(*cache),
{
    if cache.version != CACHE_VERSION || cache.account_id.as_str().is_empty() || cache.models.len()
        == 0 || cache.models.len() > MAX_MODELS {
        return false;
    }
    let mut i: usize = 0;
    while i < cache.models.len()
        invariant
            i <= cache.models@.len(),
            forall|k: int| 0 <= k < i ==> is_cacheable((#[trigger] cache.models@[k])@),
        decreases cache.models@.len() - i,
    {
        let m = &cache.models[i];
        if m.slug.as_str().is_empty() || m.context_window == 0 || m.context_window
            > MAX_CONTEXT_WINDOW {
            proof {
                assert(!is_cacheable(cache.models@[i as int]@));
            }
            return false;
        }
        i += 1;
    }
    true
}

/// The entries of a cached catalog; none without a sign-in, without a usable
/// cache, or where the cache is that of another account.
pub fn cached_model_entries(
    tokens: &Option<Tokens>,
    cache: &Option<DiskCache>,
    known: &Vec<EffortSpelling>,
) -> (r: indexmap::IndexMap<String, ModelEntry>)
    ensures
        tokens is None || cache is None || !is_usable(cache->0) || cache->0.account_id@
            != tokens->0@.account_id ==> entries_in(r).len() == 0,
        tokens is Some && cache is Some && is_usable(cache->0) && cache->0.account_id@
            == tokens->0@.account_id ==> exists|session_id: Seq<char>|
            session_id.len() == 36 && entries_in(r) == #[trigger] entries_of(
                spec_views(cache->0.models@),
                tokens->0@,
                session_id,
                known@,
                cache->0.models@.len() as int,
            ),
{
    let t = match tokens {
        Some(t) => t,
        None => {
            return no_entries();
        },
    };
    let c = match cache {
        Some(c) => c,
        None => {
            return no_entries();
        },
    };
    if !usable_cache(c) || !same_str(c.account_id.as_str(), t.account_id.as_str()) {
        return no_entries();
    }
    proof {
        lemma_no_windowless(c.models@, 0);
    }
    match specs_to_entries(c.models.as_slice(), t, known) {
        Ok(entries) => entries,
        Err(_) => no_entries(),
    }
}

proof fn lemma_no_windowless(models: Seq<ModelSpec>, i: int)
    requires
        forall|k: int| 0 <= k < models.len() ==> is_cacheable((#[trigger] models[k])@),
        0 <= i,
    ensures
        windowless_from(spec_views(models), i) is None,
    decreases models.len() - i,
{
    if i < models.len() {
        assert(is_cacheable(models[i]@));
        lemma_no_windowless(models, i + 1);
    }
}

/// The catalog that was fetched for an account is usable from the cache.
pub proof fn law_fetched_catalog_can_be_cached(
    raw: Seq<RawModel>,
    known: Seq<EffortSpelling>,
    cache: DiskCache,
)
    requires
        raw.len() <= MAX_MODELS,
        models_of(raw, known, raw.len() as int).len() > 0,
        cache.version == CACHE_VERSION,
        cache.account_id@.len() > 0,
        spec_views(cache.models@) == models_of(raw, known, raw.len() as int),
    ensures
        is_usable(cache),
{
    crate::chatgpt_catalog::law_catalog_is_usable(raw, known);
    crate::chatgpt_catalog::lemma_models_bounded(raw, known, raw.len() as int);
    let views = spec_views(cache.models@);
    assert(views.len() == cache.models@.len());
    assert forall|i: int| 0 <= i < cache.models@.len() implies is_cacheable(
        (#[trigger] cache.models@[i])@,
    ) by {
        assert(views[i] == cache.models@[i]@);
    }
}

// ---------------------------------------------------------------------------
// The provider

/// What a request is sent with.
#[derive(Debug)]
pub struct SamplerIdentity {
    pub base_url: String,
    pub user_id: Option<String>,
    pub deployment_id: Option<String>,
    pub extra_headers: indexmap::IndexMap<String, String>,
    /// The account whose bearer is looked up anew for every request.
    pub bearer_account: Option<String>,
}

/// Whether requests go to the provider.
pub open spec fn goes_to_chatgpt(base_url: Seq<char>) -> bool {
    trim_end_by(base_url, CharClass::Only('/')) == CHATGPT_BASE_URL@
}

/// Prepares requests to the provider: identities of another provider are left
/// out, and the bearer is that of the account in the headers. Other requests are
/// left as they are.
pub fn attach_bearer_resolver(config: &mut SamplerIdentity)
    ensures
        !goes_to_chatgpt(old(config).base_url@) ==> *final(config) == *old(config),
        goes_to_chatgpt(old(config).base_url@) ==> {
            &&& final(config).base_url@ == old(config).base_url@
            &&& final(config).extra_headers == old(config).extra_headers
            &&& final(config).user_id is None
            &&& final(config).deployment_id is None
            &&& opt(final(config).bearer_account) == Some(
                match got(headers_in(old(config).extra_headers), "chatgpt-account-id"@) {
                    Some(account) => account,
                    None => Seq::empty(),
                },
            )
        },
{
    if crate::chatgpt_catalog::is_chatgpt_base_url(config.base_url.as_str()) {
        let account = match header_value(&config.extra_headers, "chatgpt-account-id") {
            Some(account) => account,
            None => String::new(),
        };
        config.user_id = None;
        config.deployment_id = None;
        config.bearer_account = Some(account);
    }
}

proof fn lemma_place_of<V>(list: Seq<(Seq<char>, V)>, key: Seq<char>)
    ensures
        0 <= place_of(list, key) <= list.len(),
        place_of(list, key) < list.len() ==> list[place_of(list, key)].0 == key,
        forall|k: int| 0 <= k < place_of(list, key) ==> (#[trigger] list[k]).0 != key,
    decreases list.len(),
{
    if list.len() > 0 && list[0].0 != key {
        let rest = list.drop_first();
        lemma_place_of(rest, key);
        assert forall|k: int| 0 <= k < place_of(list, key) implies (#[trigger] list[k]).0 != key by {
            if k > 0 {
                assert(list[k] == rest[k - 1]);
            }
        }
    }
}

proof fn lemma_place_is<V>(list: Seq<(Seq<char>, V)>, key: Seq<char>, at: int)
    requires
        0 <= at <= list.len(),
        at < list.len() ==> list[at].0 == key,
        forall|k: int| 0 <= k < at ==> (#[trigger] list[k]).0 != key,
    ensures
        place_of(list, key) == at,
{
    lemma_place_of(list, key);
    let found = place_of(list, key);
    if found < at {
        assert(list[found].0 != key);
    } else if at < found {
        assert(list[at].0 != key);
    }
}

proof fn lemma_got_put<V>(list: Seq<(Seq<char>, V)>, key: Seq<char>, value: V, other: Seq<char>)
    ensures
        got(put(list, key, value), key) == Some(value),
        other != key ==> got(put(list, key, value), other) == got(list, other),
{
    let i = place_of(list, key);
    let after = put(list, key, value);
    lemma_place_of(list, key);
    lemma_place_is(after, key, i);
    if other != key {
        let j = place_of(list, other);
        lemma_place_of(list, other);
        assert forall|k: int| 0 <= k < j implies (#[trigger] after[k]).0 != other by {
            if k < list.len() {
                assert(list[k].0 != other);
            }
        }
        if j < list.len() {
            lemma_place_is(after, other, j);
        } else {
            lemma_place_is(after, other, after.len() as int);
        }
    }
}

/// Every entry of the catalog is sent to the provider of the catalog, on behalf
/// of the account whose tokens it was made with.
pub proof fn law_entry_belongs_to_its_account(
    spec: ModelSpecView,
    tokens: TokensView,
    session_id: Seq<char>,
    known: Seq<EffortSpelling>,
)
    ensures
        ({
            let entry = entry_of(spec, tokens, session_id, known);
            &&& goes_to_chatgpt(entry.base_url)
            &&& got(entry.extra_headers, "chatgpt-account-id"@) == Some(tokens.account_id)
            &&& starts_with(entry.id, "openai/"@)
        }),
{
    reveal_strlit("chatgpt-account-id");
    reveal_strlit("originator");
    reveal_strlit("OpenAI-Beta");
    reveal_strlit("session_id");
    reveal_strlit("conversation_id");
    reveal_strlit("https://chatgpt.com/backend-api/codex");
    let name = "chatgpt-account-id"@;
    assert(name.len() == 18);
    assert("originator"@.len() == 10);
    assert("OpenAI-Beta"@.len() == 11);
    assert("session_id"@.len() == 10);
    assert("conversation_id"@.len() == 15);
    let a = put(Seq::<(Seq<char>, Seq<char>)>::empty(), name, tokens.account_id);
    let b = put(a, "originator"@, "codex_cli_rs"@);
    let c = put(b, "OpenAI-Beta"@, "responses=experimental"@);
    let d = put(c, "session_id"@, session_id);
    lemma_got_put(Seq::<(Seq<char>, Seq<char>)>::empty(), name, tokens.account_id, name);
    lemma_got_put(a, "originator"@, "codex_cli_rs"@, name);
    lemma_got_put(b, "OpenAI-Beta"@, "responses=experimental"@, name);
    lemma_got_put(c, "session_id"@, session_id, name);
    lemma_got_put(d, "conversation_id"@, session_id, name);
    let entry = entry_of(spec, tokens, session_id, known);
    assert(entry.id.subrange(0, "openai/"@.len() as int) =~= "openai/"@);
    let url = CHATGPT_BASE_URL@;
    assert(url.last() == 'x');
    assert(trim_end_by(url, CharClass::Only('/')) == url);
}

/// The methods of the provider that a client can call.
#[derive(Clone, Copy, Debug, PartialEq, Eq, Structural)]
pub enum ExtMethod {
    Login,
    Logout,
    Unknown,
}

pub open spec fn method_named(name: Seq<char>) -> ExtMethod {
    if name == "ds.cli/chatgpt/login"@ {
        ExtMethod::Login
    } else if name == "ds.cli/chatgpt/logout"@ {
        ExtMethod::Logout
    } else {
        ExtMethod::Unknown
    }
}

pub fn ext_method(name: &str) -> (r: ExtMethod)
    ensures
        r == method_named(name@),
{
    if same_str(name, "ds.cli/chatgpt/login") {
        ExtMethod::Login
    } else if same_str(name, "ds.cli/chatgpt/logout") {
        ExtMethod::Logout
    } else {
        ExtMethod::Unknown
    }
}

/// What a client is told after a sign-in.
pub fn login_message(summary: &str) -> (r: String)
    ensures
        r@ == "ChatGPT sign-in complete: "@ + summary@
            + ". Open /model to select a ChatGPT model."@,
{
    cat3("ChatGPT sign-in complete: ", summary, ". Open /model to select a ChatGPT model.")
}

/// What is said after a sign-out.
pub fn logout_message(was_logged_in: bool) -> (r: &'static str)
    ensures
        r == (if was_logged_in {
            "Signed out of ChatGPT. DeepSeek credentials were not changed."
        } else {
            "Not signed into ChatGPT. DeepSeek credentials were not changed."
        }),
{
    if was_logged_in {
        "Signed out of ChatGPT. DeepSeek credentials were not changed."
    } else {
        "Not signed into ChatGPT. DeepSeek credentials were not changed."
    }
}

/// Lets a request pass only with a credential of the product: `is_ds` says of
/// the current credential, where there is one, whether it is.
pub fn require_ds_auth(
    is_ds: Option<bool>,
    missing_message: &'static str,
    non_ds_message: &'static str,
) -> (r: Result<(), &'static str>)
    ensures
        r == (match is_ds {
            None => Err::<(), &'static str>(missing_message),
            Some(false) => Err::<(), &'static str>(non_ds_message),
            Some(true) => Ok::<(), &'static str>(()),
        }),
{
    match is_ds {
        None => Err(missing_message),
        Some(ds) => {
            if ds {
                Ok(())
            } else {
                Err(non_ds_message)
            }
        },
    }
}

// ---------------------------------------------------------------------------
// What an entry says

/// What is put under a key is what is got under it, and nothing is changed under
/// any other key; a key that is new comes last, and one that is not keeps its
/// place.
pub proof fn law_what_is_put_is_got<V>(
    list: Seq<(Seq<char>, V)>,
    key: Seq<char>,
    value: V,
    other: Seq<char>,
)
    ensures
        got(put(list, key, value), key) == Some(value),
        other != key ==> got(put(list, key, value), other) == got(list, other),
        got(list, key) is None ==> put(list, key, value) == list.push((key, value)),
        got(list, key) is Some ==> put(list, key, value).len() == list.len(),
{
    let now = put(list, key, value);
    let i = place_of(list, key);
    lemma_place_of(list, key);
    lemma_place_of(list, other);
    assert forall|m: int| 0 <= m < i implies (#[trigger] now[m]).0 != key by {
        assert(list[m].0 != key);
    }
    lemma_place_is(now, key, i);
    if other != key {
        let j = place_of(list, other);
        if j < list.len() {
            assert(now[j] == list[j]);
            assert forall|m: int| 0 <= m < j implies (#[trigger] now[m]).0 != other by {
                assert(list[m].0 != other);
            }
            lemma_place_is(now, other, j);
        } else {
            assert forall|m: int| 0 <= m < now.len() implies (#[trigger] now[m]).0 != other by {
                if m < list.len() {
                    assert(list[m].0 != other);
                }
            }
            lemma_place_is(now, other, now.len() as int);
        }
    }
}

proof fn lemma_header_names_differ()
    ensures
        "chatgpt-account-id"@ != "originator"@,
        "chatgpt-account-id"@ != "OpenAI-Beta"@,
        "chatgpt-account-id"@ != "session_id"@,
        "chatgpt-account-id"@ != "conversation_id"@,
        "originator"@ != "OpenAI-Beta"@,
        "originator"@ != "session_id"@,
        "originator"@ != "conversation_id"@,
        "OpenAI-Beta"@ != "session_id"@,
        "OpenAI-Beta"@ != "conversation_id"@,
        "session_id"@ != "conversation_id"@,
{
    reveal_strlit("chatgpt-account-id");
    reveal_strlit("originator");
    reveal_strlit("OpenAI-Beta");
    reveal_strlit("session_id");
    reveal_strlit("conversation_id");
    assert("chatgpt-account-id"@.len() == 18);
    assert("originator"@.len() == 10 && "originator"@[0] == 'o');
    assert("OpenAI-Beta"@.len() == 11);
    assert("session_id"@.len() == 10 && "session_id"@[0] == 's');
    assert("conversation_id"@.len() == 15);
}

/// The headers of a request name the account and the session that it belongs to.
pub proof fn law_headers_name_account_and_session(account_id: Seq<char>, session_id: Seq<char>)
    ensures
        got(account_headers(account_id, session_id), "chatgpt-account-id"@) == Some(account_id),
        got(account_headers(account_id, session_id), "session_id"@) == Some(session_id),
        got(account_headers(account_id, session_id), "conversation_id"@) == Some(session_id),
        got(account_headers(account_id, session_id), "originator"@) == Some("codex_cli_rs"@),
        got(account_headers(account_id, session_id), "OpenAI-Beta"@) == Some(
            "responses=experimental"@,
        ),
{
    lemma_header_names_differ();
    let a = put(Seq::<(Seq<char>, Seq<char>)>::empty(), "chatgpt-account-id"@, account_id);
    let b = put(a, "originator"@, "codex_cli_rs"@);
    let c = put(b, "OpenAI-Beta"@, "responses=experimental"@);
    let d = put(c, "session_id"@, session_id);
    let e = put(d, "conversation_id"@, session_id);
    assert(Seq::<(Seq<char>, Seq<char>)>::empty() =~= seq![]);
    let none = Seq::<(Seq<char>, Seq<char>)>::empty();
    law_what_is_put_is_got(none, "chatgpt-account-id"@, account_id, "originator"@);
    law_what_is_put_is_got(a, "originator"@, "codex_cli_rs"@, "chatgpt-account-id"@);
    law_what_is_put_is_got(b, "OpenAI-Beta"@, "responses=experimental"@, "chatgpt-account-id"@);
    law_what_is_put_is_got(b, "OpenAI-Beta"@, "responses=experimental"@, "originator"@);
    law_what_is_put_is_got(c, "session_id"@, session_id, "chatgpt-account-id"@);
    law_what_is_put_is_got(c, "session_id"@, session_id, "originator"@);
    law_what_is_put_is_got(c, "session_id"@, session_id, "OpenAI-Beta"@);
    law_what_is_put_is_got(d, "conversation_id"@, session_id, "chatgpt-account-id"@);
    law_what_is_put_is_got(d, "conversation_id"@, session_id, "originator"@);
    law_what_is_put_is_got(d, "conversation_id"@, session_id, "OpenAI-Beta"@);
    law_what_is_put_is_got(d, "conversation_id"@, session_id, "session_id"@);
}

/// The entry of a model says what the catalog says of it: its name, its context
/// window, its efforts and its default; and it is sent to the provider with the
/// access token of the account.
pub proof fn law_entry_says_what_the_catalog_says(
    spec: ModelSpecView,
    tokens: TokensView,
    session_id: Seq<char>,
    known: Seq<EffortSpelling>,
)
    ensures
        ({
            let entry = entry_of(spec, tokens, session_id, known);
            &&& entry.id == "openai/"@ + spec.slug
            &&& entry.model == spec.slug
            &&& entry.base_url == "https://chatgpt.com/backend-api/codex"@
            &&& entry.context_window == spec.context_window
            &&& entry.api_key == tokens.access
            &&& entry.api_backend == ApiBackend::Responses
            &&& entry.auth_scheme == AuthScheme::Bearer
            &&& got(entry.extra_headers, "chatgpt-account-id"@) == Some(tokens.account_id)
            &&& ends_with(entry.name, spec.display_name)
            &&& spec.description.len() > 0 ==> ends_with(entry.description, spec.description)
            &&& spec.default_reasoning is Some ==> entry.reasoning_effort == effort_spelled(
                known,
                spec.default_reasoning->0,
            )
            &&& spec.default_reasoning is None ==> entry.reasoning_effort is None
            &&& entry.supports_reasoning_effort <==> entry.reasoning_efforts.len() > 0
        }),
{
    let entry = entry_of(spec, tokens, session_id, known);
    law_headers_name_account_and_session(tokens.account_id, session_id);
    assert(entry.name.subrange(
        entry.name.len() - spec.display_name.len(),
        entry.name.len() as int,
    ) =~= spec.display_name);
    if spec.description.len() > 0 {
        assert(entry.description.subrange(
            entry.description.len() - spec.description.len(),
            entry.description.len() as int,
        ) =~= spec.description);
    }
}

proof fn lemma_options(spec: ModelSpecView, known: Seq<EffortSpelling>, n: int, k: int)
    requires
        0 <= k < n <= spec.reasoning.len(),
        effort_spelled(known, spec.reasoning[k].0) is Some,
    ensures
        exists|i: int|
            0 <= i < options_of(spec, known, n).len() && (#[trigger] options_of(
                spec,
                known,
                n,
            )[i]).id == spec.reasoning[k].0 && options_of(spec, known, n)[i].value
                == effort_spelled(known, spec.reasoning[k].0)->0 && (options_of(
                spec,
                known,
                n,
            )[i].default <==> spec.default_reasoning == Some(spec.reasoning[k].0)),
    decreases n,
{
    let before = options_of(spec, known, n - 1);
    let now = options_of(spec, known, n);
    if k == n - 1 {
        assert(now[before.len() as int].id == spec.reasoning[k].0);
    } else {
        lemma_options(spec, known, n - 1, k);
        let i = choose|i: int|
            0 <= i < before.len() && (#[trigger] before[i]).id == spec.reasoning[k].0
                && before[i].value == effort_spelled(known, spec.reasoning[k].0)->0 && (
            before[i].default <==> spec.default_reasoning == Some(spec.reasoning[k].0));
        assert(now[i] == before[i]);
    }
}

/// Every effort of a model that can be sent can be chosen, with the value that is
/// sent for it, and the default one is marked.
pub proof fn law_every_effort_can_be_chosen(
    spec: ModelSpecView,
    known: Seq<EffortSpelling>,
    k: int,
)
    requires
        0 <= k < spec.reasoning.len(),
        effort_spelled(known, spec.reasoning[k].0) is Some,
    ensures
        exists|i: int|
            0 <= i < options_of(spec, known, spec.reasoning.len() as int).len() && (
            #[trigger] options_of(spec, known, spec.reasoning.len() as int)[i]).id
                == spec.reasoning[k].0 && options_of(
                spec,
                known,
                spec.reasoning.len() as int,
            )[i].value == effort_spelled(known, spec.reasoning[k].0)->0 && (options_of(
                spec,
                known,
                spec.reasoning.len() as int,
            )[i].default <==> spec.default_reasoning == Some(spec.reasoning[k].0)),
{
    lemma_options(spec, known, spec.reasoning.len() as int, k);
}

proof fn lemma_entry_kept(
    specs: Seq<ModelSpecView>,
    tokens: TokensView,
    session_id: Seq<char>,
    known: Seq<EffortSpelling>,
    n: int,
    k: int,
)
    requires
        0 <= k < n <= specs.len(),
        forall|m: int| k < m < n ==> (#[trigger] specs[m]).slug != specs[k].slug,
    ensures
        got(entries_of(specs, tokens, session_id, known, n), "openai/"@ + specs[k].slug) == Some(
            entry_of(specs[k], tokens, session_id, known),
        ),
    decreases n,
{
    let before = entries_of(specs, tokens, session_id, known, n - 1);
    let entry = entry_of(specs[n - 1], tokens, session_id, known);
    law_what_is_put_is_got(
        before,
        entry_key(specs[n - 1].slug),
        entry,
        "openai/"@ + specs[k].slug,
    );
    if k < n - 1 {
        lemma_entry_kept(specs, tokens, session_id, known, n - 1, k);
        let a = "openai/"@ + specs[n - 1].slug;
        let b = "openai/"@ + specs[k].slug;
        if a == b {
            assert(a.skip("openai/"@.len() as int) =~= specs[n - 1].slug);
            assert(b.skip("openai/"@.len() as int) =~= specs[k].slug);
            assert(specs[n - 1].slug != specs[k].slug);
        }
    }
}

/// Every model of the catalog has its entry, under its own name.
pub proof fn law_every_model_has_its_entry(
    specs: Seq<ModelSpecView>,
    tokens: TokensView,
    session_id: Seq<char>,
    known: Seq<EffortSpelling>,
    k: int,
)
    requires
        0 <= k < specs.len(),
        forall|m: int| k < m < specs.len() ==> (#[trigger] specs[m]).slug != specs[k].slug,
    ensures
        got(
            entries_of(specs, tokens, session_id, known, specs.len() as int),
            "openai/"@ + specs[k].slug,
        ) == Some(entry_of(specs[k], tokens, session_id, known)),
{
    lemma_entry_kept(specs, tokens, session_id, known, specs.len() as int, k);
}

proof fn lemma_windowless(specs: Seq<ModelSpecView>, i: int)
    requires
        0 <= i,
    ensures
        windowless_from(specs, i) is None <==> forall|k: int|
            i <= k < specs.len() ==> (#[trigger] specs[k]).context_window > 0,
    decreases specs.len() - i,
{
    if i < specs.len() {
        lemma_windowless(specs, i + 1);
        if specs[i].context_window > 0 && windowless_from(specs, i + 1) is None {
            assert forall|k: int| i <= k < specs.len() implies (
            #[trigger] specs[k]).context_window > 0 by {}
        }
    }
}

/// Entries are made exactly where every model has a context window.
pub proof fn law_entries_need_a_context_window(specs: Seq<ModelSpecView>)
    ensures
        windowless_from(specs, 0) is None <==> forall|k: int|
            0 <= k < specs.len() ==> (#[trigger] specs[k]).context_window > 0,
{
    lemma_windowless(specs, 0);
}

/// A cached catalog is used exactly where it is in the current form, is that of an
/// account, and has models, not too many, each with a name and a context window.
pub proof fn law_cache_is_used_whole(cache: DiskCache)
    ensures
        is_usable(cache) <==> {
            &&& cache.version == 1
            &&& cache.account_id@.len() > 0
            &&& 0 < cache.models@.len() <= 10000
            &&& forall|i: int|
                0 <= i < cache.models@.len() ==> (#[trigger] cache.models@[i]).slug@.len() > 0
                    && 0 < cache.models@[i].context_window <= 10000000
        },
{
    if is_usable(cache) {
        assert forall|i: int| 0 <= i < cache.models@.len() implies (
        #[trigger] cache.models@[i]).slug@.len() > 0 && 0 < cache.models@[i].context_window
            <= MAX_CONTEXT_WINDOW by {
            assert(is_cacheable(cache.models@[i]@));
        }
    }
}

/// A method of the extension is known by its name alone.
pub proof fn law_method_is_known_by_its_name(name: Seq<char>)
    ensures
        method_named(name) == ExtMethod::Login <==> name == "ds.cli/chatgpt/login"@,
        method_named(name) == ExtMethod::Logout <==> name == "ds.cli/chatgpt/logout"@,
{
    reveal_strlit("ds.cli/chatgpt/login");
    reveal_strlit("ds.cli/chatgpt/logout");
    assert("ds.cli/chatgpt/login"@.len() == 20 && "ds.cli/chatgpt/logout"@.len() == 21);
}

/// A request goes to the provider exactly where its base URL is that of the
/// provider, however many slashes end it.
pub proof fn law_provider_is_known_by_its_url(base_url: Seq<char>)
    ensures
        goes_to_chatgpt(base_url.push('/')) == goes_to_chatgpt(base_url),
        goes_to_chatgpt("https://chatgpt.com/backend-api/codex"@),
{
    let s = base_url.push('/');
    assert(s.last() == '/');
    assert(s.drop_last() =~= base_url);
    assert(trim_end_by(s, CharClass::Only('/')) == trim_end_by(base_url, CharClass::Only('/')));
    reveal_strlit("https://chatgpt.com/backend-api/codex");
    assert("https://chatgpt.com/backend-api/codex"@.last() == 'x');
}

proof fn lemma_default_from(options: Seq<OptionView>, i: int, k: int)
    requires
        0 <= i <= k < options.len(),
        options[k].default,
        forall|m: int| i <= m < k ==> !(#[trigger] options[m]).default,
    ensures
        default_from(options, i) == options[k].id,
    decreases k - i,
{
    if i < k {
        lemma_default_from(options, i + 1, k);
    }
}

/// After a sign-in the number of models is told, and of the first one its name, its
/// context window and its default effort.
pub proof fn law_summary_tells_of_the_first_model(
    entries: Seq<(Seq<char>, EntryView)>,
    k: int,
)
    requires
        entries.len() > 0,
        0 <= k < entries[0].1.reasoning_efforts.len(),
        entries[0].1.reasoning_efforts[k].default,
        forall|m: int| 0 <= m < k ==> !(#[trigger] entries[0].1.reasoning_efforts[m]).default,
    ensures
        entries_summary(entries) == Some(
            decimal(entries.len()) + " models; default "@ + entries[0].0 + " ("@ + decimal(
                entries[0].1.context_window as nat,
            ) + " tokens, "@ + entries[0].1.reasoning_efforts[k].id + " reasoning)"@,
        ),
{
    lemma_default_from(entries[0].1.reasoning_efforts, 0, k);
}

} // verus!
