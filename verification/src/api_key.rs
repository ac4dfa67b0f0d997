//! Saving, clearing and finding the API key of the provider.

use vstd::prelude::*;

use crate::config_doc::{
    agrees, config_spelled, contents_at, contents_under, document_held, document_spelled,
    document_spelling, document_text, has_integer, has_item, has_text, is_kept, is_kept_at_top,
    is_table, is_table_like, item_held, item_names, item_under, item_under_mut, new_document,
    no_entries, parse_config, parse_document, put_integer, put_table, put_text, remove_item,
    root_mut, table_at, table_under, text_under, value_held, value_names, value_text, value_under,
    ConfigDocument, DATE_MARK, Toml,
};
use crate::digest::{json_string, json_string_of};
use crate::paths::{join_path, path_join};
use crate::text::{
    append, append_str, blank, bool_str, bool_text, cat2, cat3, cat4, cat5, chars_of, contains,
    contains_str, has_char, has_char_of, is_blank, is_sorted_set, is_text, is_white,
    lemma_sorted_set, lemma_sorted_set_unique, lemma_strings_push, lemma_trim_by_fixed,
    lemma_trim_by_shape, matches_at, opt, precedes, same_str, slice_of, sorted_set, starts_with,
    starts_with_str, string_of, strings, trim, trim_by, trim_by_of, trim_end_by, trim_of,
    trim_start_by, trim_str, upper, upper_of, CharClass,
};

verus! {

pub const KEY_PLATFORM_URL: &'static str = "https://platform.deepseek.com/api_keys";

// ---------------------------------------------------------------------------
// Where a key comes from

/// Where a key comes from; never the key itself.
#[derive(Clone, Copy, Debug, PartialEq, Eq, Structural)]
pub enum ApiKeyOrigin {
    EnvDeepseek,
    EnvDs,
    EnvLegacy,
    ConfigModel,
    ConfigTopLevel,
    AuthJson,
    Unset,
}

impl ApiKeyOrigin {
    pub open spec fn label(self) -> &'static str {
        match self {
            ApiKeyOrigin::EnvDeepseek => "env:DEEPSEEK_API_KEY",
            ApiKeyOrigin::EnvDs => "env:DS_API_KEY",
            ApiKeyOrigin::EnvLegacy => "env:DS_CODE_API_KEY",
            ApiKeyOrigin::ConfigModel => "config.toml [model.*]",
            ApiKeyOrigin::ConfigTopLevel => "config.toml api_key",
            ApiKeyOrigin::AuthJson => "auth.json",
            ApiKeyOrigin::Unset => "unset",
        }
    }

    pub fn as_str(self) -> (r: &'static str)
        ensures
            r == self.label(),
    {
        match self {
            ApiKeyOrigin::EnvDeepseek => "env:DEEPSEEK_API_KEY",
            ApiKeyOrigin::EnvDs => "env:DS_API_KEY",
            ApiKeyOrigin::EnvLegacy => "env:DS_CODE_API_KEY",
            ApiKeyOrigin::ConfigModel => "config.toml [model.*]",
            ApiKeyOrigin::ConfigTopLevel => "config.toml api_key",
            ApiKeyOrigin::AuthJson => "auth.json",
            ApiKeyOrigin::Unset => "unset",
        }
    }

    pub fn is_set(self) -> (r: bool)
        ensures
            r == (self != ApiKeyOrigin::Unset),
    {
        match self {
            ApiKeyOrigin::Unset => false,
            _ => true,
        }
    }
}

/// What can be told of the configured key without telling the key.
#[derive(Debug)]
pub struct ApiKeyStatus {
    pub origin: ApiKeyOrigin,
    pub config_path: String,
    /// Whether a variable of the environment would win over a stored key.
    pub env_overrides: bool,
    /// The key with its middle left out.
    pub redacted: Option<String>,
}

/// How a key is to be obtained.
#[derive(Debug)]
pub enum ApiKeyInput {
    /// It is given.
    Inline(String),
    /// It is one line of the standard input.
    Stdin,
    /// It is asked for without an echo, where there is a terminal.
    Prompt,
}

/// What making sure of a key comes to.
#[derive(Clone, Copy, Debug, PartialEq, Eq, Structural)]
pub enum EnsureApiKeyOutcome {
    AlreadyConfigured,
    Saved,
    MissingNonInteractive,
}

/// What the environment and the files of the user say of a key.
#[derive(Debug)]
pub struct KeySources {
    pub env_deepseek: Option<String>,
    pub env_ds: Option<String>,
    pub env_legacy: Option<String>,
    /// The text of the configuration file, where it can be read.
    pub config: Option<String>,
    /// The key in the credential store.
    pub auth_json: Option<String>,
}

// ---------------------------------------------------------------------------
// Keys

/// A key that somebody has yet to fill in.
pub open spec fn is_placeholder(key: Seq<char>) -> bool {
    let u = upper(trim(key));
    u.len() == 0 || contains(u, "PASTE_YOUR"@) || contains(u, "PASTE YOUR"@) || contains(
        u,
        "YOUR_KEY"@,
    ) || u == "SK-..."@ || starts_with(u, "SK-PASTE"@)
}

pub fn is_placeholder_api_key(key: &str) -> (r: bool)
    ensures
        r == is_placeholder(key@),
{
    let v = chars_of(key);
    let u = upper_of(&trim_of(&v));
    u.len() == 0 || contains_str(&u, "PASTE_YOUR") || contains_str(&u, "PASTE YOUR")
        || contains_str(&u, "YOUR_KEY") || is_text(&u, "SK-...") || starts_with_str(&u, "SK-PASTE")
}

/// Why a key is not taken, or a configuration not touched.
#[derive(Debug)]
pub enum ApiKeyError {
    Empty,
    SeveralLines,
    Placeholder,
    /// The configuration is not TOML, so no key is saved in it.
    InvalidConfig { message: String, path: String },
    /// The configuration is not TOML, so no key is cleared from it.
    InvalidConfigOnClear { message: String },
    ModelIsNoTable,
    ModelEntryIsNoTable { id: String },
}

impl ApiKeyError {
    pub open spec fn text(self) -> Seq<char> {
        match self {
            ApiKeyError::Empty => "empty API key provided"@,
            ApiKeyError::SeveralLines => "API key must be a single line"@,
            ApiKeyError::Placeholder =>
            "API key still looks like a placeholder — paste the real key from "@
                + KEY_PLATFORM_URL@,
            ApiKeyError::InvalidConfig { message, path } => "config.toml is not valid TOML ("@
                + message@ + "); fix or move it before saving an API key: "@ + path@,
            ApiKeyError::InvalidConfigOnClear { message } => "config.toml is not valid TOML ("@
                + message@ + "); cannot clear key"@,
            ApiKeyError::ModelIsNoTable => "[model] in config.toml is not a table"@,
            ApiKeyError::ModelEntryIsNoTable { id } => "[model."@ + id@
                + "] in config.toml is not a table"@,
        }
    }

    /// The message to show.
    pub fn message(&self) -> (r: String)
        ensures
            r@ == self.text(),
    {
        match self {
            ApiKeyError::Empty => "empty API key provided".to_owned(),
            ApiKeyError::SeveralLines => "API key must be a single line".to_owned(),
            ApiKeyError::Placeholder => cat2(
                "API key still looks like a placeholder — paste the real key from ",
                KEY_PLATFORM_URL,
            ),
            ApiKeyError::InvalidConfig { message, path } => cat4(
                "config.toml is not valid TOML (",
                message.as_str(),
                "); fix or move it before saving an API key: ",
                path.as_str(),
            ),
            ApiKeyError::InvalidConfigOnClear { message } => cat3(
                "config.toml is not valid TOML (",
                message.as_str(),
                "); cannot clear key",
            ),
            ApiKeyError::ModelIsNoTable => "[model] in config.toml is not a table".to_owned(),
            ApiKeyError::ModelEntryIsNoTable { id } => cat3(
                "[model.",
                id.as_str(),
                "] in config.toml is not a table",
            ),
        }
    }
}

/// A key as it was pasted, without white space and quotation marks around it.
pub open spec fn bare_key(raw: Seq<char>) -> Seq<char> {
    trim_by(trim(raw), CharClass::Two('"', '\''))
}

pub open spec fn spans_lines(key: Seq<char>) -> bool {
    has_char(key, '\n') || has_char(key, '\r')
}

/// Whether a pasted key is taken.
pub open spec fn is_usable(raw: Seq<char>) -> bool {
    let key = bare_key(raw);
    key.len() > 0 && !spans_lines(key) && !is_placeholder(key)
}

/// The key that was pasted, or why it is not taken.
pub fn normalize_api_key(raw: &str) -> (r: Result<String, ApiKeyError>)
    ensures
        is_usable(raw@) ==> r is Ok && r->Ok_0@ == bare_key(raw@),
        bare_key(raw@).len() == 0 ==> r is Err && r->Err_0 is Empty,
        bare_key(raw@).len() > 0 && spans_lines(bare_key(raw@)) ==> r is Err
            && r->Err_0 is SeveralLines,
        bare_key(raw@).len() > 0 && !spans_lines(bare_key(raw@)) && is_placeholder(bare_key(raw@))
            ==> r is Err && r->Err_0 is Placeholder,
{
    let v = chars_of(raw);
    let key = trim_by_of(&trim_of(&v), CharClass::Two('"', '\''));
    if key.len() == 0 {
        return Err(ApiKeyError::Empty);
    }
    if has_char_of(&key, '\n') || has_char_of(&key, '\r') {
        return Err(ApiKeyError::SeveralLines);
    }
    let text = string_of(&key);
    if is_placeholder_api_key(text.as_str()) {
        return Err(ApiKeyError::Placeholder);
    }
    Ok(text)
}

/// A key for display: nothing of one with no more than eight characters, else
/// its first and last four characters.
pub open spec fn redacted_key(key: Seq<char>) -> Seq<char> {
    let k = trim(key);
    if k.len() <= 8 {
        "********"@
    } else {
        k.take(4) + "…"@ + k.skip(k.len() - 4)
    }
}

pub fn redact_api_key(key: &str) -> (r: String)
    ensures
        r@ == redacted_key(key@),
{
    let v = chars_of(key);
    let k = trim_of(&v);
    if k.len() <= 8 {
        return "********".to_owned();
    }
    let n: usize = k.len();
    let mut out = slice_of(&k, 0, 4);
    let last = slice_of(&k, n - 4, n);
    proof {
        assert(out@ =~= k@.take(4));
        assert(last@ =~= k@.skip(n - 4));
    }
    append_str(&mut out, "…");
    append(&mut out, &last);
    string_of(&out)
}

/// No more than nine characters are shown of a key, and never all of it: a whole
/// key stands in what is shown only where it looks like a redacted one itself,
/// made of no more than eight asterisks or of nine characters with an ellipsis in
/// the middle.
pub proof fn law_redaction_never_shows_a_whole_key(key: Seq<char>)
    ensures
        redacted_key(key).len() <= 9,
        contains(redacted_key(key), trim(key)) <==> {
            ||| trim(key).len() <= 8 && forall|i: int|
                0 <= i < trim(key).len() ==> #[trigger] trim(key)[i] == '*'
            ||| trim(key).len() == 9 && trim(key)[4] == '…'
        },
{
    reveal_strlit("********");
    reveal_strlit("…");
    let k = trim(key);
    let shown = redacted_key(key);
    if k.len() <= 8 {
        if contains(shown, k) {
            let i = choose|i: int| matches_at(shown, k, i);
            assert forall|j: int| 0 <= j < k.len() implies #[trigger] k[j] == '*' by {
                assert(shown.subrange(i, i + k.len())[j] == k[j]);
            }
        }
        if forall|i: int| 0 <= i < k.len() ==> #[trigger] k[i] == '*' {
            assert(shown.subrange(0, k.len() as int) =~= k);
            assert(matches_at(shown, k, 0));
        }
    } else {
        assert(shown[4] == '…');
        if k.len() == 9 && k[4] == '…' {
            assert(shown =~= k);
            assert(shown.subrange(0, 9) =~= k);
            assert(matches_at(shown, k, 0));
        }
        if contains(shown, k) {
            let i = choose|i: int| matches_at(shown, k, i);
            assert(i == 0 && k.len() == 9);
            assert(shown.subrange(0, 9) =~= shown);
        }
    }
}

// ---------------------------------------------------------------------------
// Writing a key into a configuration

/// Whether a model is one of those that get the key even where the
/// configuration does not name them.
pub open spec fn is_default_model(id: Seq<char>) -> bool {
    id == "deepseek-v4-pro"@ || id == "deepseek-v4-flash"@
}

/// The configuration of a model with the key, and with defaults for what is
/// missing.
pub open spec fn filled_model(
    model: Map<Seq<char>, Toml>,
    key: Seq<char>,
    base_url: Seq<char>,
) -> Map<Seq<char>, Toml> {
    let a = model.insert("api_key"@, Toml::Text(key));
    let b = if text_under(a, "base_url"@) is Some {
        a
    } else {
        a.insert("base_url"@, Toml::Text(base_url))
    };
    let c = if text_under(b, "api_backend"@) is Some {
        b
    } else {
        b.insert("api_backend"@, Toml::Text("chat_completions"@))
    };
    if c.contains_key("context_window"@) && c["context_window"@] is Integer {
        c
    } else {
        c.insert("context_window"@, Toml::Integer(1000000))
    }
}

/// What stands under a key as a table; an empty one where nothing does.
pub open spec fn table_or_empty(entries: Map<Seq<char>, Toml>, key: Seq<char>) -> Map<
    Seq<char>,
    Toml,
> {
    match table_under(entries, key) {
        Some(inner) => inner,
        None => no_entries(),
    }
}

/// A model table of either kind with the key; anything else as it is.
pub open spec fn filled_entry(item: Toml, key: Seq<char>, base_url: Seq<char>) -> Toml {
    if item.is_tabular() {
        item.holding(filled_model(item.contents(), key, base_url))
    } else {
        item
    }
}

/// Every model table, and every default model, with the key.
pub open spec fn filled_models(
    models: Map<Seq<char>, Toml>,
    key: Seq<char>,
    base_url: Seq<char>,
) -> Map<Seq<char>, Toml> {
    Map::new(
        |id: Seq<char>| models.contains_key(id) || is_default_model(id),
        |id: Seq<char>|
            if models.contains_key(id) {
                filled_entry(models[id], key, base_url)
            } else {
                Toml::Table(filled_model(no_entries(), key, base_url))
            },
    )
}

/// A configuration that prefers the key over other ways to log in, unless what
/// stands in the place for that is no table.
pub open spec fn with_preferred_method(entries: Map<Seq<char>, Toml>) -> Map<Seq<char>, Toml> {
    let auth = if entries.contains_key("auth"@) {
        entries["auth"@]
    } else {
        Toml::Table(no_entries())
    };
    if auth.is_tabular() {
        entries.insert(
            "auth"@,
            auth.holding(auth.contents().insert("preferred_method"@, Toml::Text("api_key"@))),
        )
    } else {
        entries
    }
}

/// The first steps of a save: the key at the top and the preferred method.
pub open spec fn with_top_level_key(entries: Map<Seq<char>, Toml>, key: Seq<char>) -> Map<
    Seq<char>,
    Toml,
> {
    with_preferred_method(entries.insert("api_key"@, Toml::Text(key)))
}

/// A configuration with the key saved in it.
pub open spec fn with_saved_key(
    entries: Map<Seq<char>, Toml>,
    key: Seq<char>,
    base_url: Seq<char>,
) -> Map<Seq<char>, Toml> {
    let a = with_top_level_key(entries, key);
    a.insert("model"@, Toml::Table(filled_models(table_or_empty(a, "model"@), key, base_url)))
}

/// A default model whose entry is something else than a table of its own.
pub open spec fn is_misplaced(models: Map<Seq<char>, Toml>, id: Seq<char>) -> bool {
    is_default_model(id) && models.contains_key(id) && !(models[id] is Table)
}

/// The first default model that is misplaced.
pub open spec fn misplaced_model(models: Map<Seq<char>, Toml>) -> Option<Seq<char>> {
    if is_misplaced(models, "deepseek-v4-pro"@) {
        Some("deepseek-v4-pro"@)
    } else if is_misplaced(models, "deepseek-v4-flash"@) {
        Some("deepseek-v4-flash"@)
    } else {
        None
    }
}

/// Whether the configuration has no place for the models of a key.
pub open spec fn model_is_no_table(entries: Map<Seq<char>, Toml>, key: Seq<char>) -> bool {
    let a = with_top_level_key(entries, key);
    a.contains_key("model"@) && !(a["model"@] is Table)
}

/// The default model that keeps a key from being saved, if one does.
pub open spec fn obstacle(entries: Map<Seq<char>, Toml>, key: Seq<char>) -> Option<Seq<char>> {
    misplaced_model(table_or_empty(with_top_level_key(entries, key), "model"@))
}

fn fill_model(model: &mut toml_edit::Item, key: &str, base_url: &str)
    requires
        item_held(*old(model)).is_tabular(),
    ensures
        item_held(*final(model)) == filled_entry(item_held(*old(model)), key@, base_url@),
{
    put_text(model, "api_key", key);
    if !has_text(model, "base_url") {
        put_text(model, "base_url", base_url);
    }
    if !has_text(model, "api_backend") {
        put_text(model, "api_backend", "chat_completions");
    }
    if !has_integer(model, "context_window") {
        put_integer(model, "context_window", 1000000);
    }
}

fn is_default_model_of(id: &str) -> (r: bool)
    ensures
        r == is_default_model(id@),
{
    same_str(id, "deepseek-v4-pro") || same_str(id, "deepseek-v4-flash")
}

/// An entry that gets the key as it stands.
spec fn takes_key(models: Map<Seq<char>, Toml>, id: Seq<char>) -> bool {
    models.contains_key(id) && models[id].is_tabular() && !is_misplaced(models, id)
}

fn takes_key_of(models: &toml_edit::Item, id: &str) -> (r: bool)
    ensures
        r == takes_key(item_held(*models).contents(), id@),
{
    match item_under(models, id) {
        Some(item) => is_table(item) || (is_table_like(item) && !is_default_model_of(id)),
        None => false,
    }
}

/// Every model table by name, and behind them the default models that are not
/// among them.
fn models_to_fill(models: &toml_edit::Item) -> (r: Vec<String>)
    requires
        item_held(*models).is_tabular(),
    ensures
        strings(r@).no_duplicates(),
        forall|id: Seq<char>| #[trigger]
            strings(r@).contains(id) <==> is_default_model(id) || takes_key(
                item_held(*models).contents(),
                id,
            ),
        misplaced_model(item_held(*models).contents()) is Some ==> ({
            let id = misplaced_model(item_held(*models).contents())->0;
            exists|k: int|
                0 <= k < r@.len() && #[trigger] strings(r@)[k] == id && forall|j: int|
                    0 <= j < k ==> !is_misplaced(
                        item_held(*models).contents(),
                        #[trigger] strings(r@)[j],
                    )
        }),
{
    let ghost m = item_held(*models).contents();
    let names = item_names(models);
    let ghost ns = strings(names@);
    let mut ids: Vec<String> = Vec::new();
    let mut i: usize = 0;
    proof {
        assert(strings(ids@) =~= seq![]);
    }
    while i < names.len()
        invariant
            i <= names@.len(),
            ns == strings(names@),
            m == item_held(*models).contents(),
            ns.no_duplicates(),
            forall|id: Seq<char>| #[trigger] ns.contains(id) <==> m.contains_key(id),
            strings(ids@).no_duplicates(),
            forall|k: int|
                0 <= k < ids@.len() ==> {
                    &&& takes_key(m, #[trigger] strings(ids@)[k])
                    &&& exists|j: int| 0 <= j < i && ns[j] == strings(ids@)[k]
                },
            forall|j: int|
                0 <= j < i && takes_key(m, #[trigger] ns[j]) ==> strings(ids@).contains(ns[j]),
        decreases names@.len() - i,
    {
        proof {
            assert(ns[i as int] == names@[i as int]@);
            assert(ns.contains(ns[i as int]));
        }
        if takes_key_of(models, names[i].as_str()) {
            let id = names[i].clone();
            let ghost before = strings(ids@);
            proof {
                lemma_strings_push(ids@, id);
                if before.contains(id@) {
                    let k = choose|k: int| 0 <= k < before.len() && before[k] == id@;
                    assert(exists|j: int| 0 <= j < i && ns[j] == strings(ids@)[k]);
                    let j = choose|j: int| 0 <= j < i && ns[j] == strings(ids@)[k];
                    assert(ns[j] == ns[i as int]);
                }
            }
            ids.push(id);
            proof {
                let now = strings(ids@);
                assert(now == before.push(id@));
                assert(now[before.len() as int] == id@);
                assert forall|k: int| 0 <= k < ids@.len() implies {
                    &&& takes_key(m, #[trigger] strings(ids@)[k])
                    &&& exists|j: int| 0 <= j < i + 1 && ns[j] == strings(ids@)[k]
                } by {
                    if k < before.len() {
                        assert(before[k] == now[k]);
                        let j = choose|j: int| 0 <= j < i && ns[j] == before[k];
                        assert(ns[j] == now[k]);
                    } else {
                        assert(ns[i as int] == now[k]);
                    }
                }
                assert forall|j: int| 0 <= j < i + 1 && takes_key(
                    m,
                    #[trigger] ns[j],
                ) implies strings(ids@).contains(ns[j]) by {
                    if j < i {
                        let k = choose|k: int| 0 <= k < before.len() && before[k] == ns[j];
                        assert(now[k] == ns[j]);
                    } else {
                        assert(now[before.len() as int] == ns[j]);
                    }
                }
            }
        }
        i += 1;
    }
    let ghost tables = strings(ids@);
    proof {
        assert forall|id: Seq<char>| #[trigger] tables.contains(id) <==> takes_key(m, id) by {
            if tables.contains(id) {
                let k = choose|k: int| 0 <= k < tables.len() && tables[k] == id;
                assert(takes_key(m, tables[k]));
            }
            if takes_key(m, id) {
                assert(ns.contains(id));
                let j = choose|j: int| 0 <= j < ns.len() && ns[j] == id;
                assert(strings(ids@).contains(ns[j]));
            }
        }
    }
    push_if_absent(&mut ids, "deepseek-v4-pro");
    let ghost with_pro = strings(ids@);
    push_if_absent(&mut ids, "deepseek-v4-flash");
    let ghost all = strings(ids@);
    proof {
        let pro = "deepseek-v4-pro"@;
        let flash = "deepseek-v4-flash"@;
        if misplaced_model(m) is Some {
            let id = misplaced_model(m)->0;
            if id == pro {
                assert(!tables.contains(pro));
                let k = tables.len() as int;
                assert(with_pro == tables.push(pro));
                assert(with_pro[k] == pro);
                assert(all[k] == with_pro[k]);
                assert forall|j: int| 0 <= j < k implies !is_misplaced(m, #[trigger] all[j]) by {
                    assert(all[j] == with_pro[j]);
                    assert(with_pro[j] == tables[j]);
                    assert(tables.contains(tables[j]));
                }
            } else {
                assert(!tables.contains(flash));
                lemma_default_models_differ();
                let k = with_pro.len() as int;
                assert(!with_pro.contains(flash)) by {
                    if with_pro.contains(flash) {
                        let q = choose|q: int| 0 <= q < with_pro.len() && with_pro[q] == flash;
                        if q < tables.len() {
                            assert(tables[q] == flash);
                        }
                    }
                }
                assert(all == with_pro.push(flash));
                assert(all[k] == flash);
                assert forall|j: int| 0 <= j < k implies !is_misplaced(m, #[trigger] all[j]) by {
                    assert(all[j] == with_pro[j]);
                    if j < tables.len() {
                        assert(with_pro[j] == tables[j]);
                        assert(tables.contains(tables[j]));
                    } else {
                        assert(with_pro[j] == pro);
                    }
                }
            }
        }
        assert forall|id: Seq<char>| #[trigger] all.contains(id) <==> is_default_model(id)
            || takes_key(m, id) by {
            if all.contains(id) {
                let k = choose|k: int| 0 <= k < all.len() && all[k] == id;
                if k < with_pro.len() {
                    assert(with_pro[k] == id);
                    if k < tables.len() {
                        assert(tables[k] == id);
                        assert(tables.contains(id));
                    }
                }
            }
            if tables.contains(id) {
                let k = choose|k: int| 0 <= k < tables.len() && tables[k] == id;
                assert(with_pro[k] == id);
                assert(all[k] == id);
            }
            if id == pro {
                assert(with_pro.contains(pro));
                let k = choose|k: int| 0 <= k < with_pro.len() && with_pro[k] == pro;
                assert(all[k] == pro);
            }
            if id == flash {
                assert(all.contains(flash));
            }
        }
    }
    ids
}

proof fn lemma_default_models_differ()
    ensures
        "deepseek-v4-pro"@ != "deepseek-v4-flash"@,
{
    reveal_strlit("deepseek-v4-pro");
    reveal_strlit("deepseek-v4-flash");
    assert("deepseek-v4-pro"@.len() == 15);
    assert("deepseek-v4-flash"@.len() == 17);
}

fn push_if_absent(ids: &mut Vec<String>, id: &str)
    requires
        strings(old(ids)@).no_duplicates(),
    ensures
        strings(final(ids)@).no_duplicates(),
        strings(final(ids)@) == (if strings(old(ids)@).contains(id@) {
            strings(old(ids)@)
        } else {
            strings(old(ids)@).push(id@)
        }),
        strings(final(ids)@).contains(id@),
{
    let ghost all = strings(ids@);
    let mut i: usize = 0;
    while i < ids.len()
        invariant
            i <= ids@.len(),
            ids@ == old(ids)@,
            all == strings(ids@),
            all.no_duplicates(),
            forall|k: int| 0 <= k < i ==> #[trigger] all[k] != id@,
        decreases ids@.len() - i,
    {
        proof {
            assert(all[i as int] == ids@[i as int]@);
        }
        if same_str(ids[i].as_str(), id) {
            proof {
                assert(all.contains(id@));
            }
            return ;
        }
        i += 1;
    }
    let owned = id.to_owned();
    proof {
        lemma_strings_push(ids@, owned);
        assert(!all.contains(id@));
        assert(all.push(id@)[all.len() as int] == id@);
    }
    ids.push(owned);
}

/// The models of which the first `n` have been filled.
spec fn partly_filled(
    models: Map<Seq<char>, Toml>,
    ids: Seq<Seq<char>>,
    n: int,
    key: Seq<char>,
    base_url: Seq<char>,
) -> Map<Seq<char>, Toml> {
    Map::new(
        |id: Seq<char>| models.contains_key(id) || ids.take(n).contains(id),
        |id: Seq<char>|
            if !ids.take(n).contains(id) {
                models[id]
            } else if models.contains_key(id) {
                filled_entry(models[id], key, base_url)
            } else {
                Toml::Table(filled_model(no_entries(), key, base_url))
            },
    )
}

fn fill_models(models: &mut toml_edit::Item, key: &str, base_url: &str) -> (r: Result<
    (),
    ApiKeyError,
>)
    requires
        item_held(*old(models)) is Table,
    ensures
        match misplaced_model(item_held(*old(models)).contents()) {
            Some(id) => r is Err && r->Err_0 is ModelEntryIsNoTable && r->Err_0->id@ == id,
            None => r is Ok && item_held(*final(models)) == Toml::Table(
                filled_models(item_held(*old(models)).contents(), key@, base_url@),
            ),
        },
{
    let ghost m = item_held(*models).contents();
    let ids = models_to_fill(models);
    let ghost all = strings(ids@);
    let mut i: usize = 0;
    proof {
        assert(partly_filled(m, all, 0, key@, base_url@) =~= m);
    }
    while i < ids.len()
        invariant
            i <= ids@.len(),
            all == strings(ids@),
            m == item_held(*old(models)).contents(),
            all.no_duplicates(),
            forall|id: Seq<char>| #[trigger]
                all.contains(id) <==> is_default_model(id) || takes_key(m, id),
            misplaced_model(m) is Some ==> exists|k: int|
                i <= k < all.len() && #[trigger] all[k] == misplaced_model(m)->0 && forall|j: int|
                    0 <= j < k ==> !is_misplaced(m, #[trigger] all[j]),
            item_held(*models) == Toml::Table(partly_filled(m, all, i as int, key@, base_url@)),
        decreases ids@.len() - i,
    {
        let id = ids[i].as_str();
        let ghost x = all[i as int];
        let ghost before = partly_filled(m, all, i as int, key@, base_url@);
        proof {
            assert(x == id@);
            assert(all.contains(x));
            assert(!all.take(i as int).contains(x)) by {
                if all.take(i as int).contains(x) {
                    let k = choose|k: int|
                        0 <= k < all.take(i as int).len() && all.take(i as int)[k] == x;
                    assert(all[k] == all[i as int]);
                }
            }
        }
        if !has_item(models, id) {
            put_table(models, id);
        }
        let ghost entry = if m.contains_key(x) {
            m[x]
        } else {
            Toml::Table(no_entries())
        };
        let default_model = is_default_model_of(id);
        match item_under_mut(models, id) {
            Some(model) => {
                if default_model && !is_table(model) {
                    proof {
                        assert(is_misplaced(m, x));
                        assert(misplaced_model(m) is Some);
                        let k = choose|k: int|
                            i <= k < all.len() && #[trigger] all[k] == misplaced_model(m)->0
                                && forall|j: int|
                                0 <= j < k ==> !is_misplaced(m, #[trigger] all[j]);
                        if k > i {
                            assert(!is_misplaced(m, all[i as int]));
                        }
                    }
                    return Err(ApiKeyError::ModelEntryIsNoTable { id: id.to_owned() });
                }
                fill_model(model, key, base_url);
            },
            None => {},
        }
        proof {
            let after = partly_filled(m, all, i + 1, key@, base_url@);
            let step = before.insert(x, filled_entry(entry, key@, base_url@));
            assert forall|y: Seq<char>| all.take(i + 1).contains(y) <==> all.take(
                i as int,
            ).contains(y) || y == x by {
                let wide = all.take(i + 1);
                let narrow = all.take(i as int);
                if wide.contains(y) {
                    let k = choose|k: int| 0 <= k < wide.len() && wide[k] == y;
                    if k < i {
                        assert(narrow[k] == y);
                    }
                }
                if narrow.contains(y) {
                    let k = choose|k: int| 0 <= k < narrow.len() && narrow[k] == y;
                    assert(wide[k] == y);
                }
                assert(wide[i as int] == x);
            }
            assert(after =~= step);
            assert(item_held(*models).contents() =~= step);
            if misplaced_model(m) is Some {
                let k = choose|k: int|
                    i <= k < all.len() && #[trigger] all[k] == misplaced_model(m)->0 && forall|
                        j: int,
                    |
                        0 <= j < k ==> !is_misplaced(m, #[trigger] all[j]);
                assert(k != i);
            }
        }
        i += 1;
    }
    proof {
        assert(all.take(all.len() as int) =~= all);
        assert(partly_filled(m, all, all.len() as int, key@, base_url@) =~= filled_models(
            m,
            key@,
            base_url@,
        )) by {
            assert forall|id: Seq<char>| m.contains_key(id) && !all.contains(id) implies m[id]
                == filled_entry(m[id], key@, base_url@) by {
                assert(!takes_key(m, id));
            }
        }
    }
    Ok(())
}

/// Saves a key in a document: at the top, for every model, and as the preferred
/// method.
pub(crate) fn save_key_in_document(config: &mut ConfigDocument, key: &str, base_url: &str) -> (r:
    Result<(), ApiKeyError>)
    requires
        document_held(old(config).doc) is Table,
    ensures
        ({
            let entries = document_held(old(config).doc).contents();
            if model_is_no_table(entries, key@) {
                r is Err && r->Err_0 is ModelIsNoTable
            } else {
                match obstacle(entries, key@) {
                    Some(id) => r is Err && r->Err_0 is ModelEntryIsNoTable && r->Err_0->id@ == id,
                    None => r is Ok && document_held(final(config).doc) == Toml::Table(
                        with_saved_key(entries, key@, base_url@),
                    ),
                }
            }
        }),
{
    let ghost entries = document_held(config.doc).contents();
    let root = root_mut(config);
    put_text(root, "api_key", key);
    if !has_item(root, "auth") {
        put_table(root, "auth");
    }
    match item_under_mut(root, "auth") {
        Some(auth) => {
            if is_table_like(auth) {
                put_text(auth, "preferred_method", "api_key");
            }
        },
        None => {},
    }
    proof {
        assert(item_held(*root).contents() =~= with_top_level_key(entries, key@));
    }
    if !has_item(root, "model") {
        put_table(root, "model");
    }
    match item_under_mut(root, "model") {
        Some(models) => {
            if !is_table(models) {
                return Err(ApiKeyError::ModelIsNoTable);
            }
            if let Err(error) = fill_models(models, key, base_url) {
                return Err(error);
            }
        },
        None => {
            return Err(ApiKeyError::ModelIsNoTable);
        },
    }
    proof {
        assert(item_held(*root).contents() =~= with_saved_key(entries, key@, base_url@));
    }
    Ok(())
}

/// The entries of a configuration that was read, where it is a table.
pub open spec fn entries_read(held: Option<Toml>) -> Option<Map<Seq<char>, Toml>> {
    match held {
        Some(Toml::Table(entries)) => Some(entries),
        _ => None,
    }
}

/// The entries that a configuration text spells, where it can be read.
pub open spec fn config_read(text: Seq<char>) -> Option<Map<Seq<char>, Toml>> {
    entries_read(config_spelled(text))
}

/// Whether a text that can be read says what the entries say. It reads as a
/// table wherever it is accepted, unless the entries hold the mark of a date.
pub open spec fn reads_as(text: Seq<char>, entries: Map<Seq<char>, Toml>) -> bool {
    &&& config_spelled(text) is Some && !entries.contains_key(DATE_MARK@) ==> config_read(
        text,
    ) is Some
    &&& config_read(text) is Some ==> agrees(config_read(text)->0, entries)
}

/// Where a save starts from: what the configuration spells, and nothing where it
/// is blank.
pub open spec fn config_start(existing: Seq<char>) -> Result<Map<Seq<char>, Toml>, Seq<char>> {
    if is_blank(existing) {
        Ok(no_entries())
    } else {
        document_spelled(existing)
    }
}

/// Whether a text is how a document with these entries is written.
pub open spec fn spells(text: Seq<char>, entries: Map<Seq<char>, Toml>) -> bool {
    exists|doc: toml_edit::DocumentMut|
        #![trigger document_spelling(doc)]
        document_held(doc) == Toml::Table(entries) && document_spelling(doc) == text
}

/// The new text of a configuration with the key saved in it.
pub fn write_api_key_to_config(existing: &str, key: &str, path: &str, base_url: &str) -> (r: Result<
    String,
    ApiKeyError,
>)
    ensures
        match config_start(existing@) {
            Err(message) => r is Err && r->Err_0 is InvalidConfig
                && r->Err_0->InvalidConfig_message@ == message && r->Err_0->path@ == path@,
            Ok(entries) => if model_is_no_table(entries, key@) {
                r is Err && r->Err_0 is ModelIsNoTable
            } else {
                match obstacle(entries, key@) {
                    Some(id) => r is Err && r->Err_0 is ModelEntryIsNoTable && r->Err_0->id@ == id,
                    None => {
                        &&& r is Ok
                        &&& spells(r->Ok_0@, with_saved_key(entries, key@, base_url@))
                        &&& reads_as(r->Ok_0@, with_saved_key(entries, key@, base_url@))
                    },
                }
            },
        },
{
    let mut config = if blank(existing) {
        new_document()
    } else {
        match parse_document(existing) {
            Ok(config) => config,
            Err(message) => {
                return Err(ApiKeyError::InvalidConfig { message, path: path.to_owned() });
            },
        }
    };
    if let Err(error) = save_key_in_document(&mut config, key, base_url) {
        return Err(error);
    }
    let text = document_text(&config);
    proof {
        assert(document_spelling(config.doc) == text@);
    }
    Ok(text)
}

/// A saved key stands at the top of the configuration, in every model table of
/// either kind and for every default model, and it is the preferred method.
pub proof fn law_saved_key_stands_everywhere(
    entries: Map<Seq<char>, Toml>,
    key: Seq<char>,
    base_url: Seq<char>,
)
    requires
        !model_is_no_table(entries, key),
        obstacle(entries, key) is None,
    ensures
        text_under(with_saved_key(entries, key, base_url), "api_key"@) == Some(key),
        contents_under(with_saved_key(entries, key, base_url), "auth"@) is Some ==> text_under(
            contents_under(with_saved_key(entries, key, base_url), "auth"@)->0,
            "preferred_method"@,
        ) == Some("api_key"@),
        forall|id: Seq<char>|
            is_default_model(id) ==> (#[trigger] contents_at(
                with_saved_key(entries, key, base_url),
                "model"@,
                id,
            )) is Some,
        forall|id: Seq<char>|
            (#[trigger] contents_at(with_saved_key(entries, key, base_url), "model"@, id)) is Some
                ==> text_under(
                contents_at(with_saved_key(entries, key, base_url), "model"@, id)->0,
                "api_key"@,
            ) == Some(key),
{
    reveal_strlit("api_key");
    reveal_strlit("auth");
    reveal_strlit("model");
    reveal_strlit("base_url");
    reveal_strlit("api_backend");
    reveal_strlit("context_window");
    assert("api_key"@.len() == 7);
    assert("auth"@.len() == 4);
    assert("model"@.len() == 5);
    assert("base_url"@.len() == 8);
    assert("api_backend"@.len() == 11);
    assert("context_window"@.len() == 14);
    let a = with_top_level_key(entries, key);
    let models = table_or_empty(a, "model"@);
    let saved = with_saved_key(entries, key, base_url);
    let filled = filled_models(models, key, base_url);
    assert(contents_under(saved, "model"@) == Some(filled));
    assert(contents_under(saved, "auth"@) == contents_under(a, "auth"@));
    assert forall|id: Seq<char>| is_default_model(id) implies (#[trigger] contents_at(
        saved,
        "model"@,
        id,
    )) is Some by {
        if models.contains_key(id) {
            assert(!is_misplaced(models, id));
        }
    }
}

/// Saving a key leaves alone what the user configured. Of a model table, of either
/// kind, everything stays but the key: a text under `base_url` and under
/// `api_backend`, an integer under `context_window`, and whatever stands under any
/// other name. What is missing of those three is filled in, and nothing else is
/// added.
pub proof fn law_save_keeps_what_a_model_says(
    entries: Map<Seq<char>, Toml>,
    key: Seq<char>,
    base_url: Seq<char>,
    id: Seq<char>,
    name: Seq<char>,
)
    requires
        !model_is_no_table(entries, key),
        obstacle(entries, key) is None,
        contents_at(entries, "model"@, id) is Some,
    ensures
        contents_at(with_saved_key(entries, key, base_url), "model"@, id) is Some,
        ({
            let before = contents_at(entries, "model"@, id)->0;
            let after = contents_at(with_saved_key(entries, key, base_url), "model"@, id)->0;
            &&& name != "api_key"@ && name != "base_url"@ && name != "api_backend"@ && name
                != "context_window"@ ==> (after.contains_key(name) <==> before.contains_key(name))
            &&& name != "api_key"@ && name != "base_url"@ && name != "api_backend"@ && name
                != "context_window"@ && before.contains_key(name) ==> after[name] == before[name]
            &&& after.contains_key("api_key"@) && after["api_key"@] == Toml::Text(key)
            &&& after.contains_key("base_url"@) && after["base_url"@] == (if before.contains_key(
                "base_url"@,
            ) && before["base_url"@] is Text {
                before["base_url"@]
            } else {
                Toml::Text(base_url)
            })
            &&& after.contains_key("api_backend"@) && after["api_backend"@] == (
            if before.contains_key("api_backend"@) && before["api_backend"@] is Text {
                before["api_backend"@]
            } else {
                Toml::Text("chat_completions"@)
            })
            &&& after.contains_key("context_window"@) && after["context_window"@] == (
            if before.contains_key("context_window"@) && before["context_window"@] is Integer {
                before["context_window"@]
            } else {
                Toml::Integer(1000000)
            })
        }),
        with_saved_key(entries, key, base_url)["model"@].contents()[id] is Inline
            <==> entries["model"@].contents()[id] is Inline,
{
    lemma_saved_names_differ();
    let a = with_top_level_key(entries, key);
    assert(a.contains_key("model"@) && a["model"@] == entries["model"@]);
    let models = table_or_empty(a, "model"@);
    assert(models == entries["model"@].contents());
    assert(models.contains_key(id));
}

proof fn lemma_saved_names_differ()
    ensures
        "api_key"@ != "base_url"@,
        "api_key"@ != "api_backend"@,
        "api_key"@ != "context_window"@,
        "api_key"@ != "auth"@,
        "api_key"@ != "model"@,
        "auth"@ != "model"@,
        "base_url"@ != "api_backend"@,
        "base_url"@ != "context_window"@,
        "api_backend"@ != "context_window"@,
{
    reveal_strlit("api_key");
    reveal_strlit("auth");
    reveal_strlit("model");
    reveal_strlit("base_url");
    reveal_strlit("api_backend");
    reveal_strlit("context_window");
    assert("api_key"@.len() == 7);
    assert("auth"@.len() == 4);
    assert("model"@.len() == 5);
    assert("base_url"@.len() == 8);
    assert("api_backend"@.len() == 11);
    assert("context_window"@.len() == 14);
}

/// A default model that the configuration does not name gets a table with the key,
/// the base URL, the backend and the context window, and nothing else. No other
/// model is added, and an entry of the models that is no table stays as it is.
pub proof fn law_save_adds_the_default_models_alone(
    entries: Map<Seq<char>, Toml>,
    key: Seq<char>,
    base_url: Seq<char>,
    id: Seq<char>,
)
    requires
        !model_is_no_table(entries, key),
        obstacle(entries, key) is None,
    ensures
        ({
            let before = contents_under(entries, "model"@);
            let after = contents_under(with_saved_key(entries, key, base_url), "model"@);
            let named = before is Some && before->0.contains_key(id);
            &&& after is Some
            &&& after->0.contains_key(id) <==> named || id == "deepseek-v4-pro"@ || id
                == "deepseek-v4-flash"@
            &&& named && !before->0[id].is_tabular() ==> after->0[id] == before->0[id]
            &&& !named && (id == "deepseek-v4-pro"@ || id == "deepseek-v4-flash"@)
                ==> after->0[id] == Toml::Table(
                Map::<Seq<char>, Toml>::empty().insert("api_key"@, Toml::Text(key)).insert(
                    "base_url"@,
                    Toml::Text(base_url),
                ).insert("api_backend"@, Toml::Text("chat_completions"@)).insert(
                    "context_window"@,
                    Toml::Integer(1000000),
                ),
            )
        }),
{
    lemma_saved_names_differ();
    let a = with_top_level_key(entries, key);
    assert(a.contains_key("model"@) <==> entries.contains_key("model"@));
    if entries.contains_key("model"@) {
        assert(a["model"@] == entries["model"@]);
    }
}

/// Outside the key, the preferred method and the models, a save changes nothing;
/// of a table about logging in, of either kind, it changes the preferred method
/// alone, and where something else stands in its place that stays.
pub proof fn law_save_leaves_the_rest_alone(
    entries: Map<Seq<char>, Toml>,
    key: Seq<char>,
    base_url: Seq<char>,
    name: Seq<char>,
)
    ensures
        name != "api_key"@ && name != "auth"@ && name != "model"@ ==> (with_saved_key(
            entries,
            key,
            base_url,
        ).contains_key(name) <==> entries.contains_key(name)),
        name != "api_key"@ && name != "auth"@ && name != "model"@ && entries.contains_key(name)
            ==> with_saved_key(entries, key, base_url)[name] == entries[name],
        entries.contains_key("auth"@) && !entries["auth"@].is_tabular() ==> with_saved_key(
            entries,
            key,
            base_url,
        )["auth"@] == entries["auth"@],
        !entries.contains_key("auth"@) ==> with_saved_key(entries, key, base_url)["auth"@]
            == Toml::Table(
            Map::<Seq<char>, Toml>::empty().insert("preferred_method"@, Toml::Text("api_key"@)),
        ),
        contents_under(entries, "auth"@) is Some ==> {
            let before = entries["auth"@];
            let after = with_saved_key(entries, key, base_url)["auth"@];
            &&& before is Inline <==> after is Inline
            &&& after.is_tabular()
            &&& after.contents() == before.contents().insert(
                "preferred_method"@,
                Toml::Text("api_key"@),
            )
        },
{
    lemma_saved_names_differ();
}

/// A save is refused exactly where `model` is there and is no table of its own, or
/// where one of the two default models is there and is no table of its own; the
/// first of them is named.
pub proof fn law_save_is_refused_only_where_a_model_has_no_place(
    entries: Map<Seq<char>, Toml>,
    key: Seq<char>,
)
    ensures
        model_is_no_table(entries, key) <==> entries.contains_key("model"@)
            && !(entries["model"@] is Table),
        table_under(entries, "model"@) is None ==> obstacle(entries, key) is None,
        table_under(entries, "model"@) is Some ==> {
            let models = table_under(entries, "model"@)->0;
            let pro = models.contains_key("deepseek-v4-pro"@)
                && !(models["deepseek-v4-pro"@] is Table);
            let flash = models.contains_key("deepseek-v4-flash"@)
                && !(models["deepseek-v4-flash"@] is Table);
            &&& pro ==> obstacle(entries, key) == Some("deepseek-v4-pro"@)
            &&& !pro && flash ==> obstacle(entries, key) == Some("deepseek-v4-flash"@)
            &&& !pro && !flash ==> obstacle(entries, key) is None
        },
{
    lemma_saved_names_differ();
    let a = with_top_level_key(entries, key);
    assert(a.contains_key("model"@) <==> entries.contains_key("model"@));
    if entries.contains_key("model"@) {
        assert(a["model"@] == entries["model"@]);
    }
}

/// Saving a second key replaces the first one and nothing else: what stands in
/// the configuration is what one save of the second key would have left, with the
/// base URL of the first save.
pub proof fn law_second_save_replaces_the_key(
    entries: Map<Seq<char>, Toml>,
    first: Seq<char>,
    second: Seq<char>,
    base_url: Seq<char>,
    other_url: Seq<char>,
)
    requires
        !model_is_no_table(entries, first),
        obstacle(entries, first) is None,
    ensures
        with_saved_key(with_saved_key(entries, first, base_url), second, other_url)
            == with_saved_key(entries, second, base_url),
{
    lemma_saved_names_differ();
    law_save_is_refused_only_where_a_model_has_no_place(entries, first);
    let once = with_saved_key(entries, first, base_url);
    let twice = with_saved_key(once, second, other_url);
    let direct = with_saved_key(entries, second, base_url);
    let models = table_or_empty(with_top_level_key(entries, first), "model"@);
    assert(models == table_or_empty(with_top_level_key(entries, second), "model"@));
    let filled = filled_models(models, first, base_url);
    assert(table_or_empty(with_top_level_key(once, second), "model"@) == filled);
    assert forall|id: Seq<char>| filled.contains_key(id) implies #[trigger] filled_entry(
        filled[id],
        second,
        other_url,
    ) == filled_models(models, second, base_url)[id] by {
        let t = if models.contains_key(id) {
            models[id].contents()
        } else {
            no_entries()
        };
        assert(filled_model(filled_model(t, first, base_url), second, other_url) =~= filled_model(
            t,
            second,
            base_url,
        ));
    }
    assert(filled_models(filled, second, other_url) =~= filled_models(models, second, base_url));
    if contents_under(entries, "auth"@) is Some || !entries.contains_key("auth"@) {
        let old = if entries.contains_key("auth"@) {
            entries["auth"@].contents()
        } else {
            no_entries()
        };
        assert(old.insert("preferred_method"@, Toml::Text("api_key"@)).insert(
            "preferred_method"@,
            Toml::Text("api_key"@),
        ) =~= old.insert("preferred_method"@, Toml::Text("api_key"@)));
    }
    assert(twice =~= direct);
}

// ---------------------------------------------------------------------------
// Clearing a key

/// A model table of either kind without a key; anything else as it is.
pub open spec fn cleared_entry(item: Toml) -> Toml {
    if item.is_tabular() {
        item.holding(item.contents().remove("api_key"@))
    } else {
        item
    }
}

pub open spec fn cleared_models(models: Map<Seq<char>, Toml>) -> Map<Seq<char>, Toml> {
    Map::new(|id: Seq<char>| models.contains_key(id), |id: Seq<char>| cleared_entry(models[id]))
}

pub open spec fn cleared_under(entries: Map<Seq<char>, Toml>, name: Seq<char>) -> Map<
    Seq<char>,
    Toml,
> {
    match contents_under(entries, name) {
        Some(models) => entries.insert(name, entries[name].holding(cleared_models(models))),
        None => entries,
    }
}

/// A configuration without saved keys: neither at the top nor in a model table.
pub open spec fn without_saved_key(entries: Map<Seq<char>, Toml>) -> Map<Seq<char>, Toml> {
    cleared_under(cleared_under(entries.remove("api_key"@), "model"@), "models"@)
}

/// The models of which those among the first `n` names have been cleared.
spec fn partly_cleared(models: Map<Seq<char>, Toml>, names: Seq<Seq<char>>, n: int) -> Map<
    Seq<char>,
    Toml,
> {
    Map::new(
        |id: Seq<char>| models.contains_key(id),
        |id: Seq<char>|
            if names.take(n).contains(id) {
                cleared_entry(models[id])
            } else {
                models[id]
            },
    )
}

fn clear_models(models: &mut toml_edit::Item)
    requires
        item_held(*old(models)).is_tabular(),
    ensures
        item_held(*final(models)) == item_held(*old(models)).holding(
            cleared_models(item_held(*old(models)).contents()),
        ),
{
    let ghost whole = item_held(*models);
    let ghost m = whole.contents();
    let names = item_names(models);
    let ghost all = strings(names@);
    let mut i: usize = 0;
    proof {
        assert(partly_cleared(m, all, 0) =~= m);
    }
    while i < names.len()
        invariant
            i <= names@.len(),
            all == strings(names@),
            whole == item_held(*old(models)),
            whole.is_tabular(),
            m == whole.contents(),
            all.no_duplicates(),
            forall|id: Seq<char>| #[trigger] all.contains(id) <==> m.contains_key(id),
            item_held(*models) == whole.holding(partly_cleared(m, all, i as int)),
        decreases names@.len() - i,
    {
        let id = names[i].as_str();
        let ghost x = all[i as int];
        proof {
            assert(x == id@);
            assert(all.contains(x));
            assert(!all.take(i as int).contains(x)) by {
                if all.take(i as int).contains(x) {
                    let k = choose|k: int|
                        0 <= k < all.take(i as int).len() && all.take(i as int)[k] == x;
                    assert(all[k] == all[i as int]);
                }
            }
        }
        match item_under_mut(models, id) {
            Some(model) => {
                if is_table_like(model) {
                    remove_item(model, "api_key");
                }
            },
            None => {},
        }
        proof {
            assert forall|y: Seq<char>| all.take(i + 1).contains(y) <==> all.take(
                i as int,
            ).contains(y) || y == x by {
                let wide = all.take(i + 1);
                let narrow = all.take(i as int);
                if wide.contains(y) {
                    let k = choose|k: int| 0 <= k < wide.len() && wide[k] == y;
                    if k < i {
                        assert(narrow[k] == y);
                    }
                }
                if narrow.contains(y) {
                    let k = choose|k: int| 0 <= k < narrow.len() && narrow[k] == y;
                    assert(wide[k] == y);
                }
                assert(wide[i as int] == x);
            }
            assert(item_held(*models).contents() =~= partly_cleared(m, all, i + 1));
        }
        i += 1;
    }
    proof {
        assert(all.take(all.len() as int) =~= all);
        assert(partly_cleared(m, all, all.len() as int) =~= cleared_models(m));
    }
}

fn clear_under(root: &mut toml_edit::Item, name: &str)
    requires
        item_held(*old(root)) is Table,
    ensures
        item_held(*final(root)) == Toml::Table(
            cleared_under(item_held(*old(root)).contents(), name@),
        ),
{
    let ghost entries = item_held(*root).contents();
    match item_under_mut(root, name) {
        Some(models) => {
            if is_table_like(models) {
                clear_models(models);
            }
        },
        None => {},
    }
    proof {
        assert(item_held(*root).contents() =~= cleared_under(entries, name@));
    }
}

/// Removes every saved key from a document.
pub(crate) fn clear_key_in_document(config: &mut ConfigDocument)
    requires
        document_held(old(config).doc) is Table,
    ensures
        document_held(final(config).doc) == Toml::Table(
            without_saved_key(document_held(old(config).doc).contents()),
        ),
{
    let root = root_mut(config);
    remove_item(root, "api_key");
    clear_under(root, "model");
    clear_under(root, "models");
}

/// The new text of a configuration without saved keys; none where there is
/// nothing to change.
pub fn clear_api_key_from_config(existing: &str) -> (r: Result<Option<String>, ApiKeyError>)
    ensures
        is_blank(existing@) ==> r is Ok && r->Ok_0 is None,
        !is_blank(existing@) ==> match document_spelled(existing@) {
            Err(message) => r is Err && r->Err_0 is InvalidConfigOnClear
                && r->Err_0->InvalidConfigOnClear_message@ == message,
            Ok(entries) => {
                &&& r is Ok
                &&& r->Ok_0 is Some
                &&& spells(r->Ok_0->0@, without_saved_key(entries))
                &&& reads_as(r->Ok_0->0@, without_saved_key(entries))
            },
        },
{
    if blank(existing) {
        return Ok(None);
    }
    let mut config = match parse_document(existing) {
        Ok(config) => config,
        Err(message) => {
            return Err(ApiKeyError::InvalidConfigOnClear { message });
        },
    };
    clear_key_in_document(&mut config);
    let text = document_text(&config);
    proof {
        assert(document_spelling(config.doc) == text@);
    }
    Ok(Some(text))
}

/// After a clear no key stands at the top nor in a table of either kind under
/// `model` or `models`, and nothing else has changed.
pub proof fn law_cleared_key_is_gone(entries: Map<Seq<char>, Toml>)
    ensures
        !without_saved_key(entries).contains_key("api_key"@),
        forall|id: Seq<char>|
            (#[trigger] contents_at(without_saved_key(entries), "model"@, id)) is Some
                ==> !contents_at(without_saved_key(entries), "model"@, id)->0.contains_key(
                "api_key"@,
            ),
        forall|id: Seq<char>|
            (#[trigger] contents_at(without_saved_key(entries), "models"@, id)) is Some
                ==> !contents_at(without_saved_key(entries), "models"@, id)->0.contains_key(
                "api_key"@,
            ),
        forall|name: Seq<char>|
            name != "api_key"@ && #[trigger] entries.contains_key(name) && ((name != "model"@ && name
                != "models"@) || !entries[name].is_tabular()) ==> without_saved_key(
                entries,
            ).contains_key(name) && without_saved_key(entries)[name] == entries[name],
        forall|id: Seq<char>|
            contents_under(entries, "model"@) is Some && #[trigger] contents_under(
                entries,
                "model"@,
            )->0.contains_key(id) && !contents_under(entries, "model"@)->0[id].is_tabular() ==> {
                &&& contents_under(without_saved_key(entries), "model"@) is Some
                &&& contents_under(without_saved_key(entries), "model"@)->0.contains_key(id)
                &&& contents_under(without_saved_key(entries), "model"@)->0[id] == contents_under(
                    entries,
                    "model"@,
                )->0[id]
            },
        forall|id: Seq<char>|
            contents_under(entries, "models"@) is Some && #[trigger] contents_under(
                entries,
                "models"@,
            )->0.contains_key(id) && !contents_under(entries, "models"@)->0[id].is_tabular() ==> {
                &&& contents_under(without_saved_key(entries), "models"@) is Some
                &&& contents_under(without_saved_key(entries), "models"@)->0.contains_key(id)
                &&& contents_under(without_saved_key(entries), "models"@)->0[id] == contents_under(
                    entries,
                    "models"@,
                )->0[id]
            },
        forall|id: Seq<char>, key: Seq<char>|
            key != "api_key"@ && (#[trigger] contents_at(entries, "model"@, id)) is Some
                && #[trigger] contents_at(entries, "model"@, id)->0.contains_key(key) ==> {
                &&& contents_at(without_saved_key(entries), "model"@, id) is Some
                &&& contents_at(without_saved_key(entries), "model"@, id)->0.contains_key(key)
                &&& contents_at(without_saved_key(entries), "model"@, id)->0[key] == contents_at(
                    entries,
                    "model"@,
                    id,
                )->0[key]
            },
        forall|id: Seq<char>, key: Seq<char>|
            key != "api_key"@ && (#[trigger] contents_at(entries, "models"@, id)) is Some
                && #[trigger] contents_at(entries, "models"@, id)->0.contains_key(key) ==> {
                &&& contents_at(without_saved_key(entries), "models"@, id) is Some
                &&& contents_at(without_saved_key(entries), "models"@, id)->0.contains_key(key)
                &&& contents_at(without_saved_key(entries), "models"@, id)->0[key] == contents_at(
                    entries,
                    "models"@,
                    id,
                )->0[key]
            },
{
    reveal_strlit("api_key");
    reveal_strlit("model");
    reveal_strlit("models");
    assert("api_key"@.len() == 7);
    assert("model"@.len() == 5);
    assert("models"@.len() == 6);
    let a = entries.remove("api_key"@);
    let b = cleared_under(a, "model"@);
    let c = cleared_under(b, "models"@);
    assert(c == without_saved_key(entries));
    assert(contents_under(a, "model"@) == contents_under(entries, "model"@));
    assert(contents_under(b, "models"@) == contents_under(entries, "models"@));
    if contents_under(a, "model"@) is Some {
        assert(contents_under(c, "model"@) == Some(
            cleared_models(contents_under(a, "model"@)->0),
        ));
    } else {
        assert(contents_under(c, "model"@) is None);
    }
    if contents_under(b, "models"@) is Some {
        assert(contents_under(c, "models"@) == Some(
            cleared_models(contents_under(b, "models"@)->0),
        ));
    } else {
        assert(contents_under(c, "models"@) is None);
    }
}

// ---------------------------------------------------------------------------
// Finding a key

/// A stored value as a key, unless it is a placeholder.
pub open spec fn stored_key(value: Option<Seq<char>>) -> Option<Seq<char>> {
    match value {
        Some(text) => if is_placeholder(trim(text)) {
            None
        } else {
            Some(trim(text))
        },
        None => None,
    }
}

/// The key at the top of a configuration.
pub open spec fn top_level_key(config: Option<Map<Seq<char>, Toml>>) -> Option<Seq<char>> {
    match config {
        Some(entries) => stored_key(text_under(entries, "api_key"@)),
        None => None,
    }
}

/// The first key in the tables named from `i` on.
pub open spec fn model_key_from(
    models: Map<Seq<char>, Toml>,
    names: Seq<Seq<char>>,
    i: int,
) -> Option<Seq<char>>
    decreases names.len() - i,
{
    if i < 0 || i >= names.len() {
        None
    } else {
        let key = match table_under(models, names[i]) {
            Some(model) => stored_key(text_under(model, "api_key"@)),
            None => None,
        };
        if key is Some {
            key
        } else {
            model_key_from(models, names, i + 1)
        }
    }
}

/// The names in a table, in order.
pub open spec fn names_in(entries: Map<Seq<char>, Toml>) -> Seq<Seq<char>> {
    choose|names: Seq<Seq<char>>| is_names_of(names, entries)
}

pub open spec fn is_names_of(names: Seq<Seq<char>>, entries: Map<Seq<char>, Toml>) -> bool {
    is_sorted_set(names) && forall|key: Seq<char>| #[trigger]
        names.contains(key) <==> entries.contains_key(key)
}

/// The first key of a model under `name`, by the names of the models.
pub open spec fn key_under(entries: Map<Seq<char>, Toml>, name: Seq<char>) -> Option<Seq<char>> {
    match table_under(entries, name) {
        Some(models) => model_key_from(models, names_in(models), 0),
        None => None,
    }
}

/// The first key of a model: under `model`, or else under `models`.
pub open spec fn first_model_key(entries: Map<Seq<char>, Toml>) -> Option<Seq<char>> {
    if key_under(entries, "model"@) is Some {
        key_under(entries, "model"@)
    } else {
        key_under(entries, "models"@)
    }
}

/// Reads a whole configuration document.
pub fn parse_config_toml(text: &str) -> (r: Option<toml::Value>)
    ensures
        match config_spelled(text@) {
            Some(held) => r is Some && value_held(r->0) == held,
            None => r is None,
        },
{
    parse_config(text)
}

fn stored_key_of(value: &toml::Value, name: &str) -> (r: Option<String>)
    ensures
        opt(r) == (match value_held(*value) {
            Toml::Table(entries) => stored_key(text_under(entries, name@)),
            _ => None,
        }),
{
    match value_under(value, name) {
        Some(item) => {
            match value_text(item) {
                Some(text) => {
                    let key = trim_str(text.as_str());
                    if is_placeholder_api_key(key.as_str()) {
                        None
                    } else {
                        Some(key)
                    }
                },
                None => None,
            }
        },
        None => None,
    }
}

fn key_under_of(root: &toml::Value, name: &str) -> (r: Option<String>)
    ensures
        opt(r) == (match value_held(*root) {
            Toml::Table(entries) => key_under(entries, name@),
            _ => None,
        }),
{
    let models = match value_under(root, name) {
        Some(models) => models,
        None => {
            return None;
        },
    };
    let names = match value_names(models) {
        Some(names) => names,
        None => {
            return None;
        },
    };
    let ghost entries = value_held(*models)->Table_0;
    let ghost all = strings(names@);
    proof {
        assert(is_names_of(all, entries));
        let chosen = names_in(entries);
        assert(is_names_of(chosen, entries));
        assert forall|y: Seq<char>|
            #![trigger all.contains(y)]
            #![trigger chosen.contains(y)]
            all.contains(y) <==> chosen.contains(y) by {
            assert(all.contains(y) <==> entries.contains_key(y));
            assert(chosen.contains(y) <==> entries.contains_key(y));
        }
        lemma_sorted_set_unique(all, chosen);
    }
    let mut i: usize = 0;
    while i < names.len()
        invariant
            i <= names@.len(),
            all == strings(names@),
            all == names_in(entries),
            value_held(*models) == Toml::Table(entries),
            value_held(*root) is Table,
            key_under(value_held(*root)->Table_0, name@) == model_key_from(entries, all, i as int),
        decreases names@.len() - i,
    {
        proof {
            assert(all[i as int] == names@[i as int]@);
        }
        if let Some(model) = value_under(models, names[i].as_str()) {
            let key = stored_key_of(model, "api_key");
            if key.is_some() {
                return key;
            }
        }
        i += 1;
    }
    None
}

/// The first key of a model in a configuration document.
pub fn first_model_api_key_value(root: &toml::Value) -> (r: Option<String>)
    ensures
        opt(r) == (match value_held(*root) {
            Toml::Table(entries) => first_model_key(entries),
            _ => None,
        }),
{
    let first = key_under_of(root, "model");
    if first.is_some() {
        return first;
    }
    key_under_of(root, "models")
}

/// The key at the top of a configuration text.
pub fn read_top_level_api_key_from_config(config: &str) -> (r: Option<String>)
    ensures
        opt(r) == top_level_key(config_read(config@)),
{
    match parse_config_toml(config) {
        Some(root) => stored_key_of(&root, "api_key"),
        None => None,
    }
}

/// The first key of a model in a configuration text.
pub fn read_model_api_key_from_config_only(config: &str) -> (r: Option<String>)
    ensures
        opt(r) == (match config_read(config@) {
            Some(entries) => first_model_key(entries),
            None => None,
        }),
{
    match parse_config_toml(config) {
        Some(root) => first_model_api_key_value(&root),
        None => None,
    }
}

/// What is given, trimmed, unless it is blank.
pub open spec fn present(value: Option<Seq<char>>) -> Option<Seq<char>> {
    match value {
        Some(text) => if is_blank(text) {
            None
        } else {
            Some(trim(text))
        },
        None => None,
    }
}

fn present_of(value: &Option<String>) -> (r: Option<String>)
    ensures
        opt(r) == present(opt(*value)),
{
    match value {
        Some(text) => {
            let t = trim_str(text.as_str());
            if t.as_str().is_empty() {
                None
            } else {
                Some(t)
            }
        },
        None => None,
    }
}

/// What a configuration spells, where it can be read.
pub open spec fn config_of(sources: KeySources) -> Option<Map<Seq<char>, Toml>> {
    match sources.config {
        Some(text) => config_read(text@),
        None => None,
    }
}

/// The key in the files of the user: at the top of the configuration, or else of
/// a model, or else in the credential store.
pub open spec fn filed_key(sources: KeySources) -> (ApiKeyOrigin, Option<Seq<char>>) {
    let config = config_of(sources);
    if top_level_key(config) is Some {
        (ApiKeyOrigin::ConfigTopLevel, top_level_key(config))
    } else if config is Some && first_model_key(config->0) is Some {
        (ApiKeyOrigin::ConfigModel, first_model_key(config->0))
    } else if present(opt(sources.auth_json)) is Some {
        (ApiKeyOrigin::AuthJson, present(opt(sources.auth_json)))
    } else {
        (ApiKeyOrigin::Unset, None)
    }
}

/// The key that is in force, and where it comes from: the environment first.
pub open spec fn key_in_force(sources: KeySources) -> (ApiKeyOrigin, Option<Seq<char>>) {
    if present(opt(sources.env_deepseek)) is Some {
        (ApiKeyOrigin::EnvDeepseek, present(opt(sources.env_deepseek)))
    } else if present(opt(sources.env_ds)) is Some {
        (ApiKeyOrigin::EnvDs, present(opt(sources.env_ds)))
    } else if present(opt(sources.env_legacy)) is Some {
        (ApiKeyOrigin::EnvLegacy, present(opt(sources.env_legacy)))
    } else {
        filed_key(sources)
    }
}

fn find_filed_key(sources: &KeySources) -> (r: (ApiKeyOrigin, Option<String>))
    ensures
        (r.0, opt(r.1)) == filed_key(*sources),
{
    if let Some(config) = &sources.config {
        let top = read_top_level_api_key_from_config(config.as_str());
        if top.is_some() {
            return (ApiKeyOrigin::ConfigTopLevel, top);
        }
        let model = read_model_api_key_from_config_only(config.as_str());
        if model.is_some() {
            return (ApiKeyOrigin::ConfigModel, model);
        }
    }
    let stored = present_of(&sources.auth_json);
    if stored.is_some() {
        return (ApiKeyOrigin::AuthJson, stored);
    }
    (ApiKeyOrigin::Unset, None)
}

pub fn detect_key_origin(sources: &KeySources) -> (r: (ApiKeyOrigin, Option<String>))
    ensures
        (r.0, opt(r.1)) == key_in_force(*sources),
{
    let deepseek = present_of(&sources.env_deepseek);
    if deepseek.is_some() {
        return (ApiKeyOrigin::EnvDeepseek, deepseek);
    }
    let ds = present_of(&sources.env_ds);
    if ds.is_some() {
        return (ApiKeyOrigin::EnvDs, ds);
    }
    let legacy = present_of(&sources.env_legacy);
    if legacy.is_some() {
        return (ApiKeyOrigin::EnvLegacy, legacy);
    }
    find_filed_key(sources)
}

/// The key in the files of the user, whatever the environment says.
pub fn read_api_key_from_config_or_auth_json(sources: &KeySources) -> (r: Option<String>)
    ensures
        opt(r) == filed_key(*sources).1,
{
    find_filed_key(sources).1
}

/// A table with finitely many entries has its names in order.
proof fn lemma_names_in(entries: Map<Seq<char>, Toml>)
    requires
        entries.dom().finite(),
    ensures
        is_names_of(names_in(entries), entries),
{
    let dom = entries.dom();
    let listed = dom.to_seq();
    dom.lemma_to_seq_to_set_id();
    lemma_sorted_set(listed);
    let names = sorted_set(listed);
    assert forall|key: Seq<char>| #[trigger]
        names.contains(key) <==> entries.contains_key(key) by {
        assert(listed.contains(key) <==> listed.to_set().contains(key));
    }
    assert(is_names_of(names, entries));
}

/// The first key is `key` where no table has another one, and some table from
/// `i` on has it.
proof fn lemma_model_key(
    models: Map<Seq<char>, Toml>,
    names: Seq<Seq<char>>,
    key: Seq<char>,
    i: int,
    k: int,
)
    requires
        0 <= i <= k < names.len(),
        forall|j: int|
            0 <= j < names.len() && (#[trigger] table_under(models, names[j])) is Some
                ==> stored_key(text_under(table_under(models, names[j])->0, "api_key"@)) == Some(key),
        table_under(models, names[k]) is Some,
    ensures
        model_key_from(models, names, i) == Some(key),
    decreases k - i,
{
    if table_under(models, names[i]) is None {
        lemma_model_key(models, names, key, i + 1, k);
    }
}

proof fn lemma_no_model_key(models: Map<Seq<char>, Toml>, names: Seq<Seq<char>>, i: int)
    requires
        0 <= i <= names.len(),
        forall|j: int|
            0 <= j < names.len() && (#[trigger] table_under(models, names[j])) is Some
                ==> stored_key(text_under(table_under(models, names[j])->0, "api_key"@)) is None,
    ensures
        model_key_from(models, names, i) is None,
    decreases names.len() - i,
{
    if i < names.len() {
        lemma_no_model_key(models, names, i + 1);
    }
}

/// A saved key is read back: at the top, as the preferred method, and as the key
/// of the models; of these two, unless a table on the way holds the mark of a
/// date, which hides it.
pub proof fn law_saved_key_is_read_back(
    entries: Map<Seq<char>, Toml>,
    key: Seq<char>,
    base_url: Seq<char>,
    config: Map<Seq<char>, Toml>,
)
    requires
        !model_is_no_table(entries, key),
        obstacle(entries, key) is None,
        agrees(config, with_saved_key(entries, key, base_url)),
        !is_placeholder(trim(key)),
    ensures
        top_level_key(Some(config)) == Some(trim(key)),
        !prefers_oidc(Some(config)),
        contents_under(with_saved_key(entries, key, base_url), "auth"@) is Some && !contents_under(
            with_saved_key(entries, key, base_url),
            "auth"@,
        )->0.contains_key(DATE_MARK@) ==> table_under(config, "auth"@) is Some && text_under(
            table_under(config, "auth"@)->0,
            "preferred_method"@,
        ) == Some("api_key"@),
        !contents_under(with_saved_key(entries, key, base_url), "model"@)->0.contains_key(
            DATE_MARK@,
        ) && !contents_at(
            with_saved_key(entries, key, base_url),
            "model"@,
            "deepseek-v4-pro"@,
        )->0.contains_key(DATE_MARK@) ==> first_model_key(config) == Some(trim(key)),
{
    let saved = with_saved_key(entries, key, base_url);
    law_saved_key_stands_everywhere(entries, key, base_url);
    assert(text_under(config, "api_key"@) == Some(key));
    reveal_strlit("api_key");
    reveal_strlit("oidc");
    assert("api_key"@.len() == 7 && "oidc"@.len() == 4);
    if contents_under(saved, "auth"@) is Some && !contents_under(saved, "auth"@)->0.contains_key(
        DATE_MARK@,
    ) {
        assert(text_under(contents_under(saved, "auth"@)->0, "preferred_method"@) is Some);
        assert(is_kept_at_top(saved, "auth"@));
    }
    if table_under(config, "auth"@) is Some {
        assert(text_under(table_under(config, "auth"@)->0, "preferred_method"@) == text_under(
            contents_under(saved, "auth"@)->0,
            "preferred_method"@,
        ));
    }
    let pro = "deepseek-v4-pro"@;
    assert(is_default_model(pro));
    assert(contents_at(saved, "model"@, pro) is Some);
    if !contents_under(saved, "model"@)->0.contains_key(DATE_MARK@) && !contents_at(
        saved,
        "model"@,
        pro,
    )->0.contains_key(DATE_MARK@) {
        assert(text_under(contents_at(saved, "model"@, pro)->0, "api_key"@) is Some);
        assert(is_kept(saved, "model"@, pro));
        assert(table_at(config, "model"@, pro) is Some);
        let models = table_under(config, "model"@)->0;
        lemma_names_in(models);
        let names = names_in(models);
        assert(models.contains_key(pro));
        assert(names.contains(pro));
        let k = choose|k: int| 0 <= k < names.len() && names[k] == pro;
        assert forall|j: int|
            0 <= j < names.len() && (#[trigger] table_under(
                models,
                names[j],
            )) is Some implies stored_key(text_under(table_under(models, names[j])->0, "api_key"@))
            == Some(trim(key)) by {
            let id = names[j];
            assert(table_at(config, "model"@, id) is Some);
            assert(text_under(table_at(config, "model"@, id)->0, "api_key"@) == text_under(
                contents_at(saved, "model"@, id)->0,
                "api_key"@,
            ));
        }
        lemma_model_key(models, names, trim(key), 0, k);
    }
}

/// A cleared key is not read back, neither at the top nor as the key of a model.
pub proof fn law_cleared_key_is_not_read_back(
    entries: Map<Seq<char>, Toml>,
    config: Map<Seq<char>, Toml>,
)
    requires
        agrees(config, without_saved_key(entries)),
    ensures
        top_level_key(Some(config)) is None,
        first_model_key(config) is None,
{
    let cleared = without_saved_key(entries);
    law_cleared_key_is_gone(entries);
    assert(text_under(config, "api_key"@) == text_under(cleared, "api_key"@));
    lemma_no_key_under(entries, config, "model"@);
    lemma_no_key_under(entries, config, "models"@);
}

proof fn lemma_no_key_under(
    entries: Map<Seq<char>, Toml>,
    config: Map<Seq<char>, Toml>,
    name: Seq<char>,
)
    requires
        agrees(config, without_saved_key(entries)),
        name == "model"@ || name == "models"@,
    ensures
        key_under(config, name) is None,
{
    let cleared = without_saved_key(entries);
    law_cleared_key_is_gone(entries);
    if table_under(config, name) is Some {
        let models = table_under(config, name)->0;
        lemma_names_in(models);
        let names = names_in(models);
        assert forall|j: int|
            0 <= j < names.len() && (#[trigger] table_under(
                models,
                names[j],
            )) is Some implies stored_key(text_under(table_under(models, names[j])->0, "api_key"@))
            is None by {
            let id = names[j];
            assert(table_at(config, name, id) is Some);
            assert(text_under(table_at(config, name, id)->0, "api_key"@) == text_under(
                contents_at(cleared, name, id)->0,
                "api_key"@,
            ));
        }
        lemma_no_model_key(models, names, 0);
    }
}

/// A key that stands at the top of the configuration is in force wherever the
/// environment says nothing; a variable of the environment wins over it.
pub proof fn law_saved_key_is_in_force(sources: KeySources, key: Seq<char>)
    requires
        top_level_key(config_of(sources)) == Some(key),
    ensures
        present(opt(sources.env_deepseek)) is None && present(opt(sources.env_ds)) is None
            && present(opt(sources.env_legacy)) is None ==> key_in_force(sources) == (
            ApiKeyOrigin::ConfigTopLevel,
            Some(key),
        ),
        present(opt(sources.env_deepseek)) is Some ==> key_in_force(sources).1 == present(
            opt(sources.env_deepseek),
        ),
{
}

/// A key is in force exactly where its origin is set.
pub proof fn law_origin_tells_whether_a_key_is_in_force(sources: KeySources)
    ensures
        key_in_force(sources).1 is Some <==> key_in_force(sources).0 != ApiKeyOrigin::Unset,
{
}

// ---------------------------------------------------------------------------
// Commands

/// Where the configuration of the user stands.
pub fn user_config_path(ds_home: &str) -> (r: String)
    ensures
        r@ == join_path(ds_home@, "config.toml"@),
{
    path_join(ds_home, "config.toml")
}

/// What a save has to store: the configuration, and the key in the credential
/// store.
#[derive(Debug)]
pub struct SavedKey {
    pub config: String,
    pub key: String,
    /// Whether the key was found again in the new configuration.
    pub reads_back: bool,
}

/// What to store to save a pasted key. `existing` is the text of the
/// configuration, blank where there is none yet.
pub fn save_api_key(raw: &str, existing: &str, config_path: &str, base_url: &str) -> (r: Result<
    SavedKey,
    ApiKeyError,
>)
    ensures
        bare_key(raw@).len() == 0 ==> r is Err && r->Err_0 is Empty,
        bare_key(raw@).len() > 0 && spans_lines(bare_key(raw@)) ==> r is Err
            && r->Err_0 is SeveralLines,
        bare_key(raw@).len() > 0 && !spans_lines(bare_key(raw@)) && is_placeholder(bare_key(raw@))
            ==> r is Err && r->Err_0 is Placeholder,
        is_usable(raw@) ==> match config_start(existing@) {
            Err(message) => r is Err && r->Err_0 is InvalidConfig
                && r->Err_0->InvalidConfig_message@ == message && r->Err_0->path@ == config_path@,
            Ok(entries) => if model_is_no_table(entries, bare_key(raw@)) {
                r is Err && r->Err_0 is ModelIsNoTable
            } else {
                match obstacle(entries, bare_key(raw@)) {
                    Some(id) => r is Err && r->Err_0 is ModelEntryIsNoTable && r->Err_0->id@ == id,
                    None => {
                        &&& r is Ok
                        &&& r->Ok_0.key@ == bare_key(raw@)
                        &&& spells(
                            r->Ok_0.config@,
                            with_saved_key(entries, bare_key(raw@), base_url@),
                        )
                        &&& reads_as(
                            r->Ok_0.config@,
                            with_saved_key(entries, bare_key(raw@), base_url@),
                        )
                        &&& r->Ok_0.reads_back == (config_read(r->Ok_0.config@) is Some)
                        &&& r->Ok_0.reads_back ==> top_level_key(config_read(r->Ok_0.config@))
                            == Some(trim(bare_key(raw@))) && !prefers_oidc(
                            config_read(r->Ok_0.config@),
                        )
                    },
                }
            },
        },
{
    let key = match normalize_api_key(raw) {
        Ok(key) => key,
        Err(error) => {
            return Err(error);
        },
    };
    match write_api_key_to_config(existing, key.as_str(), config_path, base_url) {
        Ok(config) => {
            let reads_back = read_top_level_api_key_from_config(config.as_str()).is_some();
            proof {
                crate::text::lemma_trim_idempotent(key@);
                if config_read(config@) is Some {
                    law_saved_key_is_read_back(
                        config_start(existing@)->Ok_0,
                        key@,
                        base_url@,
                        config_read(config@)->0,
                    );
                }
            }
            Ok(SavedKey { config, key, reads_back })
        },
        Err(error) => Err(error),
    }
}

/// What to write to clear the saved keys; none where the configuration stays as
/// it is. The credential store is cleared in any case.
pub fn clear_saved_api_key(existing: &Option<String>) -> (r: Result<Option<String>, ApiKeyError>)
    ensures
        existing is None || is_blank(existing->0@) ==> r is Ok && r->Ok_0 is None,
        existing is Some && !is_blank(existing->0@) ==> match document_spelled(existing->0@) {
            Err(message) => r is Err && r->Err_0 is InvalidConfigOnClear
                && r->Err_0->InvalidConfigOnClear_message@ == message,
            Ok(entries) => {
                &&& r is Ok
                &&& r->Ok_0 is Some
                &&& spells(r->Ok_0->0@, without_saved_key(entries))
                &&& reads_as(r->Ok_0->0@, without_saved_key(entries))
                &&& config_read(r->Ok_0->0@) is Some ==> top_level_key(
                    config_read(r->Ok_0->0@),
                ) is None && first_model_key(config_read(r->Ok_0->0@)->0) is None
            },
        },
{
    let cleared = match existing {
        Some(text) => clear_api_key_from_config(text.as_str()),
        None => Ok(None),
    };
    proof {
        if cleared is Ok && cleared->Ok_0 is Some && config_read(cleared->Ok_0->0@) is Some {
            law_cleared_key_is_not_read_back(
                document_spelled(existing->0@)->Ok_0,
                config_read(cleared->Ok_0->0@)->0,
            );
        }
    }
    cleared
}

/// Whether a key comes from the environment.
pub open spec fn is_from_environment(origin: ApiKeyOrigin) -> bool {
    origin is EnvDeepseek || origin is EnvDs || origin is EnvLegacy
}

/// What can be told of the key in force: where it comes from, whether that is the
/// environment, which overrides what is saved, and how it looks with its middle
/// hidden.
pub fn api_key_status(sources: &KeySources, config_path: &str) -> (r: ApiKeyStatus)
    ensures
        r.origin == key_in_force(*sources).0,
        r.config_path@ == config_path@,
        r.env_overrides == is_from_environment(r.origin),
        opt(r.redacted) == (match key_in_force(*sources).1 {
            Some(key) => Some(redacted_key(key)),
            None => None,
        }),
        r.redacted is None <==> r.origin is Unset,
{
    let (origin, key) = detect_key_origin(sources);
    let redacted = match key {
        Some(key) => Some(redact_api_key(key.as_str())),
        None => None,
    };
    let env_overrides = matches!(
        origin,
        ApiKeyOrigin::EnvDeepseek | ApiKeyOrigin::EnvDs | ApiKeyOrigin::EnvLegacy
    );
    ApiKeyStatus { origin, config_path: config_path.to_owned(), env_overrides, redacted }
}

/// Where a key is to be read from.
#[derive(Debug)]
pub enum InputSource {
    Given(String),
    /// One line of the standard input.
    Line,
    /// One line without an echo, after a prompt.
    Secret,
}

/// A prompt without a terminal falls back to the standard input.
pub fn input_source(input: ApiKeyInput, stdin_is_terminal: bool) -> (r: InputSource)
    ensures
        match input {
            ApiKeyInput::Inline(text) => r is Given && r->Given_0@ == text@,
            ApiKeyInput::Stdin => r is Line,
            ApiKeyInput::Prompt => if stdin_is_terminal {
                r is Secret
            } else {
                r is Line
            },
        },
{
    match input {
        ApiKeyInput::Inline(text) => InputSource::Given(text),
        ApiKeyInput::Stdin => InputSource::Line,
        ApiKeyInput::Prompt => {
            if stdin_is_terminal {
                InputSource::Secret
            } else {
                InputSource::Line
            }
        },
    }
}

/// Whether a configuration asks for another way to log in than a key.
pub open spec fn prefers_oidc(config: Option<Map<Seq<char>, Toml>>) -> bool {
    match config {
        Some(entries) => match table_under(entries, "auth"@) {
            Some(auth) => text_under(auth, "preferred_method"@) == Some("oidc"@),
            None => false,
        },
        None => false,
    }
}

/// A key is the preferred method unless the configuration says `oidc`; so it is
/// where there is no configuration, or none that can be read.
pub fn preferred_method_is_api_key(config: &Option<String>) -> (r: bool)
    ensures
        r == !prefers_oidc(
            match *config {
                Some(text) => config_read(text@),
                None => None,
            },
        ),
{
    let text = match config {
        Some(text) => text,
        None => {
            return true;
        },
    };
    let root = match parse_config_toml(text.as_str()) {
        Some(root) => root,
        None => {
            return true;
        },
    };
    let auth = match value_under(&root, "auth") {
        Some(auth) => auth,
        None => {
            return true;
        },
    };
    let method = match value_under(auth, "preferred_method") {
        Some(method) => method,
        None => {
            return true;
        },
    };
    match value_text(method) {
        Some(name) => !same_str(name.as_str(), "oidc"),
        None => true,
    }
}

/// How a stored credential was obtained.
#[derive(Clone, Copy, Debug, PartialEq, Eq, Structural)]
pub enum AuthMode {
    ApiKey,
    Oidc,
    WebLogin,
    External,
}

/// A credential of the store.
#[derive(Debug)]
pub struct StoredCredential {
    pub key: String,
    pub auth_mode: AuthMode,
}

/// A credential of a session, that is, one that is not a key.
pub open spec fn is_session(c: StoredCredential) -> bool {
    !is_blank(c.key@) && c.auth_mode != AuthMode::ApiKey
}

pub fn has_session_credential(store: &Vec<StoredCredential>) -> (r: bool)
    ensures
        r == exists|i: int| 0 <= i < store@.len() && is_session(#[trigger] store@[i]),
{
    let mut i: usize = 0;
    while i < store.len()
        invariant
            i <= store@.len(),
            forall|k: int| 0 <= k < i ==> !is_session(#[trigger] store@[k]),
        decreases store@.len() - i,
    {
        let session = match store[i].auth_mode {
            AuthMode::ApiKey => false,
            _ => true,
        };
        if session && !blank(store[i].key.as_str()) {
            return true;
        }
        i += 1;
    }
    false
}

/// How to go on when a key is needed.
#[derive(Clone, Copy, Debug, PartialEq, Eq, Structural)]
pub enum KeyNeed {
    /// There is a key, or a session that stands in for it.
    AlreadyConfigured,
    /// There is neither, and nobody to ask.
    MissingNonInteractive,
    /// Ask for a key and save it.
    Ask,
}

pub open spec fn key_need(
    key_set: bool,
    prefers_key: bool,
    has_session: bool,
    interactive: bool,
) -> KeyNeed {
    if key_set || (!prefers_key && has_session) {
        KeyNeed::AlreadyConfigured
    } else if !interactive {
        KeyNeed::MissingNonInteractive
    } else {
        KeyNeed::Ask
    }
}

/// Decides how to go on when a key is needed. A session stands in for a key
/// only where the key is not the preferred method.
pub fn decide_key_need(
    key_set: bool,
    prefers_key: bool,
    has_session: bool,
    interactive: bool,
) -> (r: KeyNeed)
    ensures
        r == key_need(key_set, prefers_key, has_session, interactive),
{
    if key_set || (!prefers_key && has_session) {
        KeyNeed::AlreadyConfigured
    } else if !interactive {
        KeyNeed::MissingNonInteractive
    } else {
        KeyNeed::Ask
    }
}

/// The outcome of making sure of a key, once it was asked for and saved where
/// that was needed.
pub fn ensure_outcome(need: KeyNeed) -> (r: EnsureApiKeyOutcome)
    ensures
        match need {
            KeyNeed::AlreadyConfigured => r == EnsureApiKeyOutcome::AlreadyConfigured,
            KeyNeed::MissingNonInteractive => r == EnsureApiKeyOutcome::MissingNonInteractive,
            KeyNeed::Ask => r == EnsureApiKeyOutcome::Saved,
        },
{
    match need {
        KeyNeed::AlreadyConfigured => EnsureApiKeyOutcome::AlreadyConfigured,
        KeyNeed::MissingNonInteractive => EnsureApiKeyOutcome::MissingNonInteractive,
        KeyNeed::Ask => EnsureApiKeyOutcome::Saved,
    }
}

/// The status as an indented JSON object, its keys in order.
pub open spec fn status_json(s: ApiKeyStatus) -> Seq<char> {
    "{\n  \"config_path\": "@ + json_string_of(s.config_path@) + ",\n  \"env_overrides\": "@
        + bool_text(s.env_overrides) + ",\n  \"redacted\": "@ + (match s.redacted {
        Some(text) => json_string_of(text@),
        None => "null"@,
    }) + ",\n  \"set\": "@ + bool_text(s.origin != ApiKeyOrigin::Unset) + ",\n  \"source\": "@ + json_string_of(s.origin.label()@) + "\n}"@
}

/// The status as lines of text.
pub open spec fn status_text(s: ApiKeyStatus) -> Seq<char> {
    if s.origin != ApiKeyOrigin::Unset {
        "deepseek: set (source: "@ + s.origin.label()@ + ")\n"@ + (match s.redacted {
            Some(text) => "key: "@ + text@ + "\n"@,
            None => seq![],
        }) + "config: "@ + s.config_path@ + "\n"@
    } else {
        "deepseek: not set\nGet a key: "@ + KEY_PLATFORM_URL@
            + "\nSave it with: ds auth set\nOr set DEEPSEEK_API_KEY / add api_key under [model.*] in "@
            + s.config_path@ + "\n"@
    }
}

/// What the status command prints.
pub fn render_auth_status(status: &ApiKeyStatus, json: bool) -> (r: String)
    ensures
        r@ == (if json {
            status_json(*status)
        } else {
            status_text(*status)
        }),
{
    if json {
        let mut out = chars_of("{\n  \"config_path\": ");
        append_str(&mut out, json_string(status.config_path.as_str()).as_str());
        append_str(&mut out, ",\n  \"env_overrides\": ");
        append_str(&mut out, bool_str(status.env_overrides));
        append_str(&mut out, ",\n  \"redacted\": ");
        match &status.redacted {
            Some(text) => {
                append_str(&mut out, json_string(text.as_str()).as_str());
            },
            None => {
                append_str(&mut out, "null");
            },
        }
        append_str(&mut out, ",\n  \"set\": ");
        append_str(&mut out, bool_str(status.origin.is_set()));
        append_str(&mut out, ",\n  \"source\": ");
        append_str(&mut out, json_string(status.origin.as_str()).as_str());
        append_str(&mut out, "\n}");
        return string_of(&out);
    }
    if status.origin.is_set() {
        let mut out = chars_of("deepseek: set (source: ");
        append_str(&mut out, status.origin.as_str());
        append_str(&mut out, ")\n");
        let ghost head = out@;
        match &status.redacted {
            Some(text) => {
                let line = cat3("key: ", text.as_str(), "\n");
                append_str(&mut out, line.as_str());
            },
            None => {
                proof {
                    assert(head + seq![] =~= head);
                }
            },
        }
        append_str(&mut out, "config: ");
        append_str(&mut out, status.config_path.as_str());
        append_str(&mut out, "\n");
        string_of(&out)
    } else {
        cat5(
            "deepseek: not set\nGet a key: ",
            KEY_PLATFORM_URL,
            "\nSave it with: ds auth set\nOr set DEEPSEEK_API_KEY / add api_key under [model.*] in ",
            status.config_path.as_str(),
            "\n",
        )
    }
}

/// What the set command prints.
pub fn render_auth_set(config_path: &str, key: &str) -> (r: String)
    ensures
        r@ == "saved API key to "@ + config_path@ + " and auth.json ("@ + redacted_key(key@) + ")"@,
{
    let shown = redact_api_key(key);
    cat5("saved API key to ", config_path, " and auth.json (", shown.as_str(), ")")
}

/// The environment wins over the files, and within each the first that says
/// anything wins: the variables in their order, then the key at the top of the
/// configuration, then that of a model, then the credential store. A blank value
/// says nothing.
pub proof fn law_key_in_force_is_the_first_that_is_given(sources: KeySources)
    ensures
        ({
            let a = sources.env_deepseek;
            let b = sources.env_ds;
            let c = sources.env_legacy;
            let d = sources.auth_json;
            let has_a = a is Some && trim(a->0@).len() > 0;
            let has_b = b is Some && trim(b->0@).len() > 0;
            let has_c = c is Some && trim(c->0@).len() > 0;
            let has_d = d is Some && trim(d->0@).len() > 0;
            let config = if sources.config is Some {
                config_read(sources.config->0@)
            } else {
                None
            };
            let top = top_level_key(config);
            let model = if config is Some {
                first_model_key(config->0)
            } else {
                None
            };
            let force = key_in_force(sources);
            &&& has_a ==> force == (ApiKeyOrigin::EnvDeepseek, Some(trim(a->0@)))
            &&& !has_a && has_b ==> force == (ApiKeyOrigin::EnvDs, Some(trim(b->0@)))
            &&& !has_a && !has_b && has_c ==> force == (
                ApiKeyOrigin::EnvLegacy,
                Some(trim(c->0@)),
            )
            &&& !has_a && !has_b && !has_c ==> force == filed_key(sources)
            &&& top is Some ==> filed_key(sources) == (ApiKeyOrigin::ConfigTopLevel, top)
            &&& top is None && model is Some ==> filed_key(sources) == (
                ApiKeyOrigin::ConfigModel,
                model,
            )
            &&& top is None && model is None && has_d ==> filed_key(sources) == (
                ApiKeyOrigin::AuthJson,
                Some(trim(d->0@)),
            )
            &&& top is None && model is None && !has_d ==> filed_key(sources) == (
                ApiKeyOrigin::Unset,
                None::<Seq<char>>,
            )
        }),
{
}

/// A key at the top of the configuration counts, trimmed, exactly where it is a
/// text that does not look like one that is yet to be filled in.
pub proof fn law_key_at_the_top_counts_unless_it_is_a_placeholder(entries: Map<Seq<char>, Toml>)
    ensures
        top_level_key(None) is None,
        match top_level_key(Some(entries)) {
            Some(key) => entries.contains_key("api_key"@) && entries["api_key"@] is Text && key
                == trim(entries["api_key"@]->Text_0) && !is_placeholder(key),
            None => !entries.contains_key("api_key"@) || !(entries["api_key"@] is Text)
                || is_placeholder(trim(entries["api_key"@]->Text_0)),
        },
{
}

/// A key is yet to be filled in exactly where it is blank or, in any case, says
/// so.
pub proof fn law_placeholder_says_so(key: Seq<char>)
    ensures
        is_placeholder(key) <==> {
            ||| trim(key).len() == 0
            ||| contains(upper(trim(key)), "PASTE_YOUR"@)
            ||| contains(upper(trim(key)), "PASTE YOUR"@)
            ||| contains(upper(trim(key)), "YOUR_KEY"@)
            ||| upper(trim(key)) == "SK-..."@
            ||| starts_with(upper(trim(key)), "SK-PASTE"@)
        },
{
    assert(upper(trim(key)).len() == trim(key).len());
}

/// A pasted key loses the white space and the quotation marks around it, and
/// nothing else; it is taken exactly where something is left that stands on one
/// line and is not yet to be filled in.
pub proof fn law_pasted_key_loses_its_wrapping(raw: Seq<char>, key: Seq<char>)
    ensures
        bare_key(raw).len() > 0 ==> {
            &&& bare_key(raw)[0] != '"' && bare_key(raw)[0] != '\''
            &&& bare_key(raw).last() != '"' && bare_key(raw).last() != '\''
        },
        exists|i: int, j: int|
            0 <= i <= j <= raw.len() && bare_key(raw) == #[trigger] raw.subrange(i, j),
        key.len() > 0 && key[0] != '"' && key[0] != '\'' && key.last() != '"' && key.last()
            != '\'' && !is_white(key[0]) && !is_white(key.last()) ==> {
            &&& bare_key(key) == key
            &&& bare_key(seq!['"'] + key + seq!['"']) == key
            &&& bare_key(seq!['\''] + key + seq!['\'']) == key
        },
        is_usable(raw) <==> bare_key(raw).len() > 0 && !bare_key(raw).contains('\n') && !bare_key(
            raw,
        ).contains('\r') && !is_placeholder(bare_key(raw)),
{
    let quotes = CharClass::Two('"', '\'');
    lemma_trim_by_shape(raw, CharClass::White);
    lemma_trim_by_shape(trim(raw), quotes);
    let (i, j) = choose|i: int, j: int|
        0 <= i <= j <= raw.len() && trim(raw) == #[trigger] raw.subrange(i, j);
    let (a, b) = choose|a: int, b: int|
        0 <= a <= b <= trim(raw).len() && bare_key(raw) == #[trigger] trim(raw).subrange(a, b);
    assert(raw.subrange(i, j).subrange(a, b) =~= raw.subrange(i + a, i + b));
    if key.len() > 0 && key[0] != '"' && key[0] != '\'' && key.last() != '"' && key.last() != '\''
        && !is_white(key[0]) && !is_white(key.last()) {
        lemma_trim_by_fixed(key, CharClass::White);
        lemma_trim_by_fixed(key, quotes);
        lemma_unquoted(key, '"');
        lemma_unquoted(key, '\'');
    }
}

proof fn lemma_unquoted(key: Seq<char>, mark: char)
    requires
        mark == '"' || mark == '\'',
        key.len() > 0,
        key[0] != '"' && key[0] != '\'',
        key.last() != '"' && key.last() != '\'',
    ensures
        bare_key(seq![mark] + key + seq![mark]) == key,
{
    let quotes = CharClass::Two('"', '\'');
    let s = seq![mark] + key + seq![mark];
    assert(s[0] == mark && s.last() == mark);
    lemma_trim_by_fixed(s, CharClass::White);
    assert(s.drop_first() =~= key + seq![mark]);
    assert((key + seq![mark])[0] == key[0]);
    assert(trim_start_by(s, quotes) == trim_start_by(s.drop_first(), quotes));
    assert(trim_start_by(s.drop_first(), quotes) == key + seq![mark]);
    assert((key + seq![mark]).last() == mark);
    assert((key + seq![mark]).drop_last() =~= key);
    assert(trim_end_by(key + seq![mark], quotes) == trim_end_by(key, quotes));
}

proof fn lemma_first_model_key(models: Map<Seq<char>, Toml>, names: Seq<Seq<char>>, i: int)
    requires
        0 <= i <= names.len(),
    ensures
        match model_key_from(models, names, i) {
            Some(key) => exists|k: int|
                i <= k < names.len() && #[trigger] table_under(models, names[k]) is Some
                    && stored_key(text_under(table_under(models, names[k])->0, "api_key"@)) == Some(
                    key,
                ) && forall|m: int|
                    i <= m < k && #[trigger] table_under(models, names[m]) is Some ==> stored_key(
                        text_under(table_under(models, names[m])->0, "api_key"@),
                    ) is None,
            None => forall|m: int|
                i <= m < names.len() && #[trigger] table_under(models, names[m]) is Some
                    ==> stored_key(text_under(table_under(models, names[m])->0, "api_key"@)) is None,
        },
    decreases names.len() - i,
{
    if i < names.len() {
        lemma_first_model_key(models, names, i + 1);
        let here = match table_under(models, names[i]) {
            Some(model) => stored_key(text_under(model, "api_key"@)),
            None => None,
        };
        if here is Some {
            assert(table_under(models, names[i]) is Some);
        } else if model_key_from(models, names, i + 1) is Some {
            let key = model_key_from(models, names, i + 1)->0;
            let k = choose|k: int|
                i + 1 <= k < names.len() && #[trigger] table_under(models, names[k]) is Some
                    && stored_key(text_under(table_under(models, names[k])->0, "api_key"@)) == Some(
                    key,
                ) && forall|m: int|
                    i + 1 <= m < k && #[trigger] table_under(models, names[m]) is Some
                        ==> stored_key(
                        text_under(table_under(models, names[m])->0, "api_key"@),
                    ) is None;
            assert(table_under(models, names[k]) is Some);
            assert forall|m: int|
                i <= m < k && #[trigger] table_under(
                    models,
                    names[m],
                ) is Some implies stored_key(
                text_under(table_under(models, names[m])->0, "api_key"@),
            ) is None by {}
        }
    }
}

/// The key of a model is that of the first model, by name, that has one. The
/// models under `models` count only where none under `model` has a key.
pub proof fn law_model_key_is_that_of_the_first_model_with_one(
    entries: Map<Seq<char>, Toml>,
    name: Seq<char>,
    id: Seq<char>,
    key: Seq<char>,
)
    requires
        table_under(entries, name) is Some,
        table_under(entries, name)->0.dom().finite(),
        table_at(entries, name, id) is Some,
        stored_key(text_under(table_at(entries, name, id)->0, "api_key"@)) == Some(key),
        forall|other: Seq<char>|
            precedes(other, id) && #[trigger] table_at(entries, name, other) is Some
                ==> stored_key(text_under(table_at(entries, name, other)->0, "api_key"@)) is None,
    ensures
        key_under(entries, name) == Some(key),
        name == "model"@ ==> first_model_key(entries) == Some(key),
        name == "models"@ && key_under(entries, "model"@) is None ==> first_model_key(entries)
            == Some(key),
{
    let models = table_under(entries, name)->0;
    lemma_names_in(models);
    let names = names_in(models);
    lemma_first_model_key(models, names, 0);
    assert(models.contains_key(id));
    assert(names.contains(id));
    let at = choose|at: int| 0 <= at < names.len() && names[at] == id;
    assert(table_under(models, names[at]) is Some);
    if model_key_from(models, names, 0) is Some {
        let found = model_key_from(models, names, 0)->0;
        let k = choose|k: int|
            0 <= k < names.len() && #[trigger] table_under(models, names[k]) is Some
                && stored_key(text_under(table_under(models, names[k])->0, "api_key"@)) == Some(
                found,
            ) && forall|m: int|
                0 <= m < k && #[trigger] table_under(models, names[m]) is Some ==> stored_key(
                    text_under(table_under(models, names[m])->0, "api_key"@),
                ) is None;
        if k < at {
            assert(precedes(names[k], names[at]));
            assert(table_at(entries, name, names[k]) is Some);
        }
    }
}

/// No key is asked for where there is nobody to ask, or where there is a key
/// already. A session stands in for a key only where the key is not the preferred
/// method; and where neither is there, the key is asked for or found missing.
pub proof fn law_key_is_asked_for_only_where_it_is_needed(
    key_set: bool,
    prefers_key: bool,
    has_session: bool,
    interactive: bool,
)
    ensures
        key_set ==> key_need(key_set, prefers_key, has_session, interactive)
            == KeyNeed::AlreadyConfigured,
        !key_set && has_session && !prefers_key ==> key_need(
            key_set,
            prefers_key,
            has_session,
            interactive,
        ) == KeyNeed::AlreadyConfigured,
        !key_set && (prefers_key || !has_session) && interactive ==> key_need(
            key_set,
            prefers_key,
            has_session,
            interactive,
        ) == KeyNeed::Ask,
        !key_set && (prefers_key || !has_session) && !interactive ==> key_need(
            key_set,
            prefers_key,
            has_session,
            interactive,
        ) == KeyNeed::MissingNonInteractive,
{
}

/// A stored credential is that of a session exactly where it is not blank and is no
/// key.
pub proof fn law_session_is_any_credential_but_a_key(c: StoredCredential)
    ensures
        is_session(c) <==> trim(c.key@).len() > 0 && (c.auth_mode == AuthMode::Oidc || c.auth_mode
            == AuthMode::WebLogin || c.auth_mode == AuthMode::External),
{
}

/// Another way to log in is preferred exactly where the table about logging in says
/// so by its name; a configuration that says nothing of it prefers the key.
pub proof fn law_key_is_preferred_unless_another_way_is_named(entries: Map<Seq<char>, Toml>)
    ensures
        !prefers_oidc(None),
        prefers_oidc(Some(entries)) <==> {
            &&& entries.contains_key("auth"@)
            &&& entries["auth"@] is Table
            &&& entries["auth"@].contents().contains_key("preferred_method"@)
            &&& entries["auth"@].contents()["preferred_method"@] == Toml::Text("oidc"@)
        },
{
}

/// A save starts from what is configured, and from nothing where the configuration
/// is blank.
pub proof fn law_save_starts_from_what_is_configured(existing: Seq<char>)
    ensures
        trim(existing).len() == 0 ==> config_start(existing) == Ok::<
            Map<Seq<char>, Toml>,
            Seq<char>,
        >(Map::empty()),
        trim(existing).len() > 0 ==> config_start(existing) == document_spelled(existing),
{
}

/// A key comes from the environment exactly where its origin is one of the three
/// variables.
pub proof fn law_environment_is_the_three_variables(origin: ApiKeyOrigin)
    ensures
        is_from_environment(origin) <==> origin == ApiKeyOrigin::EnvDeepseek || origin
            == ApiKeyOrigin::EnvDs || origin == ApiKeyOrigin::EnvLegacy,
        ApiKeyOrigin::EnvDeepseek.label()@ == "env:DEEPSEEK_API_KEY"@,
        ApiKeyOrigin::EnvDs.label()@ == "env:DS_API_KEY"@,
        ApiKeyOrigin::EnvLegacy.label()@ == "env:DS_CODE_API_KEY"@,
        ApiKeyOrigin::ConfigModel.label()@ == "config.toml [model.*]"@,
        ApiKeyOrigin::ConfigTopLevel.label()@ == "config.toml api_key"@,
        ApiKeyOrigin::AuthJson.label()@ == "auth.json"@,
        ApiKeyOrigin::Unset.label()@ == "unset"@,
{
}

} // verus!
