//! The live catalog of models of a ChatGPT subscription, and its cache.

use vstd::prelude::*;

use crate::text::{
    append, chars_of, control, is_control, is_lower, opt, same_str, slice_of, string_of, trim,
    trim_end_by, trim_end_by_of, trim_of, upper_char, CharClass,
};

verus! {

pub const CHATGPT_BASE_URL: &'static str = "https://chatgpt.com/backend-api/codex";

pub const MODELS_URL: &'static str = "https://chatgpt.com/backend-api/codex/models";

pub const CACHE_FILE: &'static str = "openai-codex-models.json";

pub const CACHE_VERSION: u8 = 1;

pub const MAX_CACHE_BYTES: u64 = 1048576;

pub const MAX_CATALOG_BYTES: usize = 1048576;

pub const MAX_MODELS: usize = 10_000;

/// The largest context window that is believed, in tokens.
pub const MAX_CONTEXT_WINDOW: u64 = 10_000_000;

/// Whether a base URL is that of the provider, final slashes aside.
pub fn is_chatgpt_base_url(base_url: &str) -> (r: bool)
    ensures
        r == (trim_end_by(base_url@, CharClass::Only('/')) == CHATGPT_BASE_URL@),
{
    let v = chars_of(base_url);
    let t = trim_end_by_of(&v, CharClass::Only('/'));
    crate::text::is_text(&t, CHATGPT_BASE_URL)
}

// ---------------------------------------------------------------------------
// Reasoning efforts

/// How hard a model is asked to think.
#[derive(Clone, Copy, Debug, PartialEq, Eq, Structural)]
pub enum ReasoningEffort {
    Off,
    Low,
    High,
    Max,
}

/// A spelling of an effort on the wire.
#[derive(Debug)]
pub struct EffortSpelling {
    pub spelling: String,
    pub effort: ReasoningEffort,
}

/// The effort that a value spells, by the first of the spellings from `i` on
/// that it matches.
pub open spec fn effort_from(known: Seq<EffortSpelling>, value: Seq<char>, i: int) -> Option<
    ReasoningEffort,
>
    decreases known.len() - i,
{
    if i < 0 || i >= known.len() {
        None
    } else if known[i].spelling@ == value {
        Some(known[i].effort)
    } else {
        effort_from(known, value, i + 1)
    }
}

pub open spec fn effort_spelled(known: Seq<EffortSpelling>, value: Seq<char>) -> Option<
    ReasoningEffort,
> {
    effort_from(known, value, 0)
}

pub fn parse_wire_effort(known: &Vec<EffortSpelling>, value: &str) -> (r: Option<ReasoningEffort>)
    ensures
        r == effort_spelled(known@, value@),
{
    let mut i: usize = 0;
    while i < known.len()
        invariant
            i <= known@.len(),
            effort_spelled(known@, value@) == effort_from(known@, value@, i as int),
        decreases known@.len() - i,
    {
        if same_str(known[i].spelling.as_str(), value) {
            return Some(known[i].effort);
        }
        i += 1;
    }
    None
}

/// The spellings of the product itself: `none`, `low`, `high` and `max`.
pub fn product_efforts() -> (r: Vec<EffortSpelling>)
    ensures
        r@.len() == 4,
        r@[0].spelling@ == "none"@ && r@[0].effort == ReasoningEffort::Off,
        r@[1].spelling@ == "low"@ && r@[1].effort == ReasoningEffort::Low,
        r@[2].spelling@ == "high"@ && r@[2].effort == ReasoningEffort::High,
        r@[3].spelling@ == "max"@ && r@[3].effort == ReasoningEffort::Max,
{
    let mut out: Vec<EffortSpelling> = Vec::new();
    out.push(EffortSpelling { spelling: "none".to_owned(), effort: ReasoningEffort::Off });
    out.push(EffortSpelling { spelling: "low".to_owned(), effort: ReasoningEffort::Low });
    out.push(EffortSpelling { spelling: "high".to_owned(), effort: ReasoningEffort::High });
    out.push(EffortSpelling { spelling: "max".to_owned(), effort: ReasoningEffort::Max });
    out
}

/// What `char::to_uppercase` makes of a character.
pub uninterp spec fn uppercased(c: char) -> Seq<char>;

/// `char::to_uppercase`: the upper-case form of a character, which can be several
/// characters. Named by `uppercased`; stated besides is what it is for the ASCII
/// letters.
#[verifier::external_body]
fn uppercase(c: char) -> (r: String)
    ensures
        r@ == uppercased(c),
        is_lower(c) ==> r@ == seq![upper_char(c)],
{
    c.to_uppercase().collect()
}

/// An effort as a label: its first character in upper case.
pub open spec fn effort_label(value: Seq<char>) -> Seq<char> {
    if value.len() == 0 {
        seq![]
    } else {
        uppercased(value[0]) + value.skip(1)
    }
}

pub fn humanize_effort(value: &str) -> (r: String)
    ensures
        r@ == effort_label(value@),
{
    let v = chars_of(value);
    if v.len() == 0 {
        proof {
            assert(v@ =~= effort_label(value@));
        }
        return string_of(&v);
    }
    let first = uppercase(v[0]);
    let mut out = chars_of(first.as_str());
    let rest = slice_of(&v, 1, v.len());
    proof {
        assert(rest@ =~= value@.skip(1));
    }
    append(&mut out, &rest);
    string_of(&out)
}

// ---------------------------------------------------------------------------
// The catalog as it comes

#[derive(Debug)]
pub struct RawReasoning {
    pub effort: Option<String>,
    pub description: Option<String>,
}

#[derive(Debug)]
pub struct RawModel {
    pub slug: Option<String>,
    pub display_name: Option<String>,
    pub description: Option<String>,
    pub visibility: Option<String>,
    pub context_window: Option<u64>,
    pub default_reasoning_level: Option<String>,
    pub supported_reasoning_levels: Vec<RawReasoning>,
}

/// An effort that a model offers.
#[derive(Debug)]
pub struct ReasoningSpec {
    pub effort: String,
    pub description: String,
}

/// A model as it is kept.
#[derive(Debug)]
pub struct ModelSpec {
    pub slug: String,
    pub display_name: String,
    pub description: String,
    pub context_window: u64,
    pub default_reasoning: Option<String>,
    pub reasoning: Vec<ReasoningSpec>,
}

/// What a kept model says, as values.
pub struct ModelSpecView {
    pub slug: Seq<char>,
    pub display_name: Seq<char>,
    pub description: Seq<char>,
    pub context_window: u64,
    pub default_reasoning: Option<Seq<char>>,
    pub reasoning: Seq<(Seq<char>, Seq<char>)>,
}

pub open spec fn reasoning_views(v: Seq<ReasoningSpec>) -> Seq<(Seq<char>, Seq<char>)> {
    Seq::new(v.len(), |i: int| (v[i].effort@, v[i].description@))
}

impl View for ModelSpec {
    type V = ModelSpecView;

    open spec fn view(&self) -> ModelSpecView {
        ModelSpecView {
            slug: self.slug@,
            display_name: self.display_name@,
            description: self.description@,
            context_window: self.context_window,
            default_reasoning: opt(self.default_reasoning),
            reasoning: reasoning_views(self.reasoning@),
        }
    }
}

pub open spec fn spec_views(v: Seq<ModelSpec>) -> Seq<ModelSpecView> {
    Seq::new(v.len(), |i: int| v[i]@)
}

pub open spec fn has_control(s: Seq<char>) -> bool {
    exists|i: int| 0 <= i < s.len() && is_control(#[trigger] s[i])
}

/// A text trimmed and cut to `max` characters, unless it is blank or holds a
/// control character.
pub open spec fn cleaned(value: Seq<char>, max: int) -> Option<Seq<char>> {
    let t = trim(value);
    if t.len() == 0 || has_control(t) {
        None
    } else if t.len() > max {
        Some(t.take(max))
    } else {
        Some(t)
    }
}

pub open spec fn cleaned_or(value: Option<String>, max: int, other: Seq<char>) -> Seq<char> {
    match value {
        Some(text) => match cleaned(text@, max) {
            Some(t) => t,
            None => other,
        },
        None => other,
    }
}

pub fn clean_text(value: &str, max_chars: usize) -> (r: Option<String>)
    ensures
        opt(r) == cleaned(value@, max_chars as int),
{
    let v = chars_of(value);
    let t = trim_of(&v);
    if t.len() == 0 {
        return None;
    }
    let mut i: usize = 0;
    while i < t.len()
        invariant
            i <= t@.len(),
            t@ == trim(value@),
            forall|k: int| 0 <= k < i ==> !is_control(#[trigger] t@[k]),
        decreases t@.len() - i,
    {
        if control(t[i]) {
            proof {
                assert(has_control(t@));
            }
            return None;
        }
        i += 1;
    }
    if t.len() > max_chars {
        let cut = slice_of(&t, 0, max_chars);
        proof {
            assert(cut@ =~= t@.take(max_chars as int));
        }
        Some(string_of(&cut))
    } else {
        Some(string_of(&t))
    }
}

fn clean_or(value: &Option<String>, max_chars: usize, other: &str) -> (r: String)
    ensures
        r@ == cleaned_or(*value, max_chars as int, other@),
{
    match value {
        Some(text) => {
            match clean_text(text.as_str(), max_chars) {
                Some(t) => t,
                None => other.to_owned(),
            }
        },
        None => other.to_owned(),
    }
}

pub open spec fn offers(reasoning: Seq<(Seq<char>, Seq<char>)>, effort: Seq<char>) -> bool {
    exists|i: int| 0 <= i < reasoning.len() && (#[trigger] reasoning[i]).0 == effort
}

/// The efforts among the first `n` that can be represented, each once.
pub open spec fn efforts_of(raw: Seq<RawReasoning>, known: Seq<EffortSpelling>, n: int) -> Seq<
    (Seq<char>, Seq<char>),
>
    decreases n,
{
    if n <= 0 {
        seq![]
    } else {
        let before = efforts_of(raw, known, n - 1);
        let item = raw[n - 1];
        match item.effort {
            Some(effort) => if effort_spelled(known, effort@) is None || offers(before, effort@) {
                before
            } else {
                before.push((effort@, cleaned_or(item.description, 512, seq![])))
            },
            None => before,
        }
    }
}

/// The default effort: the one that the provider names, where it can be
/// represented. Where it cannot, none: the provider applies its own. Where none
/// is named, `medium` or else the first.
pub open spec fn default_effort(
    named: Option<Seq<char>>,
    reasoning: Seq<(Seq<char>, Seq<char>)>,
) -> Option<Seq<char>> {
    match named {
        Some(effort) => if offers(reasoning, effort) {
            Some(effort)
        } else {
            None
        },
        None => if offers(reasoning, "medium"@) {
            Some("medium"@)
        } else if reasoning.len() > 0 {
            Some(reasoning[0].0)
        } else {
            None
        },
    }
}

/// The model that a raw entry describes, where it is listed, named, and has a
/// believable context window.
pub open spec fn model_of(raw: RawModel, known: Seq<EffortSpelling>) -> Option<ModelSpecView> {
    if opt(raw.visibility) != Some("list"@) || raw.slug is None {
        None
    } else {
        match cleaned(raw.slug->0@, 128) {
            None => None,
            Some(slug) => if raw.context_window is None || raw.context_window->0 == 0
                || raw.context_window->0 > MAX_CONTEXT_WINDOW {
                None
            } else {
                let levels = raw.supported_reasoning_levels@;
                let reasoning = efforts_of(levels, known, levels.len() as int);
                Some(
                    ModelSpecView {
                        slug,
                        display_name: cleaned_or(raw.display_name, 256, slug),
                        description: cleaned_or(raw.description, 1024, seq![]),
                        context_window: raw.context_window->0,
                        default_reasoning: default_effort(
                            opt(raw.default_reasoning_level),
                            reasoning,
                        ),
                        reasoning,
                    },
                )
            },
        }
    }
}

fn offers_of(reasoning: &Vec<ReasoningSpec>, effort: &str) -> (r: bool)
    ensures
        r == offers(reasoning_views(reasoning@), effort@),
{
    let ghost rs = reasoning_views(reasoning@);
    let mut i: usize = 0;
    while i < reasoning.len()
        invariant
            i <= reasoning@.len(),
            rs == reasoning_views(reasoning@),
            forall|k: int| 0 <= k < i ==> (#[trigger] rs[k]).0 != effort@,
        decreases reasoning@.len() - i,
    {
        proof {
            assert(rs[i as int].0 == reasoning@[i as int].effort@);
        }
        if same_str(reasoning[i].effort.as_str(), effort) {
            return true;
        }
        i += 1;
    }
    false
}

fn efforts_of_raw(raw: &Vec<RawReasoning>, known: &Vec<EffortSpelling>) -> (r: Vec<ReasoningSpec>)
    ensures
        reasoning_views(r@) == efforts_of(raw@, known@, raw@.len() as int),
{
    let mut out: Vec<ReasoningSpec> = Vec::new();
    let mut n: usize = 0;
    proof {
        assert(reasoning_views(out@) =~= efforts_of(raw@, known@, 0));
        reveal_strlit("");
        assert(""@ =~= seq![]);
    }
    while n < raw.len()
        invariant
            n <= raw@.len(),
            ""@ == Seq::<char>::empty(),
            reasoning_views(out@) == efforts_of(raw@, known@, n as int),
        decreases raw@.len() - n,
    {
        let item = &raw[n];
        if let Some(effort) = &item.effort {
            if parse_wire_effort(known, effort.as_str()).is_some() && !offers_of(
                &out,
                effort.as_str(),
            ) {
                let spec = ReasoningSpec {
                    effort: effort.clone(),
                    description: clean_or(&item.description, 512, ""),
                };
                proof {
                    assert(reasoning_views(out@.push(spec)) =~= reasoning_views(out@).push(
                        (spec.effort@, spec.description@),
                    ));
                }
                out.push(spec);
            }
        }
        n += 1;
    }
    out
}

fn default_effort_of(named: &Option<String>, reasoning: &Vec<ReasoningSpec>) -> (r: Option<String>)
    ensures
        opt(r) == default_effort(opt(*named), reasoning_views(reasoning@)),
{
    match named {
        Some(effort) => {
            if offers_of(reasoning, effort.as_str()) {
                Some(effort.clone())
            } else {
                None
            }
        },
        None => {
            if offers_of(reasoning, "medium") {
                Some("medium".to_owned())
            } else if reasoning.len() > 0 {
                proof {
                    assert(reasoning_views(reasoning@)[0].0 == reasoning@[0].effort@);
                }
                Some(reasoning[0].effort.clone())
            } else {
                None
            }
        },
    }
}

pub open spec fn opt_spec(o: Option<ModelSpec>) -> Option<ModelSpecView> {
    match o {
        Some(spec) => Some(spec@),
        None => None,
    }
}

pub fn parse_model(raw: &RawModel, known: &Vec<EffortSpelling>) -> (r: Option<ModelSpec>)
    ensures
        opt_spec(r) == model_of(*raw, known@),
{
    let listed = match &raw.visibility {
        Some(visibility) => same_str(visibility.as_str(), "list"),
        None => false,
    };
    if !listed {
        return None;
    }
    let slug = match &raw.slug {
        Some(text) => {
            match clean_text(text.as_str(), 128) {
                Some(slug) => slug,
                None => {
                    return None;
                },
            }
        },
        None => {
            return None;
        },
    };
    let context_window: u64 = match raw.context_window {
        Some(window) => window,
        None => {
            return None;
        },
    };
    if context_window == 0 || context_window > MAX_CONTEXT_WINDOW {
        return None;
    }
    proof {
        reveal_strlit("");
        assert(""@ =~= seq![]);
    }
    let display_name = clean_or(&raw.display_name, 256, slug.as_str());
    let description = clean_or(&raw.description, 1024, "");
    let reasoning = efforts_of_raw(&raw.supported_reasoning_levels, known);
    let default_reasoning = default_effort_of(&raw.default_reasoning_level, &reasoning);
    Some(ModelSpec { slug, display_name, description, context_window, default_reasoning, reasoning })
}

pub open spec fn has_slug(models: Seq<ModelSpecView>, slug: Seq<char>) -> bool {
    exists|i: int| 0 <= i < models.len() && (#[trigger] models[i]).slug == slug
}

/// The models that the first `n` raw entries describe; of several with one slug
/// the first.
pub open spec fn models_of(raw: Seq<RawModel>, known: Seq<EffortSpelling>, n: int) -> Seq<
    ModelSpecView,
>
    decreases n,
{
    if n <= 0 {
        seq![]
    } else {
        let before = models_of(raw, known, n - 1);
        match model_of(raw[n - 1], known) {
            Some(model) => if has_slug(before, model.slug) {
                before
            } else {
                before.push(model)
            },
            None => before,
        }
    }
}

fn has_slug_of(models: &Vec<ModelSpec>, slug: &str) -> (r: bool)
    ensures
        r == has_slug(spec_views(models@), slug@),
{
    let ghost ms = spec_views(models@);
    let mut i: usize = 0;
    while i < models.len()
        invariant
            i <= models@.len(),
            ms == spec_views(models@),
            forall|k: int| 0 <= k < i ==> (#[trigger] ms[k]).slug != slug@,
        decreases models@.len() - i,
    {
        proof {
            assert(ms[i as int] == models@[i as int]@);
        }
        if same_str(models[i].slug.as_str(), slug) {
            return true;
        }
        i += 1;
    }
    false
}

pub fn parse_catalog(raw: &Vec<RawModel>, known: &Vec<EffortSpelling>) -> (r: Vec<ModelSpec>)
    ensures
        spec_views(r@) == models_of(raw@, known@, raw@.len() as int),
{
    let mut out: Vec<ModelSpec> = Vec::new();
    let mut n: usize = 0;
    proof {
        assert(spec_views(out@) =~= models_of(raw@, known@, 0));
    }
    while n < raw.len()
        invariant
            n <= raw@.len(),
            spec_views(out@) == models_of(raw@, known@, n as int),
        decreases raw@.len() - n,
    {
        if let Some(model) = parse_model(&raw[n], known) {
            if !has_slug_of(&out, model.slug.as_str()) {
                proof {
                    assert(spec_views(out@.push(model)) =~= spec_views(out@).push(model@));
                }
                out.push(model);
            }
        }
        n += 1;
    }
    out
}

proof fn lemma_models_of(raw: Seq<RawModel>, known: Seq<EffortSpelling>, n: int)
    requires
        0 <= n <= raw.len(),
    ensures
        forall|i: int|
            0 <= i < models_of(raw, known, n).len() ==> 0 < (#[trigger] models_of(
                raw,
                known,
                n,
            )[i]).context_window <= MAX_CONTEXT_WINDOW && models_of(raw, known, n)[i].slug.len() > 0,
        forall|i: int, j: int|
            0 <= i < j < models_of(raw, known, n).len() ==> (#[trigger] models_of(
                raw,
                known,
                n,
            )[i]).slug != (#[trigger] models_of(raw, known, n)[j]).slug,
    decreases n,
{
    if n > 0 {
        lemma_models_of(raw, known, n - 1);
        let before = models_of(raw, known, n - 1);
        let all = models_of(raw, known, n);
        assert forall|i: int, j: int| 0 <= i < j < all.len() implies (#[trigger] all[i]).slug != (
        #[trigger] all[j]).slug by {
            assert(all[i] == before[i]);
            if j < before.len() {
                assert(all[j] == before[j]);
            } else if all[i].slug == all[j].slug {
                assert(has_slug(before, all[j].slug));
            }
        }
        assert forall|i: int| 0 <= i < all.len() implies 0 < (#[trigger] all[i]).context_window
            <= MAX_CONTEXT_WINDOW && all[i].slug.len() > 0 by {
            if i < before.len() {
                assert(all[i] == before[i]);
            }
        }
    }
}

/// A catalog has no more models than it had raw entries.
pub proof fn lemma_models_bounded(raw: Seq<RawModel>, known: Seq<EffortSpelling>, n: int)
    requires
        0 <= n <= raw.len(),
    ensures
        models_of(raw, known, n).len() <= n,
    decreases n,
{
    if n > 0 {
        lemma_models_bounded(raw, known, n - 1);
    }
}

/// Every model of a catalog has a name and a context window, and no name occurs
/// twice.
pub proof fn law_catalog_is_usable(raw: Seq<RawModel>, known: Seq<EffortSpelling>)
    ensures
        ({
            let models = models_of(raw, known, raw.len() as int);
            &&& forall|i: int|
                0 <= i < models.len() ==> 0 < (#[trigger] models[i]).context_window
                    <= MAX_CONTEXT_WINDOW && models[i].slug.len() > 0
            &&& forall|i: int, j: int|
                0 <= i < j < models.len() ==> (#[trigger] models[i]).slug != (
                #[trigger] models[j]).slug
        }),
{
    lemma_models_of(raw, known, raw.len() as int);
}

proof fn lemma_efforts_are_known(raw: Seq<RawReasoning>, known: Seq<EffortSpelling>, n: int)
    requires
        n <= raw.len(),
    ensures
        forall|i: int|
            0 <= i < efforts_of(raw, known, n).len() ==> effort_spelled(
                known,
                (#[trigger] efforts_of(raw, known, n)[i]).0,
            ) is Some,
    decreases n,
{
    if n > 0 {
        lemma_efforts_are_known(raw, known, n - 1);
    }
}

/// The default effort of a model is one that it offers, and one that can be
/// sent: where the provider's own default cannot be, it is left to the provider.
pub proof fn law_default_effort_can_be_sent(raw: RawModel, known: Seq<EffortSpelling>)
    requires
        model_of(raw, known) is Some,
        model_of(raw, known)->0.default_reasoning is Some,
    ensures
        ({
            let model = model_of(raw, known)->0;
            let effort = model.default_reasoning->0;
            &&& offers(model.reasoning, effort)
            &&& effort_spelled(known, effort) is Some
            &&& raw.default_reasoning_level is Some ==> effort == raw.default_reasoning_level->0@
        }),
{
    let levels = raw.supported_reasoning_levels@;
    lemma_efforts_are_known(levels, known, levels.len() as int);
    let model = model_of(raw, known)->0;
    let effort = model.default_reasoning->0;
    if raw.default_reasoning_level is None && !offers(model.reasoning, "medium"@) {
        assert(model.reasoning[0].0 == effort);
    }
    let i = choose|i: int| 0 <= i < model.reasoning.len() && (#[trigger] model.reasoning[i]).0
        == effort;
    assert(effort_spelled(known, model.reasoning[i].0) is Some);
}

// ---------------------------------------------------------------------------
// What a catalog offers

/// A text of the provider is taken trimmed and up to a number of characters; a
/// blank one, or one with a control character, is not taken.
pub proof fn law_text_of_the_provider_is_clean(value: Seq<char>, max: int)
    requires
        0 <= max,
    ensures
        cleaned(value, max) is None <==> trim(value).len() == 0 || exists|i: int|
            0 <= i < trim(value).len() && is_control(#[trigger] trim(value)[i]),
        cleaned(value, max) is Some && trim(value).len() <= max ==> cleaned(value, max)->0 == trim(
            value,
        ),
        cleaned(value, max) is Some && trim(value).len() > max ==> cleaned(value, max)->0 == trim(
            value,
        ).take(max),
{
}

/// A model is offered exactly where it is listed, has a name that can be shown and
/// a context window that is not empty and not absurd.
pub proof fn law_model_is_offered_where_it_can_be_used(
    raw: RawModel,
    known: Seq<EffortSpelling>,
)
    ensures
        model_of(raw, known) is Some <==> {
            &&& raw.visibility is Some && raw.visibility->0@ == "list"@
            &&& raw.slug is Some && cleaned(raw.slug->0@, 128) is Some
            &&& raw.context_window is Some && 0 < raw.context_window->0 <= 10000000
        },
        model_of(raw, known) is Some ==> {
            let model = model_of(raw, known)->0;
            &&& model.slug == cleaned(raw.slug->0@, 128)->0
            &&& model.context_window == raw.context_window->0
            &&& model.display_name == (if raw.display_name is Some && cleaned(
                raw.display_name->0@,
                256,
            ) is Some {
                cleaned(raw.display_name->0@, 256)->0
            } else {
                model.slug
            })
            &&& model.description == (if raw.description is Some && cleaned(
                raw.description->0@,
                1024,
            ) is Some {
                cleaned(raw.description->0@, 1024)->0
            } else {
                Seq::<char>::empty()
            })
        },
{
}

proof fn lemma_offered(raw: Seq<RawReasoning>, known: Seq<EffortSpelling>, n: int, effort: Seq<char>)
    requires
        0 <= n <= raw.len(),
    ensures
        offers(efforts_of(raw, known, n), effort) <==> effort_spelled(known, effort) is Some
            && exists|k: int|
            0 <= k < n && (#[trigger] raw[k]).effort is Some && raw[k].effort->0@ == effort,
    decreases n,
{
    if n > 0 {
        lemma_offered(raw, known, n - 1, effort);
        let before = efforts_of(raw, known, n - 1);
        let now = efforts_of(raw, known, n);
        if offers(before, effort) {
            let i = choose|i: int| 0 <= i < before.len() && (#[trigger] before[i]).0 == effort;
            assert(now[i].0 == effort);
        }
        if offers(now, effort) && !offers(before, effort) {
            let i = choose|i: int| 0 <= i < now.len() && (#[trigger] now[i]).0 == effort;
            if i < before.len() {
                assert(before[i].0 == effort);
            }
            assert(raw[n - 1].effort is Some && raw[n - 1].effort->0@ == effort);
        }
        if raw[n - 1].effort is Some && raw[n - 1].effort->0@ == effort && effort_spelled(
            known,
            effort,
        ) is Some && !offers(before, effort) {
            assert(now[before.len() as int].0 == effort);
        }
    }
}

/// A model offers every effort that the provider names for it and that can be sent,
/// and no other.
pub proof fn law_efforts_are_those_that_can_be_sent(
    raw: Seq<RawReasoning>,
    known: Seq<EffortSpelling>,
    effort: Seq<char>,
)
    ensures
        offers(efforts_of(raw, known, raw.len() as int), effort) <==> effort_spelled(
            known,
            effort,
        ) is Some && exists|k: int|
            0 <= k < raw.len() && (#[trigger] raw[k]).effort is Some && raw[k].effort->0@ == effort,
{
    lemma_offered(raw, known, raw.len() as int, effort);
}

/// The default effort is the one that the provider names, where it is offered;
/// where it names none, `medium` where that is offered, and else the first.
pub proof fn law_default_effort_is_the_named_one(
    named: Option<Seq<char>>,
    reasoning: Seq<(Seq<char>, Seq<char>)>,
)
    ensures
        named is Some && offers(reasoning, named->0) ==> default_effort(named, reasoning) == named,
        named is Some && !offers(reasoning, named->0) ==> default_effort(named, reasoning) is None,
        named is None && offers(reasoning, "medium"@) ==> default_effort(named, reasoning) == Some(
            "medium"@,
        ),
        named is None && !offers(reasoning, "medium"@) && reasoning.len() > 0 ==> default_effort(
            named,
            reasoning,
        ) == Some(reasoning[0].0),
        named is None && reasoning.len() == 0 ==> default_effort(named, reasoning) is None,
{
}

proof fn lemma_catalog_members(
    raw: Seq<RawModel>,
    known: Seq<EffortSpelling>,
    n: int,
    slug: Seq<char>,
)
    requires
        0 <= n <= raw.len(),
    ensures
        has_slug(models_of(raw, known, n), slug) <==> exists|k: int|
            0 <= k < n && model_of(#[trigger] raw[k], known) is Some && model_of(
                raw[k],
                known,
            )->0.slug == slug,
    decreases n,
{
    if n > 0 {
        lemma_catalog_members(raw, known, n - 1, slug);
        let before = models_of(raw, known, n - 1);
        let now = models_of(raw, known, n);
        if has_slug(before, slug) {
            let i = choose|i: int| 0 <= i < before.len() && (#[trigger] before[i]).slug == slug;
            assert(now[i].slug == slug);
        }
        if has_slug(now, slug) && !has_slug(before, slug) {
            let i = choose|i: int| 0 <= i < now.len() && (#[trigger] now[i]).slug == slug;
            if i < before.len() {
                assert(before[i].slug == slug);
            }
            assert(model_of(raw[n - 1], known) is Some);
        }
        if model_of(raw[n - 1], known) is Some && model_of(raw[n - 1], known)->0.slug == slug
            && !has_slug(before, slug) {
            assert(now[before.len() as int].slug == slug);
        }
    }
}

/// The catalog has every model that is offered, and no other.
pub proof fn law_every_offered_model_is_in_the_catalog(
    raw: Seq<RawModel>,
    known: Seq<EffortSpelling>,
    slug: Seq<char>,
)
    ensures
        has_slug(models_of(raw, known, raw.len() as int), slug) <==> exists|k: int|
            0 <= k < raw.len() && model_of(#[trigger] raw[k], known) is Some && model_of(
                raw[k],
                known,
            )->0.slug == slug,
{
    lemma_catalog_members(raw, known, raw.len() as int, slug);
}

proof fn lemma_effort_found(known: Seq<EffortSpelling>, value: Seq<char>, i: int, k: int)
    requires
        0 <= i <= k < known.len(),
        known[k].spelling@ == value,
        forall|m: int| i <= m < k ==> (#[trigger] known[m]).spelling@ != value,
    ensures
        effort_from(known, value, i) == Some(known[k].effort),
    decreases k - i,
{
    if i < k {
        lemma_effort_found(known, value, i + 1, k);
    }
}

proof fn lemma_effort_unknown(known: Seq<EffortSpelling>, value: Seq<char>, i: int)
    requires
        0 <= i,
        forall|m: int| i <= m < known.len() ==> (#[trigger] known[m]).spelling@ != value,
    ensures
        effort_from(known, value, i) is None,
    decreases known.len() - i,
{
    if i < known.len() {
        lemma_effort_unknown(known, value, i + 1);
    }
}

/// An effort is known by its spelling, exactly, and by the first that fits.
pub proof fn law_effort_is_known_by_its_spelling(
    known: Seq<EffortSpelling>,
    value: Seq<char>,
    k: int,
)
    ensures
        0 <= k < known.len() && known[k].spelling@ == value && (forall|m: int|
            0 <= m < k ==> (#[trigger] known[m]).spelling@ != value) ==> effort_spelled(
            known,
            value,
        ) == Some(known[k].effort),
        (forall|m: int| 0 <= m < known.len() ==> (#[trigger] known[m]).spelling@ != value)
            ==> effort_spelled(known, value) is None,
{
    if 0 <= k < known.len() && known[k].spelling@ == value && (forall|m: int|
        0 <= m < k ==> (#[trigger] known[m]).spelling@ != value) {
        lemma_effort_found(known, value, 0, k);
    }
    if forall|m: int| 0 <= m < known.len() ==> (#[trigger] known[m]).spelling@ != value {
        lemma_effort_unknown(known, value, 0);
    }
}

} // verus!
