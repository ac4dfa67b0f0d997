//! What an objective, and the local files that it names, are about.

use vstd::prelude::*;

use crate::facets::{parse_goal_facets, plan_facets, FacetSet, VerificationFacet};
use crate::paths::{extension, extension_of, is_within, join_path, path_is_within, path_join};
use crate::text::{
    chars_of, contains, is_one_of, is_sorted_set, lemma_sorted_set, lemma_strings_push,
    lemma_texts_push, lower, lower_of, mentions_any, mentions_any_of, one_of, same_str, sorted_set,
    sorted_set_of, split, split_of, starts_with, starts_with_str, strings, strings_of, texts, trim,
    trim_end_by, trim_end_by_of, trim_of, CharClass,
};

verus! {

// ---------------------------------------------------------------------------
// Signals in an objective

pub open spec fn math_signals() -> Seq<&'static str> {
    seq![
        "derive ",
        "derivation",
        "prove that",
        "closed-form",
        "closed form",
        "sympy",
        "\\boxed",
        "boxed answer",
        "boxed final",
        "solve the equation",
        "differential equation",
        "partial differential",
        "eigenvalue",
        "math completion",
        "mathematical derivation",
        "mathematical formulation",
        "quantitative analysis",
        "quantitative research",
        "numerical validation",
        "numerically validate",
        "scientific computation",
        "formulate a model",
        "governing equation",
        "boundary condition",
        "initial value problem",
        "dimensional analysis",
        "adversarial math",
        "compute the integral",
        "evaluate the integral",
        "find the closed form",
        "independent recomputation",
        "mathematical paper",
        "physics paper",
    ]
}

/// Whether a text speaks of mathematics or of a quantitative result.
pub open spec fn suggests_math(text: Seq<char>) -> bool {
    mentions_any(lower(text), math_signals())
}

pub fn objective_suggests_math(objective: &str) -> (r: bool)
    ensures
        r == suggests_math(objective@),
{
    let v = chars_of(objective);
    let o = lower_of(&v);
    let signals = [
        "derive ",
        "derivation",
        "prove that",
        "closed-form",
        "closed form",
        "sympy",
        "\\boxed",
        "boxed answer",
        "boxed final",
        "solve the equation",
        "differential equation",
        "partial differential",
        "eigenvalue",
        "math completion",
        "mathematical derivation",
        "mathematical formulation",
        "quantitative analysis",
        "quantitative research",
        "numerical validation",
        "numerically validate",
        "scientific computation",
        "formulate a model",
        "governing equation",
        "boundary condition",
        "initial value problem",
        "dimensional analysis",
        "adversarial math",
        "compute the integral",
        "evaluate the integral",
        "find the closed form",
        "independent recomputation",
        "mathematical paper",
        "physics paper",
    ];
    proof {
        assert(signals@ =~= math_signals());
    }
    mentions_any_of(&o, &signals)
}

pub open spec fn code_signals() -> Seq<&'static str> {
    seq![
        "implement ",
        "fix the bug",
        "fix a bug",
        "refactor ",
        "modify the code",
        "change the code",
        "update the code",
        "source code",
        "add a feature",
        "add an endpoint",
        "rust crate",
        "cli command",
    ]
}

/// Whether an objective asks for a change of code.
pub open spec fn suggests_code_change(objective: Seq<char>) -> bool {
    mentions_any(lower(objective), code_signals())
}

pub fn objective_suggests_code_change(objective: &str) -> (r: bool)
    ensures
        r == suggests_code_change(objective@),
{
    let v = chars_of(objective);
    let o = lower_of(&v);
    let signals = [
        "implement ",
        "fix the bug",
        "fix a bug",
        "refactor ",
        "modify the code",
        "change the code",
        "update the code",
        "source code",
        "add a feature",
        "add an endpoint",
        "rust crate",
        "cli command",
    ];
    proof {
        assert(signals@ =~= code_signals());
    }
    mentions_any_of(&o, &signals)
}

// ---------------------------------------------------------------------------
// Named files

/// The extensions of files that count as sources.
pub open spec fn source_extensions() -> Seq<&'static str> {
    seq![
        "txt",
        "md",
        "rst",
        "tex",
        "bib",
        "json",
        "yaml",
        "yml",
        "toml",
        "csv",
        "tsv",
        "pdf",
        "docx",
        "ipynb",
        "xlsx",
        "parquet",
        "rs",
        "py",
        "jl",
        "m",
        "c",
        "cpp",
        "h",
        "hpp",
        "f90",
    ]
}

/// Whether a candidate has one of the extensions, in any case.
pub open spec fn names_source(candidate: Seq<char>) -> bool {
    match extension(candidate) {
        Some(ext) => is_one_of(lower(ext), source_extensions()),
        None => false,
    }
}

fn names_source_of(candidate: &Vec<char>) -> (r: bool)
    ensures
        r == names_source(candidate@),
{
    let known = [
        "txt",
        "md",
        "rst",
        "tex",
        "bib",
        "json",
        "yaml",
        "yml",
        "toml",
        "csv",
        "tsv",
        "pdf",
        "docx",
        "ipynb",
        "xlsx",
        "parquet",
        "rs",
        "py",
        "jl",
        "m",
        "c",
        "cpp",
        "h",
        "hpp",
        "f90",
    ];
    proof {
        assert(known@ =~= source_extensions());
    }
    match extension_of(candidate) {
        Some(ext) => one_of(&lower_of(&ext), &known),
        None => false,
    }
}

/// Those of the first `n` pieces at odd positions, trimmed, that name a source.
/// A split at a quotation mark leaves what is quoted at the odd positions.
pub open spec fn quoted_sources(pieces: Seq<Seq<char>>, n: int) -> Seq<Seq<char>>
    decreases n,
{
    if n <= 0 {
        seq![]
    } else {
        let before = quoted_sources(pieces, n - 1);
        let candidate = trim(pieces[n - 1]);
        if (n - 1) % 2 == 1 && names_source(candidate) {
            before.push(candidate)
        } else {
            before
        }
    }
}

pub open spec fn quoted_with(text: Seq<char>, mark: char) -> Seq<Seq<char>> {
    let pieces = split(text, CharClass::Only(mark));
    quoted_sources(pieces, pieces.len() as int)
}

/// Those of the first `n` tokens that name a source once the punctuation at
/// their end is gone.
pub open spec fn token_sources(tokens: Seq<Seq<char>>, n: int) -> Seq<Seq<char>>
    decreases n,
{
    if n <= 0 {
        seq![]
    } else {
        let before = token_sources(tokens, n - 1);
        let candidate = trim_end_by(tokens[n - 1], CharClass::Four('.', ':', '!', '?'));
        if names_source(candidate) {
            before.push(candidate)
        } else {
            before
        }
    }
}

pub open spec fn bare_sources(text: Seq<char>) -> Seq<Seq<char>> {
    let tokens = split(text, CharClass::NotFile);
    token_sources(tokens, tokens.len() as int)
}

/// The files that a text names, in quotation marks or bare, sorted and each
/// once.
pub open spec fn named_sources(text: Seq<char>) -> Seq<Seq<char>> {
    sorted_set(
        quoted_with(text, '"') + quoted_with(text, '\'') + quoted_with(text, '`') + bare_sources(
            text,
        ),
    )
}

fn collect_quoted(out: &mut Vec<Vec<char>>, text: &Vec<char>, mark: char)
    ensures
        texts(final(out)@) == texts(old(out)@) + quoted_with(text@, mark),
{
    broadcast use lemma_texts_push;

    let pieces = split_of(text, CharClass::Only(mark));
    let ghost ps = split(text@, CharClass::Only(mark));
    let mut n: usize = 0;
    proof {
        assert(texts(old(out)@) + quoted_sources(ps, 0) =~= texts(old(out)@));
    }
    while n < pieces.len()
        invariant
            n <= pieces@.len(),
            ps == texts(pieces@),
            texts(out@) == texts(old(out)@) + quoted_sources(ps, n as int),
        decreases pieces@.len() - n,
    {
        proof {
            assert(ps[n as int] == pieces@[n as int]@);
        }
        let candidate = trim_of(&pieces[n]);
        if n % 2 == 1 && names_source_of(&candidate) {
            proof {
                let before = quoted_sources(ps, n as int);
                assert((texts(old(out)@) + before).push(candidate@) =~= texts(old(out)@)
                    + before.push(candidate@));
            }
            out.push(candidate);
        }
        n += 1;
    }
}

fn collect_bare(out: &mut Vec<Vec<char>>, text: &Vec<char>)
    ensures
        texts(final(out)@) == texts(old(out)@) + bare_sources(text@),
{
    broadcast use lemma_texts_push;

    let tokens = split_of(text, CharClass::NotFile);
    let ghost ts = split(text@, CharClass::NotFile);
    let mut n: usize = 0;
    proof {
        assert(texts(old(out)@) + token_sources(ts, 0) =~= texts(old(out)@));
    }
    while n < tokens.len()
        invariant
            n <= tokens@.len(),
            ts == texts(tokens@),
            texts(out@) == texts(old(out)@) + token_sources(ts, n as int),
        decreases tokens@.len() - n,
    {
        proof {
            assert(ts[n as int] == tokens@[n as int]@);
        }
        let candidate = trim_end_by_of(&tokens[n], CharClass::Four('.', ':', '!', '?'));
        if names_source_of(&candidate) {
            proof {
                let before = token_sources(ts, n as int);
                assert((texts(old(out)@) + before).push(candidate@) =~= texts(old(out)@)
                    + before.push(candidate@));
            }
            out.push(candidate);
        }
        n += 1;
    }
}

fn named_sources_of(text: &str) -> (r: Vec<Vec<char>>)
    ensures
        texts(r@) == named_sources(text@),
{
    let v = chars_of(text);
    let mut out: Vec<Vec<char>> = Vec::new();
    collect_quoted(&mut out, &v, '"');
    collect_quoted(&mut out, &v, '\'');
    collect_quoted(&mut out, &v, '`');
    collect_bare(&mut out, &v);
    proof {
        let q = quoted_with(text@, '"');
        assert(texts(Seq::<Vec<char>>::empty()) + q =~= q);
    }
    sorted_set_of(&out)
}

pub fn named_local_source_candidates(text: &str) -> (r: Vec<String>)
    ensures
        strings(r@) == named_sources(text@),
{
    let list = named_sources_of(text);
    strings_of(&list)
}

// ---------------------------------------------------------------------------
// Facets of an objective

/// Whether a text names a file with one of the extensions, in any case.
pub open spec fn names_file_with(text: Seq<char>, extensions: Seq<&str>) -> bool {
    exists|k: int|
        0 <= k < named_sources(text).len() && has_extension_among(
            #[trigger] named_sources(text)[k],
            extensions,
        )
}

pub open spec fn has_extension_among(path: Seq<char>, extensions: Seq<&str>) -> bool {
    match extension(path) {
        Some(ext) => is_one_of(lower(ext), extensions),
        None => false,
    }
}

pub open spec fn authoritative_extensions() -> Seq<&'static str> {
    seq!["pdf", "docx", "tex", "bib", "ipynb", "csv", "tsv", "xlsx", "parquet"]
}

pub open spec fn document_extensions() -> Seq<&'static str> {
    seq!["pdf", "docx", "tex"]
}

pub open spec fn research_signals() -> Seq<&'static str> {
    seq!["research", "literature", "paper", "manuscript"]
}

pub open spec fn empirical_signals() -> Seq<&'static str> {
    seq!["experimental data", "statistical", "regression analysis", "confidence interval"]
}

pub open spec fn source_signals() -> Seq<&'static str> {
    seq!["authoritative source", "cited source", "source material"]
}

pub open spec fn scientific_document_signals() -> Seq<&'static str> {
    seq![
        "paper",
        "manuscript",
        "scientific",
        "mathematical",
        "physics",
        "derive",
        "formulate",
    ]
}

pub open spec fn citation_signals() -> Seq<&'static str> {
    seq!["citation", "bibliography", "cited"]
}

pub open spec fn render_signals() -> Seq<&'static str> {
    seq!["render", "compile the paper", "compiled pdf", "paper", "manuscript"]
}

/// Whether the objective itself calls for a facet. `sources_are_math` says
/// whether the files that it names were found to be about mathematics.
pub open spec fn objective_calls_for(
    objective: Seq<char>,
    plan: Seq<char>,
    sources_are_math: bool,
    facet: VerificationFacet,
) -> bool {
    let o = lower(objective);
    match facet {
        VerificationFacet::Code => suggests_code_change(objective),
        VerificationFacet::Math => suggests_math(objective) || sources_are_math || suggests_math(
            plan,
        ) || mentions_any(o, empirical_signals()) || (names_file_with(
            objective,
            document_extensions(),
        ) && mentions_any(o, scientific_document_signals())),
        VerificationFacet::Research => mentions_any(o, research_signals()),
        VerificationFacet::Empirical => mentions_any(o, empirical_signals()),
        VerificationFacet::Sources => names_file_with(objective, authoritative_extensions())
            || mentions_any(o, source_signals()),
        VerificationFacet::Citations => mentions_any(o, citation_signals()),
        VerificationFacet::DocumentRender => mentions_any(o, render_signals()),
        VerificationFacet::Analysis => false,
        VerificationFacet::StateRegression => false,
    }
}

/// The facets that the plan declares or the objective calls for.
pub open spec fn found_facets(
    objective: Seq<char>,
    plan: Seq<char>,
    sources_are_math: bool,
) -> Set<VerificationFacet> {
    Set::new(
        |f: VerificationFacet|
            plan_facets(plan).contains(f) || objective_calls_for(
                objective,
                plan,
                sources_are_math,
                f,
            ),
    )
}

/// The facets of a goal: those found, analysis where none is found, and state
/// regression always.
pub open spec fn goal_facets(
    objective: Seq<char>,
    plan: Seq<char>,
    sources_are_math: bool,
) -> Set<VerificationFacet> {
    let found = found_facets(objective, plan, sources_are_math);
    if found == Set::<VerificationFacet>::empty() {
        found.insert(VerificationFacet::Analysis).insert(VerificationFacet::StateRegression)
    } else {
        found.insert(VerificationFacet::StateRegression)
    }
}

fn names_file_with_of(sources: &Vec<Vec<char>>, extensions: &[&str]) -> (r: bool)
    ensures
        r == (exists|k: int|
            0 <= k < texts(sources@).len() && has_extension_among(
                #[trigger] texts(sources@)[k],
                extensions@,
            )),
{
    let ghost ts = texts(sources@);
    let mut k: usize = 0;
    while k < sources.len()
        invariant
            k <= sources@.len(),
            ts == texts(sources@),
            forall|m: int|
                0 <= m < k ==> !has_extension_among(#[trigger] ts[m], extensions@),
        decreases sources@.len() - k,
    {
        proof {
            assert(ts[k as int] == sources@[k as int]@);
        }
        if let Some(ext) = extension_of(&sources[k]) {
            if one_of(&lower_of(&ext), extensions) {
                return true;
            }
        }
        k += 1;
    }
    false
}

/// Determines the facets of a goal. `sources_are_math` is the outcome of the
/// crawl through the files that the objective names.
pub fn classify_facets(objective: &str, plan: &str, sources_are_math: bool) -> (r: FacetSet)
    ensures
        r@ == goal_facets(objective@, plan@, sources_are_math),
{
    let mut facets = parse_goal_facets(plan);
    let v = chars_of(objective);
    let o = lower_of(&v);
    let sources = named_sources_of(objective);
    let authoritative = ["pdf", "docx", "tex", "bib", "ipynb", "csv", "tsv", "xlsx", "parquet"];
    let documents = ["pdf", "docx", "tex"];
    let research = ["research", "literature", "paper", "manuscript"];
    let empirical = [
        "experimental data",
        "statistical",
        "regression analysis",
        "confidence interval",
    ];
    let material = ["authoritative source", "cited source", "source material"];
    let scientific = [
        "paper",
        "manuscript",
        "scientific",
        "mathematical",
        "physics",
        "derive",
        "formulate",
    ];
    let citation = ["citation", "bibliography", "cited"];
    let render = ["render", "compile the paper", "compiled pdf", "paper", "manuscript"];
    proof {
        assert(authoritative@ =~= authoritative_extensions());
        assert(documents@ =~= document_extensions());
        assert(research@ =~= research_signals());
        assert(empirical@ =~= empirical_signals());
        assert(material@ =~= source_signals());
        assert(scientific@ =~= scientific_document_signals());
        assert(citation@ =~= citation_signals());
        assert(render@ =~= render_signals());
    }
    if objective_suggests_code_change(objective) {
        facets.insert(VerificationFacet::Code);
    }
    if objective_suggests_math(objective) || sources_are_math || objective_suggests_math(plan) {
        facets.insert(VerificationFacet::Math);
    }
    if mentions_any_of(&o, &research) {
        facets.insert(VerificationFacet::Research);
    }
    if mentions_any_of(&o, &empirical) {
        facets.insert(VerificationFacet::Empirical);
        facets.insert(VerificationFacet::Math);
    }
    if names_file_with_of(&sources, &authoritative) || mentions_any_of(&o, &material) {
        facets.insert(VerificationFacet::Sources);
    }
    if names_file_with_of(&sources, &documents) && mentions_any_of(&o, &scientific) {
        facets.insert(VerificationFacet::Math);
    }
    if mentions_any_of(&o, &citation) {
        facets.insert(VerificationFacet::Citations);
    }
    if mentions_any_of(&o, &render) {
        facets.insert(VerificationFacet::DocumentRender);
    }
    proof {
        assert(facets@ =~= found_facets(objective@, plan@, sources_are_math));
    }
    if facets.is_empty() {
        facets.insert(VerificationFacet::Analysis);
    }
    facets.insert(VerificationFacet::StateRegression);
    facets
}

/// Every goal is checked for state regression and for one facet besides,
/// unless its plan declares state regression alone.
pub proof fn law_goal_facets_are_never_idle(
    objective: Seq<char>,
    plan: Seq<char>,
    sources_are_math: bool,
)
    ensures
        goal_facets(objective, plan, sources_are_math).contains(VerificationFacet::StateRegression),
        plan_facets(plan).subset_of(goal_facets(objective, plan, sources_are_math)),
        (forall|f: VerificationFacet|
            #[trigger] goal_facets(objective, plan, sources_are_math).contains(f) ==> f
                == VerificationFacet::StateRegression) ==> plan_facets(plan).contains(
            VerificationFacet::StateRegression,
        ),
{
    let all = goal_facets(objective, plan, sources_are_math);
    let found = found_facets(objective, plan, sources_are_math);
    if found == Set::<VerificationFacet>::empty() {
        assert(all.contains(VerificationFacet::Analysis));
    } else {
        let f = choose|f: VerificationFacet| found.contains(f);
        if forall|g: VerificationFacet| !found.contains(g) {
            assert(found =~= Set::empty());
        }
        assert(found.contains(f));
        assert(all.contains(f));
    }
    assert forall|f: VerificationFacet| plan_facets(plan).contains(f) implies all.contains(f) by {
        assert(found.contains(f));
    }
}

// ---------------------------------------------------------------------------
// What calls for which facet

/// The words by which an objective asks for a change of code.
pub proof fn law_words_of_a_code_change(text: Seq<char>)
    ensures
        mentions_any(text, code_signals()) <==> {
            ||| contains(text, "implement "@)
            ||| contains(text, "fix the bug"@)
            ||| contains(text, "fix a bug"@)
            ||| contains(text, "refactor "@)
            ||| contains(text, "modify the code"@)
            ||| contains(text, "change the code"@)
            ||| contains(text, "update the code"@)
            ||| contains(text, "source code"@)
            ||| contains(text, "add a feature"@)
            ||| contains(text, "add an endpoint"@)
            ||| contains(text, "rust crate"@)
            ||| contains(text, "cli command"@)
        },
{
    let all = code_signals();
    assert(all.len() == 12);
    assert(all[0] == "implement ");
    assert(all[1] == "fix the bug");
    assert(all[2] == "fix a bug");
    assert(all[3] == "refactor ");
    assert(all[4] == "modify the code");
    assert(all[5] == "change the code");
    assert(all[6] == "update the code");
    assert(all[7] == "source code");
    assert(all[8] == "add a feature");
    assert(all[9] == "add an endpoint");
    assert(all[10] == "rust crate");
    assert(all[11] == "cli command");
    if mentions_any(text, all) {
        let k = choose|k: int| 0 <= k < all.len() && contains(text, #[trigger] all[k]@);
        assert(contains(text, all[k]@));
    }
}

/// The words by which a text speaks of mathematics.
pub proof fn law_words_of_mathematics(text: Seq<char>)
    ensures
        mentions_any(text, math_signals()) <==> {
            ||| contains(text, "derive "@)
            ||| contains(text, "derivation"@)
            ||| contains(text, "prove that"@)
            ||| contains(text, "closed-form"@)
            ||| contains(text, "closed form"@)
            ||| contains(text, "sympy"@)
            ||| contains(text, "\\boxed"@)
            ||| contains(text, "boxed answer"@)
            ||| contains(text, "boxed final"@)
            ||| contains(text, "solve the equation"@)
            ||| contains(text, "differential equation"@)
            ||| contains(text, "partial differential"@)
            ||| contains(text, "eigenvalue"@)
            ||| contains(text, "math completion"@)
            ||| contains(text, "mathematical derivation"@)
            ||| contains(text, "mathematical formulation"@)
            ||| contains(text, "quantitative analysis"@)
            ||| contains(text, "quantitative research"@)
            ||| contains(text, "numerical validation"@)
            ||| contains(text, "numerically validate"@)
            ||| contains(text, "scientific computation"@)
            ||| contains(text, "formulate a model"@)
            ||| contains(text, "governing equation"@)
            ||| contains(text, "boundary condition"@)
            ||| contains(text, "initial value problem"@)
            ||| contains(text, "dimensional analysis"@)
            ||| contains(text, "adversarial math"@)
            ||| contains(text, "compute the integral"@)
            ||| contains(text, "evaluate the integral"@)
            ||| contains(text, "find the closed form"@)
            ||| contains(text, "independent recomputation"@)
            ||| contains(text, "mathematical paper"@)
            ||| contains(text, "physics paper"@)
        },
{
    let all = math_signals();
    assert(all.len() == 33);
    assert(all[0] == "derive ");
    assert(all[1] == "derivation");
    assert(all[2] == "prove that");
    assert(all[3] == "closed-form");
    assert(all[4] == "closed form");
    assert(all[5] == "sympy");
    assert(all[6] == "\\boxed");
    assert(all[7] == "boxed answer");
    assert(all[8] == "boxed final");
    assert(all[9] == "solve the equation");
    assert(all[10] == "differential equation");
    assert(all[11] == "partial differential");
    assert(all[12] == "eigenvalue");
    assert(all[13] == "math completion");
    assert(all[14] == "mathematical derivation");
    assert(all[15] == "mathematical formulation");
    assert(all[16] == "quantitative analysis");
    assert(all[17] == "quantitative research");
    assert(all[18] == "numerical validation");
    assert(all[19] == "numerically validate");
    assert(all[20] == "scientific computation");
    assert(all[21] == "formulate a model");
    assert(all[22] == "governing equation");
    assert(all[23] == "boundary condition");
    assert(all[24] == "initial value problem");
    assert(all[25] == "dimensional analysis");
    assert(all[26] == "adversarial math");
    assert(all[27] == "compute the integral");
    assert(all[28] == "evaluate the integral");
    assert(all[29] == "find the closed form");
    assert(all[30] == "independent recomputation");
    assert(all[31] == "mathematical paper");
    assert(all[32] == "physics paper");
    if mentions_any(text, all) {
        let k = choose|k: int| 0 <= k < all.len() && contains(text, #[trigger] all[k]@);
        assert(contains(text, all[k]@));
    }
}

/// The words by which an objective asks for research.
pub proof fn law_words_of_research(text: Seq<char>)
    ensures
        mentions_any(text, research_signals()) <==> {
            ||| contains(text, "research"@)
            ||| contains(text, "literature"@)
            ||| contains(text, "paper"@)
            ||| contains(text, "manuscript"@)
        },
{
    let all = research_signals();
    assert(all.len() == 4);
    assert(all[0] == "research");
    assert(all[1] == "literature");
    assert(all[2] == "paper");
    assert(all[3] == "manuscript");
    if mentions_any(text, all) {
        let k = choose|k: int| 0 <= k < all.len() && contains(text, #[trigger] all[k]@);
        assert(contains(text, all[k]@));
    }
}

/// The words by which an objective asks for empirical work.
pub proof fn law_words_of_empirical_work(text: Seq<char>)
    ensures
        mentions_any(text, empirical_signals()) <==> {
            ||| contains(text, "experimental data"@)
            ||| contains(text, "statistical"@)
            ||| contains(text, "regression analysis"@)
            ||| contains(text, "confidence interval"@)
        },
{
    let all = empirical_signals();
    assert(all.len() == 4);
    assert(all[0] == "experimental data");
    assert(all[1] == "statistical");
    assert(all[2] == "regression analysis");
    assert(all[3] == "confidence interval");
    if mentions_any(text, all) {
        let k = choose|k: int| 0 <= k < all.len() && contains(text, #[trigger] all[k]@);
        assert(contains(text, all[k]@));
    }
}

/// The words by which an objective points to source material.
pub proof fn law_words_of_source_material(text: Seq<char>)
    ensures
        mentions_any(text, source_signals()) <==> {
            ||| contains(text, "authoritative source"@)
            ||| contains(text, "cited source"@)
            ||| contains(text, "source material"@)
        },
{
    let all = source_signals();
    assert(all.len() == 3);
    assert(all[0] == "authoritative source");
    assert(all[1] == "cited source");
    assert(all[2] == "source material");
    if mentions_any(text, all) {
        let k = choose|k: int| 0 <= k < all.len() && contains(text, #[trigger] all[k]@);
        assert(contains(text, all[k]@));
    }
}

/// The words by which an objective is about a scientific document.
pub proof fn law_words_of_a_scientific_document(text: Seq<char>)
    ensures
        mentions_any(text, scientific_document_signals()) <==> {
            ||| contains(text, "paper"@)
            ||| contains(text, "manuscript"@)
            ||| contains(text, "scientific"@)
            ||| contains(text, "mathematical"@)
            ||| contains(text, "physics"@)
            ||| contains(text, "derive"@)
            ||| contains(text, "formulate"@)
        },
{
    let all = scientific_document_signals();
    assert(all.len() == 7);
    assert(all[0] == "paper");
    assert(all[1] == "manuscript");
    assert(all[2] == "scientific");
    assert(all[3] == "mathematical");
    assert(all[4] == "physics");
    assert(all[5] == "derive");
    assert(all[6] == "formulate");
    if mentions_any(text, all) {
        let k = choose|k: int| 0 <= k < all.len() && contains(text, #[trigger] all[k]@);
        assert(contains(text, all[k]@));
    }
}

/// The words by which an objective is about citations.
pub proof fn law_words_of_citations(text: Seq<char>)
    ensures
        mentions_any(text, citation_signals()) <==> {
            ||| contains(text, "citation"@)
            ||| contains(text, "bibliography"@)
            ||| contains(text, "cited"@)
        },
{
    let all = citation_signals();
    assert(all.len() == 3);
    assert(all[0] == "citation");
    assert(all[1] == "bibliography");
    assert(all[2] == "cited");
    if mentions_any(text, all) {
        let k = choose|k: int| 0 <= k < all.len() && contains(text, #[trigger] all[k]@);
        assert(contains(text, all[k]@));
    }
}

/// The words by which an objective is about a rendered document.
pub proof fn law_words_of_a_rendered_document(text: Seq<char>)
    ensures
        mentions_any(text, render_signals()) <==> {
            ||| contains(text, "render"@)
            ||| contains(text, "compile the paper"@)
            ||| contains(text, "compiled pdf"@)
            ||| contains(text, "paper"@)
            ||| contains(text, "manuscript"@)
        },
{
    let all = render_signals();
    assert(all.len() == 5);
    assert(all[0] == "render");
    assert(all[1] == "compile the paper");
    assert(all[2] == "compiled pdf");
    assert(all[3] == "paper");
    assert(all[4] == "manuscript");
    if mentions_any(text, all) {
        let k = choose|k: int| 0 <= k < all.len() && contains(text, #[trigger] all[k]@);
        assert(contains(text, all[k]@));
    }
}

/// The extensions, in lower case, of files that count as sources.
pub proof fn law_extensions_of_sources(text: Seq<char>)
    ensures
        is_one_of(text, source_extensions()) <==> {
            ||| text == "txt"@
            ||| text == "md"@
            ||| text == "rst"@
            ||| text == "tex"@
            ||| text == "bib"@
            ||| text == "json"@
            ||| text == "yaml"@
            ||| text == "yml"@
            ||| text == "toml"@
            ||| text == "csv"@
            ||| text == "tsv"@
            ||| text == "pdf"@
            ||| text == "docx"@
            ||| text == "ipynb"@
            ||| text == "xlsx"@
            ||| text == "parquet"@
            ||| text == "rs"@
            ||| text == "py"@
            ||| text == "jl"@
            ||| text == "m"@
            ||| text == "c"@
            ||| text == "cpp"@
            ||| text == "h"@
            ||| text == "hpp"@
            ||| text == "f90"@
        },
{
    let all = source_extensions();
    assert(all.len() == 25);
    assert(all[0] == "txt");
    assert(all[1] == "md");
    assert(all[2] == "rst");
    assert(all[3] == "tex");
    assert(all[4] == "bib");
    assert(all[5] == "json");
    assert(all[6] == "yaml");
    assert(all[7] == "yml");
    assert(all[8] == "toml");
    assert(all[9] == "csv");
    assert(all[10] == "tsv");
    assert(all[11] == "pdf");
    assert(all[12] == "docx");
    assert(all[13] == "ipynb");
    assert(all[14] == "xlsx");
    assert(all[15] == "parquet");
    assert(all[16] == "rs");
    assert(all[17] == "py");
    assert(all[18] == "jl");
    assert(all[19] == "m");
    assert(all[20] == "c");
    assert(all[21] == "cpp");
    assert(all[22] == "h");
    assert(all[23] == "hpp");
    assert(all[24] == "f90");
    if is_one_of(text, all) {
        let k = choose|k: int| 0 <= k < all.len() && text == #[trigger] all[k]@;
        assert(text == all[k]@);
    }
}

/// The extensions, in lower case, of files that are authoritative.
pub proof fn law_extensions_of_authoritative_files(text: Seq<char>)
    ensures
        is_one_of(text, authoritative_extensions()) <==> {
            ||| text == "pdf"@
            ||| text == "docx"@
            ||| text == "tex"@
            ||| text == "bib"@
            ||| text == "ipynb"@
            ||| text == "csv"@
            ||| text == "tsv"@
            ||| text == "xlsx"@
            ||| text == "parquet"@
        },
{
    let all = authoritative_extensions();
    assert(all.len() == 9);
    assert(all[0] == "pdf");
    assert(all[1] == "docx");
    assert(all[2] == "tex");
    assert(all[3] == "bib");
    assert(all[4] == "ipynb");
    assert(all[5] == "csv");
    assert(all[6] == "tsv");
    assert(all[7] == "xlsx");
    assert(all[8] == "parquet");
    if is_one_of(text, all) {
        let k = choose|k: int| 0 <= k < all.len() && text == #[trigger] all[k]@;
        assert(text == all[k]@);
    }
}

/// The extensions, in lower case, of files that are documents.
pub proof fn law_extensions_of_documents(text: Seq<char>)
    ensures
        is_one_of(text, document_extensions()) <==> {
            ||| text == "pdf"@
            ||| text == "docx"@
            ||| text == "tex"@
        },
{
    let all = document_extensions();
    assert(all.len() == 3);
    assert(all[0] == "pdf");
    assert(all[1] == "docx");
    assert(all[2] == "tex");
    if is_one_of(text, all) {
        let k = choose|k: int| 0 <= k < all.len() && text == #[trigger] all[k]@;
        assert(text == all[k]@);
    }
}

/// A goal is reviewed as code exactly where its plan says so or its objective asks
/// for a change of code, whatever else it is about.
pub proof fn law_change_of_code_is_reviewed_as_code(
    objective: Seq<char>,
    plan: Seq<char>,
    sources_are_math: bool,
)
    ensures
        goal_facets(objective, plan, sources_are_math).contains(VerificationFacet::Code) <==> {
            ||| plan_facets(plan).contains(VerificationFacet::Code)
            ||| contains(lower(objective), "implement "@)
            ||| contains(lower(objective), "fix the bug"@)
            ||| contains(lower(objective), "fix a bug"@)
            ||| contains(lower(objective), "refactor "@)
            ||| contains(lower(objective), "modify the code"@)
            ||| contains(lower(objective), "change the code"@)
            ||| contains(lower(objective), "update the code"@)
            ||| contains(lower(objective), "source code"@)
            ||| contains(lower(objective), "add a feature"@)
            ||| contains(lower(objective), "add an endpoint"@)
            ||| contains(lower(objective), "rust crate"@)
            ||| contains(lower(objective), "cli command"@)
        },
{
    let found = found_facets(objective, plan, sources_are_math);
    if found == Set::<VerificationFacet>::empty() {
        assert(!found.contains(VerificationFacet::Code));
    }
    law_words_of_a_code_change(lower(objective));
}

/// A goal is reviewed as research exactly where its plan or its objective says so.
pub proof fn law_research_is_reviewed_as_research(
    objective: Seq<char>,
    plan: Seq<char>,
    sources_are_math: bool,
)
    ensures
        goal_facets(objective, plan, sources_are_math).contains(VerificationFacet::Research) <==> {
            ||| plan_facets(plan).contains(VerificationFacet::Research)
            ||| contains(lower(objective), "research"@)
            ||| contains(lower(objective), "literature"@)
            ||| contains(lower(objective), "paper"@)
            ||| contains(lower(objective), "manuscript"@)
        },
{
    let found = found_facets(objective, plan, sources_are_math);
    if found == Set::<VerificationFacet>::empty() {
        assert(!found.contains(VerificationFacet::Research));
    }
    law_words_of_research(lower(objective));
}

/// A goal is reviewed as empirical work exactly where its plan or its objective says
/// so.
pub proof fn law_empirical_work_is_reviewed_as_such(
    objective: Seq<char>,
    plan: Seq<char>,
    sources_are_math: bool,
)
    ensures
        goal_facets(objective, plan, sources_are_math).contains(VerificationFacet::Empirical) <==> {
            ||| plan_facets(plan).contains(VerificationFacet::Empirical)
            ||| contains(lower(objective), "experimental data"@)
            ||| contains(lower(objective), "statistical"@)
            ||| contains(lower(objective), "regression analysis"@)
            ||| contains(lower(objective), "confidence interval"@)
        },
{
    let found = found_facets(objective, plan, sources_are_math);
    if found == Set::<VerificationFacet>::empty() {
        assert(!found.contains(VerificationFacet::Empirical));
    }
    law_words_of_empirical_work(lower(objective));
}

/// The citations of a goal are reviewed exactly where its plan or its objective speaks
/// of them.
pub proof fn law_citations_are_reviewed(
    objective: Seq<char>,
    plan: Seq<char>,
    sources_are_math: bool,
)
    ensures
        goal_facets(objective, plan, sources_are_math).contains(VerificationFacet::Citations) <==> {
            ||| plan_facets(plan).contains(VerificationFacet::Citations)
            ||| contains(lower(objective), "citation"@)
            ||| contains(lower(objective), "bibliography"@)
            ||| contains(lower(objective), "cited"@)
        },
{
    let found = found_facets(objective, plan, sources_are_math);
    if found == Set::<VerificationFacet>::empty() {
        assert(!found.contains(VerificationFacet::Citations));
    }
    law_words_of_citations(lower(objective));
}

/// The rendering of a document is reviewed exactly where the plan or the objective
/// speaks of it.
pub proof fn law_rendered_documents_are_reviewed(
    objective: Seq<char>,
    plan: Seq<char>,
    sources_are_math: bool,
)
    ensures
        goal_facets(objective, plan, sources_are_math).contains(VerificationFacet::DocumentRender) <==> {
            ||| plan_facets(plan).contains(VerificationFacet::DocumentRender)
            ||| contains(lower(objective), "render"@)
            ||| contains(lower(objective), "compile the paper"@)
            ||| contains(lower(objective), "compiled pdf"@)
            ||| contains(lower(objective), "paper"@)
            ||| contains(lower(objective), "manuscript"@)
        },
{
    let found = found_facets(objective, plan, sources_are_math);
    if found == Set::<VerificationFacet>::empty() {
        assert(!found.contains(VerificationFacet::DocumentRender));
    }
    law_words_of_a_rendered_document(lower(objective));
}

/// The sources of a goal are reviewed exactly where its plan says so, its objective
/// names an authoritative file or it points to source material.
pub proof fn law_sources_are_reviewed(
    objective: Seq<char>,
    plan: Seq<char>,
    sources_are_math: bool,
)
    ensures
        goal_facets(objective, plan, sources_are_math).contains(VerificationFacet::Sources) <==> {
            ||| plan_facets(plan).contains(VerificationFacet::Sources)
            ||| contains(lower(objective), "authoritative source"@)
            ||| contains(lower(objective), "cited source"@)
            ||| contains(lower(objective), "source material"@)
            ||| exists|k: int|
                0 <= k < named_sources(objective).len() && extension(
                    #[trigger] named_sources(objective)[k],
                ) is Some && {
                        ||| lower(extension(named_sources(objective)[k])->0) == "pdf"@
                        ||| lower(extension(named_sources(objective)[k])->0) == "docx"@
                        ||| lower(extension(named_sources(objective)[k])->0) == "tex"@
                        ||| lower(extension(named_sources(objective)[k])->0) == "bib"@
                        ||| lower(extension(named_sources(objective)[k])->0) == "ipynb"@
                        ||| lower(extension(named_sources(objective)[k])->0) == "csv"@
                        ||| lower(extension(named_sources(objective)[k])->0) == "tsv"@
                        ||| lower(extension(named_sources(objective)[k])->0) == "xlsx"@
                        ||| lower(extension(named_sources(objective)[k])->0) == "parquet"@
                    }
        },
{
    let found = found_facets(objective, plan, sources_are_math);
    if found == Set::<VerificationFacet>::empty() {
        assert(!found.contains(VerificationFacet::Sources));
    }
    law_words_of_source_material(lower(objective));
    assert(names_file_with(objective, authoritative_extensions()) <==> exists|k: int|
                0 <= k < named_sources(objective).len() && extension(
                    #[trigger] named_sources(objective)[k],
                ) is Some && {
                        ||| lower(extension(named_sources(objective)[k])->0) == "pdf"@
                        ||| lower(extension(named_sources(objective)[k])->0) == "docx"@
                        ||| lower(extension(named_sources(objective)[k])->0) == "tex"@
                        ||| lower(extension(named_sources(objective)[k])->0) == "bib"@
                        ||| lower(extension(named_sources(objective)[k])->0) == "ipynb"@
                        ||| lower(extension(named_sources(objective)[k])->0) == "csv"@
                        ||| lower(extension(named_sources(objective)[k])->0) == "tsv"@
                        ||| lower(extension(named_sources(objective)[k])->0) == "xlsx"@
                        ||| lower(extension(named_sources(objective)[k])->0) == "parquet"@
                    }) by {
        let names = named_sources(objective);
        assert forall|k: int| 0 <= k < names.len() && extension(
            #[trigger] names[k],
        ) is Some implies has_extension_among(names[k], authoritative_extensions()) == is_one_of(
            lower(extension(names[k])->0),
            authoritative_extensions(),
        ) by {}
        if names_file_with(objective, authoritative_extensions()) {
            let k = choose|k: int|
                0 <= k < names.len() && has_extension_among(
                    #[trigger] names[k],
                    authoritative_extensions(),
                );
            law_extensions_of_authoritative_files(lower(extension(names[k])->0));
            assert(extension(names[k]) is Some);
        }
        if exists|k: int|
                0 <= k < named_sources(objective).len() && extension(
                    #[trigger] named_sources(objective)[k],
                ) is Some && {
                        ||| lower(extension(named_sources(objective)[k])->0) == "pdf"@
                        ||| lower(extension(named_sources(objective)[k])->0) == "docx"@
                        ||| lower(extension(named_sources(objective)[k])->0) == "tex"@
                        ||| lower(extension(named_sources(objective)[k])->0) == "bib"@
                        ||| lower(extension(named_sources(objective)[k])->0) == "ipynb"@
                        ||| lower(extension(named_sources(objective)[k])->0) == "csv"@
                        ||| lower(extension(named_sources(objective)[k])->0) == "tsv"@
                        ||| lower(extension(named_sources(objective)[k])->0) == "xlsx"@
                        ||| lower(extension(named_sources(objective)[k])->0) == "parquet"@
                    } {
            let k = choose|k: int|
                0 <= k < names.len() && extension(#[trigger] names[k]) is Some && {
                        ||| lower(extension(names[k])->0) == "pdf"@
                        ||| lower(extension(names[k])->0) == "docx"@
                        ||| lower(extension(names[k])->0) == "tex"@
                        ||| lower(extension(names[k])->0) == "bib"@
                        ||| lower(extension(names[k])->0) == "ipynb"@
                        ||| lower(extension(names[k])->0) == "csv"@
                        ||| lower(extension(names[k])->0) == "tsv"@
                        ||| lower(extension(names[k])->0) == "xlsx"@
                        ||| lower(extension(names[k])->0) == "parquet"@
                    };
            law_extensions_of_authoritative_files(lower(extension(names[k])->0));
            assert(has_extension_among(names[k], authoritative_extensions()));
        }
    }
}

/// A goal is reviewed as mathematics exactly where its plan says so, where its
/// objective, its plan or its sources speak of mathematics, where it is empirical
/// work, or where it is about a scientific document that it names.
pub proof fn law_mathematics_is_reviewed_as_mathematics(
    objective: Seq<char>,
    plan: Seq<char>,
    sources_are_math: bool,
)
    ensures
        goal_facets(objective, plan, sources_are_math).contains(VerificationFacet::Math) <==> {
            ||| plan_facets(plan).contains(VerificationFacet::Math)
            ||| sources_are_math
            ||| suggests_math(objective)
            ||| suggests_math(plan)
            ||| contains(lower(objective), "experimental data"@)
            ||| contains(lower(objective), "statistical"@)
            ||| contains(lower(objective), "regression analysis"@)
            ||| contains(lower(objective), "confidence interval"@)
            ||| (exists|k: int|
                0 <= k < named_sources(objective).len() && extension(
                    #[trigger] named_sources(objective)[k],
                ) is Some && {
                        ||| lower(extension(named_sources(objective)[k])->0) == "pdf"@
                        ||| lower(extension(named_sources(objective)[k])->0) == "docx"@
                        ||| lower(extension(named_sources(objective)[k])->0) == "tex"@
                    }) && (contains(lower(objective), "paper"@) || contains(lower(objective), "manuscript"@) || contains(lower(objective), "scientific"@) || contains(lower(objective), "mathematical"@) || contains(lower(objective), "physics"@) || contains(lower(objective), "derive"@) || contains(lower(objective), "formulate"@))
        },
{
    let found = found_facets(objective, plan, sources_are_math);
    if found == Set::<VerificationFacet>::empty() {
        assert(!found.contains(VerificationFacet::Math));
    }
    law_words_of_empirical_work(lower(objective));
    law_words_of_a_scientific_document(lower(objective));
    assert(names_file_with(objective, document_extensions()) <==> exists|k: int|
                0 <= k < named_sources(objective).len() && extension(
                    #[trigger] named_sources(objective)[k],
                ) is Some && {
                        ||| lower(extension(named_sources(objective)[k])->0) == "pdf"@
                        ||| lower(extension(named_sources(objective)[k])->0) == "docx"@
                        ||| lower(extension(named_sources(objective)[k])->0) == "tex"@
                    }) by {
        let names = named_sources(objective);
        assert forall|k: int| 0 <= k < names.len() && extension(
            #[trigger] names[k],
        ) is Some implies has_extension_among(names[k], document_extensions()) == is_one_of(
            lower(extension(names[k])->0),
            document_extensions(),
        ) by {}
        if names_file_with(objective, document_extensions()) {
            let k = choose|k: int|
                0 <= k < names.len() && has_extension_among(
                    #[trigger] names[k],
                    document_extensions(),
                );
            law_extensions_of_documents(lower(extension(names[k])->0));
            assert(extension(names[k]) is Some);
        }
        if exists|k: int|
                0 <= k < named_sources(objective).len() && extension(
                    #[trigger] named_sources(objective)[k],
                ) is Some && {
                        ||| lower(extension(named_sources(objective)[k])->0) == "pdf"@
                        ||| lower(extension(named_sources(objective)[k])->0) == "docx"@
                        ||| lower(extension(named_sources(objective)[k])->0) == "tex"@
                    } {
            let k = choose|k: int|
                0 <= k < names.len() && extension(#[trigger] names[k]) is Some && {
                        ||| lower(extension(names[k])->0) == "pdf"@
                        ||| lower(extension(names[k])->0) == "docx"@
                        ||| lower(extension(names[k])->0) == "tex"@
                    };
            law_extensions_of_documents(lower(extension(names[k])->0));
            assert(has_extension_among(names[k], document_extensions()));
        }
    }
}

/// A text speaks of mathematics exactly where it holds, in any case, one of these
/// words.
pub proof fn law_mathematics_is_recognized_in_any_case(text: Seq<char>)
    ensures
        suggests_math(text) <==> {
            ||| contains(lower(text), "derive "@)
            ||| contains(lower(text), "derivation"@)
            ||| contains(lower(text), "prove that"@)
            ||| contains(lower(text), "closed-form"@)
            ||| contains(lower(text), "closed form"@)
            ||| contains(lower(text), "sympy"@)
            ||| contains(lower(text), "\\boxed"@)
            ||| contains(lower(text), "boxed answer"@)
            ||| contains(lower(text), "boxed final"@)
            ||| contains(lower(text), "solve the equation"@)
            ||| contains(lower(text), "differential equation"@)
            ||| contains(lower(text), "partial differential"@)
            ||| contains(lower(text), "eigenvalue"@)
            ||| contains(lower(text), "math completion"@)
            ||| contains(lower(text), "mathematical derivation"@)
            ||| contains(lower(text), "mathematical formulation"@)
            ||| contains(lower(text), "quantitative analysis"@)
            ||| contains(lower(text), "quantitative research"@)
            ||| contains(lower(text), "numerical validation"@)
            ||| contains(lower(text), "numerically validate"@)
            ||| contains(lower(text), "scientific computation"@)
            ||| contains(lower(text), "formulate a model"@)
            ||| contains(lower(text), "governing equation"@)
            ||| contains(lower(text), "boundary condition"@)
            ||| contains(lower(text), "initial value problem"@)
            ||| contains(lower(text), "dimensional analysis"@)
            ||| contains(lower(text), "adversarial math"@)
            ||| contains(lower(text), "compute the integral"@)
            ||| contains(lower(text), "evaluate the integral"@)
            ||| contains(lower(text), "find the closed form"@)
            ||| contains(lower(text), "independent recomputation"@)
            ||| contains(lower(text), "mathematical paper"@)
            ||| contains(lower(text), "physics paper"@)
        },
{
    law_words_of_mathematics(lower(text));
}

/// A goal is reviewed as an analysis where its plan says so, and where nothing at
/// all says what it is; its state is always reviewed.
pub proof fn law_goal_without_a_facet_is_an_analysis(
    objective: Seq<char>,
    plan: Seq<char>,
    sources_are_math: bool,
)
    ensures
        goal_facets(objective, plan, sources_are_math).contains(VerificationFacet::StateRegression),
        goal_facets(objective, plan, sources_are_math).contains(VerificationFacet::Analysis) <==> {
            ||| plan_facets(plan).contains(VerificationFacet::Analysis)
            ||| !plan_facets(plan).contains(VerificationFacet::StateRegression) && forall|
                f: VerificationFacet,
            |
                f != VerificationFacet::Analysis && f != VerificationFacet::StateRegression
                    ==> !#[trigger] goal_facets(objective, plan, sources_are_math).contains(f)
        },
{
    let found = found_facets(objective, plan, sources_are_math);
    let all = goal_facets(objective, plan, sources_are_math);
    assert forall|f: VerificationFacet| f != VerificationFacet::Analysis && f
        != VerificationFacet::StateRegression implies #[trigger] all.contains(f)
        == found.contains(f) by {}
    assert(found.contains(VerificationFacet::StateRegression) == plan_facets(plan).contains(
        VerificationFacet::StateRegression,
    ));
    assert(found.contains(VerificationFacet::Analysis) == plan_facets(plan).contains(
        VerificationFacet::Analysis,
    ));
    if found != Set::<VerificationFacet>::empty() {
        if forall|f: VerificationFacet| !found.contains(f) {
            assert(found =~= Set::empty());
        }
        let f = choose|f: VerificationFacet| found.contains(f);
        assert(found.contains(f));
        assert(all.contains(f));
    }
}

/// The files that a text names are, in order and each once, those with an
/// extension of a source that stand between two marks of one kind or that stand
/// by themselves, up to the punctuation behind them.
pub proof fn law_named_sources_are_the_files_that_are_named(text: Seq<char>, path: Seq<char>)
    ensures
        is_sorted_set(named_sources(text)),
        named_sources(text).contains(path) <==> extension(path) is Some && is_one_of(
            lower(extension(path)->0),
            source_extensions(),
        ) && {
            ||| exists|k: int|
                0 <= k < split(text, CharClass::Only('"')).len() && k % 2 == 1 && trim(
                    #[trigger] split(text, CharClass::Only('"'))[k],
                ) == path
            ||| exists|k: int|
                0 <= k < split(text, CharClass::Only('\'')).len() && k % 2 == 1 && trim(
                    #[trigger] split(text, CharClass::Only('\''))[k],
                ) == path
            ||| exists|k: int|
                0 <= k < split(text, CharClass::Only('`')).len() && k % 2 == 1 && trim(
                    #[trigger] split(text, CharClass::Only('`'))[k],
                ) == path
            ||| exists|k: int|
                0 <= k < split(text, CharClass::NotFile).len() && trim_end_by(
                    #[trigger] split(text, CharClass::NotFile)[k],
                    CharClass::Four('.', ':', '!', '?'),
                ) == path
        },
{
    let a = quoted_with(text, '"');
    let b = quoted_with(text, '\'');
    let c = quoted_with(text, '`');
    let d = bare_sources(text);
    lemma_sorted_set(a + b + c + d);
    let pa = split(text, CharClass::Only('"'));
    let pb = split(text, CharClass::Only('\''));
    let pc = split(text, CharClass::Only('`'));
    let pd = split(text, CharClass::NotFile);
    lemma_quoted_sources(pa, pa.len() as int, path);
    lemma_quoted_sources(pb, pb.len() as int, path);
    lemma_quoted_sources(pc, pc.len() as int, path);
    lemma_token_sources(pd, pd.len() as int, path);
    lemma_contains_in_sum(a + b + c, d, path);
    lemma_contains_in_sum(a + b, c, path);
    lemma_contains_in_sum(a, b, path);
}

proof fn lemma_contains_in_sum(a: Seq<Seq<char>>, b: Seq<Seq<char>>, x: Seq<char>)
    ensures
        (a + b).contains(x) <==> a.contains(x) || b.contains(x),
{
    if (a + b).contains(x) {
        let k = choose|k: int| 0 <= k < (a + b).len() && (a + b)[k] == x;
        if k < a.len() {
            assert(a[k] == x);
        } else {
            assert(b[k - a.len()] == x);
        }
    }
    if a.contains(x) {
        let k = choose|k: int| 0 <= k < a.len() && a[k] == x;
        assert((a + b)[k] == x);
    }
    if b.contains(x) {
        let k = choose|k: int| 0 <= k < b.len() && b[k] == x;
        assert((a + b)[a.len() + k] == x);
    }
}

proof fn lemma_quoted_sources(pieces: Seq<Seq<char>>, n: int, path: Seq<char>)
    requires
        0 <= n <= pieces.len(),
    ensures
        quoted_sources(pieces, n).contains(path) <==> names_source(path) && exists|k: int|
            0 <= k < n && k % 2 == 1 && trim(#[trigger] pieces[k]) == path,
    decreases n,
{
    if n > 0 {
        lemma_quoted_sources(pieces, n - 1, path);
        let before = quoted_sources(pieces, n - 1);
        let all = quoted_sources(pieces, n);
        let candidate = trim(pieces[n - 1]);
        if all != before {
            assert(all == before + seq![candidate]);
            lemma_contains_in_sum(before, seq![candidate], path);
            assert(seq![candidate].contains(path) <==> candidate == path) by {
                assert(seq![candidate][0] == candidate);
            }
        }
    }
}

proof fn lemma_token_sources(tokens: Seq<Seq<char>>, n: int, path: Seq<char>)
    requires
        0 <= n <= tokens.len(),
    ensures
        token_sources(tokens, n).contains(path) <==> names_source(path) && exists|k: int|
            0 <= k < n && trim_end_by(
                #[trigger] tokens[k],
                CharClass::Four('.', ':', '!', '?'),
            ) == path,
    decreases n,
{
    if n > 0 {
        lemma_token_sources(tokens, n - 1, path);
        let before = token_sources(tokens, n - 1);
        let all = token_sources(tokens, n);
        let candidate = trim_end_by(tokens[n - 1], CharClass::Four('.', ':', '!', '?'));
        if all != before {
            assert(all == before + seq![candidate]);
            lemma_contains_in_sum(before, seq![candidate], path);
            assert(seq![candidate].contains(path) <==> candidate == path) by {
                assert(seq![candidate][0] == candidate);
            }
        }
    }
}

// ---------------------------------------------------------------------------
// The crawl through named files

/// How many links a crawl follows from the objective.
pub const MAX_DEPTH: usize = 3;

/// How many files a crawl inspects.
pub const MAX_FILES: usize = 16;

/// How large a file may be to be inspected.
pub const MAX_FILE_BYTES: u64 = 524288;

/// How many bytes a crawl reads in all.
pub const MAX_TOTAL_BYTES: u64 = 2097152;

/// A name to resolve: relative to `base`, found `depth` links away.
#[derive(Debug)]
pub struct SourceRequest {
    pub base: String,
    pub raw: String,
    pub depth: usize,
}

/// What a request says, as values.
pub struct SourceRequestView {
    pub base: Seq<char>,
    pub raw: Seq<char>,
    pub depth: nat,
}

impl View for SourceRequest {
    type V = SourceRequestView;

    open spec fn view(&self) -> SourceRequestView {
        SourceRequestView { base: self.base@, raw: self.raw@, depth: self.depth as nat }
    }
}

/// Where a named file may lie, in order: next to the text that names it, or else
/// in the workspace.
pub open spec fn attempts(workspace_root: Seq<char>, base: Seq<char>, raw: Seq<char>) -> Seq<
    Seq<char>,
> {
    if starts_with(raw, "/"@) {
        seq![raw]
    } else if base == workspace_root {
        seq![join_path(base, raw)]
    } else {
        seq![join_path(base, raw), join_path(workspace_root, raw)]
    }
}

pub fn source_attempts(workspace_root: &str, request: &SourceRequest) -> (r: Vec<String>)
    ensures
        strings(r@) == attempts(workspace_root@, request@.base, request@.raw),
{
    let base = request.base.as_str();
    let raw = request.raw.as_str();
    let mut out: Vec<String> = Vec::new();
    if starts_with_str(&chars_of(raw), "/") {
        out.push(request.raw.clone());
    } else {
        out.push(path_join(base, raw));
        if !same_str(base, workspace_root) {
            out.push(path_join(workspace_root, raw));
        }
    }
    proof {
        assert(strings(out@) =~= attempts(workspace_root@, request@.base, request@.raw));
    }
    out
}

/// Whether what was found there is taken: a file, and inside the workspace.
pub fn source_accepted(workspace_root: &str, path: &str, is_file: bool) -> (r: bool)
    ensures
        r == (is_file && is_within(path@, workspace_root@)),
{
    is_file && path_is_within(path, workspace_root)
}

/// A breadth-first crawl through the files that an objective names, and that
/// those files name in turn. It decides what to resolve, what to read and when
/// to stop; resolving and reading are done outside.
#[derive(Debug)]
pub struct SourceCrawl {
    queue: Vec<SourceRequest>,
    visited: Vec<String>,
    inspected: usize,
    total_bytes: u64,
}

#[verifier::ext_equal]
pub struct CrawlView {
    /// What is still to be resolved, first come first served.
    pub queue: Seq<SourceRequestView>,
    pub visited: Seq<Seq<char>>,
    pub inspected: int,
    pub total_bytes: int,
}

impl View for SourceCrawl {
    type V = CrawlView;

    closed spec fn view(&self) -> CrawlView {
        CrawlView {
            queue: requests(self.queue@),
            visited: strings(self.visited@),
            inspected: self.inspected as int,
            total_bytes: self.total_bytes as int,
        }
    }
}

impl CrawlView {
    /// Within its bounds: no more files and bytes than allowed, no request
    /// deeper than allowed, no file twice.
    pub open spec fn wf(self) -> bool {
        &&& self.inspected <= MAX_FILES
        &&& self.total_bytes <= MAX_TOTAL_BYTES
        &&& forall|i: int|
            0 <= i < self.queue.len() ==> (#[trigger] self.queue[i]).depth <= MAX_DEPTH
        &&& self.visited.no_duplicates()
    }

    /// Whether a file of `len` bytes may still be read.
    pub open spec fn admits(self, len: u64) -> bool {
        len <= MAX_FILE_BYTES && self.total_bytes + len <= MAX_TOTAL_BYTES
    }
}

pub open spec fn requests(q: Seq<SourceRequest>) -> Seq<SourceRequestView> {
    Seq::new(q.len(), |i: int| q[i]@)
}

/// The requests for the files that `text` names.
pub open spec fn requests_for(text: Seq<char>, base: Seq<char>, depth: nat) -> Seq<
    SourceRequestView,
> {
    Seq::new(
        named_sources(text).len(),
        |i: int| SourceRequestView { base, raw: named_sources(text)[i], depth },
    )
}

fn enqueue(queue: &mut Vec<SourceRequest>, text: &str, base: &str, depth: usize)
    ensures
        requests(final(queue)@) == requests(old(queue)@) + requests_for(
            text@,
            base@,
            depth as nat,
        ),
{
    let names = named_local_source_candidates(text);
    let ghost all = requests_for(text@, base@, depth as nat);
    let mut i: usize = 0;
    proof {
        assert(requests(old(queue)@) + all.take(0) =~= requests(old(queue)@));
    }
    while i < names.len()
        invariant
            i <= names@.len(),
            strings(names@) == named_sources(text@),
            all == requests_for(text@, base@, depth as nat),
            requests(queue@) == requests(old(queue)@) + all.take(i as int),
        decreases names@.len() - i,
    {
        let request = SourceRequest { base: base.to_owned(), raw: names[i].clone(), depth };
        proof {
            assert(strings(names@)[i as int] == names@[i as int]@);
            assert(request@ == all[i as int]);
            assert(requests(queue@.push(request)) =~= requests(queue@).push(request@));
            assert((requests(old(queue)@) + all.take(i as int)).push(all[i as int])
                =~= requests(old(queue)@) + all.take(i + 1));
        }
        queue.push(request);
        i += 1;
    }
    proof {
        assert(strings(names@).len() == names@.len());
        assert(all.take(names@.len() as int) =~= all);
    }
}

impl SourceCrawl {
    /// A crawl that starts with the files that the objective names.
    pub fn new(objective: &str, workspace_root: &str) -> (r: SourceCrawl)
        ensures
            r@.wf(),
            r@ == (CrawlView {
                queue: requests_for(objective@, workspace_root@, 0),
                visited: seq![],
                inspected: 0,
                total_bytes: 0,
            }),
    {
        let mut queue: Vec<SourceRequest> = Vec::new();
        enqueue(&mut queue, objective, workspace_root, 0);
        let r = SourceCrawl { queue, visited: Vec::new(), inspected: 0, total_bytes: 0 };
        proof {
            let none = requests(Seq::<SourceRequest>::empty());
            assert(none + requests_for(objective@, workspace_root@, 0) =~= requests_for(
                objective@,
                workspace_root@,
                0,
            ));
            assert(r@.visited =~= seq![]);
        }
        r
    }

    /// The next name to resolve, first come first served; none once the queue
    /// is empty or enough files were inspected.
    pub fn next(&mut self) -> (r: Option<SourceRequest>)
        requires
            old(self)@.wf(),
        ensures
            final(self)@.wf(),
            r is Some <==> old(self)@.queue.len() > 0 && old(self)@.inspected < MAX_FILES,
            r is Some ==> r->0@ == old(self)@.queue[0] && final(self)@ == (CrawlView {
                queue: old(self)@.queue.drop_first(),
                ..old(self)@
            }),
            r is None ==> final(self)@ == old(self)@,
    {
        if self.queue.len() == 0 || self.inspected >= MAX_FILES {
            return None;
        }
        let first = self.queue.remove(0);
        proof {
            assert(self@.queue =~= old(self)@.queue.drop_first());
        }
        Some(first)
    }

    /// Marks a resolved file as visited; says whether it is new.
    pub fn visit(&mut self, path: &str) -> (r: bool)
        requires
            old(self)@.wf(),
        ensures
            final(self)@.wf(),
            r == !old(self)@.visited.contains(path@),
            r ==> final(self)@ == (CrawlView {
                visited: old(self)@.visited.push(path@),
                ..old(self)@
            }),
            !r ==> final(self)@ == old(self)@,
    {
        let mut i: usize = 0;
        let ghost seen = strings(self.visited@);
        while i < self.visited.len()
            invariant
                i <= self.visited@.len(),
                *self == *old(self),
                self@.wf(),
                seen == strings(self.visited@),
                forall|k: int| 0 <= k < i ==> #[trigger] seen[k] != path@,
            decreases self.visited@.len() - i,
        {
            proof {
                assert(seen[i as int] == self.visited@[i as int]@);
            }
            if same_str(self.visited[i].as_str(), path) {
                proof {
                    assert(seen.contains(path@));
                }
                return false;
            }
            i += 1;
        }
        let owned = path.to_owned();
        proof {
            lemma_strings_push(self.visited@, owned);
            assert(!seen.contains(path@));
        }
        self.visited.push(owned);
        true
    }

    pub fn fits(&self, len: u64) -> (r: bool)
        requires
            self@.wf(),
        ensures
            r == self@.admits(len),
    {
        len <= MAX_FILE_BYTES && self.total_bytes + len <= MAX_TOTAL_BYTES
    }

    /// Takes the contents of a file in: says whether it speaks of mathematics,
    /// and asks for the files that it names where it does not and is not at the
    /// greatest depth.
    pub fn inspect(&mut self, parent: &str, depth: usize, len: u64, body: &str) -> (r: bool)
        requires
            old(self)@.wf(),
            old(self)@.inspected < MAX_FILES,
            old(self)@.admits(len),
            depth <= MAX_DEPTH,
        ensures
            final(self)@.wf(),
            r == suggests_math(body@),
            final(self)@ == (CrawlView {
                queue: old(self)@.queue + (if !r && depth < MAX_DEPTH {
                    requests_for(body@, parent@, (depth + 1) as nat)
                } else {
                    seq![]
                }),
                inspected: old(self)@.inspected + 1,
                total_bytes: old(self)@.total_bytes + len,
                ..old(self)@
            }),
    {
        self.inspected += 1;
        self.total_bytes += len;
        let is_math = objective_suggests_math(body);
        if !is_math && depth < MAX_DEPTH {
            enqueue(&mut self.queue, body, parent, depth + 1);
        }
        proof {
            let before = old(self)@.queue;
            assert(before + seq![] =~= before);
            assert forall|i: int| 0 <= i < self@.queue.len() implies (
            #[trigger] self@.queue[i]).depth <= MAX_DEPTH by {
                if i < before.len() {
                    assert(self@.queue[i] == before[i]);
                }
            }
        }
        is_math
    }
}

/// A crawl inspects no more than sixteen files and no more than two mebibytes,
/// goes no deeper than three files from the objective, and reads no file of more
/// than half a mebibyte.
pub proof fn law_crawl_is_bounded(crawl: CrawlView, len: u64, i: int)
    requires
        crawl.wf(),
        0 <= i < crawl.queue.len(),
    ensures
        crawl.inspected <= 16,
        crawl.total_bytes <= 2097152,
        crawl.queue[i].depth <= 3,
        crawl.admits(len) <==> len <= 524288 && crawl.total_bytes + len <= 2097152,
{
}

/// A file that is named is looked for where it was named from, and then at the root
/// of the workspace; one with an absolute path there alone.
pub proof fn law_named_file_is_looked_for_where_it_was_named(
    workspace_root: Seq<char>,
    base: Seq<char>,
    raw: Seq<char>,
)
    ensures
        starts_with(raw, "/"@) ==> attempts(workspace_root, base, raw) == seq![raw],
        !starts_with(raw, "/"@) ==> attempts(workspace_root, base, raw).len() > 0 && attempts(
            workspace_root,
            base,
            raw,
        )[0] == join_path(base, raw),
        !starts_with(raw, "/"@) && base != workspace_root ==> attempts(
            workspace_root,
            base,
            raw,
        ).len() == 2 && attempts(workspace_root, base, raw)[1] == join_path(workspace_root, raw),
{
}

/// Every file that a text names is asked for, from the directory of the text and at
/// its depth.
pub proof fn law_every_named_file_is_asked_for(
    text: Seq<char>,
    base: Seq<char>,
    depth: nat,
    path: Seq<char>,
)
    ensures
        named_sources(text).contains(path) <==> requests_for(text, base, depth).contains(
            SourceRequestView { base, raw: path, depth },
        ),
{
    let names = named_sources(text);
    let all = requests_for(text, base, depth);
    let one = SourceRequestView { base, raw: path, depth };
    if names.contains(path) {
        let k = choose|k: int| 0 <= k < names.len() && names[k] == path;
        assert(all[k] == one);
    }
    if all.contains(one) {
        let k = choose|k: int| 0 <= k < all.len() && all[k] == one;
        assert(names[k] == path);
    }
}

} // verus!
