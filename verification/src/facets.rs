//! Correctness facets, their gates, and what a plan declares of them.

use vstd::prelude::*;

use crate::text::{
    append_str, chars_of, ends_with, is_text, is_text_ignoring_case, is_white, lemma_trim_by_fixed,
    lines, lines_of, lower, lower_char, lower_of, replace_chars, replace_chars_of,
    same_ignoring_case, split, split_of, starts_with, starts_with_str, string_of, texts, trim,
    trim_by, trim_by_of, trim_of, trim_start_by, trim_start_by_of, CharClass,
};

verus! {

/// One kind of correctness that a verification round can be asked to judge.
#[derive(Clone, Copy, Debug, PartialEq, Eq, PartialOrd, Ord, Structural)]
pub enum VerificationFacet {
    Code,
    Analysis,
    Research,
    Math,
    Empirical,
    Sources,
    Citations,
    DocumentRender,
    StateRegression,
}

/// The kind of goal that a plan declares.
#[derive(Clone, Copy, Debug, PartialEq, Eq, Structural)]
pub enum GoalKind {
    CodeChange,
    Analysis,
    Research,
    Math,
}

impl VerificationFacet {
    pub open spec fn name(self) -> &'static str {
        match self {
            VerificationFacet::Code => "code",
            VerificationFacet::Analysis => "analysis",
            VerificationFacet::Research => "research",
            VerificationFacet::Math => "math",
            VerificationFacet::Empirical => "empirical",
            VerificationFacet::Sources => "sources",
            VerificationFacet::Citations => "citations",
            VerificationFacet::DocumentRender => "document-render",
            VerificationFacet::StateRegression => "state-regression",
        }
    }

    /// The name under which facets are written to disk and shown to critics.
    pub fn as_str(self) -> (r: &'static str)
        ensures
            r == self.name(),
    {
        match self {
            VerificationFacet::Code => "code",
            VerificationFacet::Analysis => "analysis",
            VerificationFacet::Research => "research",
            VerificationFacet::Math => "math",
            VerificationFacet::Empirical => "empirical",
            VerificationFacet::Sources => "sources",
            VerificationFacet::Citations => "citations",
            VerificationFacet::DocumentRender => "document-render",
            VerificationFacet::StateRegression => "state-regression",
        }
    }

    /// The position in declaration order, which is the order of a facet set.
    pub open spec fn rank(self) -> int {
        match self {
            VerificationFacet::Code => 0,
            VerificationFacet::Analysis => 1,
            VerificationFacet::Research => 2,
            VerificationFacet::Math => 3,
            VerificationFacet::Empirical => 4,
            VerificationFacet::Sources => 5,
            VerificationFacet::Citations => 6,
            VerificationFacet::DocumentRender => 7,
            VerificationFacet::StateRegression => 8,
        }
    }
}

/// Every facet, in order.
pub open spec fn all_facets() -> Seq<VerificationFacet> {
    seq![
        VerificationFacet::Code,
        VerificationFacet::Analysis,
        VerificationFacet::Research,
        VerificationFacet::Math,
        VerificationFacet::Empirical,
        VerificationFacet::Sources,
        VerificationFacet::Citations,
        VerificationFacet::DocumentRender,
        VerificationFacet::StateRegression,
    ]
}

/// A set of facets. Its members come out in declaration order.
#[derive(Clone, Copy, Debug, PartialEq, Eq, Structural)]
pub struct FacetSet {
    pub code: bool,
    pub analysis: bool,
    pub research: bool,
    pub math: bool,
    pub empirical: bool,
    pub sources: bool,
    pub citations: bool,
    pub document_render: bool,
    pub state_regression: bool,
}

impl View for FacetSet {
    type V = Set<VerificationFacet>;

    open spec fn view(&self) -> Set<VerificationFacet> {
        Set::new(|f: VerificationFacet| self.has(f))
    }
}

impl FacetSet {
    pub open spec fn has(self, facet: VerificationFacet) -> bool {
        match facet {
            VerificationFacet::Code => self.code,
            VerificationFacet::Analysis => self.analysis,
            VerificationFacet::Research => self.research,
            VerificationFacet::Math => self.math,
            VerificationFacet::Empirical => self.empirical,
            VerificationFacet::Sources => self.sources,
            VerificationFacet::Citations => self.citations,
            VerificationFacet::DocumentRender => self.document_render,
            VerificationFacet::StateRegression => self.state_regression,
        }
    }

    pub fn new() -> (r: FacetSet)
        ensures
            r@ == Set::<VerificationFacet>::empty(),
    {
        let r = FacetSet {
            code: false,
            analysis: false,
            research: false,
            math: false,
            empirical: false,
            sources: false,
            citations: false,
            document_render: false,
            state_regression: false,
        };
        proof {
            assert(r@ =~= Set::<VerificationFacet>::empty());
        }
        r
    }

    pub fn contains(&self, facet: &VerificationFacet) -> (r: bool)
        ensures
            r == self@.contains(*facet),
    {
        match *facet {
            VerificationFacet::Code => self.code,
            VerificationFacet::Analysis => self.analysis,
            VerificationFacet::Research => self.research,
            VerificationFacet::Math => self.math,
            VerificationFacet::Empirical => self.empirical,
            VerificationFacet::Sources => self.sources,
            VerificationFacet::Citations => self.citations,
            VerificationFacet::DocumentRender => self.document_render,
            VerificationFacet::StateRegression => self.state_regression,
        }
    }

    pub fn insert(&mut self, facet: VerificationFacet)
        ensures
            final(self)@ == old(self)@.insert(facet),
    {
        match facet {
            VerificationFacet::Code => {
                self.code = true;
            },
            VerificationFacet::Analysis => {
                self.analysis = true;
            },
            VerificationFacet::Research => {
                self.research = true;
            },
            VerificationFacet::Math => {
                self.math = true;
            },
            VerificationFacet::Empirical => {
                self.empirical = true;
            },
            VerificationFacet::Sources => {
                self.sources = true;
            },
            VerificationFacet::Citations => {
                self.citations = true;
            },
            VerificationFacet::DocumentRender => {
                self.document_render = true;
            },
            VerificationFacet::StateRegression => {
                self.state_regression = true;
            },
        }
        proof {
            assert(self@ =~= old(self)@.insert(facet));
        }
    }

    pub fn is_empty(&self) -> (r: bool)
        ensures
            r == (self@ == Set::<VerificationFacet>::empty()),
    {
        let none = !self.code && !self.analysis && !self.research && !self.math && !self.empirical
            && !self.sources && !self.citations && !self.document_render && !self.state_regression;
        proof {
            if none {
                assert(self@ =~= Set::<VerificationFacet>::empty());
            } else {
                let empty = Set::<VerificationFacet>::empty();
                if self@ == empty {
                    assert(!self@.contains(VerificationFacet::Code));
                    assert(!self@.contains(VerificationFacet::Analysis));
                    assert(!self@.contains(VerificationFacet::Research));
                    assert(!self@.contains(VerificationFacet::Math));
                    assert(!self@.contains(VerificationFacet::Empirical));
                    assert(!self@.contains(VerificationFacet::Sources));
                    assert(!self@.contains(VerificationFacet::Citations));
                    assert(!self@.contains(VerificationFacet::DocumentRender));
                    assert(!self@.contains(VerificationFacet::StateRegression));
                }
            }
        }
        none
    }
}

// ---------------------------------------------------------------------------
// Gates

/// The gates of the math facet.
pub open spec fn math_gates() -> Seq<&'static str> {
    seq![
        "contract-closure",
        "derivation-integrity",
        "evidence-provenance",
        "invariant-ledger",
        "state-isolation",
    ]
}

/// The gates that a receipt can be written for under each facet.
pub open spec fn facet_gates(facet: VerificationFacet) -> Seq<&'static str> {
    match facet {
        VerificationFacet::Code => seq!["code-correctness"],
        VerificationFacet::Analysis => seq!["analysis-correctness"],
        VerificationFacet::Research => seq!["research-validity"],
        VerificationFacet::Math => math_gates(),
        VerificationFacet::Empirical => seq!["empirical-validity"],
        VerificationFacet::Sources => seq!["source-support"],
        VerificationFacet::Citations => seq!["citation-integrity"],
        VerificationFacet::DocumentRender => seq!["document-render"],
        VerificationFacet::StateRegression => seq!["state-isolation"],
    }
}

pub fn math_validation_gates() -> (r: &'static [&'static str])
    ensures
        r@ == math_gates(),
{
    let gates: &'static [&'static str] = &[
        "contract-closure",
        "derivation-integrity",
        "evidence-provenance",
        "invariant-ledger",
        "state-isolation",
    ];
    proof {
        assert(gates@ =~= math_gates());
    }
    gates
}

pub fn gates_for_facet(facet: VerificationFacet) -> (r: &'static [&'static str])
    ensures
        r@ == facet_gates(facet),
{
    let gates: &'static [&'static str] = match facet {
        VerificationFacet::Code => &["code-correctness"],
        VerificationFacet::Analysis => &["analysis-correctness"],
        VerificationFacet::Research => &["research-validity"],
        VerificationFacet::Math => math_validation_gates(),
        VerificationFacet::Empirical => &["empirical-validity"],
        VerificationFacet::Sources => &["source-support"],
        VerificationFacet::Citations => &["citation-integrity"],
        VerificationFacet::DocumentRender => &["document-render"],
        VerificationFacet::StateRegression => &["state-isolation"],
    };
    proof {
        assert(gates@ =~= facet_gates(facet));
    }
    gates
}

/// `raw` trimmed, in lower case, with the characters of the class written `-`.
pub open spec fn normalized(raw: Seq<char>, class: CharClass) -> Seq<char> {
    replace_chars(lower(trim(raw)), class, '-')
}

pub fn normalized_of(raw: &Vec<char>, class: CharClass) -> (r: Vec<char>)
    ensures
        r@ == normalized(raw@, class),
{
    let trimmed = trim_of(raw);
    let low = lower_of(&trimmed);
    replace_chars_of(&low, class, '-')
}

/// The math gate that a critic means by `raw`, which may carry a suffix.
pub open spec fn math_gate_named(raw: Seq<char>) -> Option<&'static str> {
    let n = normalized(raw, CharClass::Three(' ', '_', '/'));
    if n == "contract-closure"@ || n == "contract-closure-validation"@ {
        Some("contract-closure")
    } else if n == "derivation-integrity"@ || n == "derivation-integrity-validation"@ {
        Some("derivation-integrity")
    } else if n == "evidence-provenance"@ || n == "evidence-provenance-validation"@ {
        Some("evidence-provenance")
    } else if n == "invariant-ledger"@ || n == "invariant-ledger-validation"@ {
        Some("invariant-ledger")
    } else if n == "state-isolation"@ || n == "state-isolation-validation"@ || n
        == "state-isolation-artifact-freezing"@ || n == "state-isolation-and-artifact-freezing"@ {
        Some("state-isolation")
    } else {
        None
    }
}

pub fn canonical_math_gate(raw: &str) -> (r: Option<&'static str>)
    ensures
        r == math_gate_named(raw@),
{
    let v = chars_of(raw);
    let n = normalized_of(&v, CharClass::Three(' ', '_', '/'));
    if is_text(&n, "contract-closure") || is_text(&n, "contract-closure-validation") {
        Some("contract-closure")
    } else if is_text(&n, "derivation-integrity") || is_text(&n, "derivation-integrity-validation") {
        Some("derivation-integrity")
    } else if is_text(&n, "evidence-provenance") || is_text(&n, "evidence-provenance-validation") {
        Some("evidence-provenance")
    } else if is_text(&n, "invariant-ledger") || is_text(&n, "invariant-ledger-validation") {
        Some("invariant-ledger")
    } else if is_text(&n, "state-isolation") || is_text(&n, "state-isolation-validation")
        || is_text(&n, "state-isolation-artifact-freezing") || is_text(
        &n,
        "state-isolation-and-artifact-freezing",
    ) {
        Some("state-isolation")
    } else {
        None
    }
}

/// The facet that `raw` names.
pub open spec fn facet_named(raw: Seq<char>) -> Option<VerificationFacet> {
    let n = normalized(raw, CharClass::Two(' ', '_'));
    if n == "code"@ || n == "code-change"@ {
        Some(VerificationFacet::Code)
    } else if n == "analysis"@ {
        Some(VerificationFacet::Analysis)
    } else if n == "research"@ {
        Some(VerificationFacet::Research)
    } else if n == "math"@ || n == "mathematics"@ || n == "physics"@ {
        Some(VerificationFacet::Math)
    } else if n == "empirical"@ || n == "statistics"@ {
        Some(VerificationFacet::Empirical)
    } else if n == "sources"@ || n == "source"@ {
        Some(VerificationFacet::Sources)
    } else if n == "citations"@ || n == "citation"@ {
        Some(VerificationFacet::Citations)
    } else if n == "document-render"@ || n == "render"@ {
        Some(VerificationFacet::DocumentRender)
    } else if n == "state-regression"@ || n == "regression"@ {
        Some(VerificationFacet::StateRegression)
    } else {
        None
    }
}

pub fn canonical_facet(raw: &str) -> (r: Option<VerificationFacet>)
    ensures
        r == facet_named(raw@),
{
    let v = chars_of(raw);
    canonical_facet_of(&v)
}

fn canonical_facet_of(raw: &Vec<char>) -> (r: Option<VerificationFacet>)
    ensures
        r == facet_named(raw@),
{
    let n = normalized_of(raw, CharClass::Two(' ', '_'));
    if is_text(&n, "code") || is_text(&n, "code-change") {
        Some(VerificationFacet::Code)
    } else if is_text(&n, "analysis") {
        Some(VerificationFacet::Analysis)
    } else if is_text(&n, "research") {
        Some(VerificationFacet::Research)
    } else if is_text(&n, "math") || is_text(&n, "mathematics") || is_text(&n, "physics") {
        Some(VerificationFacet::Math)
    } else if is_text(&n, "empirical") || is_text(&n, "statistics") {
        Some(VerificationFacet::Empirical)
    } else if is_text(&n, "sources") || is_text(&n, "source") {
        Some(VerificationFacet::Sources)
    } else if is_text(&n, "citations") || is_text(&n, "citation") {
        Some(VerificationFacet::Citations)
    } else if is_text(&n, "document-render") || is_text(&n, "render") {
        Some(VerificationFacet::DocumentRender)
    } else if is_text(&n, "state-regression") || is_text(&n, "regression") {
        Some(VerificationFacet::StateRegression)
    } else {
        None
    }
}

/// Which gate of `facet` is named by `raw`.
pub open spec fn gate_named(facet: VerificationFacet, raw: Seq<char>) -> Option<&'static str> {
    if facet == VerificationFacet::Math {
        math_gate_named(raw)
    } else {
        let gate = facet_gates(facet)[0];
        if normalized(raw, CharClass::Two(' ', '_')) == gate@ {
            Some(gate)
        } else {
            None
        }
    }
}

pub fn canonical_gate(facet: VerificationFacet, raw: &str) -> (r: Option<&'static str>)
    ensures
        r == gate_named(facet, raw@),
{
    if facet == VerificationFacet::Math {
        return canonical_math_gate(raw);
    }
    let v = chars_of(raw);
    let n = normalized_of(&v, CharClass::Two(' ', '_'));
    let gate = gates_for_facet(facet)[0];
    if is_text(&n, gate) {
        Some(gate)
    } else {
        None
    }
}

/// A gate that is recognized under a facet is one of that facet's gates.
pub proof fn law_recognized_gate_belongs_to_facet(facet: VerificationFacet, raw: Seq<char>)
    ensures
        gate_named(facet, raw) is Some ==> facet_gates(facet).contains(gate_named(facet, raw)->0),
{
    let gates = facet_gates(facet);
    if facet == VerificationFacet::Math {
        assert(gates[0] == "contract-closure");
        assert(gates[1] == "derivation-integrity");
        assert(gates[2] == "evidence-provenance");
        assert(gates[3] == "invariant-ledger");
        assert(gates[4] == "state-isolation");
    } else {
        assert(gates.contains(gates[0]));
    }
}

// ---------------------------------------------------------------------------
// What a plan declares

/// The kind that the value under a `## Goal kind` heading names.
pub open spec fn kind_named(value: Seq<char>) -> Option<GoalKind> {
    let n = replace_chars(lower(value), CharClass::Two(' ', '_'), '-');
    if n == "code-change"@ {
        Some(GoalKind::CodeChange)
    } else if n == "analysis"@ {
        Some(GoalKind::Analysis)
    } else if n == "research"@ {
        Some(GoalKind::Research)
    } else if n == "math"@ || n == "math-derivation"@ || n == "derivation"@ || n
        == "quantitative"@ {
        Some(GoalKind::Math)
    } else {
        None
    }
}

/// A line without surrounding white space and emphasis marks.
pub open spec fn unmarked(line: Seq<char>) -> Seq<char> {
    trim(trim_by(trim(line), CharClass::Three('`', '*', '_')))
}

/// The kind that the first line with a value says, from line `i` on.
pub open spec fn kind_value_from(all: Seq<Seq<char>>, i: int) -> Option<GoalKind>
    decreases all.len() - i,
{
    if i < 0 || i >= all.len() {
        None
    } else if unmarked(all[i]).len() == 0 {
        kind_value_from(all, i + 1)
    } else {
        kind_named(unmarked(all[i]))
    }
}

pub open spec fn kind_from(all: Seq<Seq<char>>, i: int) -> Option<GoalKind>
    decreases all.len() - i,
{
    if i < 0 || i >= all.len() {
        None
    } else if same_ignoring_case(trim(all[i]), "## Goal kind"@) {
        kind_value_from(all, i + 1)
    } else {
        kind_from(all, i + 1)
    }
}

/// The kind that a plan declares: the first line with a value under the first
/// `## Goal kind` heading decides.
pub open spec fn plan_kind(plan: Seq<char>) -> Option<GoalKind> {
    kind_from(lines(plan), 0)
}

pub fn parse_goal_kind(plan: &str) -> (r: Option<GoalKind>)
    ensures
        r == plan_kind(plan@),
{
    let v = chars_of(plan);
    let all = lines_of(&v);
    let ghost ls = texts(all@);
    let mut i: usize = 0;
    while i < all.len()
        invariant
            i <= all@.len(),
            ls == texts(all@),
            ls == lines(plan@),
            kind_from(ls, 0) == kind_from(ls, i as int),
        decreases all@.len() - i,
    {
        proof {
            assert(ls[i as int] == all@[i as int]@);
        }
        if is_text_ignoring_case(&trim_of(&all[i]), "## Goal kind") {
            let mut j: usize = i + 1;
            while j < all.len()
                invariant
                    j <= all@.len(),
                    ls == texts(all@),
                    ls == lines(plan@),
                    kind_from(ls, 0) == kind_value_from(ls, j as int),
                decreases all@.len() - j,
            {
                proof {
                    assert(ls[j as int] == all@[j as int]@);
                }
                let inner = trim_by_of(&trim_of(&all[j]), CharClass::Three('`', '*', '_'));
                let value = trim_of(&inner);
                if value.len() > 0 {
                    return kind_of_value(&value);
                }
                j += 1;
            }
            return None;
        }
        i += 1;
    }
    None
}

fn kind_of_value(value: &Vec<char>) -> (r: Option<GoalKind>)
    ensures
        r == kind_named(value@),
{
    let n = replace_chars_of(&lower_of(value), CharClass::Two(' ', '_'), '-');
    if is_text(&n, "code-change") {
        Some(GoalKind::CodeChange)
    } else if is_text(&n, "analysis") {
        Some(GoalKind::Analysis)
    } else if is_text(&n, "research") {
        Some(GoalKind::Research)
    } else if is_text(&n, "math") || is_text(&n, "math-derivation") || is_text(&n, "derivation")
        || is_text(&n, "quantitative") {
        Some(GoalKind::Math)
    } else {
        None
    }
}

/// What a token of a facet line names, emphasis marks aside.
pub open spec fn token_facet(token: Seq<char>) -> Option<VerificationFacet> {
    facet_named(trim_by(trim(token), CharClass::Three('`', '*', '_')))
}

/// The tokens of a facet line.
pub open spec fn facet_tokens(line: Seq<char>) -> Seq<Seq<char>> {
    split(trim_start_by(line, CharClass::Two('-', '*')), CharClass::Three(',', '+', ';'))
}

/// The facets that the first `n` tokens name.
pub open spec fn token_facets(tokens: Seq<Seq<char>>, n: int) -> Set<VerificationFacet> {
    Set::new(
        |f: VerificationFacet|
            exists|k: int| 0 <= k < n && token_facet(#[trigger] tokens[k]) == Some(f),
    )
}

pub open spec fn line_facets(line: Seq<char>) -> Set<VerificationFacet> {
    token_facets(facet_tokens(line), facet_tokens(line).len() as int)
}

/// The facets that the lines from `i` on declare, where `inside` says whether
/// the facet section has begun.
pub open spec fn facets_from(all: Seq<Seq<char>>, i: int, inside: bool) -> Set<VerificationFacet>
    decreases all.len() - i,
{
    if i < 0 || i >= all.len() {
        Set::empty()
    } else {
        let line = trim(all[i]);
        if same_ignoring_case(line, "## Goal facets"@) {
            facets_from(all, i + 1, true)
        } else if inside && starts_with(line, "## "@) {
            Set::empty()
        } else if !inside || line.len() == 0 {
            facets_from(all, i + 1, inside)
        } else {
            line_facets(line).union(facets_from(all, i + 1, inside))
        }
    }
}

pub open spec fn kind_facet(kind: GoalKind) -> VerificationFacet {
    match kind {
        GoalKind::CodeChange => VerificationFacet::Code,
        GoalKind::Analysis => VerificationFacet::Analysis,
        GoalKind::Research => VerificationFacet::Research,
        GoalKind::Math => VerificationFacet::Math,
    }
}

/// The facets that a plan declares: those of its `## Goal facets` section, or
/// the one that its goal kind stands for where that section names none.
pub open spec fn plan_facets(plan: Seq<char>) -> Set<VerificationFacet> {
    let declared = facets_from(lines(plan), 0, false);
    if declared == Set::<VerificationFacet>::empty() && plan_kind(plan) is Some {
        declared.insert(kind_facet(plan_kind(plan)->0))
    } else {
        declared
    }
}

fn insert_line_facets(facets: &mut FacetSet, line: &Vec<char>)
    ensures
        final(facets)@ == old(facets)@.union(line_facets(line@)),
{
    let head = trim_start_by_of(line, CharClass::Two('-', '*'));
    let tokens = split_of(&head, CharClass::Three(',', '+', ';'));
    let ghost ts = facet_tokens(line@);
    let mut k: usize = 0;
    proof {
        assert(old(facets)@.union(token_facets(ts, 0)) =~= old(facets)@);
    }
    while k < tokens.len()
        invariant
            k <= tokens@.len(),
            ts == texts(tokens@),
            facets@ == old(facets)@.union(token_facets(ts, k as int)),
        decreases tokens@.len() - k,
    {
        let ghost before = facets@;
        proof {
            assert(ts[k as int] == tokens@[k as int]@);
        }
        let inner = trim_by_of(&trim_of(&tokens[k]), CharClass::Three('`', '*', '_'));
        let named = canonical_facet_of(&inner);
        if let Some(facet) = named {
            facets.insert(facet);
        }
        proof {
            let now = token_facets(ts, k as int);
            let next = token_facets(ts, k + 1);
            assert forall|f: VerificationFacet|
                next.contains(f) <==> now.contains(f) || token_facet(ts[k as int]) == Some(f) by {
                if next.contains(f) {
                    let m = choose|m: int|
                        0 <= m < k + 1 && token_facet(#[trigger] ts[m]) == Some(f);
                    if m < k {
                        assert(now.contains(f));
                    }
                }
                if now.contains(f) {
                    let m = choose|m: int| 0 <= m < k && token_facet(#[trigger] ts[m]) == Some(f);
                    assert(0 <= m < k + 1);
                }
            }
            assert(facets@ =~= old(facets)@.union(next));
        }
        k += 1;
    }
}

pub fn parse_goal_facets(plan: &str) -> (r: FacetSet)
    ensures
        r@ == plan_facets(plan@),
{
    let v = chars_of(plan);
    let all = lines_of(&v);
    let mut facets = declared_facets(&all);
    if facets.is_empty() {
        if let Some(kind) = parse_goal_kind(plan) {
            facets.insert(
                match kind {
                    GoalKind::CodeChange => VerificationFacet::Code,
                    GoalKind::Analysis => VerificationFacet::Analysis,
                    GoalKind::Research => VerificationFacet::Research,
                    GoalKind::Math => VerificationFacet::Math,
                },
            );
        }
    }
    facets
}

fn declared_facets(all: &Vec<Vec<char>>) -> (r: FacetSet)
    ensures
        r@ == facets_from(texts(all@), 0, false),
{
    let ghost ls = texts(all@);
    let mut facets = FacetSet::new();
    let mut inside = false;
    let mut i: usize = 0;
    proof {
        assert(facets@.union(facets_from(ls, 0, false)) =~= facets_from(ls, 0, false));
    }
    while i < all.len()
        invariant
            i <= all@.len(),
            ls == texts(all@),
            facets@.union(facets_from(ls, i as int, inside)) == facets_from(ls, 0, false),
        decreases all@.len() - i,
    {
        let line = trim_of(&all[i]);
        proof {
            assert(line@ == trim(ls[i as int]));
        }
        if is_text_ignoring_case(&line, "## Goal facets") {
            inside = true;
        } else if inside && starts_with_str(&line, "## ") {
            proof {
                assert(facets@.union(Set::empty()) =~= facets@);
            }
            return facets;
        } else if inside && line.len() > 0 {
            let ghost before = facets@;
            insert_line_facets(&mut facets, &line);
            proof {
                let rest = facets_from(ls, i + 1, inside);
                assert(before.union(line_facets(line@).union(rest)) =~= before.union(
                    line_facets(line@),
                ).union(rest));
            }
        }
        i += 1;
    }
    proof {
        assert(facets@.union(Set::empty()) =~= facets@);
    }
    facets
}

// ---------------------------------------------------------------------------
// Review lenses

/// What a skeptic reads when the goal changes code.
pub const KIND_LENS_CODE_CHANGE: &'static str = "\n## Code-change review lens\n\n\
This goal changes code. Satisfying the criteria nominally is NOT enough — do a senior-engineer adversarial review of every file in CHANGED_FILES and the paths they touch. Read the CURRENT contents, run the code, and cite a `path:line` or a command/test transcript for every finding. Bias to `refuted: true`.\n\n\
Your PRIMARY mandate is to actively HUNT for real bugs, issues, and gaps in the shipped behavior — defects you can demonstrate — not to nitpick coverage. Missing coverage alone, when the code is correct and the criteria hold, is NOT a refute.\n\n\
- Correctness — reason over the whole input space (valid, invalid, empty, boundary, large, concurrent, adversarial) for any input that makes the code produce a wrong result; one such input is a decisive refute — state the input and expected-vs-actual. Illustrative, not exhaustive: off-by-one, wrong operator, inverted condition, wrong variable/index, null/empty dereference, unhandled error path, overflow/precision/sign, bad early-return, race.\n\
- Completeness — fully implement the requirement, not just the happy path. Refute when edge/error cases are silently dropped, a value is hardcoded that must be dynamic, a branch returns a placeholder, or only the demo case works.\n\
- Real tests, not theater — judge each test by whether it would catch a deliberately-broken implementation; one that still passes against a wrong implementation (asserts only on mocks/constants, sets internal state instead of using the real entry point, or has no meaningful assertion) is theater — discount it (refute if it is the only evidence for a required behavior). Injecting a fake at an environment boundary (clock, RNG, network/file/output sink) so the unit's REAL logic runs deterministically is honest dependency injection, NOT theater. A green project suite is WEAK evidence, never proof. Refute hard on tests weakened, `#[ignore]`/skipped, commented out, or whose expected values were edited to match buggy output.\n\
- End-to-end reality — build it and exercise each behavioral criterion through the REAL entry point and observed output, judging as the USER would; driving an internal flag or helper proves the mechanism exists, NOT that the wired-up feature works. A criterion whose code is present but whose integrated behavior is wrong, unreachable, or unusable is `refuted: true`, as is anything that fails to compile, fails its tests, or errors at runtime. EXCEPTION — behavior the harness cannot drive headlessly (a UI, a browser, a game loop, a long-running interactive session): the static/structural fallback is the accepted bar (the artifact is present AND the shipped unit-level functions — e.g. physics, collision, input mapping, state transitions — are exercised against the real path); this applies EVEN IF the plan did not spell the fallback out. The fallback still includes the cheap load check: a browser-loaded script must evaluate without error in a browser-like environment (`window` defined, NO Node globals) — an unguarded `module.exports`/`require` in a `<script src>` file crashes at load (blank page) and is a decisive, headlessly-provable defect. Likewise an ES-module/import-map page with no `file:` fallback message: double-clicked from disk it is a silent black screen (CORS blocks module imports), so it must either use plain scripts or visibly tell the user to serve it. Entry-point launch: whatever the deliverable (CLI, server, library, page), it must have been LAUNCHED once on its real entry path with the cheapest runtime the environment offers — run the command, boot the server and hit an endpoint, import the library fresh, or headless-load the page (zero page errors, plus the strong primary-observable bar below; module-resolution failures only surface on a real load). Audit the implementer's captured launch evidence (transcript/screenshot) and refute when it is absent even though the environment could launch it. Present is not correct: the launch gate must assert the deliverable's PRIMARY OBSERVABLE is CORRECT, not merely present or non-empty — a CLI's actual output content (not just that it ran), a server's response body (not just HTTP 200), a library call's real return value, or for a rendered page that the render surface's drawing dimensions equal the intended/target size (a renderer that cached a stale/default size paints a near-blank surface), that the surface is SUBSTANTIALLY filled (a high painted fraction or a painted bbox ≈ the whole surface, NOT a `> 0 pixels` check), and that a driven input produces the expected visible/state change. Launch evidence proving only \"exists / non-empty / exited 0\" is INSUFFICIENT — refute and request the stronger gate (the next-round gap). If the captured evidence instead shows the LAUNCHER failing for environmental reasons (browser cannot start in the sandbox, missing system dep), or the environment can launch but cannot reliably read back the primary observable (headless pixel/WebGL readback or input injection unavailable), that honest failure capture plus the static fallback IS the accepted bar — do not keep demanding a launch or readback the environment cannot perform; refute fabricated/synthetic launch evidence, not the honest fallback. \"Cannot read back\" means the readback mechanism is unavailable or errors, NOT a readback that succeeded and returned a blank or partial buffer — that buffer IS the deliverable's output and a defect to refute. A captured launch/run FAILURE (a page error, an empty or too-short render buffer, a \"canvas buffer empty\", a wrong/empty CLI output, an error response body, a nonzero exit) is a defect, NOT flakiness — do not wave it off or let one cherry-picked success supersede it. Re-run captures that DISAGREE across attempts to consensus on the CAUSE (not a pass/fail vote), and attribute EVERY failure by the cause test below. Route by CAUSE, not frequency: an ENVIRONMENT/launcher failure (the sandbox cannot run or observe it, whether every time or only intermittently) never forces a refute — take a good capture if one run produced it, else the honest fallback above; an APP failure (the launcher ran but the deliverable was wrong, blank, or errored) refutes even when only some runs show it — the non-determinism is itself the defect, never an unverifiable environment. Do NOT refute merely because an end-to-end outcome lacks test-only scaffolding, only when a gating criterion is missed or a real defect is present.\n\
- Code-correctness floor (applies EVEN under the End-to-end EXCEPTION above) — the static/structural fallback excuses the *runtime* proof, never a defect you can read in the source. Before accepting the fallback for ANY deliverable (domain-agnostic: CLI, service, library, data job, UI, game), READ the shipped code for the core behaviors the OBJECTIVE names or plainly implies — not only the ones the plan enumerated — and refute (cite `path:line`) when such a behavior is, in the code, absent, a no-op, dead, or wired to nothing: e.g. a handler/branch that never changes the state it exists to change, an input/event/endpoint/flag bound to no effect, a feature present only as a placeholder/stub return, or a primary flow with no reachable completion/terminal state the objective implies. This is a FLOOR for the objective's CORE purpose ONLY — do NOT extend it to polish, fidelity, extra scope, edge/error handling, or robustness the plan did not require (those remain false-refutes — never invent scope beyond the contract); the anti-ratchet rule still binds: the floor is fixed by the objective and does not rise between rounds.\n\
- No regressions — run the pre-existing suite and inspect adjacent call sites and any changed signature / public API.\n\
- No cheating — refute if the agent hardcoded the expected output, special-cased the test input, swallowed errors to suppress failures, deleted/disabled failing assertions, stubbed the hard part behind a TODO, or narrowed scope to dodge the requirement.\n\
- Security — no secret committed, and no injection, path traversal, unsafe deserialization, or unsanitised-input path introduced.\n";

/// What a skeptic reads when the goal gathers outside information.
pub const KIND_LENS_RESEARCH: &'static str = "\n## Research fact-check lens\n\n\
This goal gathers external information; the deliverable's whole value is its factual accuracy, so do not accept claims on trust — verify them. Bias to `refuted: true` on any claim you cannot confirm.\n\n\
- Source-back every claim — for each material factual assertion, OPEN the cited source with the available read tools or a sandboxed command and confirm that source actually states it. A claim with no citation, a dead or invented citation, a citation that does not support (or outright contradicts) it, or one resting only on FINAL_RESPONSE prose is `refuted: true`.\n\
- No fabrication or staleness — flag invented APIs/figures/quotes/version numbers, statistics with no provenance, and information that is out of date for a time-sensitive objective.\n\
- Balance & completeness — if the objective implies a comparison or survey, material alternatives and counter-evidence must be covered; a one-sided or cherry-picked answer is incomplete.\n\
- Conflicts — where sources disagree, the deliverable must surface the disagreement rather than silently pick one side.\n";

/// What a skeptic reads when the goal explains or diagnoses.
pub const KIND_LENS_ANALYSIS: &'static str = "\n## Analysis soundness lens\n\n\
This goal explains or diagnoses something; the failure mode to hunt is a fluent, confident analysis that is actually wrong. Verify the reasoning, do not grade the prose.\n\n\
- Evidence-grounded — every claim about the code/system must cite concrete, checkable evidence (a `path:line`, a command/test transcript, a log line). Open the cited evidence and confirm it says what the analysis claims; an assertion with no verifiable backing is `refuted: true`.\n\
- Causally sound — the diagnosis must actually follow from the evidence: a correct root cause, not a correlation or a plausible-sounding guess. If you can find evidence that contradicts the stated conclusion, refute and cite it.\n\
- Verifiable — when the analysis claims \"X causes Y\" or \"the bug is Z\", confirm it with a cheap repro/test where feasible; a falsifiable causal claim you can disprove is a decisive refute.\n\
- Answers the question — the analysis must address what was actually asked, with no critical sub-question hand-waved, hedged into vagueness, or skipped.\n";

/// What a skeptic reads when the goal derives or computes.
pub const KIND_LENS_MATH: &'static str = "\n## Math / quantitative correctness lens\n\n\
This goal produces mathematical derivations, physical formulations, proofs, simulations, or quantitative results. Structural completeness is supporting evidence, never a substitute for correctness.\n\n\
Read the authoritative task sources and the actual final artifact. Independently challenge every requested result and the consequential reasoning whose failure could change a conclusion. For a short derivation, checking each step may be proportionate; for a long research artifact, prioritize governing equations, sensitive assumptions, primary conclusions, and high-risk numerical or physical links instead of mechanically testing every line.\n\n\
Apply all five harness gates and record one claim-bound `checks` receipt for each before approving:\n\
- `contract-closure`: enumerate every requested result and test its domain, branches, BC/IC, boundary values, and critical equality cases against the original relation.\n\
- `derivation-integrity`: check every consequential implication; reject a correct final formula reached through a false equality, illegal division, dropped branch, sign/factor error, or unmet hypothesis.\n\
- `evidence-provenance`: bind each CAS/numerical/tool observation to the exact claim, current final-artifact location/version, input/command, output, and tolerance/error. An unbound successful run is not evidence.\n\
- `invariant-ledger`: propagate symbols, units, dimensions, normalization, signs, coordinate/gauge/Fourier conventions, admissibility, and conservation from assumptions through the final answer.\n\
- `state-isolation`: compare authoritative inputs and the frozen goal-start state to the current artifact, then use prior-round gaps to detect repair regressions; detect whole-artifact rewrite loss and recheck every changed dependency. Use `not_applicable` only with a concrete reason.\n\n\
Use re-derivation, residual/substitution, special and limiting regimes, or numerical convergence/error and sensitivity as appropriate. Numerical claims need reproducible inputs and enough tolerance/convergence evidence to support the stated precision. Tool-backed checks are preferred when they materially reduce uncertainty, but a fixed log or manifest is not evidence by itself.\n\n\
Refute confirmed mathematical errors, missing requested results, unsupported material claims, inconsistent conventions, and contradictions between prose, equations, sources, or computed evidence. Accept valid alternative derivations and clearly defined equivalent notation. Do not add benchmark-specific forms, require ceremony the task did not request, or reject harmless presentation differences.\n";

/// The lens for one kind of goal; none for a goal without a kind.
pub open spec fn lens_of_kind(kind: Option<GoalKind>) -> &'static str {
    match kind {
        Some(GoalKind::CodeChange) => KIND_LENS_CODE_CHANGE,
        Some(GoalKind::Research) => KIND_LENS_RESEARCH,
        Some(GoalKind::Analysis) => KIND_LENS_ANALYSIS,
        Some(GoalKind::Math) => KIND_LENS_MATH,
        None => "",
    }
}

pub fn kind_lens(kind: Option<GoalKind>) -> (r: &'static str)
    ensures
        r == lens_of_kind(kind),
{
    match kind {
        Some(GoalKind::CodeChange) => KIND_LENS_CODE_CHANGE,
        Some(GoalKind::Research) => KIND_LENS_RESEARCH,
        Some(GoalKind::Analysis) => KIND_LENS_ANALYSIS,
        Some(GoalKind::Math) => KIND_LENS_MATH,
        None => "",
    }
}

pub open spec fn lens_if(wanted: bool, lens: Seq<char>) -> Seq<char> {
    if wanted {
        lens
    } else {
        seq![]
    }
}

/// The lenses that a facet set calls for, each at most once.
pub open spec fn lenses(facets: Set<VerificationFacet>) -> Seq<char> {
    lens_if(facets.contains(VerificationFacet::Code), KIND_LENS_CODE_CHANGE@) + lens_if(
        facets.contains(VerificationFacet::Analysis) || facets.contains(
            VerificationFacet::Empirical,
        ),
        KIND_LENS_ANALYSIS@,
    ) + lens_if(
        facets.contains(VerificationFacet::Research) || facets.contains(VerificationFacet::Sources)
            || facets.contains(VerificationFacet::Citations),
        KIND_LENS_RESEARCH@,
    ) + lens_if(facets.contains(VerificationFacet::Math), KIND_LENS_MATH@)
}

pub fn facet_lenses(facets: &FacetSet) -> (r: String)
    ensures
        r@ == lenses(facets@),
{
    let mut out: Vec<char> = Vec::new();
    if facets.contains(&VerificationFacet::Code) {
        append_str(&mut out, KIND_LENS_CODE_CHANGE);
    }
    let ghost first = lens_if(
        facets@.contains(VerificationFacet::Code),
        KIND_LENS_CODE_CHANGE@,
    );
    proof {
        assert(out@ =~= first);
    }
    if facets.contains(&VerificationFacet::Analysis) || facets.contains(
        &VerificationFacet::Empirical,
    ) {
        append_str(&mut out, KIND_LENS_ANALYSIS);
    }
    let ghost second = first + lens_if(
        facets@.contains(VerificationFacet::Analysis) || facets@.contains(
            VerificationFacet::Empirical,
        ),
        KIND_LENS_ANALYSIS@,
    );
    proof {
        assert(out@ =~= second);
    }
    if facets.contains(&VerificationFacet::Research) || facets.contains(&VerificationFacet::Sources)
        || facets.contains(&VerificationFacet::Citations) {
        append_str(&mut out, KIND_LENS_RESEARCH);
    }
    let ghost third = second + lens_if(
        facets@.contains(VerificationFacet::Research) || facets@.contains(
            VerificationFacet::Sources,
        ) || facets@.contains(VerificationFacet::Citations),
        KIND_LENS_RESEARCH@,
    );
    proof {
        assert(out@ =~= third);
    }
    if facets.contains(&VerificationFacet::Math) {
        append_str(&mut out, KIND_LENS_MATH);
    }
    proof {
        assert(out@ =~= lenses(facets@));
    }
    string_of(&out)
}

// ---------------------------------------------------------------------------
// What the names stand for

proof fn lemma_facet_words_differ()
    ensures
        "code"@ != "code-change"@,
        "code"@ != "analysis"@,
        "code"@ != "research"@,
        "code"@ != "math"@,
        "code"@ != "mathematics"@,
        "code"@ != "physics"@,
        "code"@ != "empirical"@,
        "code"@ != "statistics"@,
        "code"@ != "sources"@,
        "code"@ != "source"@,
        "code"@ != "citations"@,
        "code"@ != "citation"@,
        "code"@ != "document-render"@,
        "code"@ != "render"@,
        "code"@ != "state-regression"@,
        "code"@ != "regression"@,
        "code-change"@ != "analysis"@,
        "code-change"@ != "research"@,
        "code-change"@ != "math"@,
        "code-change"@ != "mathematics"@,
        "code-change"@ != "physics"@,
        "code-change"@ != "empirical"@,
        "code-change"@ != "statistics"@,
        "code-change"@ != "sources"@,
        "code-change"@ != "source"@,
        "code-change"@ != "citations"@,
        "code-change"@ != "citation"@,
        "code-change"@ != "document-render"@,
        "code-change"@ != "render"@,
        "code-change"@ != "state-regression"@,
        "code-change"@ != "regression"@,
        "analysis"@ != "research"@,
        "analysis"@ != "math"@,
        "analysis"@ != "mathematics"@,
        "analysis"@ != "physics"@,
        "analysis"@ != "empirical"@,
        "analysis"@ != "statistics"@,
        "analysis"@ != "sources"@,
        "analysis"@ != "source"@,
        "analysis"@ != "citations"@,
        "analysis"@ != "citation"@,
        "analysis"@ != "document-render"@,
        "analysis"@ != "render"@,
        "analysis"@ != "state-regression"@,
        "analysis"@ != "regression"@,
        "research"@ != "math"@,
        "research"@ != "mathematics"@,
        "research"@ != "physics"@,
        "research"@ != "empirical"@,
        "research"@ != "statistics"@,
        "research"@ != "sources"@,
        "research"@ != "source"@,
        "research"@ != "citations"@,
        "research"@ != "citation"@,
        "research"@ != "document-render"@,
        "research"@ != "render"@,
        "research"@ != "state-regression"@,
        "research"@ != "regression"@,
        "math"@ != "mathematics"@,
        "math"@ != "physics"@,
        "math"@ != "empirical"@,
        "math"@ != "statistics"@,
        "math"@ != "sources"@,
        "math"@ != "source"@,
        "math"@ != "citations"@,
        "math"@ != "citation"@,
        "math"@ != "document-render"@,
        "math"@ != "render"@,
        "math"@ != "state-regression"@,
        "math"@ != "regression"@,
        "mathematics"@ != "physics"@,
        "mathematics"@ != "empirical"@,
        "mathematics"@ != "statistics"@,
        "mathematics"@ != "sources"@,
        "mathematics"@ != "source"@,
        "mathematics"@ != "citations"@,
        "mathematics"@ != "citation"@,
        "mathematics"@ != "document-render"@,
        "mathematics"@ != "render"@,
        "mathematics"@ != "state-regression"@,
        "mathematics"@ != "regression"@,
        "physics"@ != "empirical"@,
        "physics"@ != "statistics"@,
        "physics"@ != "sources"@,
        "physics"@ != "source"@,
        "physics"@ != "citations"@,
        "physics"@ != "citation"@,
        "physics"@ != "document-render"@,
        "physics"@ != "render"@,
        "physics"@ != "state-regression"@,
        "physics"@ != "regression"@,
        "empirical"@ != "statistics"@,
        "empirical"@ != "sources"@,
        "empirical"@ != "source"@,
        "empirical"@ != "citations"@,
        "empirical"@ != "citation"@,
        "empirical"@ != "document-render"@,
        "empirical"@ != "render"@,
        "empirical"@ != "state-regression"@,
        "empirical"@ != "regression"@,
        "statistics"@ != "sources"@,
        "statistics"@ != "source"@,
        "statistics"@ != "citations"@,
        "statistics"@ != "citation"@,
        "statistics"@ != "document-render"@,
        "statistics"@ != "render"@,
        "statistics"@ != "state-regression"@,
        "statistics"@ != "regression"@,
        "sources"@ != "source"@,
        "sources"@ != "citations"@,
        "sources"@ != "citation"@,
        "sources"@ != "document-render"@,
        "sources"@ != "render"@,
        "sources"@ != "state-regression"@,
        "sources"@ != "regression"@,
        "source"@ != "citations"@,
        "source"@ != "citation"@,
        "source"@ != "document-render"@,
        "source"@ != "render"@,
        "source"@ != "state-regression"@,
        "source"@ != "regression"@,
        "citations"@ != "citation"@,
        "citations"@ != "document-render"@,
        "citations"@ != "render"@,
        "citations"@ != "state-regression"@,
        "citations"@ != "regression"@,
        "citation"@ != "document-render"@,
        "citation"@ != "render"@,
        "citation"@ != "state-regression"@,
        "citation"@ != "regression"@,
        "document-render"@ != "render"@,
        "document-render"@ != "state-regression"@,
        "document-render"@ != "regression"@,
        "render"@ != "state-regression"@,
        "render"@ != "regression"@,
        "state-regression"@ != "regression"@,
{
    reveal_strlit("code");
    reveal_strlit("code-change");
    reveal_strlit("analysis");
    reveal_strlit("research");
    reveal_strlit("math");
    reveal_strlit("mathematics");
    reveal_strlit("physics");
    reveal_strlit("empirical");
    reveal_strlit("statistics");
    reveal_strlit("sources");
    reveal_strlit("source");
    reveal_strlit("citations");
    reveal_strlit("citation");
    reveal_strlit("document-render");
    reveal_strlit("render");
    reveal_strlit("state-regression");
    reveal_strlit("regression");
    assert("code"@.len() == 4 && "code"@[0] == 'c');
    assert("code-change"@.len() == 11 && "code-change"@[0] == 'c');
    assert("analysis"@.len() == 8 && "analysis"@[0] == 'a');
    assert("research"@.len() == 8 && "research"@[0] == 'r');
    assert("math"@.len() == 4 && "math"@[0] == 'm');
    assert("mathematics"@.len() == 11 && "mathematics"@[0] == 'm');
    assert("physics"@.len() == 7 && "physics"@[0] == 'p');
    assert("empirical"@.len() == 9 && "empirical"@[0] == 'e');
    assert("statistics"@.len() == 10 && "statistics"@[0] == 's');
    assert("sources"@.len() == 7 && "sources"@[0] == 's');
    assert("source"@.len() == 6 && "source"@[0] == 's');
    assert("citations"@.len() == 9 && "citations"@[0] == 'c');
    assert("citation"@.len() == 8 && "citation"@[0] == 'c');
    assert("document-render"@.len() == 15 && "document-render"@[0] == 'd');
    assert("render"@.len() == 6 && "render"@[0] == 'r');
    assert("state-regression"@.len() == 16 && "state-regression"@[0] == 's');
    assert("regression"@.len() == 10 && "regression"@[0] == 'r');
}

/// A facet is named by one of these words, in any case, with blanks or underscores
/// for hyphens; and no word names two facets.
pub proof fn law_facet_is_known_by_its_names(raw: Seq<char>)
    ensures
        ({
            let word = replace_chars(lower(trim(raw)), CharClass::Two(' ', '_'), '-');
            &&& facet_named(raw) == Some(VerificationFacet::Code) <==> word == "code"@ || word == "code-change"@
            &&& facet_named(raw) == Some(VerificationFacet::Analysis) <==> word == "analysis"@
            &&& facet_named(raw) == Some(VerificationFacet::Research) <==> word == "research"@
            &&& facet_named(raw) == Some(VerificationFacet::Math) <==> word == "math"@ || word == "mathematics"@ || word == "physics"@
            &&& facet_named(raw) == Some(VerificationFacet::Empirical) <==> word == "empirical"@ || word == "statistics"@
            &&& facet_named(raw) == Some(VerificationFacet::Sources) <==> word == "sources"@ || word == "source"@
            &&& facet_named(raw) == Some(VerificationFacet::Citations) <==> word == "citations"@ || word == "citation"@
            &&& facet_named(raw) == Some(VerificationFacet::DocumentRender) <==> word == "document-render"@ || word == "render"@
            &&& facet_named(raw) == Some(VerificationFacet::StateRegression) <==> word == "state-regression"@ || word == "regression"@
        }),
{
    lemma_facet_words_differ();
}

proof fn lemma_plain_word(word: Seq<char>)
    requires
        word.len() > 0,
        forall|k: int|
            0 <= k < word.len() ==> (97 <= #[trigger] word[k] as u32 <= 122) || word[k] == '-',
    ensures
        normalized(word, CharClass::Two(' ', '_')) == word,
        normalized(word, CharClass::Three(' ', '_', '/')) == word,
{
    assert(!is_white(word[0]));
    assert(!is_white(word[word.len() - 1]));
    lemma_trim_by_fixed(word, CharClass::White);
    assert forall|k: int| 0 <= k < word.len() implies lower_char(#[trigger] word[k]) == word[k] by {}
    assert(lower(word) =~= word);
    assert(replace_chars(word, CharClass::Two(' ', '_'), '-') =~= word);
    assert(replace_chars(word, CharClass::Three(' ', '_', '/'), '-') =~= word);
}

/// A facet is recognized by the name that it is written with.
pub proof fn law_facet_is_recognized_by_its_own_name(facet: VerificationFacet)
    ensures
        facet_named(facet.name()@) == Some(facet),
{
    lemma_facet_words_differ();
    reveal_strlit("code");
    reveal_strlit("analysis");
    reveal_strlit("research");
    reveal_strlit("math");
    reveal_strlit("empirical");
    reveal_strlit("sources");
    reveal_strlit("citations");
    reveal_strlit("document-render");
    reveal_strlit("state-regression");
    let word = facet.name()@;
    assert(word.len() > 0);
    assert forall|k: int| 0 <= k < word.len() implies (97 <= #[trigger] word[k] as u32 <= 122)
        || word[k] == '-' by {}
    lemma_plain_word(word);
}

/// A gate is recognized, under its facet, by the name that it is written with.
pub proof fn law_gate_is_recognized_by_its_own_name(facet: VerificationFacet, k: int)
    requires
        0 <= k < facet_gates(facet).len(),
    ensures
        gate_named(facet, facet_gates(facet)[k]@) == Some(facet_gates(facet)[k]),
{
    reveal_strlit("analysis-correctness");
    reveal_strlit("citation-integrity");
    reveal_strlit("code-correctness");
    reveal_strlit("contract-closure");
    reveal_strlit("derivation-integrity");
    reveal_strlit("document-render");
    reveal_strlit("empirical-validity");
    reveal_strlit("evidence-provenance");
    reveal_strlit("invariant-ledger");
    reveal_strlit("research-validity");
    reveal_strlit("source-support");
    reveal_strlit("state-isolation");
    assert("contract-closure"@.len() == 16);
    assert("derivation-integrity"@.len() == 20);
    assert("evidence-provenance"@.len() == 19);
    assert("invariant-ledger"@.len() == 16);
    assert("state-isolation"@.len() == 15);
    assert("contract-closure"@[0] == 'c' && "invariant-ledger"@[0] == 'i');
    reveal_strlit("contract-closure-validation");
    assert("contract-closure-validation"@.len() == 27);
    reveal_strlit("derivation-integrity-validation");
    assert("derivation-integrity-validation"@.len() == 31);
    reveal_strlit("evidence-provenance-validation");
    assert("evidence-provenance-validation"@.len() == 30);
    reveal_strlit("invariant-ledger-validation");
    assert("invariant-ledger-validation"@.len() == 27);
    reveal_strlit("state-isolation-validation");
    assert("state-isolation-validation"@.len() == 26);
    let word = facet_gates(facet)[k]@;
    if facet == VerificationFacet::Math {
        assert(k == 0 || k == 1 || k == 2 || k == 3 || k == 4);
    } else {
        assert(k == 0);
    }
    assert(word.len() > 0);
    assert forall|j: int| 0 <= j < word.len() implies (97 <= #[trigger] word[j] as u32 <= 122)
        || word[j] == '-' by {}
    lemma_plain_word(word);
}

/// The gates of each facet: mathematics has five, every other facet one.
pub proof fn law_gates_of_the_facets()
    ensures
        facet_gates(VerificationFacet::Code).len() == 1,
        facet_gates(VerificationFacet::Code)[0]@ == "code-correctness"@,
        facet_gates(VerificationFacet::Analysis).len() == 1,
        facet_gates(VerificationFacet::Analysis)[0]@ == "analysis-correctness"@,
        facet_gates(VerificationFacet::Research).len() == 1,
        facet_gates(VerificationFacet::Research)[0]@ == "research-validity"@,
        facet_gates(VerificationFacet::Math).len() == 5,
        facet_gates(VerificationFacet::Math)[0]@ == "contract-closure"@,
        facet_gates(VerificationFacet::Math)[1]@ == "derivation-integrity"@,
        facet_gates(VerificationFacet::Math)[2]@ == "evidence-provenance"@,
        facet_gates(VerificationFacet::Math)[3]@ == "invariant-ledger"@,
        facet_gates(VerificationFacet::Math)[4]@ == "state-isolation"@,
        facet_gates(VerificationFacet::Empirical).len() == 1,
        facet_gates(VerificationFacet::Empirical)[0]@ == "empirical-validity"@,
        facet_gates(VerificationFacet::Sources).len() == 1,
        facet_gates(VerificationFacet::Sources)[0]@ == "source-support"@,
        facet_gates(VerificationFacet::Citations).len() == 1,
        facet_gates(VerificationFacet::Citations)[0]@ == "citation-integrity"@,
        facet_gates(VerificationFacet::DocumentRender).len() == 1,
        facet_gates(VerificationFacet::DocumentRender)[0]@ == "document-render"@,
        facet_gates(VerificationFacet::StateRegression).len() == 1,
        facet_gates(VerificationFacet::StateRegression)[0]@ == "state-isolation"@,
{
}

proof fn lemma_kind_words_differ()
    ensures
        "code-change"@ != "analysis"@,
        "code-change"@ != "research"@,
        "code-change"@ != "math"@,
        "code-change"@ != "math-derivation"@,
        "code-change"@ != "derivation"@,
        "code-change"@ != "quantitative"@,
        "analysis"@ != "research"@,
        "analysis"@ != "math"@,
        "analysis"@ != "math-derivation"@,
        "analysis"@ != "derivation"@,
        "analysis"@ != "quantitative"@,
        "research"@ != "math"@,
        "research"@ != "math-derivation"@,
        "research"@ != "derivation"@,
        "research"@ != "quantitative"@,
        "math"@ != "math-derivation"@,
        "math"@ != "derivation"@,
        "math"@ != "quantitative"@,
        "math-derivation"@ != "derivation"@,
        "math-derivation"@ != "quantitative"@,
        "derivation"@ != "quantitative"@,
{
    reveal_strlit("code-change");
    reveal_strlit("analysis");
    reveal_strlit("research");
    reveal_strlit("math");
    reveal_strlit("math-derivation");
    reveal_strlit("derivation");
    reveal_strlit("quantitative");
    assert("code-change"@.len() == 11 && "code-change"@[0] == 'c');
    assert("analysis"@.len() == 8 && "analysis"@[0] == 'a');
    assert("research"@.len() == 8 && "research"@[0] == 'r');
    assert("math"@.len() == 4 && "math"@[0] == 'm');
    assert("math-derivation"@.len() == 15 && "math-derivation"@[0] == 'm');
    assert("derivation"@.len() == 10 && "derivation"@[0] == 'd');
    assert("quantitative"@.len() == 12 && "quantitative"@[0] == 'q');
}

proof fn lemma_kind_begins(all: Seq<Seq<char>>, i: int, h: int)
    requires
        0 <= i <= h < all.len(),
        lower(trim(all[h])) == lower("## Goal kind"@),
        forall|m: int| i <= m < h ==> lower(trim(#[trigger] all[m])) != lower("## Goal kind"@),
    ensures
        kind_from(all, i) == kind_value_from(all, h + 1),
    decreases h - i,
{
    if i < h {
        lemma_kind_begins(all, i + 1, h);
    }
}

proof fn lemma_kind_value(all: Seq<Seq<char>>, i: int, l: int)
    requires
        0 <= i <= l < all.len(),
        unmarked(all[l]).len() > 0,
        forall|m: int| i <= m < l ==> unmarked(#[trigger] all[m]).len() == 0,
    ensures
        kind_value_from(all, i) == kind_named(unmarked(all[l])),
    decreases l - i,
{
    if i < l {
        lemma_kind_value(all, i + 1, l);
    }
}

/// A plan is of the kind that the first line with a word on it under its first
/// `## Goal kind` heading names, in any case and with blanks or underscores for
/// hyphens; of no kind where that line names none.
pub proof fn law_kind_of_a_plan_is_the_one_it_names(plan: Seq<char>, h: int, l: int)
    requires
        0 <= h < l < lines(plan).len(),
        lower(trim(lines(plan)[h])) == lower("## Goal kind"@),
        forall|m: int|
            0 <= m < h ==> lower(trim(#[trigger] lines(plan)[m])) != lower("## Goal kind"@),
        unmarked(lines(plan)[l]).len() > 0,
        forall|m: int| h < m < l ==> unmarked(#[trigger] lines(plan)[m]).len() == 0,
    ensures
        ({
            let word = replace_chars(
                lower(unmarked(lines(plan)[l])),
                CharClass::Two(' ', '_'),
                '-',
            );
            &&& plan_kind(plan) == Some(GoalKind::CodeChange) <==> word == "code-change"@
            &&& plan_kind(plan) == Some(GoalKind::Analysis) <==> word == "analysis"@
            &&& plan_kind(plan) == Some(GoalKind::Research) <==> word == "research"@
            &&& plan_kind(plan) == Some(GoalKind::Math) <==> word == "math"@ || word == "math-derivation"@ || word == "derivation"@ || word == "quantitative"@
        }),
{
    lemma_kind_words_differ();
    lemma_kind_begins(lines(plan), 0, h);
    lemma_kind_value(lines(plan), h + 1, l);
}

proof fn lemma_no_kind(all: Seq<Seq<char>>, i: int)
    requires
        0 <= i,
        forall|m: int|
            i <= m < all.len() ==> lower(trim(#[trigger] all[m])) != lower("## Goal kind"@),
    ensures
        kind_from(all, i) is None,
    decreases all.len() - i,
{
    if i < all.len() {
        lemma_no_kind(all, i + 1);
    }
}

/// A plan without a `## Goal kind` heading is of no kind.
pub proof fn law_plan_without_a_kind_heading_is_of_no_kind(plan: Seq<char>)
    requires
        forall|m: int|
            0 <= m < lines(plan).len() ==> lower(trim(#[trigger] lines(plan)[m])) != lower(
                "## Goal kind"@,
            ),
    ensures
        plan_kind(plan) is None,
{
    lemma_no_kind(lines(plan), 0);
}

/// Whether line `l` stands in the facet section, which begins at line `h`: no other
/// heading of that level comes between them.
pub open spec fn stands_in_facets(all: Seq<Seq<char>>, h: int, l: int) -> bool {
    &&& 0 <= h < l < all.len()
    &&& lower(trim(all[h])) == lower("## Goal facets"@)
    &&& forall|m: int| 0 <= m < h ==> lower(trim(#[trigger] all[m])) != lower("## Goal facets"@)
    &&& forall|m: int|
        h < m <= l ==> lower(trim(#[trigger] all[m])) == lower("## Goal facets"@) || !starts_with(
            trim(all[m]),
            "## "@,
        )
    &&& lower(trim(all[l])) != lower("## Goal facets"@)
    &&& trim(all[l]).len() > 0
}

proof fn lemma_facets_begin(all: Seq<Seq<char>>, i: int, h: int)
    requires
        0 <= i <= h < all.len(),
        lower(trim(all[h])) == lower("## Goal facets"@),
        forall|m: int| i <= m < h ==> lower(trim(#[trigger] all[m])) != lower("## Goal facets"@),
    ensures
        facets_from(all, i, false) == facets_from(all, h + 1, true),
    decreases h - i,
{
    if i < h {
        lemma_facets_begin(all, i + 1, h);
    }
}

proof fn lemma_no_facets(all: Seq<Seq<char>>, i: int)
    requires
        0 <= i,
        forall|m: int|
            i <= m < all.len() ==> lower(trim(#[trigger] all[m])) != lower("## Goal facets"@),
    ensures
        facets_from(all, i, false) == Set::<VerificationFacet>::empty(),
    decreases all.len() - i,
{
    if i < all.len() {
        lemma_no_facets(all, i + 1);
    }
}

proof fn lemma_facet_of_line(all: Seq<Seq<char>>, i: int, l: int, f: VerificationFacet)
    requires
        0 <= i <= l < all.len(),
        forall|m: int|
            i <= m <= l ==> lower(trim(#[trigger] all[m])) == lower("## Goal facets"@)
                || !starts_with(trim(all[m]), "## "@),
        lower(trim(all[l])) != lower("## Goal facets"@),
        trim(all[l]).len() > 0,
        line_facets(trim(all[l])).contains(f),
    ensures
        facets_from(all, i, true).contains(f),
    decreases l - i,
{
    if i < l {
        lemma_facet_of_line(all, i + 1, l, f);
    }
}

proof fn lemma_line_of_facet(all: Seq<Seq<char>>, i: int, f: VerificationFacet) -> (l: int)
    requires
        0 <= i,
        facets_from(all, i, true).contains(f),
    ensures
        i <= l < all.len(),
        forall|m: int|
            i <= m <= l ==> lower(trim(#[trigger] all[m])) == lower("## Goal facets"@)
                || !starts_with(trim(all[m]), "## "@),
        lower(trim(all[l])) != lower("## Goal facets"@),
        trim(all[l]).len() > 0,
        line_facets(trim(all[l])).contains(f),
    decreases all.len() - i,
{
    let line = trim(all[i]);
    if !same_ignoring_case(line, "## Goal facets"@) && line.len() > 0 && line_facets(
        line,
    ).contains(f) {
        i
    } else {
        lemma_line_of_facet(all, i + 1, f)
    }
}

proof fn lemma_first_facet_heading(all: Seq<Seq<char>>, i: int) -> (h: int)
    requires
        0 <= i < all.len(),
        lower(trim(all[i])) == lower("## Goal facets"@),
    ensures
        0 <= h <= i,
        lower(trim(all[h])) == lower("## Goal facets"@),
        forall|m: int| 0 <= m < h ==> lower(trim(#[trigger] all[m])) != lower("## Goal facets"@),
    decreases i,
{
    if exists|m: int| 0 <= m < i && lower(trim(#[trigger] all[m])) == lower("## Goal facets"@) {
        let m = choose|m: int|
            0 <= m < i && lower(trim(#[trigger] all[m])) == lower("## Goal facets"@);
        lemma_first_facet_heading(all, m)
    } else {
        i
    }
}

/// A plan declares in its facet section every facet that one of the words of one
/// of its lines names, the words being set apart by commas, plus signs and
/// semicolons; where it declares none there, the facet of its kind stands in, and
/// a plan without either declares nothing.
pub proof fn law_plan_declares_the_facets_of_its_section(plan: Seq<char>, f: VerificationFacet)
    ensures
        ({
            let declared = exists|h: int, l: int, k: int|
                #[trigger] stands_in_facets(lines(plan), h, l) && 0 <= k < split(
                    trim_start_by(trim(lines(plan)[l]), CharClass::Two('-', '*')),
                    CharClass::Three(',', '+', ';'),
                ).len() && facet_named(
                    trim_by(
                        trim(
                            #[trigger] split(
                                trim_start_by(trim(lines(plan)[l]), CharClass::Two('-', '*')),
                                CharClass::Three(',', '+', ';'),
                            )[k],
                        ),
                        CharClass::Three('`', '*', '_'),
                    ),
                ) == Some(f);
            let any = exists|g: VerificationFacet|
                #[trigger] facets_from(lines(plan), 0, false).contains(g);
            &&& facets_from(lines(plan), 0, false).contains(f) <==> declared
            &&& any ==> (plan_facets(plan).contains(f) <==> declared)
            &&& !any && plan_kind(plan) is None ==> !plan_facets(plan).contains(f)
            &&& !any && plan_kind(plan) == Some(GoalKind::CodeChange) ==> (plan_facets(
                plan,
            ).contains(f) <==> f == VerificationFacet::Code)
            &&& !any && plan_kind(plan) == Some(GoalKind::Analysis) ==> (plan_facets(
                plan,
            ).contains(f) <==> f == VerificationFacet::Analysis)
            &&& !any && plan_kind(plan) == Some(GoalKind::Research) ==> (plan_facets(
                plan,
            ).contains(f) <==> f == VerificationFacet::Research)
            &&& !any && plan_kind(plan) == Some(GoalKind::Math) ==> (plan_facets(
                plan,
            ).contains(f) <==> f == VerificationFacet::Math)
        }),
{
    let all = lines(plan);
    let found = facets_from(all, 0, false);
    if found.contains(f) {
        if forall|m: int|
            0 <= m < all.len() ==> lower(trim(#[trigger] all[m])) != lower("## Goal facets"@) {
            lemma_no_facets(all, 0);
        } else {
            let i = choose|m: int|
                0 <= m < all.len() && lower(trim(#[trigger] all[m])) == lower("## Goal facets"@);
            let h = lemma_first_facet_heading(all, i);
            lemma_facets_begin(all, 0, h);
            let l = lemma_line_of_facet(all, h + 1, f);
            assert(stands_in_facets(all, h, l));
            let tokens = facet_tokens(trim(all[l]));
            let k = choose|k: int|
                0 <= k < tokens.len() && token_facet(#[trigger] tokens[k]) == Some(f);
            assert(token_facet(tokens[k]) == Some(f));
        }
    }
    if exists|h: int, l: int, k: int|
        #[trigger] stands_in_facets(lines(plan), h, l) && 0 <= k < split(
            trim_start_by(trim(lines(plan)[l]), CharClass::Two('-', '*')),
            CharClass::Three(',', '+', ';'),
        ).len() && facet_named(
            trim_by(
                trim(
                    #[trigger] split(
                        trim_start_by(trim(lines(plan)[l]), CharClass::Two('-', '*')),
                        CharClass::Three(',', '+', ';'),
                    )[k],
                ),
                CharClass::Three('`', '*', '_'),
            ),
        ) == Some(f) {
        let (h, l, k) = choose|h: int, l: int, k: int|
            #[trigger] stands_in_facets(lines(plan), h, l) && 0 <= k < split(
                trim_start_by(trim(lines(plan)[l]), CharClass::Two('-', '*')),
                CharClass::Three(',', '+', ';'),
            ).len() && facet_named(
                trim_by(
                    trim(
                        #[trigger] split(
                            trim_start_by(trim(lines(plan)[l]), CharClass::Two('-', '*')),
                            CharClass::Three(',', '+', ';'),
                        )[k],
                    ),
                    CharClass::Three('`', '*', '_'),
                ),
            ) == Some(f);
        let tokens = facet_tokens(trim(all[l]));
        assert(token_facet(tokens[k]) == Some(f));
        lemma_facets_begin(all, 0, h);
        lemma_facet_of_line(all, h + 1, l, f);
    }
    if forall|g: VerificationFacet| !found.contains(g) {
        assert(found =~= Set::empty());
    }
}

/// The lens of a facet is in the prompt exactly where the facet is assigned: that
/// of code for code, that of analysis for analysis and empirical work, that of
/// research for research, sources and citations, that of mathematics for
/// mathematics; in this order and each once.
pub proof fn law_lenses_follow_the_facets(facets: Set<VerificationFacet>)
    ensures
        ({
            let code = facets.contains(VerificationFacet::Code);
            let analysis = facets.contains(VerificationFacet::Analysis) || facets.contains(
                VerificationFacet::Empirical,
            );
            let research = facets.contains(VerificationFacet::Research) || facets.contains(
                VerificationFacet::Sources,
            ) || facets.contains(VerificationFacet::Citations);
            let math = facets.contains(VerificationFacet::Math);
            &&& code ==> starts_with(lenses(facets), KIND_LENS_CODE_CHANGE@)
            &&& !code && analysis ==> starts_with(lenses(facets), KIND_LENS_ANALYSIS@)
            &&& !code && !analysis && research ==> starts_with(
                lenses(facets),
                KIND_LENS_RESEARCH@,
            )
            &&& math ==> ends_with(lenses(facets), KIND_LENS_MATH@)
            &&& !math && research ==> ends_with(lenses(facets), KIND_LENS_RESEARCH@)
            &&& !math && !research && analysis ==> ends_with(lenses(facets), KIND_LENS_ANALYSIS@)
            &&& lenses(facets).len() == (if code {
                KIND_LENS_CODE_CHANGE@.len()
            } else {
                0
            }) + (if analysis {
                KIND_LENS_ANALYSIS@.len()
            } else {
                0
            }) + (if research {
                KIND_LENS_RESEARCH@.len()
            } else {
                0
            }) + (if math {
                KIND_LENS_MATH@.len()
            } else {
                0
            })
        }),
{
    let all = lenses(facets);
    let a = lens_if(facets.contains(VerificationFacet::Code), KIND_LENS_CODE_CHANGE@);
    let b = lens_if(
        facets.contains(VerificationFacet::Analysis) || facets.contains(
            VerificationFacet::Empirical,
        ),
        KIND_LENS_ANALYSIS@,
    );
    let c = lens_if(
        facets.contains(VerificationFacet::Research) || facets.contains(VerificationFacet::Sources)
            || facets.contains(VerificationFacet::Citations),
        KIND_LENS_RESEARCH@,
    );
    let d = lens_if(facets.contains(VerificationFacet::Math), KIND_LENS_MATH@);
    assert(all.subrange(0, a.len() as int) =~= a);
    assert(all.subrange(a.len() as int, (a.len() + b.len()) as int) =~= b);
    assert(all.subrange((a.len() + b.len()) as int, (a.len() + b.len() + c.len()) as int) =~= c);
    assert(all.subrange((a.len() + b.len() + c.len()) as int, all.len() as int) =~= d);
}

/// A math gate is known by its name, with or without the word `validation`, in any
/// case and with blanks, underscores or slashes for hyphens; that of the state by
/// two longer names besides. No name stands for two gates.
pub proof fn law_math_gate_is_known_by_its_names(raw: Seq<char>)
    ensures
        ({
            let word = replace_chars(lower(trim(raw)), CharClass::Three(' ', '_', '/'), '-');
            &&& math_gate_named(raw) == Some("contract-closure") ==> word == "contract-closure"@ || word
                == "contract-closure-validation"@
            &&& math_gate_named(raw) == Some("derivation-integrity") ==> word == "derivation-integrity"@ || word
                == "derivation-integrity-validation"@
            &&& math_gate_named(raw) == Some("evidence-provenance") ==> word == "evidence-provenance"@ || word
                == "evidence-provenance-validation"@
            &&& math_gate_named(raw) == Some("invariant-ledger") ==> word == "invariant-ledger"@ || word
                == "invariant-ledger-validation"@
            &&& word == "contract-closure"@ || word == "contract-closure-validation"@ ==> math_gate_named(raw) is Some
                && math_gate_named(raw)->0@ == "contract-closure"@
            &&& word == "derivation-integrity"@ || word == "derivation-integrity-validation"@ ==> math_gate_named(raw) is Some
                && math_gate_named(raw)->0@ == "derivation-integrity"@
            &&& word == "evidence-provenance"@ || word == "evidence-provenance-validation"@ ==> math_gate_named(raw) is Some
                && math_gate_named(raw)->0@ == "evidence-provenance"@
            &&& word == "invariant-ledger"@ || word == "invariant-ledger-validation"@ ==> math_gate_named(raw) is Some
                && math_gate_named(raw)->0@ == "invariant-ledger"@
            &&& word == "state-isolation"@ || word == "state-isolation-validation"@ ==> math_gate_named(raw) is Some
                && math_gate_named(raw)->0@ == "state-isolation"@
            &&& word == "state-isolation-artifact-freezing"@ || word
                == "state-isolation-and-artifact-freezing"@ ==> math_gate_named(raw) is Some
                && math_gate_named(raw)->0@ == "state-isolation"@
            &&& math_gate_named(raw) is Some ==> word == "state-isolation-artifact-freezing"@
                || word == "state-isolation-and-artifact-freezing"@
                || word == "contract-closure"@ || word == "contract-closure-validation"@
                || word == "derivation-integrity"@ || word == "derivation-integrity-validation"@
                || word == "evidence-provenance"@ || word == "evidence-provenance-validation"@
                || word == "invariant-ledger"@ || word == "invariant-ledger-validation"@
                || word == "state-isolation"@ || word == "state-isolation-validation"@
        }),
{
    let word = replace_chars(lower(trim(raw)), CharClass::Three(' ', '_', '/'), '-');
    reveal_strlit("contract-closure");
    reveal_strlit("contract-closure-validation");
    assert("contract-closure"@.len() == 16 && "contract-closure"@[0] == 'c');
    assert("contract-closure-validation"@.len() == 27 && "contract-closure-validation"@[0] == 'c');
    reveal_strlit("derivation-integrity");
    reveal_strlit("derivation-integrity-validation");
    assert("derivation-integrity"@.len() == 20 && "derivation-integrity"@[0] == 'd');
    assert("derivation-integrity-validation"@.len() == 31 && "derivation-integrity-validation"@[0] == 'd');
    reveal_strlit("evidence-provenance");
    reveal_strlit("evidence-provenance-validation");
    assert("evidence-provenance"@.len() == 19 && "evidence-provenance"@[0] == 'e');
    assert("evidence-provenance-validation"@.len() == 30 && "evidence-provenance-validation"@[0] == 'e');
    reveal_strlit("invariant-ledger");
    reveal_strlit("invariant-ledger-validation");
    assert("invariant-ledger"@.len() == 16 && "invariant-ledger"@[0] == 'i');
    assert("invariant-ledger-validation"@.len() == 27 && "invariant-ledger-validation"@[0] == 'i');
    reveal_strlit("state-isolation");
    reveal_strlit("state-isolation-validation");
    assert("state-isolation"@.len() == 15 && "state-isolation"@[0] == 's');
    assert("state-isolation-validation"@.len() == 26 && "state-isolation-validation"@[0] == 's');
    reveal_strlit("state-isolation-artifact-freezing");
    reveal_strlit("state-isolation-and-artifact-freezing");
    assert("state-isolation-artifact-freezing"@.len() == 33);
    assert("state-isolation-and-artifact-freezing"@.len() == 37);
    assert("state-isolation-artifact-freezing"@[0] == 's');
    assert("state-isolation-and-artifact-freezing"@[0] == 's');
    assert("contract-closure"@ != "contract-closure-validation"@);
}

/// The lens of a kind is the one that is made for it; a goal without a kind has
/// none.
pub proof fn law_kind_has_the_lens_that_is_made_for_it()
    ensures
        lens_of_kind(Some(GoalKind::CodeChange)) == KIND_LENS_CODE_CHANGE,
        lens_of_kind(Some(GoalKind::Research)) == KIND_LENS_RESEARCH,
        lens_of_kind(Some(GoalKind::Analysis)) == KIND_LENS_ANALYSIS,
        lens_of_kind(Some(GoalKind::Math)) == KIND_LENS_MATH,
        lens_of_kind(None)@.len() == 0,
{
    reveal_strlit("");
}

} // verus!
