//! The contract that a goal plan has to meet before it is worked on.

use vstd::prelude::*;

use crate::facets::{
    math_gates, math_validation_gates, parse_goal_facets, parse_goal_kind, plan_facets, plan_kind,
    GoalKind, VerificationFacet,
};
use crate::sources::{objective_suggests_math, suggests_math};
use crate::text::{
    append, chars_of, contains, contains_str, copy_of, digit, is_digit, is_text,
    is_text_ignoring_case, is_white, lemma_contains_in_whole, lemma_contains_itself,
    lemma_texts_push, lines, lines_of, lower, lower_of, matches_at, matches_at_of, mentions_any,
    mentions_any_of, same_ignoring_case, slice_of, starts_with, starts_with_str, string_of, strings,
    strings_of, strip_prefix, strip_prefix_str, texts, trim, trim_by, trim_by_of, trim_of,
    trim_start_by, trim_start_by_of, white, words, words_of, CharClass,
};

verus! {

// ---------------------------------------------------------------------------
// Lines of a plan

/// The number of decimal digits that `s` begins with.
pub open spec fn leading_digits(s: Seq<char>) -> nat
    decreases s.len(),
{
    if s.len() > 0 && is_digit(s[0]) {
        1 + leading_digits(s.drop_first())
    } else {
        0
    }
}

/// What follows the marker of a numbered list item: digits, `.` or `)`, white
/// space, and then the body.
pub open spec fn item_body(line: Seq<char>) -> Option<Seq<char>> {
    let l = trim_start_by(line, CharClass::White);
    let d = leading_digits(l) as int;
    let rest = l.skip(d);
    if d == 0 || rest.len() < 2 || !(rest[0] == '.' || rest[0] == ')') || !is_white(rest[1])
        || trim(rest.skip(1)).len() == 0 {
        None
    } else {
        Some(trim(rest.skip(1)))
    }
}

fn leading_digits_of(s: &Vec<char>) -> (r: usize)
    ensures
        r == leading_digits(s@),
        r <= s@.len(),
{
    let mut i: usize = 0;
    proof {
        assert(s@.skip(0) =~= s@);
    }
    while i < s.len() && digit(s[i])
        invariant
            i <= s@.len(),
            leading_digits(s@) == i + leading_digits(s@.skip(i as int)),
        decreases s@.len() - i,
    {
        proof {
            assert(s@.skip(i as int).drop_first() =~= s@.skip(i as int + 1));
        }
        i += 1;
    }
    i
}

fn item_body_of(line: &Vec<char>) -> (r: Option<Vec<char>>)
    ensures
        match item_body(line@) {
            Some(body) => r is Some && r->0@ == body,
            None => r is None,
        },
{
    let l = trim_start_by_of(line, CharClass::White);
    let d = leading_digits_of(&l);
    proof {
        assert(l@.subrange(d as int, l@.len() as int) =~= l@.skip(d as int));
    }
    let rest = slice_of(&l, d, l.len());
    if d == 0 || rest.len() < 2 || !(rest[0] == '.' || rest[0] == ')') || !white(rest[1]) {
        return None;
    }
    proof {
        assert(rest@.subrange(1, rest@.len() as int) =~= rest@.skip(1));
    }
    let tail = slice_of(&rest, 1, rest.len());
    let body = trim_of(&tail);
    if body.len() == 0 {
        None
    } else {
        Some(body)
    }
}

pub fn numbered_item_body(line: &str) -> (r: Option<String>)
    ensures
        match item_body(line@) {
            Some(body) => r is Some && r->0@ == body,
            None => r is None,
        },
{
    let v = chars_of(line);
    match item_body_of(&v) {
        Some(body) => Some(string_of(&body)),
        None => None,
    }
}

/// Whether a line begins a bulleted or a numbered list item.
pub open spec fn is_list_item(line: Seq<char>) -> bool {
    let l = trim_start_by(line, CharClass::White);
    starts_with(l, "- "@) || starts_with(l, "* "@) || starts_with(l, "+ "@) || item_body(l) is Some
}

fn is_list_item_of(line: &Vec<char>) -> (r: bool)
    ensures
        r == is_list_item(line@),
{
    let l = trim_start_by_of(line, CharClass::White);
    starts_with_str(&l, "- ") || starts_with_str(&l, "* ") || starts_with_str(&l, "+ ")
        || item_body_of(&l).is_some()
}

pub fn is_markdown_list_item(line: &str) -> (r: bool)
    ensures
        r == is_list_item(line@),
{
    let v = chars_of(line);
    is_list_item_of(&v)
}

/// The items of the `## Verification plan` section, in lower case. A line that
/// begins no item continues the one before it. `acc` holds what the lines
/// before `i` gave.
pub open spec fn collect_items(
    all: Seq<Seq<char>>,
    i: int,
    inside: bool,
    acc: Seq<Seq<char>>,
) -> Seq<Seq<char>>
    decreases all.len() - i,
{
    if i < 0 || i >= all.len() {
        acc
    } else {
        let line = trim(all[i]);
        if !inside {
            collect_items(all, i + 1, same_ignoring_case(line, "## Verification plan"@), acc)
        } else if starts_with(line, "## "@) {
            acc
        } else if line.len() == 0 {
            collect_items(all, i + 1, true, acc)
        } else if is_list_item(line) {
            collect_items(all, i + 1, true, acc.push(lower(line)))
        } else if acc.len() > 0 {
            collect_items(
                all,
                i + 1,
                true,
                acc.drop_last().push(acc.last() + seq![' '] + lower(line)),
            )
        } else {
            collect_items(all, i + 1, true, acc)
        }
    }
}

pub open spec fn plan_items(plan: Seq<char>) -> Seq<Seq<char>> {
    collect_items(lines(plan), 0, false, seq![])
}

fn plan_items_of(plan: &str) -> (r: Vec<Vec<char>>)
    ensures
        texts(r@) == plan_items(plan@),
{
    let v = chars_of(plan);
    let all = lines_of(&v);
    let ghost ls = lines(plan@);
    let mut items: Vec<Vec<char>> = Vec::new();
    let mut inside = false;
    let mut i: usize = 0;
    proof {
        assert(texts(items@) =~= seq![]);
    }
    while i < all.len()
        invariant
            i <= all@.len(),
            ls == texts(all@),
            ls == lines(plan@),
            collect_items(ls, i as int, inside, texts(items@)) == plan_items(plan@),
        decreases all@.len() - i,
    {
        let line = trim_of(&all[i]);
        proof {
            assert(line@ == trim(ls[i as int]));
        }
        if !inside {
            inside = is_text_ignoring_case(&line, "## Verification plan");
        } else if starts_with_str(&line, "## ") {
            return items;
        } else if line.len() > 0 {
            if is_list_item_of(&line) {
                let low = lower_of(&line);
                proof {
                    lemma_texts_push(items@, low);
                }
                items.push(low);
            } else if items.len() > 0 {
                let ghost before = texts(items@);
                let n: usize = items.len();
                let mut last = copy_of(&items[n - 1]);
                last.push(' ');
                append(&mut last, &lower_of(&line));
                proof {
                    assert(last@ =~= before.last() + seq![' '] + lower(line@));
                    assert(texts(items@.update(n - 1, last)) =~= before.drop_last().push(last@));
                }
                items.set(n - 1, last);
            }
        }
        i += 1;
    }
    items
}

pub fn verification_plan_items(plan: &str) -> (r: Vec<String>)
    ensures
        strings(r@) == plan_items(plan@),
{
    let items = plan_items_of(plan);
    strings_of(&items)
}

// ---------------------------------------------------------------------------
// Step tags

/// Whether one of the first three words of an item is the tag `gating`.
pub open spec fn is_gating(item: Seq<char>) -> bool {
    exists|k: int|
        0 <= k < 3 && k < words(item).len() && trim_by(#[trigger] words(item)[k], CharClass::NotWord)
            == "gating"@
}

fn is_gating_of(item: &Vec<char>) -> (r: bool)
    ensures
        r == is_gating(item@),
{
    let ws = words_of(item);
    let mut k: usize = 0;
    while k < ws.len() && k < 3
        invariant
            k <= ws@.len(),
            k <= 3,
            texts(ws@) == words(item@),
            forall|m: int|
                0 <= m < k ==> trim_by(#[trigger] words(item@)[m], CharClass::NotWord)
                    != "gating"@,
        decreases 3 - k,
    {
        proof {
            assert(words(item@)[k as int] == ws@[k as int]@);
        }
        if is_text(&trim_by_of(&ws[k], CharClass::NotWord), "gating") {
            return true;
        }
        k += 1;
    }
    proof {
        assert(words(item@).len() == ws@.len());
    }
    false
}

pub fn is_gating_verification_item(item: &str) -> (r: bool)
    ensures
        r == is_gating(item@),
{
    let v = chars_of(item);
    is_gating_of(&v)
}

/// Whether the first word of an item is the tag `gating` or `evidence`,
/// decoration aside.
pub open spec fn has_step_tag(item: Seq<char>) -> bool {
    words(item).len() > 0 && {
        let tag = trim_by(words(item)[0], CharClass::NotWord);
        tag == "gating"@ || tag == "evidence"@
    }
}

fn has_step_tag_of(item: &Vec<char>) -> (r: bool)
    ensures
        r == has_step_tag(item@),
{
    let ws = words_of(item);
    proof {
        assert(words(item@).len() == ws@.len());
    }
    if ws.len() == 0 {
        return false;
    }
    proof {
        assert(words(item@)[0] == ws@[0]@);
    }
    let tag = trim_by_of(&ws[0], CharClass::NotWord);
    is_text(&tag, "gating") || is_text(&tag, "evidence")
}

pub fn has_verification_step_tag(item: &str) -> (r: bool)
    ensures
        r == has_step_tag(item@),
{
    let v = chars_of(item);
    has_step_tag_of(&v)
}

// ---------------------------------------------------------------------------
// Independent recomputation

pub open spec fn recheck_signals() -> Seq<&'static str> {
    seq![
        "recompute",
        "re-compute",
        "recomputation",
        "recalculate",
        "re-calculat",
        "recalculation",
        "re-derive",
        "rederive",
    ]
}

pub open spec fn independence_signals() -> Seq<&'static str> {
    seq!["independent", "adversarial", "alternative", "separate"]
}

pub open spec fn math_work_signals() -> Seq<&'static str> {
    seq![
        "comput",
        "calculat",
        "deriv",
        "residual",
        "substitut",
        "numerical",
        "symbolic",
        "solve",
        "proof",
    ]
}

/// Whether an item asks for a check that does not lean on the result it checks.
pub open spec fn asks_independent_check(item: Seq<char>) -> bool {
    contains(item, "attacker-math"@) || mentions_any(item, recheck_signals()) || (mentions_any(
        item,
        independence_signals(),
    ) && mentions_any(item, math_work_signals()))
}

/// Whether a gating step of the plan asks for independent recomputation.
pub open spec fn has_adversarial_gate(plan: Seq<char>) -> bool {
    exists|k: int|
        0 <= k < plan_items(plan).len() && is_gating(#[trigger] plan_items(plan)[k])
            && asks_independent_check(plan_items(plan)[k])
}

fn asks_independent_check_of(item: &Vec<char>) -> (r: bool)
    ensures
        r == asks_independent_check(item@),
{
    let rechecks = [
        "recompute",
        "re-compute",
        "recomputation",
        "recalculate",
        "re-calculat",
        "recalculation",
        "re-derive",
        "rederive",
    ];
    let independence = ["independent", "adversarial", "alternative", "separate"];
    let work = [
        "comput",
        "calculat",
        "deriv",
        "residual",
        "substitut",
        "numerical",
        "symbolic",
        "solve",
        "proof",
    ];
    proof {
        assert(rechecks@ =~= recheck_signals());
        assert(independence@ =~= independence_signals());
        assert(work@ =~= math_work_signals());
    }
    contains_str(item, "attacker-math") || mentions_any_of(item, &rechecks) || (mentions_any_of(
        item,
        &independence,
    ) && mentions_any_of(item, &work))
}

pub fn plan_has_adversarial_math_gate(plan: &str) -> (r: bool)
    ensures
        r == has_adversarial_gate(plan@),
{
    let items = plan_items_of(plan);
    let mut k: usize = 0;
    while k < items.len()
        invariant
            k <= items@.len(),
            texts(items@) == plan_items(plan@),
            forall|m: int|
                0 <= m < k ==> !(is_gating(#[trigger] plan_items(plan@)[m])
                    && asks_independent_check(plan_items(plan@)[m])),
        decreases items@.len() - k,
    {
        proof {
            assert(plan_items(plan@)[k as int] == items@[k as int]@);
        }
        if is_gating_of(&items[k]) && asks_independent_check_of(&items[k]) {
            return true;
        }
        k += 1;
    }
    proof {
        assert(plan_items(plan@).len() == items@.len());
    }
    false
}

// ---------------------------------------------------------------------------
// Gate coverage

pub open spec fn negations() -> Seq<&'static str> {
    seq![
        "do not",
        "don't",
        "not check",
        "not cover",
        "without",
        "skip",
        "omit",
        "ignore",
        "n/a",
        "not applicable",
    ]
}

/// Where the clause that reaches up to `i` begins: behind the last `;`, `.` or
/// `,` before `i`.
pub open spec fn clause_start(s: Seq<char>, i: int) -> int
    decreases i,
{
    if i <= 0 {
        0
    } else if CharClass::Three(';', '.', ',').has(s[i - 1]) {
        i
    } else {
        clause_start(s, i - 1)
    }
}

/// Whether the clause before position `i` negates what stands at `i`.
pub open spec fn is_negated_at(s: Seq<char>, i: int) -> bool {
    mentions_any(trim(s.subrange(clause_start(s, i), i)), negations())
}

/// Whether one of the occurrences of `gate` from `i` on, taken from the left
/// without overlap, is not negated.
pub open spec fn affirmed_from(s: Seq<char>, gate: Seq<char>, i: int) -> bool
    decreases s.len() - i,
{
    if i < 0 || i >= s.len() || gate.len() == 0 {
        false
    } else if matches_at(s, gate, i) {
        !is_negated_at(s, i) || affirmed_from(s, gate, i + gate.len())
    } else {
        affirmed_from(s, gate, i + 1)
    }
}

/// Whether an item mentions `gate` without negating it. An empty name is
/// mentioned at the very start, where nothing can negate it.
pub open spec fn affirms(item: Seq<char>, gate: Seq<char>) -> bool {
    gate.len() == 0 || affirmed_from(item, gate, 0)
}

proof fn lemma_negated_from(item: Seq<char>, gate: Seq<char>, i: int)
    requires
        0 <= i,
        forall|k: int| #[trigger] matches_at(item, gate, k) ==> is_negated_at(item, k),
    ensures
        !affirmed_from(item, gate, i),
    decreases item.len() - i,
{
    if i < item.len() && gate.len() > 0 {
        if matches_at(item, gate, i) {
            lemma_negated_from(item, gate, i + gate.len());
        } else {
            lemma_negated_from(item, gate, i + 1);
        }
    }
}

/// A gate that is only ever mentioned to be left out is not covered: language
/// such as "do not check" never counts as a promise to check.
pub proof fn law_negated_mention_never_counts(item: Seq<char>, gate: Seq<char>)
    requires
        gate.len() > 0,
        forall|k: int| #[trigger] matches_at(item, gate, k) ==> is_negated_at(item, k),
    ensures
        !affirms(item, gate),
{
    lemma_negated_from(item, gate, 0);
}

proof fn lemma_clause_start_bounds(s: Seq<char>, i: int)
    requires
        0 <= i <= s.len(),
    ensures
        0 <= clause_start(s, i) <= i,
    decreases i,
{
    if i > 0 {
        lemma_clause_start_bounds(s, i - 1);
    }
}

fn is_negated_at_of(s: &Vec<char>, i: usize) -> (r: bool)
    requires
        i <= s@.len(),
    ensures
        r == is_negated_at(s@, i as int),
{
    let class = CharClass::Three(';', '.', ',');
    let mut start: usize = i;
    while start > 0 && !class.test(s[start - 1])
        invariant
            start <= i <= s@.len(),
            class == CharClass::Three(';', '.', ','),
            clause_start(s@, i as int) == clause_start(s@, start as int),
        decreases start,
    {
        start -= 1;
    }
    let words = [
        "do not",
        "don't",
        "not check",
        "not cover",
        "without",
        "skip",
        "omit",
        "ignore",
        "n/a",
        "not applicable",
    ];
    proof {
        assert(words@ =~= negations());
        assert(clause_start(s@, i as int) == start);
    }
    let prefix = trim_of(&slice_of(s, start, i));
    mentions_any_of(&prefix, &words)
}

fn affirms_of(item: &Vec<char>, gate: &str) -> (r: bool)
    ensures
        r == affirms(item@, gate@),
{
    let g = chars_of(gate);
    if g.len() == 0 {
        return true;
    }
    let mut i: usize = 0;
    while i < item.len()
        invariant
            i <= item@.len(),
            g@ == gate@,
            gate@.len() > 0,
            affirmed_from(item@, gate@, 0) == affirmed_from(item@, gate@, i as int),
        decreases item@.len() - i,
    {
        if matches_at_of(item, &g, i) {
            if !is_negated_at_of(item, i) {
                return true;
            }
            i += g.len();
        } else {
            i += 1;
        }
    }
    false
}

pub fn affirmative_gate_mention(item: &str, gate: &str) -> (r: bool)
    ensures
        r == affirms(item@, gate@),
{
    let v = chars_of(item);
    affirms_of(&v, gate)
}

/// Whether a gating step affirms `gate`.
pub open spec fn gate_is_covered(items: Seq<Seq<char>>, gate: Seq<char>) -> bool {
    exists|k: int|
        0 <= k < items.len() && is_gating(#[trigger] items[k]) && affirms(items[k], gate)
}

/// Whether the gating steps of the plan cover every math gate.
pub open spec fn covers_math_gates(plan: Seq<char>) -> bool {
    forall|g: int|
        0 <= g < math_gates().len() ==> gate_is_covered(
            plan_items(plan),
            #[trigger] math_gates()[g]@,
        )
}

fn gate_is_covered_of(items: &Vec<Vec<char>>, gate: &str) -> (r: bool)
    ensures
        r == gate_is_covered(texts(items@), gate@),
{
    let ghost ts = texts(items@);
    let mut k: usize = 0;
    while k < items.len()
        invariant
            k <= items@.len(),
            ts == texts(items@),
            forall|m: int|
                0 <= m < k ==> !(is_gating(#[trigger] ts[m]) && affirms(ts[m], gate@)),
        decreases items@.len() - k,
    {
        proof {
            assert(ts[k as int] == items@[k as int]@);
        }
        if is_gating_of(&items[k]) && affirms_of(&items[k], gate) {
            return true;
        }
        k += 1;
    }
    false
}

pub fn plan_has_complete_math_gate_coverage(plan: &str) -> (r: bool)
    ensures
        r == covers_math_gates(plan@),
{
    let items = plan_items_of(plan);
    let gates = math_validation_gates();
    let mut g: usize = 0;
    while g < gates.len()
        invariant
            g <= gates@.len(),
            gates@ == math_gates(),
            texts(items@) == plan_items(plan@),
            forall|k: int|
                0 <= k < g ==> gate_is_covered(plan_items(plan@), #[trigger] math_gates()[k]@),
        decreases gates@.len() - g,
    {
        if !gate_is_covered_of(&items, gates[g]) {
            proof {
                assert(!gate_is_covered(plan_items(plan@), math_gates()[g as int]@));
            }
            return false;
        }
        g += 1;
    }
    true
}

// ---------------------------------------------------------------------------
// The math contract

/// Whether a plan needs an independent math check: it declares the math facet,
/// or the objective or the plan speaks of mathematics and the plan is not one of
/// a code change, which keeps its own checks however mathematical its words are.
/// `objective_is_math` says what was found out about the objective.
pub open spec fn requires_math(objective_is_math: bool, plan: Seq<char>) -> bool {
    ||| plan_facets(plan).contains(VerificationFacet::Math)
    ||| plan_kind(plan) != Some(GoalKind::CodeChange) && (objective_is_math || suggests_math(plan))
}

/// What the math contract lacks, where it applies and is not met.
/// `facet_message` is what to say where the math facet is not declared.
pub open spec fn math_fault(
    objective_is_math: bool,
    plan: Seq<char>,
    facet_message: &'static str,
) -> Option<&'static str> {
    if !requires_math(objective_is_math, plan) {
        None
    } else if !plan_facets(plan).contains(VerificationFacet::Math) {
        Some(facet_message)
    } else if !has_adversarial_gate(plan) {
        Some(MATH_GATE_MISSING)
    } else if !covers_math_gates(plan) {
        Some(MATH_GATES_NOT_COVERED)
    } else {
        None
    }
}

pub const MATH_FACET_MISSING: &'static str =
    "math/quantitative objective requires the `math` goal facet so the math \
             verifier lens applies";

pub const MATH_FACET_MISSING_SOURCE_AWARE: &'static str =
    "math/quantitative objective (incl. named sources) requires the `math` goal facet \
             so the math verifier lens applies";

pub const MATH_GATE_MISSING: &'static str =
    "math plan missing gating adversarial/independent recomputation step \
             in ## Verification plan";

pub const MATH_GATES_NOT_COVERED: &'static str =
    "math plan's gating verification steps must cover contract-closure, \
             derivation-integrity, evidence-provenance, invariant-ledger, and \
             state-isolation";

pub fn plan_requires_math_adversarial(objective: &str, plan: &str) -> (r: bool)
    ensures
        r == requires_math(suggests_math(objective@), plan@),
{
    plan_requires_math_adversarial_source_aware(objective, plan, false)
}

pub fn validate_math_plan_contract(objective: &str, plan: &str) -> (r: Result<(), &'static str>)
    ensures
        match math_fault(suggests_math(objective@), plan@, MATH_FACET_MISSING) {
            Some(fault) => r == Err::<(), &'static str>(fault),
            None => r == Ok::<(), &'static str>(()),
        },
{
    if !plan_requires_math_adversarial(objective, plan) {
        return Ok(());
    }
    if !parse_goal_facets(plan).contains(&VerificationFacet::Math) {
        return Err(MATH_FACET_MISSING);
    }
    if !plan_has_adversarial_math_gate(plan) {
        return Err(MATH_GATE_MISSING);
    }
    if !plan_has_complete_math_gate_coverage(plan) {
        return Err(MATH_GATES_NOT_COVERED);
    }
    Ok(())
}

/// As `plan_requires_math_adversarial`, where `sources_are_math` says whether the
/// files that the objective names were found to be about mathematics.
pub fn plan_requires_math_adversarial_source_aware(
    objective: &str,
    plan: &str,
    sources_are_math: bool,
) -> (r: bool)
    ensures
        r == requires_math(suggests_math(objective@) || sources_are_math, plan@),
{
    if parse_goal_facets(plan).contains(&VerificationFacet::Math) {
        return true;
    }
    if matches!(parse_goal_kind(plan), Some(GoalKind::CodeChange)) {
        return false;
    }
    sources_are_math || objective_suggests_math(objective) || objective_suggests_math(plan)
}

pub fn validate_math_plan_contract_source_aware(
    objective: &str,
    plan: &str,
    sources_are_math: bool,
) -> (r: Result<(), &'static str>)
    ensures
        match math_fault(
            suggests_math(objective@) || sources_are_math,
            plan@,
            MATH_FACET_MISSING_SOURCE_AWARE,
        ) {
            Some(fault) => r == Err::<(), &'static str>(fault),
            None => r == Ok::<(), &'static str>(()),
        },
{
    if !plan_requires_math_adversarial_source_aware(objective, plan, sources_are_math) {
        return Ok(());
    }
    if !parse_goal_facets(plan).contains(&VerificationFacet::Math) {
        return Err(MATH_FACET_MISSING_SOURCE_AWARE);
    }
    if !plan_has_adversarial_math_gate(plan) {
        return Err(MATH_GATE_MISSING);
    }
    if !plan_has_complete_math_gate_coverage(plan) {
        return Err(MATH_GATES_NOT_COVERED);
    }
    Ok(())
}

// ---------------------------------------------------------------------------
// The plan contract

/// The first line from `i` on that is not blank.
pub open spec fn first_line_from(all: Seq<Seq<char>>, i: int) -> Option<Seq<char>>
    decreases all.len() - i,
{
    if i < 0 || i >= all.len() {
        None
    } else if trim(all[i]).len() > 0 {
        Some(all[i])
    } else {
        first_line_from(all, i + 1)
    }
}

/// Whether the first line that is not blank is a `# Plan:` heading with a text.
pub open spec fn has_plan_heading(plan: Seq<char>) -> bool {
    match first_line_from(lines(plan), 0) {
        Some(line) => match strip_prefix(trim(line), "# Plan:"@) {
            Some(headline) => trim(headline).len() > 0,
            None => false,
        },
        None => false,
    }
}

/// The numbered items of a section, in lower case, from line `i` on.
pub open spec fn section_items_from(
    all: Seq<Seq<char>>,
    section: Seq<char>,
    i: int,
    inside: bool,
    acc: Seq<Seq<char>>,
) -> Seq<Seq<char>>
    decreases all.len() - i,
{
    if i < 0 || i >= all.len() {
        acc
    } else {
        let line = trim(all[i]);
        if same_ignoring_case(line, section) {
            section_items_from(all, section, i + 1, true, acc)
        } else if inside && starts_with(line, "## "@) {
            acc
        } else if inside && item_body(line) is Some {
            section_items_from(all, section, i + 1, inside, acc.push(lower(item_body(line)->0)))
        } else {
            section_items_from(all, section, i + 1, inside, acc)
        }
    }
}

pub open spec fn section_items(plan: Seq<char>, section: Seq<char>) -> Seq<Seq<char>> {
    section_items_from(lines(plan), section, 0, false, seq![])
}

/// What is wrong with a plan, if anything is.
pub open spec fn plan_fault(plan: Seq<char>) -> Option<&'static str> {
    if !has_plan_heading(plan) {
        Some("plan must begin with a non-empty `# Plan:` heading")
    } else if plan_facets(plan) == Set::<VerificationFacet>::empty() {
        Some("plan must declare at least one recognized goal facet")
    } else if section_items(plan, "## Acceptance criteria"@).len() == 0 {
        Some("plan must contain a numbered acceptance criterion")
    } else if section_items(plan, "## Verification plan"@).len() == 0 {
        Some("plan must contain a numbered verification step")
    } else if exists|k: int|
        0 <= k < section_items(plan, "## Verification plan"@).len() && !has_step_tag(
            #[trigger] section_items(plan, "## Verification plan"@)[k],
        ) {
        Some("every verification step must be tagged `gating` or `evidence`")
    } else {
        None
    }
}

fn has_plan_heading_of(plan: &str) -> (r: bool)
    ensures
        r == has_plan_heading(plan@),
{
    let v = chars_of(plan);
    let all = lines_of(&v);
    let ghost ls = lines(plan@);
    let mut i: usize = 0;
    while i < all.len()
        invariant
            i <= all@.len(),
            ls == texts(all@),
            ls == lines(plan@),
            first_line_from(ls, 0) == first_line_from(ls, i as int),
        decreases all@.len() - i,
    {
        let line = trim_of(&all[i]);
        proof {
            assert(line@ == trim(ls[i as int]));
        }
        if line.len() > 0 {
            return match strip_prefix_str(&line, "# Plan:") {
                Some(headline) => trim_of(&headline).len() > 0,
                None => false,
            };
        }
        i += 1;
    }
    false
}

fn section_items_of(plan: &str, section: &str) -> (r: Vec<Vec<char>>)
    ensures
        texts(r@) == section_items(plan@, section@),
{
    let v = chars_of(plan);
    let all = lines_of(&v);
    let ghost ls = lines(plan@);
    let mut items: Vec<Vec<char>> = Vec::new();
    let mut inside = false;
    let mut i: usize = 0;
    proof {
        assert(texts(items@) =~= seq![]);
    }
    while i < all.len()
        invariant
            i <= all@.len(),
            ls == texts(all@),
            ls == lines(plan@),
            section_items_from(ls, section@, i as int, inside, texts(items@)) == section_items(
                plan@,
                section@,
            ),
        decreases all@.len() - i,
    {
        let line = trim_of(&all[i]);
        proof {
            assert(line@ == trim(ls[i as int]));
        }
        if is_text_ignoring_case(&line, section) {
            inside = true;
        } else if inside {
            if starts_with_str(&line, "## ") {
                return items;
            }
            if let Some(body) = item_body_of(&line) {
                let low = lower_of(&body);
                proof {
                    lemma_texts_push(items@, low);
                }
                items.push(low);
            }
        }
        i += 1;
    }
    items
}

pub fn validate_plan_contract(plan: &str) -> (r: Result<(), &'static str>)
    ensures
        match plan_fault(plan@) {
            Some(fault) => r == Err::<(), &'static str>(fault),
            None => r == Ok::<(), &'static str>(()),
        },
{
    if !has_plan_heading_of(plan) {
        return Err("plan must begin with a non-empty `# Plan:` heading");
    }
    if parse_goal_facets(plan).is_empty() {
        return Err("plan must declare at least one recognized goal facet");
    }
    if section_items_of(plan, "## Acceptance criteria").len() == 0 {
        return Err("plan must contain a numbered acceptance criterion");
    }
    let steps = section_items_of(plan, "## Verification plan");
    let ghost ts = section_items(plan@, "## Verification plan"@);
    if steps.len() == 0 {
        return Err("plan must contain a numbered verification step");
    }
    let mut k: usize = 0;
    while k < steps.len()
        invariant
            k <= steps@.len(),
            ts == texts(steps@),
            ts == section_items(plan@, "## Verification plan"@),
            ts.len() > 0,
            has_plan_heading(plan@),
            plan_facets(plan@) != Set::<VerificationFacet>::empty(),
            section_items(plan@, "## Acceptance criteria"@).len() > 0,
            forall|m: int| 0 <= m < k ==> has_step_tag(#[trigger] ts[m]),
        decreases steps@.len() - k,
    {
        proof {
            assert(ts[k as int] == steps@[k as int]@);
        }
        if !has_step_tag_of(&steps[k]) {
            return Err("every verification step must be tagged `gating` or `evidence`");
        }
        k += 1;
    }
    Ok(())
}

// ---------------------------------------------------------------------------
// What a plan that is accepted says

/// Whether line `l` stands in the section under the first line `h` that is its
/// heading: no other heading of that level comes between them.
pub open spec fn stands_in_section(
    all: Seq<Seq<char>>,
    section: Seq<char>,
    h: int,
    l: int,
) -> bool {
    &&& 0 <= h < l < all.len()
    &&& lower(trim(all[h])) == lower(section)
    &&& forall|m: int| 0 <= m < h ==> lower(trim(#[trigger] all[m])) != lower(section)
    &&& forall|m: int|
        h < m <= l ==> lower(trim(#[trigger] all[m])) == lower(section) || !starts_with(
            trim(all[m]),
            "## "@,
        )
    &&& lower(trim(all[l])) != lower(section)
}

proof fn lemma_items_grow(
    all: Seq<Seq<char>>,
    section: Seq<char>,
    i: int,
    inside: bool,
    acc: Seq<Seq<char>>,
    x: Seq<char>,
)
    requires
        acc.contains(x),
    ensures
        section_items_from(all, section, i, inside, acc).contains(x),
    decreases all.len() - i,
{
    if 0 <= i < all.len() {
        let line = trim(all[i]);
        if same_ignoring_case(line, section) {
            lemma_items_grow(all, section, i + 1, true, acc, x);
        } else if inside && starts_with(line, "## "@) {
        } else if inside && item_body(line) is Some {
            let more = acc.push(lower(item_body(line)->0));
            let k = choose|k: int| 0 <= k < acc.len() && acc[k] == x;
            assert(more[k] == x);
            lemma_items_grow(all, section, i + 1, inside, more, x);
        } else {
            lemma_items_grow(all, section, i + 1, inside, acc, x);
        }
    }
}

proof fn lemma_item_is_taken(
    all: Seq<Seq<char>>,
    section: Seq<char>,
    i: int,
    l: int,
    acc: Seq<Seq<char>>,
)
    requires
        0 <= i <= l < all.len(),
        forall|m: int|
            i <= m <= l ==> lower(trim(#[trigger] all[m])) == lower(section) || !starts_with(
                trim(all[m]),
                "## "@,
            ),
        lower(trim(all[l])) != lower(section),
        item_body(trim(all[l])) is Some,
    ensures
        section_items_from(all, section, i, true, acc).contains(
            lower(item_body(trim(all[l]))->0),
        ),
    decreases l - i,
{
    let line = trim(all[i]);
    if i == l {
        let more = acc.push(lower(item_body(line)->0));
        assert(more[acc.len() as int] == lower(item_body(line)->0));
        lemma_items_grow(all, section, i + 1, true, more, lower(item_body(line)->0));
    } else if same_ignoring_case(line, section) {
        lemma_item_is_taken(all, section, i + 1, l, acc);
    } else if item_body(line) is Some {
        lemma_item_is_taken(all, section, i + 1, l, acc.push(lower(item_body(line)->0)));
    } else {
        lemma_item_is_taken(all, section, i + 1, l, acc);
    }
}

proof fn lemma_section_begins(all: Seq<Seq<char>>, section: Seq<char>, i: int, h: int)
    requires
        0 <= i <= h < all.len(),
        lower(trim(all[h])) == lower(section),
        forall|m: int| i <= m < h ==> lower(trim(#[trigger] all[m])) != lower(section),
    ensures
        section_items_from(all, section, i, false, seq![]) == section_items_from(
            all,
            section,
            h + 1,
            true,
            seq![],
        ),
    decreases h - i,
{
    if i < h {
        lemma_section_begins(all, section, i + 1, h);
    }
}

proof fn lemma_no_section(all: Seq<Seq<char>>, section: Seq<char>, i: int)
    requires
        0 <= i,
        forall|m: int| i <= m < all.len() ==> lower(trim(#[trigger] all[m])) != lower(section),
    ensures
        section_items_from(all, section, i, false, seq![]) == Seq::<Seq<char>>::empty(),
    decreases all.len() - i,
{
    if i < all.len() {
        lemma_no_section(all, section, i + 1);
    }
}

proof fn lemma_item_comes_from_a_line(
    all: Seq<Seq<char>>,
    section: Seq<char>,
    i: int,
    acc: Seq<Seq<char>>,
    x: Seq<char>,
) -> (l: int)
    requires
        0 <= i,
        section_items_from(all, section, i, true, acc).contains(x),
        !acc.contains(x),
    ensures
        i <= l < all.len(),
        forall|m: int|
            i <= m <= l ==> lower(trim(#[trigger] all[m])) == lower(section) || !starts_with(
                trim(all[m]),
                "## "@,
            ),
        lower(trim(all[l])) != lower(section),
        item_body(trim(all[l])) is Some,
        x == lower(item_body(trim(all[l]))->0),
    decreases all.len() - i,
{
    let line = trim(all[i]);
    if same_ignoring_case(line, section) {
        lemma_item_comes_from_a_line(all, section, i + 1, acc, x)
    } else if item_body(line) is Some && !starts_with(line, "## "@) {
        let body = lower(item_body(line)->0);
        let more = acc.push(body);
        if more.contains(x) {
            let k = choose|k: int| 0 <= k < more.len() && more[k] == x;
            if k < acc.len() {
                assert(acc[k] == x);
            }
            i
        } else {
            lemma_item_comes_from_a_line(all, section, i + 1, more, x)
        }
    } else {
        lemma_item_comes_from_a_line(all, section, i + 1, acc, x)
    }
}

proof fn lemma_first_heading(all: Seq<Seq<char>>, section: Seq<char>, i: int) -> (h: int)
    requires
        0 <= i < all.len(),
        lower(trim(all[i])) == lower(section),
    ensures
        0 <= h <= i,
        lower(trim(all[h])) == lower(section),
        forall|m: int| 0 <= m < h ==> lower(trim(#[trigger] all[m])) != lower(section),
    decreases i,
{
    if exists|m: int| 0 <= m < i && lower(trim(#[trigger] all[m])) == lower(section) {
        let m = choose|m: int| 0 <= m < i && lower(trim(#[trigger] all[m])) == lower(section);
        lemma_first_heading(all, section, m)
    } else {
        i
    }
}

/// The items of a section are the numbered lines between its heading and the
/// next, each of them and nothing else, in lower case and without their numbers.
pub proof fn law_items_of_a_section_are_its_numbered_lines(
    plan: Seq<char>,
    section: Seq<char>,
    item: Seq<char>,
)
    ensures
        section_items(plan, section).contains(item) <==> exists|h: int, l: int|
            #[trigger] stands_in_section(lines(plan), section, h, l) && item_body(
                trim(lines(plan)[l]),
            ) is Some && item == lower(item_body(trim(lines(plan)[l]))->0),
{
    let all = lines(plan);
    if section_items(plan, section).contains(item) {
        if forall|m: int| 0 <= m < all.len() ==> lower(trim(#[trigger] all[m])) != lower(section) {
            lemma_no_section(all, section, 0);
        } else {
            let i = choose|m: int|
                0 <= m < all.len() && lower(trim(#[trigger] all[m])) == lower(section);
            let h = lemma_first_heading(all, section, i);
            lemma_section_begins(all, section, 0, h);
            let l = lemma_item_comes_from_a_line(all, section, h + 1, seq![], item);
            assert(stands_in_section(all, section, h, l));
        }
    }
    if exists|h: int, l: int|
        #[trigger] stands_in_section(lines(plan), section, h, l) && item_body(
            trim(lines(plan)[l]),
        ) is Some && item == lower(item_body(trim(lines(plan)[l]))->0) {
        let (h, l) = choose|h: int, l: int|
            #[trigger] stands_in_section(lines(plan), section, h, l) && item_body(
                trim(lines(plan)[l]),
            ) is Some && item == lower(item_body(trim(lines(plan)[l]))->0);
        lemma_section_begins(all, section, 0, h);
        lemma_item_is_taken(all, section, h + 1, l, seq![]);
    }
}

/// Of an accepted plan every numbered line under `## Verification plan` begins,
/// decoration aside, with the word `gating` or `evidence`: not only the first
/// one, nor only some.
pub proof fn law_every_step_of_an_accepted_plan_is_tagged(plan: Seq<char>, h: int, l: int)
    requires
        plan_fault(plan) is None,
        stands_in_section(lines(plan), "## Verification plan"@, h, l),
        item_body(trim(lines(plan)[l])) is Some,
    ensures
        words(lower(item_body(trim(lines(plan)[l]))->0)).len() > 0,
        trim_by(words(lower(item_body(trim(lines(plan)[l]))->0))[0], CharClass::NotWord)
            == "gating"@ || trim_by(
            words(lower(item_body(trim(lines(plan)[l]))->0))[0],
            CharClass::NotWord,
        ) == "evidence"@,
{
    let item = lower(item_body(trim(lines(plan)[l]))->0);
    let section = "## Verification plan"@;
    law_items_of_a_section_are_its_numbered_lines(plan, section, item);
    let items = section_items(plan, section);
    assert(items.contains(item));
    let k = choose|k: int| 0 <= k < items.len() && items[k] == item;
    assert(has_step_tag(items[k]));
}

proof fn lemma_first_line(all: Seq<Seq<char>>, i: int)
    requires
        0 <= i,
    ensures
        match first_line_from(all, i) {
            Some(line) => exists|k: int|
                i <= k < all.len() && #[trigger] all[k] == line && trim(line).len() > 0 && forall|
                    m: int,
                |
                    i <= m < k ==> trim(#[trigger] all[m]).len() == 0,
            None => forall|m: int| i <= m < all.len() ==> trim(#[trigger] all[m]).len() == 0,
        },
    decreases all.len() - i,
{
    if i < all.len() {
        if trim(all[i]).len() == 0 {
            lemma_first_line(all, i + 1);
            if first_line_from(all, i + 1) is Some {
                let line = first_line_from(all, i + 1)->0;
                let k = choose|k: int|
                    i + 1 <= k < all.len() && #[trigger] all[k] == line && trim(line).len() > 0
                        && forall|m: int| i + 1 <= m < k ==> trim(#[trigger] all[m]).len() == 0;
                assert(all[k] == line);
                assert forall|m: int| i <= m < k implies trim(#[trigger] all[m]).len() == 0 by {}
            }
        } else {
            assert(all[i] == first_line_from(all, i)->0);
        }
    }
}

/// An accepted plan begins with a heading that says what it is, declares what it
/// is about, and has a numbered acceptance criterion and a numbered step of
/// verification.
pub proof fn law_accepted_plan_is_complete(plan: Seq<char>)
    requires
        plan_fault(plan) is None,
    ensures
        exists|k: int|
            0 <= k < lines(plan).len() && starts_with(
                trim(#[trigger] lines(plan)[k]),
                "# Plan:"@,
            ) && trim(trim(lines(plan)[k]).skip(7)).len() > 0 && forall|m: int|
                0 <= m < k ==> trim(#[trigger] lines(plan)[m]).len() == 0,
        exists|f: VerificationFacet| #[trigger] plan_facets(plan).contains(f),
        exists|h: int, l: int|
            #[trigger] stands_in_section(lines(plan), "## Acceptance criteria"@, h, l)
                && item_body(trim(lines(plan)[l])) is Some,
        exists|h: int, l: int|
            #[trigger] stands_in_section(lines(plan), "## Verification plan"@, h, l)
                && item_body(trim(lines(plan)[l])) is Some,
{
    let all = lines(plan);
    lemma_first_line(all, 0);
    reveal_strlit("# Plan:");
    let line = first_line_from(all, 0)->0;
    let k = choose|k: int|
        0 <= k < all.len() && #[trigger] all[k] == line && trim(line).len() > 0 && forall|m: int|
            0 <= m < k ==> trim(#[trigger] all[m]).len() == 0;
    assert(starts_with(trim(all[k]), "# Plan:"@));
    assert("# Plan:"@.len() == 7);
    if forall|f: VerificationFacet| !plan_facets(plan).contains(f) {
        assert(plan_facets(plan) =~= Set::empty());
    }
    let a = section_items(plan, "## Acceptance criteria"@);
    assert(a.contains(a[0]));
    law_items_of_a_section_are_its_numbered_lines(plan, "## Acceptance criteria"@, a[0]);
    let b = section_items(plan, "## Verification plan"@);
    assert(b.contains(b[0]));
    law_items_of_a_section_are_its_numbered_lines(plan, "## Verification plan"@, b[0]);
}

/// A plan that has all this is accepted.
pub proof fn law_complete_plan_is_accepted(plan: Seq<char>, first: int, f: VerificationFacet)
    requires
        0 <= first < lines(plan).len(),
        forall|m: int| 0 <= m < first ==> trim(#[trigger] lines(plan)[m]).len() == 0,
        starts_with(trim(lines(plan)[first]), "# Plan:"@),
        trim(trim(lines(plan)[first]).skip(7)).len() > 0,
        plan_facets(plan).contains(f),
        exists|h: int, l: int|
            #[trigger] stands_in_section(lines(plan), "## Acceptance criteria"@, h, l)
                && item_body(trim(lines(plan)[l])) is Some,
        exists|h: int, l: int|
            #[trigger] stands_in_section(lines(plan), "## Verification plan"@, h, l)
                && item_body(trim(lines(plan)[l])) is Some,
        forall|h: int, l: int|
            #[trigger] stands_in_section(lines(plan), "## Verification plan"@, h, l)
                && item_body(trim(lines(plan)[l])) is Some ==> {
                let item = lower(item_body(trim(lines(plan)[l]))->0);
                words(item).len() > 0 && (trim_by(words(item)[0], CharClass::NotWord)
                    == "gating"@ || trim_by(words(item)[0], CharClass::NotWord) == "evidence"@)
            },
    ensures
        plan_fault(plan) is None,
{
    let all = lines(plan);
    reveal_strlit("# Plan:");
    assert("# Plan:"@.len() == 7);
    lemma_first_line(all, 0);
    assert(trim(all[first]).len() > 0) by {
        assert(matches_at(trim(all[first]), "# Plan:"@, 0));
    }
    let line = first_line_from(all, 0)->0;
    let k = choose|k: int|
        0 <= k < all.len() && #[trigger] all[k] == line && trim(line).len() > 0 && forall|m: int|
            0 <= m < k ==> trim(#[trigger] all[m]).len() == 0;
    assert(k == first) by {
        if k < first {
            assert(trim(all[k]).len() == 0);
        }
        if first < k {
            assert(trim(all[first]).len() == 0);
        }
    }
    assert(has_plan_heading(plan));
    let ac = "## Acceptance criteria"@;
    let (h, l) = choose|h: int, l: int|
        #[trigger] stands_in_section(all, ac, h, l) && item_body(trim(all[l])) is Some;
    let x = lower(item_body(trim(all[l]))->0);
    law_items_of_a_section_are_its_numbered_lines(plan, ac, x);
    let vp = "## Verification plan"@;
    let (g, n) = choose|h: int, l: int|
        #[trigger] stands_in_section(all, vp, h, l) && item_body(trim(all[l])) is Some;
    let y = lower(item_body(trim(all[n]))->0);
    law_items_of_a_section_are_its_numbered_lines(plan, vp, y);
    let items = section_items(plan, vp);
    assert forall|q: int| 0 <= q < items.len() implies has_step_tag(#[trigger] items[q]) by {
        assert(items.contains(items[q]));
        law_items_of_a_section_are_its_numbered_lines(plan, vp, items[q]);
        let (h2, l2) = choose|h: int, l: int|
            #[trigger] stands_in_section(lines(plan), vp, h, l) && item_body(
                trim(lines(plan)[l]),
            ) is Some && items[q] == lower(item_body(trim(lines(plan)[l]))->0);
        assert(stands_in_section(lines(plan), vp, h2, l2));
    }
}

proof fn lemma_leading_digits(s: Seq<char>)
    ensures
        leading_digits(s) <= s.len(),
        forall|k: int| 0 <= k < leading_digits(s) ==> is_digit(#[trigger] s[k]),
        leading_digits(s) < s.len() ==> !is_digit(s[leading_digits(s) as int]),
    decreases s.len(),
{
    if s.len() > 0 && is_digit(s[0]) {
        let t = s.drop_first();
        lemma_leading_digits(t);
        assert forall|k: int| 0 <= k < leading_digits(s) implies is_digit(#[trigger] s[k]) by {
            if k > 0 {
                assert(t[k - 1] == s[k]);
            }
        }
    }
}

/// A line is a numbered item exactly where it consists, white space at its ends
/// aside, of digits, a point or a closing bracket, white space, and a text; that
/// text is what the item says.
pub proof fn law_numbered_item(line: Seq<char>, n: int)
    requires
        0 < n,
        n + 1 < trim_start_by(line, CharClass::White).len(),
        forall|k: int|
            0 <= k < n ==> 48 <= #[trigger] trim_start_by(line, CharClass::White)[k] as u32 <= 57,
        !(48 <= trim_start_by(line, CharClass::White)[n] as u32 <= 57),
    ensures
        ({
            let l = trim_start_by(line, CharClass::White);
            let body = trim(l.skip(n + 1));
            if (l[n] == '.' || l[n] == ')') && is_white(l[n + 1]) && body.len() > 0 {
                item_body(line) == Some(body)
            } else {
                item_body(line) is None
            }
        }),
{
    let l = trim_start_by(line, CharClass::White);
    lemma_leading_digits(l);
    let d = leading_digits(l) as int;
    if d < n {
        assert(!is_digit(l[d]));
    }
    if n < d {
        assert(is_digit(l[n]));
    }
    assert(l.skip(d).skip(1) =~= l.skip(n + 1));
}

/// A line that does not begin with a digit is no numbered item.
pub proof fn law_item_begins_with_a_number(line: Seq<char>)
    requires
        item_body(line) is Some,
    ensures
        trim_start_by(line, CharClass::White).len() > 0,
        48 <= trim_start_by(line, CharClass::White)[0] as u32 <= 57,
        item_body(line)->0.len() > 0,
{
    lemma_leading_digits(trim_start_by(line, CharClass::White));
}

/// The words by which a step asks to work something out again.
pub proof fn law_words_of_a_recheck(text: Seq<char>)
    ensures
        mentions_any(text, recheck_signals()) <==> {
            ||| contains(text, "recompute"@)
            ||| contains(text, "re-compute"@)
            ||| contains(text, "recomputation"@)
            ||| contains(text, "recalculate"@)
            ||| contains(text, "re-calculat"@)
            ||| contains(text, "recalculation"@)
            ||| contains(text, "re-derive"@)
            ||| contains(text, "rederive"@)
        },
{
    let all = recheck_signals();
    assert(all.len() == 8);
    assert(all[0] == "recompute");
    assert(all[1] == "re-compute");
    assert(all[2] == "recomputation");
    assert(all[3] == "recalculate");
    assert(all[4] == "re-calculat");
    assert(all[5] == "recalculation");
    assert(all[6] == "re-derive");
    assert(all[7] == "rederive");
    if mentions_any(text, all) {
        let k = choose|k: int| 0 <= k < all.len() && contains(text, #[trigger] all[k]@);
        assert(contains(text, all[k]@));
    }
}

/// The words by which a step asks for independence.
pub proof fn law_words_of_independence(text: Seq<char>)
    ensures
        mentions_any(text, independence_signals()) <==> {
            ||| contains(text, "independent"@)
            ||| contains(text, "adversarial"@)
            ||| contains(text, "alternative"@)
            ||| contains(text, "separate"@)
        },
{
    let all = independence_signals();
    assert(all.len() == 4);
    assert(all[0] == "independent");
    assert(all[1] == "adversarial");
    assert(all[2] == "alternative");
    assert(all[3] == "separate");
    if mentions_any(text, all) {
        let k = choose|k: int| 0 <= k < all.len() && contains(text, #[trigger] all[k]@);
        assert(contains(text, all[k]@));
    }
}

/// The words by which a step is mathematical work.
pub proof fn law_words_of_mathematical_work(text: Seq<char>)
    ensures
        mentions_any(text, math_work_signals()) <==> {
            ||| contains(text, "comput"@)
            ||| contains(text, "calculat"@)
            ||| contains(text, "deriv"@)
            ||| contains(text, "residual"@)
            ||| contains(text, "substitut"@)
            ||| contains(text, "numerical"@)
            ||| contains(text, "symbolic"@)
            ||| contains(text, "solve"@)
            ||| contains(text, "proof"@)
        },
{
    let all = math_work_signals();
    assert(all.len() == 9);
    assert(all[0] == "comput");
    assert(all[1] == "calculat");
    assert(all[2] == "deriv");
    assert(all[3] == "residual");
    assert(all[4] == "substitut");
    assert(all[5] == "numerical");
    assert(all[6] == "symbolic");
    assert(all[7] == "solve");
    assert(all[8] == "proof");
    if mentions_any(text, all) {
        let k = choose|k: int| 0 <= k < all.len() && contains(text, #[trigger] all[k]@);
        assert(contains(text, all[k]@));
    }
}

/// The words by which a clause sets aside what follows.
pub proof fn law_words_of_negation(text: Seq<char>)
    ensures
        mentions_any(text, negations()) <==> {
            ||| contains(text, "do not"@)
            ||| contains(text, "don't"@)
            ||| contains(text, "not check"@)
            ||| contains(text, "not cover"@)
            ||| contains(text, "without"@)
            ||| contains(text, "skip"@)
            ||| contains(text, "omit"@)
            ||| contains(text, "ignore"@)
            ||| contains(text, "n/a"@)
            ||| contains(text, "not applicable"@)
        },
{
    let all = negations();
    assert(all.len() == 10);
    assert(all[0] == "do not");
    assert(all[1] == "don't");
    assert(all[2] == "not check");
    assert(all[3] == "not cover");
    assert(all[4] == "without");
    assert(all[5] == "skip");
    assert(all[6] == "omit");
    assert(all[7] == "ignore");
    assert(all[8] == "n/a");
    assert(all[9] == "not applicable");
    if mentions_any(text, all) {
        let k = choose|k: int| 0 <= k < all.len() && contains(text, #[trigger] all[k]@);
        assert(contains(text, all[k]@));
    }
}

/// A step asks for an independent check exactly where it names the adversary, asks
/// to work something out again, or asks for mathematical work that is independent.
pub proof fn law_independent_check_is_asked_for_in_words(item: Seq<char>)
    ensures
        asks_independent_check(item) <==> {
            ||| contains(item, "attacker-math"@)
            ||| contains(item, "recompute"@)
            ||| contains(item, "re-compute"@)
            ||| contains(item, "recomputation"@)
            ||| contains(item, "recalculate"@)
            ||| contains(item, "re-calculat"@)
            ||| contains(item, "recalculation"@)
            ||| contains(item, "re-derive"@)
            ||| contains(item, "rederive"@)
            ||| (contains(item, "independent"@) || contains(item, "adversarial"@) || contains(item, "alternative"@) || contains(item, "separate"@)) && (contains(item, "comput"@) || contains(item, "calculat"@) || contains(item, "deriv"@) || contains(item, "residual"@) || contains(item, "substitut"@) || contains(item, "numerical"@) || contains(item, "symbolic"@) || contains(item, "solve"@) || contains(item, "proof"@))
        },
{
    law_words_of_a_recheck(item);
    law_words_of_independence(item);
    law_words_of_mathematical_work(item);
}

/// A step is gating exactly where one of its first three words is that tag.
pub proof fn law_gating_step_says_so_early(item: Seq<char>)
    ensures
        is_gating(item) <==> {
            ||| words(item).len() > 0 && trim_by(words(item)[0], CharClass::NotWord) == "gating"@
            ||| words(item).len() > 1 && trim_by(words(item)[1], CharClass::NotWord) == "gating"@
            ||| words(item).len() > 2 && trim_by(words(item)[2], CharClass::NotWord) == "gating"@
        },
{
    if is_gating(item) {
        let k = choose|k: int|
            0 <= k < 3 && k < words(item).len() && trim_by(
                #[trigger] words(item)[k],
                CharClass::NotWord,
            ) == "gating"@;
        assert(k == 0 || k == 1 || k == 2);
    }
}

proof fn lemma_clause_start(s: Seq<char>, i: int)
    requires
        0 <= i <= s.len(),
    ensures
        0 <= clause_start(s, i) <= i,
        clause_start(s, i) > 0 ==> s[clause_start(s, i) - 1] == ';' || s[clause_start(s, i) - 1]
            == '.' || s[clause_start(s, i) - 1] == ',',
        forall|k: int|
            clause_start(s, i) <= k < i ==> #[trigger] s[k] != ';' && s[k] != '.' && s[k] != ',',
    decreases i,
{
    if i > 0 {
        lemma_clause_start(s, i - 1);
    }
}

/// What stands at `i` is set aside exactly where the clause before it, back to
/// the last separator at `c`, holds a word of negation.
pub proof fn law_negation_reaches_to_the_end_of_its_clause(s: Seq<char>, c: int, i: int)
    requires
        0 <= c <= i <= s.len(),
        c == 0 || s[c - 1] == ';' || s[c - 1] == '.' || s[c - 1] == ',',
        forall|k: int| c <= k < i ==> #[trigger] s[k] != ';' && s[k] != '.' && s[k] != ',',
    ensures
        is_negated_at(s, i) <==> {
            ||| contains(trim(s.subrange(c, i)), "do not"@)
            ||| contains(trim(s.subrange(c, i)), "don't"@)
            ||| contains(trim(s.subrange(c, i)), "not check"@)
            ||| contains(trim(s.subrange(c, i)), "not cover"@)
            ||| contains(trim(s.subrange(c, i)), "without"@)
            ||| contains(trim(s.subrange(c, i)), "skip"@)
            ||| contains(trim(s.subrange(c, i)), "omit"@)
            ||| contains(trim(s.subrange(c, i)), "ignore"@)
            ||| contains(trim(s.subrange(c, i)), "n/a"@)
            ||| contains(trim(s.subrange(c, i)), "not applicable"@)
        },
{
    lemma_clause_start(s, i);
    let b = clause_start(s, i);
    if b < c {
        assert(s[c - 1] != ';' && s[c - 1] != '.' && s[c - 1] != ',');
    }
    if c < b {
        assert(s[b - 1] != ';' && s[b - 1] != '.' && s[b - 1] != ',');
    }
    law_words_of_negation(trim(s.subrange(c, i)));
}

proof fn lemma_affirmed_at(s: Seq<char>, gate: Seq<char>, i: int, at: int)
    requires
        0 <= i <= at,
        gate.len() > 0,
        matches_at(s, gate, at),
        forall|k: int| i <= k < at ==> !#[trigger] matches_at(s, gate, k),
        !is_negated_at(s, at),
    ensures
        affirmed_from(s, gate, i),
    decreases at - i,
{
    if i < at {
        lemma_affirmed_at(s, gate, i + 1, at);
    }
}

/// A step that names a gate in a clause that does not negate it promises the
/// gate: so it does where it is named first, as the other law says that it does
/// not where it is never named without a negation.
pub proof fn law_plain_mention_counts(item: Seq<char>, gate: Seq<char>, at: int)
    requires
        gate.len() > 0,
        matches_at(item, gate, at),
        forall|k: int| 0 <= k < at ==> !#[trigger] matches_at(item, gate, k),
        !is_negated_at(item, at),
    ensures
        affirms(item, gate),
{
    lemma_affirmed_at(item, gate, 0, at);
}

proof fn lemma_covered(items: Seq<Seq<char>>, gate: Seq<char>)
    requires
        gate_is_covered(items, gate),
    ensures
        exists|k: int|
            0 <= k < items.len() && is_gating(#[trigger] items[k]) && affirms(items[k], gate),
{
}

/// A plan about mathematics that is accepted has a gating step that asks for an
/// independent check, and for each of the five math gates a gating step that
/// promises it.
pub proof fn law_accepted_math_plan_checks_independently(
    objective_is_math: bool,
    plan: Seq<char>,
    facet_message: &'static str,
)
    requires
        math_fault(objective_is_math, plan, facet_message) is None,
        plan_facets(plan).contains(VerificationFacet::Math),
    ensures
        exists|k: int|
            0 <= k < plan_items(plan).len() && is_gating(#[trigger] plan_items(plan)[k])
                && asks_independent_check(plan_items(plan)[k]),
        exists|k: int|
            0 <= k < plan_items(plan).len() && is_gating(#[trigger] plan_items(plan)[k])
                && affirms(plan_items(plan)[k], "contract-closure"@),
        exists|k: int|
            0 <= k < plan_items(plan).len() && is_gating(#[trigger] plan_items(plan)[k])
                && affirms(plan_items(plan)[k], "derivation-integrity"@),
        exists|k: int|
            0 <= k < plan_items(plan).len() && is_gating(#[trigger] plan_items(plan)[k])
                && affirms(plan_items(plan)[k], "evidence-provenance"@),
        exists|k: int|
            0 <= k < plan_items(plan).len() && is_gating(#[trigger] plan_items(plan)[k])
                && affirms(plan_items(plan)[k], "invariant-ledger"@),
        exists|k: int|
            0 <= k < plan_items(plan).len() && is_gating(#[trigger] plan_items(plan)[k])
                && affirms(plan_items(plan)[k], "state-isolation"@),
{
    let items = plan_items(plan);
    assert(math_gates()[0] == "contract-closure");
    lemma_covered(items, math_gates()[0]@);
    assert(math_gates()[1] == "derivation-integrity");
    lemma_covered(items, math_gates()[1]@);
    assert(math_gates()[2] == "evidence-provenance");
    lemma_covered(items, math_gates()[2]@);
    assert(math_gates()[3] == "invariant-ledger");
    lemma_covered(items, math_gates()[3]@);
    assert(math_gates()[4] == "state-isolation");
    lemma_covered(items, math_gates()[4]@);
}

/// The math contract is owed by a plan that declares the math facet, and by one
/// that speaks of mathematics or serves an objective that does, unless it is a
/// change of code; a plan that owes it without declaring the facet is told so, and
/// a plan that does not owe it is left alone.
pub proof fn law_math_contract_is_owed(
    objective_is_math: bool,
    plan: Seq<char>,
    facet_message: &'static str,
)
    ensures
        !plan_facets(plan).contains(VerificationFacet::Math) && plan_kind(plan) != Some(
            GoalKind::CodeChange,
        ) && (objective_is_math || suggests_math(plan)) ==> math_fault(
            objective_is_math,
            plan,
            facet_message,
        ) == Some(facet_message),
        !plan_facets(plan).contains(VerificationFacet::Math) && (plan_kind(plan) == Some(
            GoalKind::CodeChange,
        ) || (!objective_is_math && !suggests_math(plan))) ==> math_fault(
            objective_is_math,
            plan,
            facet_message,
        ) is None,
{
}

/// A plan about mathematics that checks independently and promises every math gate
/// in steps that gate is accepted.
pub proof fn law_math_plan_in_order_is_accepted(
    objective_is_math: bool,
    plan: Seq<char>,
    facet_message: &'static str,
)
    requires
        plan_facets(plan).contains(VerificationFacet::Math),
        exists|k: int|
            0 <= k < plan_items(plan).len() && is_gating(#[trigger] plan_items(plan)[k])
                && asks_independent_check(plan_items(plan)[k]),
        exists|k: int|
            0 <= k < plan_items(plan).len() && is_gating(#[trigger] plan_items(plan)[k])
                && affirms(plan_items(plan)[k], "contract-closure"@),
        exists|k: int|
            0 <= k < plan_items(plan).len() && is_gating(#[trigger] plan_items(plan)[k])
                && affirms(plan_items(plan)[k], "derivation-integrity"@),
        exists|k: int|
            0 <= k < plan_items(plan).len() && is_gating(#[trigger] plan_items(plan)[k])
                && affirms(plan_items(plan)[k], "evidence-provenance"@),
        exists|k: int|
            0 <= k < plan_items(plan).len() && is_gating(#[trigger] plan_items(plan)[k])
                && affirms(plan_items(plan)[k], "invariant-ledger"@),
        exists|k: int|
            0 <= k < plan_items(plan).len() && is_gating(#[trigger] plan_items(plan)[k])
                && affirms(plan_items(plan)[k], "state-isolation"@),
    ensures
        math_fault(objective_is_math, plan, facet_message) is None,
{
    assert forall|g: int| 0 <= g < math_gates().len() implies gate_is_covered(
        plan_items(plan),
        #[trigger] math_gates()[g]@,
    ) by {
        assert(math_gates()[0] == "contract-closure");
        assert(math_gates()[1] == "derivation-integrity");
        assert(math_gates()[2] == "evidence-provenance");
        assert(math_gates()[3] == "invariant-ledger");
        assert(math_gates()[4] == "state-isolation");
        assert(g == 0 || g == 1 || g == 2 || g == 3 || g == 4);
    }
}

/// Whether one of the items begins with `head`.
pub open spec fn some_item_begins_with(items: Seq<Seq<char>>, head: Seq<char>) -> bool {
    exists|k: int| 0 <= k < items.len() && starts_with(#[trigger] items[k], head)
}

proof fn lemma_list_item_is_kept(
    all: Seq<Seq<char>>,
    i: int,
    acc: Seq<Seq<char>>,
    head: Seq<char>,
)
    requires
        some_item_begins_with(acc, head),
    ensures
        some_item_begins_with(collect_items(all, i, true, acc), head),
    decreases all.len() - i,
{
    if 0 <= i < all.len() {
        let line = trim(all[i]);
        let k = choose|k: int| 0 <= k < acc.len() && starts_with(#[trigger] acc[k], head);
        if starts_with(line, "## "@) {
        } else if line.len() == 0 {
            lemma_list_item_is_kept(all, i + 1, acc, head);
        } else if is_list_item(line) {
            assert(starts_with(acc.push(lower(line))[k], head));
            lemma_list_item_is_kept(all, i + 1, acc.push(lower(line)), head);
        } else {
            let more = acc.drop_last().push(acc.last() + seq![' '] + lower(line));
            if k < acc.len() - 1 {
                assert(starts_with(more[k], head));
            } else {
                let wide = acc.last() + seq![' '] + lower(line);
                assert(wide.subrange(0, head.len() as int) =~= acc[k].subrange(
                    0,
                    head.len() as int,
                ));
                assert(starts_with(more[k], head));
            }
            lemma_list_item_is_kept(all, i + 1, more, head);
        }
    }
}

proof fn lemma_list_item_is_taken(all: Seq<Seq<char>>, i: int, l: int, acc: Seq<Seq<char>>)
    requires
        0 <= i <= l < all.len(),
        forall|m: int| i <= m <= l ==> !starts_with(trim(#[trigger] all[m]), "## "@),
        is_list_item(trim(all[l])),
        trim(all[l]).len() > 0,
    ensures
        some_item_begins_with(collect_items(all, i, true, acc), lower(trim(all[l]))),
    decreases l - i,
{
    let line = trim(all[i]);
    if i == l {
        let more = acc.push(lower(line));
        assert(lower(line).subrange(0, lower(line).len() as int) =~= lower(line));
        assert(starts_with(more[acc.len() as int], lower(line)));
        lemma_list_item_is_kept(all, i + 1, more, lower(line));
    } else if line.len() == 0 {
        lemma_list_item_is_taken(all, i + 1, l, acc);
    } else if is_list_item(line) {
        lemma_list_item_is_taken(all, i + 1, l, acc.push(lower(line)));
    } else if acc.len() > 0 {
        lemma_list_item_is_taken(
            all,
            i + 1,
            l,
            acc.drop_last().push(acc.last() + seq![' '] + lower(line)),
        );
    } else {
        lemma_list_item_is_taken(all, i + 1, l, acc);
    }
}

proof fn lemma_plan_section_begins(all: Seq<Seq<char>>, i: int, h: int)
    requires
        0 <= i <= h < all.len(),
        lower(trim(all[h])) == lower("## Verification plan"@),
        forall|m: int|
            i <= m < h ==> lower(trim(#[trigger] all[m])) != lower("## Verification plan"@),
    ensures
        collect_items(all, i, false, seq![]) == collect_items(all, h + 1, true, seq![]),
    decreases h - i,
{
    if i < h {
        lemma_plan_section_begins(all, i + 1, h);
    }
}

/// Every bulleted or numbered line under `## Verification plan` is a step of the
/// plan, with what the lines after it add.
pub proof fn law_every_list_line_is_a_step(plan: Seq<char>, h: int, l: int)
    requires
        0 <= h < l < lines(plan).len(),
        lower(trim(lines(plan)[h])) == lower("## Verification plan"@),
        forall|m: int|
            0 <= m < h ==> lower(trim(#[trigger] lines(plan)[m])) != lower(
                "## Verification plan"@,
            ),
        forall|m: int| h < m <= l ==> !starts_with(trim(#[trigger] lines(plan)[m]), "## "@),
        trim(lines(plan)[l]).len() > 0,
        is_list_item(trim(lines(plan)[l])),
    ensures
        some_item_begins_with(plan_items(plan), lower(trim(lines(plan)[l]))),
{
    lemma_plan_section_begins(lines(plan), 0, h);
    lemma_list_item_is_taken(lines(plan), h + 1, l, seq![]);
}

proof fn lemma_word_is_kept(all: Seq<Seq<char>>, i: int, acc: Seq<Seq<char>>, p: Seq<char>)
    requires
        some_item_holds(acc, p),
    ensures
        some_item_holds(collect_items(all, i, true, acc), p),
    decreases all.len() - i,
{
    if 0 <= i < all.len() {
        let line = trim(all[i]);
        let k = choose|k: int| 0 <= k < acc.len() && contains(#[trigger] acc[k], p);
        if starts_with(line, "## "@) {
        } else if line.len() == 0 {
            lemma_word_is_kept(all, i + 1, acc, p);
        } else if is_list_item(line) {
            assert(contains(acc.push(lower(line))[k], p));
            lemma_word_is_kept(all, i + 1, acc.push(lower(line)), p);
        } else {
            let wide = acc.last() + seq![' '] + lower(line);
            let more = acc.drop_last().push(wide);
            if k < acc.len() - 1 {
                assert(contains(more[k], p));
            } else {
                assert(wide =~= seq![] + acc.last() + (seq![' '] + lower(line)));
                lemma_contains_in_whole(seq![], acc.last(), seq![' '] + lower(line), p);
                assert(contains(more[k], p));
            }
            lemma_word_is_kept(all, i + 1, more, p);
        }
    }
}

/// Whether one of the items holds `p`.
pub open spec fn some_item_holds(items: Seq<Seq<char>>, p: Seq<char>) -> bool {
    exists|k: int| 0 <= k < items.len() && contains(#[trigger] items[k], p)
}

proof fn lemma_line_is_taken(all: Seq<Seq<char>>, i: int, l: int, acc: Seq<Seq<char>>)
    requires
        0 <= i <= l < all.len(),
        forall|m: int| i <= m <= l ==> !starts_with(trim(#[trigger] all[m]), "## "@),
        trim(all[l]).len() > 0,
        acc.len() > 0 || exists|m: int|
            i <= m <= l && is_list_item(trim(#[trigger] all[m])) && trim(all[m]).len() > 0,
    ensures
        some_item_holds(collect_items(all, i, true, acc), lower(trim(all[l]))),
    decreases l - i,
{
    let line = trim(all[i]);
    let p = lower(trim(all[l]));
    if i == l {
        if is_list_item(line) {
            let more = acc.push(lower(line));
            assert(seq![] + p + seq![] =~= p);
            lemma_contains_itself(seq![], p, seq![]);
            assert(contains(more[acc.len() as int], p));
            lemma_word_is_kept(all, i + 1, more, p);
        } else {
            let wide = acc.last() + seq![' '] + lower(line);
            let more = acc.drop_last().push(wide);
            assert(wide =~= (acc.last() + seq![' ']) + p + seq![]);
            lemma_contains_itself(acc.last() + seq![' '], p, seq![]);
            assert(contains(more[acc.len() - 1], p));
            lemma_word_is_kept(all, i + 1, more, p);
        }
    } else if line.len() == 0 {
        lemma_line_is_taken(all, i + 1, l, acc);
    } else if is_list_item(line) {
        lemma_line_is_taken(all, i + 1, l, acc.push(lower(line)));
    } else if acc.len() > 0 {
        lemma_line_is_taken(
            all,
            i + 1,
            l,
            acc.drop_last().push(acc.last() + seq![' '] + lower(line)),
        );
    } else {
        lemma_line_is_taken(all, i + 1, l, acc);
    }
}

/// From the first list item of `## Verification plan` on, every line of the section
/// is part of a step: one that begins no item goes on with the step before it.
pub proof fn law_every_line_after_the_first_item_belongs_to_a_step(
    plan: Seq<char>,
    h: int,
    first: int,
    l: int,
)
    requires
        0 <= h < first <= l < lines(plan).len(),
        lower(trim(lines(plan)[h])) == lower("## Verification plan"@),
        forall|m: int|
            0 <= m < h ==> lower(trim(#[trigger] lines(plan)[m])) != lower(
                "## Verification plan"@,
            ),
        forall|m: int| h < m <= l ==> !starts_with(trim(#[trigger] lines(plan)[m]), "## "@),
        trim(lines(plan)[first]).len() > 0,
        is_list_item(trim(lines(plan)[first])),
        trim(lines(plan)[l]).len() > 0,
    ensures
        some_item_holds(plan_items(plan), lower(trim(lines(plan)[l]))),
{
    lemma_plan_section_begins(lines(plan), 0, h);
    lemma_line_is_taken(lines(plan), h + 1, l, seq![]);
}

proof fn lemma_no_plan_section(all: Seq<Seq<char>>, i: int)
    requires
        0 <= i,
        forall|m: int|
            i <= m < all.len() ==> lower(trim(#[trigger] all[m])) != lower(
                "## Verification plan"@,
            ),
    ensures
        collect_items(all, i, false, seq![]) == Seq::<Seq<char>>::empty(),
    decreases all.len() - i,
{
    if i < all.len() {
        lemma_no_plan_section(all, i + 1);
    }
}

/// A plan without a `## Verification plan` heading has no steps.
pub proof fn law_plan_without_the_section_has_no_steps(plan: Seq<char>)
    requires
        forall|m: int|
            0 <= m < lines(plan).len() ==> lower(trim(#[trigger] lines(plan)[m])) != lower(
                "## Verification plan"@,
            ),
    ensures
        plan_items(plan).len() == 0,
{
    lemma_no_plan_section(lines(plan), 0);
}

/// What follows the next heading of that level is no part of the steps.
pub proof fn law_steps_end_at_the_next_heading(plan: Seq<char>, h: int, e: int)
    requires
        0 <= h < e < lines(plan).len(),
        lower(trim(lines(plan)[h])) == lower("## Verification plan"@),
        forall|m: int|
            0 <= m < h ==> lower(trim(#[trigger] lines(plan)[m])) != lower(
                "## Verification plan"@,
            ),
        starts_with(trim(lines(plan)[e]), "## "@),
    ensures
        plan_items(plan) == collect_items(lines(plan).take(e), h + 1, true, seq![]),
{
    lemma_plan_section_begins(lines(plan), 0, h);
    lemma_cut(lines(plan), h + 1, e, seq![]);
}

proof fn lemma_cut(all: Seq<Seq<char>>, i: int, e: int, acc: Seq<Seq<char>>)
    requires
        0 <= i <= e < all.len(),
        starts_with(trim(all[e]), "## "@),
    ensures
        collect_items(all, i, true, acc) == collect_items(all.take(e), i, true, acc),
    decreases e - i,
{
    if i < e {
        let line = trim(all[i]);
        assert(all.take(e)[i] == all[i]);
        if starts_with(line, "## "@) {
        } else if line.len() == 0 {
            lemma_cut(all, i + 1, e, acc);
        } else if is_list_item(line) {
            lemma_cut(all, i + 1, e, acc.push(lower(line)));
        } else if acc.len() > 0 {
            lemma_cut(
                all,
                i + 1,
                e,
                acc.drop_last().push(acc.last() + seq![' '] + lower(line)),
            );
        } else {
            lemma_cut(all, i + 1, e, acc);
        }
    }
}

/// A line begins a list item exactly where it begins, white space aside, with a
/// dash, an asterisk or a plus sign and a blank, or where it is numbered.
pub proof fn law_list_item_begins_with_a_mark(line: Seq<char>)
    ensures
        is_list_item(line) <==> {
            let l = trim_start_by(line, CharClass::White);
            ||| l.len() >= 2 && (l[0] == '-' || l[0] == '*' || l[0] == '+') && l[1] == ' '
            ||| item_body(l) is Some
        },
{
    let l = trim_start_by(line, CharClass::White);
    reveal_strlit("- ");
    reveal_strlit("* ");
    reveal_strlit("+ ");
    assert("- "@.len() == 2 && "* "@.len() == 2 && "+ "@.len() == 2);
    if l.len() >= 2 {
        let two = l.subrange(0, 2);
        assert(two[0] == l[0] && two[1] == l[1]);
        if l[0] == '-' && l[1] == ' ' {
            assert(two =~= "- "@);
        }
        if l[0] == '*' && l[1] == ' ' {
            assert(two =~= "* "@);
        }
        if l[0] == '+' && l[1] == ' ' {
            assert(two =~= "+ "@);
        }
    }
}

} // verus!
