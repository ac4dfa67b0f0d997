//! The panel of skeptics: its votes, what they add up to and how they are
//! reported.

use vstd::arithmetic::power::{lemma_pow0, lemma_pow1, pow};
use vstd::prelude::*;

use crate::text::{
    append, append_str, byte_len, byte_len_of, char_width, char_width_of, chars_of, contains,
    copy_of, decimal, decimal_string, ends_with, has_char, join, join_of, lemma_byte_len_take,
    lemma_contains_in_whole, lemma_contains_itself, lemma_contains_transitive,
    lemma_join_holds_its_parts, lemma_lacks, lemma_replace_absent, lemma_texts_push, matches_at,
    replace, replace_from, replace_of, slice_of, starts_with, string_of, texts, trim, trim_of,
};
use crate::verdict::{Finding, SkepticBlocking, SkepticConfidence};

verus! {

/// How large the aggregated details of a panel may be, in bytes.
pub const GOAL_VERIFIER_PANEL_MAX_BYTES: usize = 524288;

/// How many characters of a piece of evidence are shown.
pub const GAPS_EVIDENCE_MAX_CHARS: usize = 800;

/// How many characters of the gaps of an earlier round are shown.
pub const PRIOR_GAPS_MAX_CHARS: usize = 4_000;

/// How many findings of one skeptic are shown.
pub const GAPS_MAX_FINDINGS: usize = 12;

pub const PAUSE_GROUP_FIXABLE: &'static str = "Model-fixable gaps";

pub const PAUSE_GROUP_CONTRADICTION: &'static str = "Contradictions (objective/plan conflict)";

pub const PAUSE_GROUP_UNVERIFIABLE: &'static str = "Unverifiable in this environment";

/// What one skeptic came to.
#[derive(Debug)]
pub struct SkepticResult {
    pub skeptic_idx: u32,
    pub refuted: bool,
    pub confidence: SkepticConfidence,
    pub blocking: SkepticBlocking,
    pub evidence: String,
    pub findings: Vec<Finding>,
    /// Why there is no accepted verdict, where there is none.
    pub fallback_note: Option<String>,
    pub details_path: String,
    pub latency_ms: u64,
}

// ---------------------------------------------------------------------------
// Votes

pub open spec fn refuters(results: Seq<SkepticResult>) -> nat
    decreases results.len(),
{
    if results.len() == 0 {
        0
    } else {
        refuters(results.drop_last()) + (if results.last().refuted {
            1nat
        } else {
            0nat
        })
    }
}

/// Counts the votes: how many refute, how many there are, and whether all
/// approve. A panel without votes approves nothing.
pub fn aggregate_skeptic_verdicts(results: &[SkepticResult]) -> (r: (u32, u32, bool))
    requires
        results@.len() <= u32::MAX,
    ensures
        r.0 == refuters(results@),
        r.1 == results@.len(),
        r.2 <==> results@.len() > 0 && forall|i: int|
            0 <= i < results@.len() ==> !(#[trigger] results@[i]).refuted,
{
    let total: u32 = results.len() as u32;
    let mut refuted: u32 = 0;
    let mut i: usize = 0;
    while i < results.len()
        invariant
            i <= results@.len() <= u32::MAX,
            refuted <= i,
            refuted == refuters(results@.take(i as int)),
            refuted == 0 <==> forall|k: int| 0 <= k < i ==> !(#[trigger] results@[k]).refuted,
        decreases results@.len() - i,
    {
        proof {
            assert(results@.take(i as int + 1).drop_last() =~= results@.take(i as int));
        }
        if results[i].refuted {
            refuted += 1;
        }
        i += 1;
    }
    proof {
        assert(results@.take(results@.len() as int) =~= results@);
    }
    (refuted, total, total > 0 && refuted == 0)
}

// ---------------------------------------------------------------------------
// Bounded and harmless text

/// The first `max` characters and an ellipsis where there are more.
pub open spec fn capped(text: Seq<char>, max: int) -> Seq<char> {
    if text.len() > max {
        text.take(max).push('…')
    } else {
        text
    }
}

fn capped_of(text: &Vec<char>, max: usize) -> (r: Vec<char>)
    ensures
        r@ == capped(text@, max as int),
{
    if text.len() > max {
        let mut out = slice_of(text, 0, max);
        proof {
            assert(out@ =~= text@.take(max as int));
        }
        out.push('…');
        out
    } else {
        copy_of(text)
    }
}

pub fn cap_chars(text: &str, max_chars: usize) -> (r: String)
    ensures
        r@ == capped(text@, max_chars as int),
        r@.len() <= max_chars + 1,
{
    let v = chars_of(text);
    string_of(&capped_of(&v, max_chars))
}

/// A text in which the tags that frame reminders and goal state are broken up
/// by a zero-width space.
pub open spec fn neutralized(text: Seq<char>) -> Seq<char> {
    let a = replace(text, "</system-reminder>"@, "<\u{200b}/system-reminder>"@);
    let b = replace(a, "<system-reminder>"@, "<\u{200b}system-reminder>"@);
    let c = replace(b, "</goal-state>"@, "<\u{200b}/goal-state>"@);
    replace(c, "<goal-state>"@, "<\u{200b}goal-state>"@)
}

fn neutralized_of(text: &Vec<char>) -> (r: Vec<char>)
    ensures
        r@ == neutralized(text@),
{
    proof {
        reveal_strlit("</system-reminder>");
        reveal_strlit("<system-reminder>");
        reveal_strlit("</goal-state>");
        reveal_strlit("<goal-state>");
    }
    let a = replace_of(text, "</system-reminder>", "<\u{200b}/system-reminder>");
    let b = replace_of(&a, "<system-reminder>", "<\u{200b}system-reminder>");
    let c = replace_of(&b, "</goal-state>", "<\u{200b}/goal-state>");
    replace_of(&c, "<goal-state>", "<\u{200b}goal-state>")
}

pub fn neutralize_reminder_tags(text: &str) -> (r: String)
    ensures
        r@ == neutralized(text@),
{
    let v = chars_of(text);
    string_of(&neutralized_of(&v))
}

pub open spec fn sanitized(text: Seq<char>, max: int) -> Seq<char> {
    neutralized(capped(trim(text), max))
}

fn sanitized_of(text: &Vec<char>, max: usize) -> (r: Vec<char>)
    ensures
        r@ == sanitized(text@, max as int),
{
    let t = trim_of(text);
    neutralized_of(&capped_of(&t, max))
}

/// Evidence as it may be shown to the model that is being judged.
pub fn sanitize_evidence(evidence: &str) -> (r: String)
    ensures
        r@ == sanitized(evidence@, GAPS_EVIDENCE_MAX_CHARS as int),
{
    let v = chars_of(evidence);
    string_of(&sanitized_of(&v, GAPS_EVIDENCE_MAX_CHARS))
}

/// The gaps of an earlier round as they may be shown to a skeptic.
pub fn sanitize_prior_gaps(gaps: &str) -> (r: String)
    ensures
        r@ == sanitized(gaps@, PRIOR_GAPS_MAX_CHARS as int),
{
    let v = chars_of(gaps);
    string_of(&sanitized_of(&v, PRIOR_GAPS_MAX_CHARS))
}

/// A tag: it begins with `<`, holds no other `<`, and a zero-width space does
/// not follow its first character.
pub open spec fn is_tag(q: Seq<char>) -> bool {
    q.len() >= 2 && q[0] == '<' && q[1] != '\u{200b}' && forall|k: int|
        1 <= k < q.len() ==> #[trigger] q[k] != '<'
}

/// A tag broken up.
pub open spec fn is_broken(t: Seq<char>) -> bool {
    t.len() >= 2 && t[0] == '<' && t[1] == '\u{200b}'
}

/// What a replacement leaves before the next `<` is what stood there before.
proof fn lemma_copied_prefix(s: Seq<char>, p: Seq<char>, t: Seq<char>, i: int, m: int)
    requires
        0 <= i <= s.len(),
        is_broken(t),
        0 <= m <= replace_from(s, p, t, i).len(),
        forall|k: int| 0 <= k < m ==> #[trigger] replace_from(s, p, t, i)[k] != '<',
    ensures
        i + m <= s.len(),
        replace_from(s, p, t, i).take(m) == s.subrange(i, i + m),
    decreases s.len() - i,
{
    let r = replace_from(s, p, t, i);
    if m == 0 {
        assert(r.take(0) =~= s.subrange(i, i));
    } else if i >= s.len() {
    } else if p.len() > 0 && matches_at(s, p, i) {
        assert(r[0] == t[0]);
    } else {
        let rest = replace_from(s, p, t, i + 1);
        assert(r =~= seq![s[i]] + rest);
        assert forall|k: int| 0 <= k < m - 1 implies #[trigger] rest[k] != '<' by {
            assert(r[k + 1] == rest[k]);
        }
        lemma_copied_prefix(s, p, t, i + 1, m - 1);
        assert(r.take(m) =~= seq![s[i]] + rest.take(m - 1));
        assert(s.subrange(i, i + m) =~= seq![s[i]] + s.subrange(i + 1, i + m));
    }
}

/// A tag in what a replacement leaves stood in the text before, at a place that
/// was not replaced.
proof fn lemma_tag_survives(s: Seq<char>, p: Seq<char>, t: Seq<char>, q: Seq<char>, i: int, k: int)
    requires
        0 <= i <= s.len(),
        is_tag(p),
        is_tag(q),
        is_broken(t),
        forall|z: int| 1 <= z < t.len() ==> #[trigger] t[z] != '<',
        matches_at(replace_from(s, p, t, i), q, k),
    ensures
        exists|j: int| #[trigger] matches_at(s, q, j) && !matches_at(s, p, j),
    decreases s.len() - i,
{
    let r = replace_from(s, p, t, i);
    assert(r.subrange(k, k + q.len())[0] == q[0]);
    assert(r[k] == '<');
    if i >= s.len() {
        assert(r.len() == 0);
    } else if matches_at(s, p, i) {
        let rest = replace_from(s, p, t, i + p.len());
        assert(r =~= t + rest);
        if k == 0 {
            assert(r.subrange(0, q.len() as int)[1] == q[1]);
            assert(r[1] == t[1]);
        } else if k < t.len() {
            assert(r[k] == t[k]);
        } else {
            assert(rest.subrange(k - t.len(), k - t.len() + q.len()) =~= r.subrange(
                k,
                k + q.len(),
            ));
            assert(matches_at(rest, q, k - t.len()));
            lemma_tag_survives(s, p, t, q, i + p.len(), k - t.len());
        }
    } else {
        let rest = replace_from(s, p, t, i + 1);
        assert(r =~= seq![s[i]] + rest);
        if k == 0 {
            let m = q.len() - 1;
            assert forall|z: int| 0 <= z < m implies #[trigger] rest[z] != '<' by {
                assert(r.subrange(0, q.len() as int)[z + 1] == q[z + 1]);
                assert(r[z + 1] == rest[z]);
            }
            lemma_copied_prefix(s, p, t, i + 1, m);
            assert(s.subrange(i, i + q.len()) =~= seq![s[i]] + s.subrange(i + 1, i + 1 + m));
            assert(r.subrange(0, q.len() as int) =~= seq![s[i]] + rest.take(m));
            assert(matches_at(s, q, i));
        } else {
            assert(rest.subrange(k - 1, k - 1 + q.len()) =~= r.subrange(k, k + q.len()));
            assert(matches_at(rest, q, k - 1));
            lemma_tag_survives(s, p, t, q, i + 1, k - 1);
        }
    }
}

/// A replacement of one tag leaves none of it, and brings no other in.
proof fn lemma_tag_gone(s: Seq<char>, p: Seq<char>, t: Seq<char>, q: Seq<char>)
    requires
        is_tag(p),
        is_tag(q),
        is_broken(t),
        forall|z: int| 1 <= z < t.len() ==> #[trigger] t[z] != '<',
        q == p || !contains(s, q),
    ensures
        !contains(replace(s, p, t), q),
{
    if contains(replace(s, p, t), q) {
        let k = choose|k: int| matches_at(replace(s, p, t), q, k);
        lemma_tag_survives(s, p, t, q, 0, k);
        let j = choose|j: int| #[trigger] matches_at(s, q, j) && !matches_at(s, p, j);
        assert(contains(s, q));
    }
}

/// The tags that frame what the harness tells the model.
pub open spec fn control_tags() -> Seq<Seq<char>> {
    seq!["</system-reminder>"@, "<system-reminder>"@, "</goal-state>"@, "<goal-state>"@]
}

/// Whether a text could open or close a frame of the harness.
pub open spec fn holds_control_tag(text: Seq<char>) -> bool {
    exists|k: int| 0 <= k < 4 && contains(text, #[trigger] control_tags()[k])
}

proof fn lemma_tags()
    ensures
        is_tag("</system-reminder>"@),
        is_tag("<system-reminder>"@),
        is_tag("</goal-state>"@),
        is_tag("<goal-state>"@),
        is_broken("<\u{200b}/system-reminder>"@),
        is_broken("<\u{200b}system-reminder>"@),
        is_broken("<\u{200b}/goal-state>"@),
        is_broken("<\u{200b}goal-state>"@),
        forall|z: int|
            1 <= z < "<\u{200b}/system-reminder>"@.len()
                ==> #[trigger] "<\u{200b}/system-reminder>"@[z] != '<',
        forall|z: int|
            1 <= z < "<\u{200b}system-reminder>"@.len()
                ==> #[trigger] "<\u{200b}system-reminder>"@[z] != '<',
        forall|z: int|
            1 <= z < "<\u{200b}/goal-state>"@.len() ==> #[trigger] "<\u{200b}/goal-state>"@[z]
                != '<',
        forall|z: int|
            1 <= z < "<\u{200b}goal-state>"@.len() ==> #[trigger] "<\u{200b}goal-state>"@[z] != '<',
{
    reveal_strlit("</system-reminder>");
    reveal_strlit("<system-reminder>");
    reveal_strlit("</goal-state>");
    reveal_strlit("<goal-state>");
    reveal_strlit("<\u{200b}/system-reminder>");
    reveal_strlit("<\u{200b}system-reminder>");
    reveal_strlit("<\u{200b}/goal-state>");
    reveal_strlit("<\u{200b}goal-state>");
}

/// Whatever a text holds, its neutralized form opens and closes no frame of the
/// harness.
pub proof fn law_neutralized_text_holds_no_control_tag(text: Seq<char>)
    ensures
        !holds_control_tag(neutralized(text)),
{
    lemma_tags();
    let t1 = "</system-reminder>"@;
    let t2 = "<system-reminder>"@;
    let t3 = "</goal-state>"@;
    let t4 = "<goal-state>"@;
    let b1 = "<\u{200b}/system-reminder>"@;
    let b2 = "<\u{200b}system-reminder>"@;
    let b3 = "<\u{200b}/goal-state>"@;
    let b4 = "<\u{200b}goal-state>"@;
    let a = replace(text, t1, b1);
    lemma_tag_gone(text, t1, b1, t1);
    let b = replace(a, t2, b2);
    lemma_tag_gone(a, t2, b2, t1);
    lemma_tag_gone(a, t2, b2, t2);
    let c = replace(b, t3, b3);
    lemma_tag_gone(b, t3, b3, t1);
    lemma_tag_gone(b, t3, b3, t2);
    lemma_tag_gone(b, t3, b3, t3);
    lemma_tag_gone(c, t4, b4, t1);
    lemma_tag_gone(c, t4, b4, t2);
    lemma_tag_gone(c, t4, b4, t3);
    lemma_tag_gone(c, t4, b4, t4);
    let r = neutralized(text);
    assert forall|k: int| 0 <= k < 4 implies !contains(r, #[trigger] control_tags()[k]) by {
        assert(control_tags()[0] == t1);
        assert(control_tags()[1] == t2);
        assert(control_tags()[2] == t3);
        assert(control_tags()[3] == t4);
    }
}

// ---------------------------------------------------------------------------
// Bullets

/// What a finding says: its kind, its place and its detail, as far as given.
pub open spec fn finding_body(f: Finding) -> Seq<char> {
    let kind = trim(f.kind@);
    let place = trim(f.location@);
    let detail = trim(f.detail@);
    let head = if kind.len() == 0 {
        "finding"@
    } else {
        kind
    };
    if place.len() > 0 && detail.len() > 0 {
        head + " · "@ + place + " — "@ + detail
    } else if place.len() > 0 {
        head + " · "@ + place
    } else if detail.len() > 0 {
        head + " — "@ + detail
    } else {
        head
    }
}

/// One finding on one line.
pub open spec fn finding_line(f: Finding) -> Seq<char> {
    sanitized(finding_body(f), GAPS_EVIDENCE_MAX_CHARS as int)
}

fn finding_line_of(f: &Finding) -> (r: Vec<char>)
    ensures
        r@ == finding_line(*f),
{
    let kind = trim_of(&chars_of(f.kind.as_str()));
    let place = trim_of(&chars_of(f.location.as_str()));
    let detail = trim_of(&chars_of(f.detail.as_str()));
    let mut body = if kind.len() == 0 {
        chars_of("finding")
    } else {
        kind
    };
    if place.len() > 0 {
        append_str(&mut body, " · ");
        append(&mut body, &place);
    }
    if detail.len() > 0 {
        append_str(&mut body, " — ");
        append(&mut body, &detail);
    }
    sanitized_of(&body, GAPS_EVIDENCE_MAX_CHARS)
}

pub fn render_finding(f: &Finding) -> (r: String)
    ensures
        r@ == finding_line(*f),
{
    string_of(&finding_line_of(f))
}

pub open spec fn shown_findings(all: Seq<Finding>) -> Seq<Seq<char>> {
    Seq::new(
        if all.len() > GAPS_MAX_FINDINGS {
            GAPS_MAX_FINDINGS as nat
        } else {
            all.len()
        },
        |i: int| "  - "@ + finding_line(all[i]),
    )
}

pub open spec fn skeptic_head(r: SkepticResult) -> Seq<char> {
    "- [skeptic "@ + decimal(r.skeptic_idx as nat) + ", "@ + r.confidence.name()@ + "]"@
}

/// What a refuting skeptic says: its findings, or else its evidence, or else
/// why it has none.
pub open spec fn refuter_bullet(r: SkepticResult) -> Seq<char> {
    if r.findings@.len() > 0 {
        skeptic_head(r) + "\n"@ + join(shown_findings(r.findings@), "\n"@)
    } else if trim(r.evidence@).len() > 0 {
        skeptic_head(r) + " "@ + sanitized(trim(r.evidence@), GAPS_EVIDENCE_MAX_CHARS as int)
    } else {
        match r.fallback_note {
            Some(note) => "- [skeptic "@ + decimal(r.skeptic_idx as nat)
                + "] no verdict produced: "@ + sanitized(
                note@,
                GAPS_EVIDENCE_MAX_CHARS as int,
            ),
            None => "- [skeptic "@ + decimal(r.skeptic_idx as nat) + "] refuted (no evidence)"@,
        }
    }
}

fn shown_findings_of(all: &Vec<Finding>) -> (r: Vec<Vec<char>>)
    ensures
        texts(r@) == shown_findings(all@),
{
    let n: usize = if all.len() > GAPS_MAX_FINDINGS {
        GAPS_MAX_FINDINGS
    } else {
        all.len()
    };
    let mut out: Vec<Vec<char>> = Vec::new();
    let mut i: usize = 0;
    while i < n
        invariant
            i <= n <= all@.len(),
            n == shown_findings(all@).len(),
            out@.len() == i,
            forall|k: int| 0 <= k < i ==> (#[trigger] out@[k])@ == shown_findings(all@)[k],
        decreases n - i,
    {
        let mut line = chars_of("  - ");
        append(&mut line, &finding_line_of(&all[i]));
        out.push(line);
        i += 1;
    }
    proof {
        assert(texts(out@) =~= shown_findings(all@));
    }
    out
}

fn refuter_bullet_of(r: &SkepticResult) -> (out: Vec<char>)
    ensures
        out@ == refuter_bullet(*r),
{
    let number = decimal_string(r.skeptic_idx as u128);
    let mut out = chars_of("- [skeptic ");
    append_str(&mut out, number.as_str());
    if r.findings.len() > 0 {
        append_str(&mut out, ", ");
        append_str(&mut out, r.confidence.as_const_str());
        append_str(&mut out, "]");
        append_str(&mut out, "\n");
        append(&mut out, &join_of(&shown_findings_of(&r.findings), "\n"));
        return out;
    }
    let evidence = trim_of(&chars_of(r.evidence.as_str()));
    if evidence.len() > 0 {
        append_str(&mut out, ", ");
        append_str(&mut out, r.confidence.as_const_str());
        append_str(&mut out, "]");
        append_str(&mut out, " ");
        append(&mut out, &sanitized_of(&evidence, GAPS_EVIDENCE_MAX_CHARS));
        return out;
    }
    match &r.fallback_note {
        Some(note) => {
            append_str(&mut out, "] no verdict produced: ");
            append(
                &mut out,
                &sanitized_of(&chars_of(note.as_str()), GAPS_EVIDENCE_MAX_CHARS),
            );
        },
        None => {
            append_str(&mut out, "] refuted (no evidence)");
        },
    }
    out
}

pub fn render_refuter_bullet(r: &SkepticResult) -> (out: String)
    ensures
        out@ == refuter_bullet(*r),
{
    string_of(&refuter_bullet_of(r))
}

// ---------------------------------------------------------------------------
// Summaries

/// Those of the first `n` results that refute with the confidence of `rank`.
pub open spec fn refuters_of_rank(results: Seq<SkepticResult>, rank: u8, n: int) -> Seq<
    SkepticResult,
>
    decreases n,
{
    if n <= 0 {
        seq![]
    } else if results[n - 1].refuted && results[n - 1].confidence.order() == rank {
        refuters_of_rank(results, rank, n - 1).push(results[n - 1])
    } else {
        refuters_of_rank(results, rank, n - 1)
    }
}

/// The refuting results, the surest first; equally sure ones stay in order.
pub open spec fn ranked_refuters(results: Seq<SkepticResult>) -> Seq<SkepticResult> {
    let n = results.len() as int;
    refuters_of_rank(results, 0, n) + refuters_of_rank(results, 1, n) + refuters_of_rank(
        results,
        2,
        n,
    ) + refuters_of_rank(results, 3, n)
}

pub open spec fn values(v: Seq<&SkepticResult>) -> Seq<SkepticResult> {
    Seq::new(v.len(), |i: int| *v[i])
}

fn push_rank<'a>(out: &mut Vec<&'a SkepticResult>, results: &'a [SkepticResult], rank: u8)
    ensures
        values(final(out)@) == values(old(out)@) + refuters_of_rank(
            results@,
            rank,
            results@.len() as int,
        ),
{
    let mut n: usize = 0;
    proof {
        assert(values(old(out)@) + refuters_of_rank(results@, rank, 0) =~= values(old(out)@));
    }
    while n < results.len()
        invariant
            n <= results@.len(),
            values(out@) == values(old(out)@) + refuters_of_rank(results@, rank, n as int),
        decreases results@.len() - n,
    {
        if results[n].refuted && results[n].confidence.rank() == rank {
            let x = &results[n];
            proof {
                let before = refuters_of_rank(results@, rank, n as int);
                assert(values(out@.push(x)) =~= values(out@).push(*x));
                assert((values(old(out)@) + before).push(*x) =~= values(old(out)@) + before.push(
                    *x,
                ));
            }
            out.push(x);
        }
        n += 1;
    }
}

pub fn refuters_by_confidence<'a>(results: &'a [SkepticResult]) -> (r: Vec<&'a SkepticResult>)
    ensures
        values(r@) == ranked_refuters(results@),
{
    let mut out: Vec<&'a SkepticResult> = Vec::new();
    push_rank(&mut out, results, 0);
    push_rank(&mut out, results, 1);
    push_rank(&mut out, results, 2);
    push_rank(&mut out, results, 3);
    proof {
        let first = refuters_of_rank(results@, 0, results@.len() as int);
        assert(values(Seq::<&SkepticResult>::empty()) + first =~= first);
    }
    out
}

pub open spec fn bullets(results: Seq<SkepticResult>) -> Seq<Seq<char>> {
    Seq::new(results.len(), |i: int| refuter_bullet(results[i]))
}

/// The gist of every refuting skeptic.
pub open spec fn gaps_summary(results: Seq<SkepticResult>) -> Seq<char> {
    join(bullets(ranked_refuters(results)), "\n"@)
}

fn gaps_summary_of(results: &[SkepticResult]) -> (r: Vec<char>)
    ensures
        r@ == gaps_summary(results@),
{
    let list = refuters_by_confidence(results);
    let mut out: Vec<Vec<char>> = Vec::new();
    let ghost all = ranked_refuters(results@);
    let mut i: usize = 0;
    while i < list.len()
        invariant
            i <= list@.len(),
            all == values(list@),
            out@.len() == i,
            forall|k: int| 0 <= k < i ==> (#[trigger] out@[k])@ == bullets(all)[k],
        decreases list@.len() - i,
    {
        proof {
            assert(all[i as int] == *list@[i as int]);
        }
        let line = refuter_bullet_of(list[i]);
        out.push(line);
        i += 1;
    }
    proof {
        assert(texts(out@) =~= bullets(all));
    }
    join_of(&out, "\n")
}

pub fn build_gaps_summary(results: &[SkepticResult]) -> (r: String)
    ensures
        r@ == gaps_summary(results@),
{
    string_of(&gaps_summary_of(results))
}

/// Those of the first `n` results that belong to a blocking class.
pub open spec fn of_class(results: Seq<SkepticResult>, class: SkepticBlocking, n: int) -> Seq<
    SkepticResult,
>
    decreases n,
{
    if n <= 0 {
        seq![]
    } else if results[n - 1].blocking == class {
        of_class(results, class, n - 1).push(results[n - 1])
    } else {
        of_class(results, class, n - 1)
    }
}

/// The refuters of one class under their heading; nothing where there are none.
pub open spec fn pause_group(
    results: Seq<SkepticResult>,
    class: SkepticBlocking,
    heading: Seq<char>,
) -> Seq<Seq<char>> {
    let ranked = ranked_refuters(results);
    let members = of_class(ranked, class, ranked.len() as int);
    if members.len() == 0 {
        seq![]
    } else {
        seq![heading + ":\n"@ + join(bullets(members), "\n"@)]
    }
}

/// The refuters grouped by what can be done about them.
pub open spec fn pause_summary(results: Seq<SkepticResult>) -> Seq<char> {
    join(
        pause_group(results, SkepticBlocking::NonBlocking, PAUSE_GROUP_FIXABLE@) + pause_group(
            results,
            SkepticBlocking::Contradiction,
            PAUSE_GROUP_CONTRADICTION@,
        ) + pause_group(results, SkepticBlocking::Unverifiable, PAUSE_GROUP_UNVERIFIABLE@),
        "\n"@,
    )
}

fn push_pause_group(
    out: &mut Vec<Vec<char>>,
    ranked: &Vec<&SkepticResult>,
    class: SkepticBlocking,
    heading: &str,
    Ghost(results): Ghost<Seq<SkepticResult>>,
)
    requires
        values(ranked@) == ranked_refuters(results),
    ensures
        texts(final(out)@) == texts(old(out)@) + pause_group(results, class, heading@),
{
    let ghost all = ranked_refuters(results);
    let mut lines: Vec<Vec<char>> = Vec::new();
    let mut n: usize = 0;
    proof {
        assert(texts(lines@) =~= bullets(of_class(all, class, 0)));
    }
    while n < ranked.len()
        invariant
            n <= ranked@.len(),
            all == values(ranked@),
            texts(lines@) == bullets(of_class(all, class, n as int)),
        decreases ranked@.len() - n,
    {
        proof {
            assert(all[n as int] == *ranked@[n as int]);
        }
        if ranked[n].blocking == class {
            let line = refuter_bullet_of(ranked[n]);
            proof {
                lemma_texts_push(lines@, line);
                let before = of_class(all, class, n as int);
                assert(bullets(before.push(all[n as int])) =~= bullets(before).push(line@));
            }
            lines.push(line);
        }
        n += 1;
    }
    proof {
        let members = of_class(all, class, all.len() as int);
        assert(bullets(members).len() == members.len());
        assert(texts(lines@).len() == lines@.len());
    }
    if lines.len() > 0 {
        let mut group = chars_of(heading);
        append_str(&mut group, ":\n");
        append(&mut group, &join_of(&lines, "\n"));
        proof {
            lemma_texts_push(out@, group);
            assert(texts(old(out)@).push(group@) =~= texts(old(out)@) + seq![group@]);
        }
        out.push(group);
    } else {
        proof {
            assert(texts(old(out)@) + seq![] =~= texts(old(out)@));
        }
    }
}

pub fn build_pause_summary(results: &[SkepticResult]) -> (r: String)
    ensures
        r@ == pause_summary(results@),
{
    let ranked = refuters_by_confidence(results);
    let mut out: Vec<Vec<char>> = Vec::new();
    push_pause_group(
        &mut out,
        &ranked,
        SkepticBlocking::NonBlocking,
        PAUSE_GROUP_FIXABLE,
        Ghost(results@),
    );
    push_pause_group(
        &mut out,
        &ranked,
        SkepticBlocking::Contradiction,
        PAUSE_GROUP_CONTRADICTION,
        Ghost(results@),
    );
    push_pause_group(
        &mut out,
        &ranked,
        SkepticBlocking::Unverifiable,
        PAUSE_GROUP_UNVERIFIABLE,
        Ghost(results@),
    );
    proof {
        let first = pause_group(results@, SkepticBlocking::NonBlocking, PAUSE_GROUP_FIXABLE@);
        assert(texts(Seq::<Vec<char>>::empty()) + first =~= first);
    }
    string_of(&join_of(&out, "\n"))
}

// ---------------------------------------------------------------------------
// The details of a panel

/// The paths with their indices in ascending order of index; equal indices stay
/// in order.
pub open spec fn insert_by_index(list: Seq<(u32, Seq<char>)>, x: (u32, Seq<char>)) -> Seq<
    (u32, Seq<char>),
>
    decreases list.len(),
{
    if list.len() > 0 && x.0 < list.last().0 {
        insert_by_index(list.drop_last(), x).push(list.last())
    } else {
        list.push(x)
    }
}

pub open spec fn paths_by_index(results: Seq<SkepticResult>, n: int) -> Seq<(u32, Seq<char>)>
    decreases n,
{
    if n <= 0 {
        seq![]
    } else {
        insert_by_index(
            paths_by_index(results, n - 1),
            (results[n - 1].skeptic_idx, results[n - 1].details_path@),
        )
    }
}

/// The report paths of the panel, in the order of the skeptics.
pub open spec fn report_paths(results: Seq<SkepticResult>) -> Seq<Seq<char>> {
    let list = paths_by_index(results, results.len() as int);
    Seq::new(list.len(), |i: int| list[i].1)
}

spec fn indexed(list: Seq<(u32, Vec<char>)>) -> Seq<(u32, Seq<char>)> {
    Seq::new(list.len(), |i: int| (list[i].0, list[i].1@))
}

fn insert_by_index_of(list: &mut Vec<(u32, Vec<char>)>, x: (u32, Vec<char>))
    ensures
        indexed(final(list)@) == insert_by_index(indexed(old(list)@), (x.0, x.1@)),
{
    let ghost all = indexed(list@);
    let ghost y = (x.0, x.1@);
    let mut pos: usize = list.len();
    proof {
        assert(all.take(pos as int) =~= all);
        assert(insert_by_index(all, y) + all.skip(pos as int) =~= insert_by_index(all, y));
    }
    while pos > 0 && x.0 < list[pos - 1].0
        invariant
            pos <= list@.len(),
            list@ == old(list)@,
            all == indexed(list@),
            y == (x.0, x.1@),
            insert_by_index(all, y) == insert_by_index(all.take(pos as int), y) + all.skip(
                pos as int,
            ),
        decreases pos,
    {
        proof {
            let t = all.take(pos as int);
            assert(t.last() == all[pos - 1]);
            assert(t.drop_last() =~= all.take(pos - 1));
            assert(insert_by_index(all.take(pos - 1), y).push(t.last()) + all.skip(pos as int)
                =~= insert_by_index(all.take(pos - 1), y) + all.skip(pos - 1));
        }
        pos -= 1;
    }
    proof {
        let t = all.take(pos as int);
        if pos > 0 {
            assert(t.last() == all[pos - 1]);
        }
        assert(insert_by_index(t, y) == t.push(y));
        assert(indexed(list@.insert(pos as int, x)) =~= t.push(y) + all.skip(pos as int));
    }
    list.insert(pos, x);
}

fn report_paths_of(results: &[SkepticResult]) -> (r: Vec<Vec<char>>)
    ensures
        texts(r@) == report_paths(results@),
{
    let mut list: Vec<(u32, Vec<char>)> = Vec::new();
    let mut n: usize = 0;
    proof {
        assert(indexed(list@) =~= paths_by_index(results@, 0));
    }
    while n < results.len()
        invariant
            n <= results@.len(),
            indexed(list@) == paths_by_index(results@, n as int),
        decreases results@.len() - n,
    {
        let path = chars_of(results[n].details_path.as_str());
        insert_by_index_of(&mut list, (results[n].skeptic_idx, path));
        n += 1;
    }
    let mut out: Vec<Vec<char>> = Vec::new();
    let mut i: usize = 0;
    let ghost want = paths_by_index(results@, results@.len() as int);
    while i < list.len()
        invariant
            i <= list@.len(),
            want == indexed(list@),
            out@.len() == i,
            forall|k: int| 0 <= k < i ==> (#[trigger] out@[k])@ == want[k].1,
        decreases list@.len() - i,
    {
        let path = copy_of(&list[i].1);
        proof {
            assert(want[i as int].1 == list@[i as int].1@);
        }
        out.push(path);
        i += 1;
    }
    proof {
        assert(texts(out@) =~= report_paths(results@));
    }
    out
}

/// The length of the longest prefix of at most `max` bytes.
pub open spec fn fitting(s: Seq<char>, max: int) -> nat
    decreases s.len(),
{
    if byte_len(s) <= max || s.len() == 0 {
        s.len()
    } else {
        fitting(s.drop_last(), max)
    }
}

/// A body cut at a character boundary to the byte limit of a panel, with how
/// much was left out.
pub open spec fn capped_panel(body: Seq<char>) -> Seq<char> {
    if byte_len(body) <= GOAL_VERIFIER_PANEL_MAX_BYTES {
        body
    } else {
        let kept = body.take(fitting(body, GOAL_VERIFIER_PANEL_MAX_BYTES as int) as int);
        kept + "\n... (panel details truncated, "@ + decimal(
            (byte_len(body) - byte_len(kept)) as nat,
        ) + " bytes elided) ...\n"@
    }
}

proof fn lemma_byte_len_grows(s: Seq<char>, i: int, j: int)
    requires
        0 <= i <= j <= s.len(),
    ensures
        byte_len(s.take(i)) <= byte_len(s.take(j)),
    decreases j - i,
{
    if i < j {
        lemma_byte_len_take(s, j - 1);
        lemma_byte_len_grows(s, i, j - 1);
    }
}

proof fn lemma_fitting(s: Seq<char>, max: int, n: int, m: int)
    requires
        0 <= n <= m <= s.len(),
        byte_len(s.take(n)) <= max,
        n < m ==> byte_len(s.take(n + 1)) > max,
    ensures
        fitting(s.take(m), max) == n,
    decreases m - n,
{
    if n < m {
        lemma_byte_len_grows(s, n + 1, m);
        assert(s.take(m).drop_last() =~= s.take(m - 1));
        if n < m - 1 {
            lemma_fitting(s, max, n, m - 1);
        } else {
            assert(s.take(m - 1) =~= s.take(n));
            lemma_fitting(s, max, n, n);
        }
    }
}

fn capped_panel_of(body: &Vec<char>) -> (r: Vec<char>)
    ensures
        r@ == capped_panel(body@),
{
    let total = byte_len_of(body);
    if total <= GOAL_VERIFIER_PANEL_MAX_BYTES as u128 {
        return copy_of(body);
    }
    let mut used: usize = 0;
    let mut n: usize = 0;
    let mut full = false;
    while n < body.len() && !full
        invariant
            n <= body@.len(),
            used == byte_len(body@.take(n as int)),
            used <= GOAL_VERIFIER_PANEL_MAX_BYTES,
            full ==> n < body@.len() && byte_len(body@.take(n + 1))
                > GOAL_VERIFIER_PANEL_MAX_BYTES,
        decreases
                (if full {
                    0
                } else {
                    body@.len() - n + 1
                }),
    {
        let w = char_width_of(body[n]);
        proof {
            lemma_byte_len_take(body@, n as int);
        }
        if used + w <= GOAL_VERIFIER_PANEL_MAX_BYTES {
            used += w;
            n += 1;
        } else {
            full = true;
        }
    }
    proof {
        assert(body@.take(body@.len() as int) =~= body@);
        lemma_fitting(
            body@,
            GOAL_VERIFIER_PANEL_MAX_BYTES as int,
            n as int,
            body@.len() as int,
        );
    }
    let mut out = slice_of(body, 0, n);
    proof {
        assert(out@ =~= body@.take(n as int));
    }
    let elided = decimal_string(total - used as u128);
    append_str(&mut out, "\n... (panel details truncated, ");
    append_str(&mut out, elided.as_str());
    append_str(&mut out, " bytes elided) ...\n");
    out
}

pub fn cap_panel_details(body: &str) -> (r: String)
    ensures
        r@ == capped_panel(body@),
{
    let v = chars_of(body);
    string_of(&capped_panel_of(&v))
}

proof fn lemma_fitting_fits(s: Seq<char>, max: int)
    requires
        0 <= max,
    ensures
        fitting(s, max) <= s.len(),
        byte_len(s.take(fitting(s, max) as int)) <= max,
    decreases s.len(),
{
    if byte_len(s) <= max || s.len() == 0 {
        assert(s.take(s.len() as int) =~= s);
    } else {
        let t = s.drop_last();
        lemma_fitting_fits(t, max);
        let n = fitting(t, max) as int;
        assert(t.take(n) =~= s.take(n));
    }
}

proof fn lemma_decimal_bytes(n: nat, k: nat)
    requires
        n < pow(10, k),
        k > 0,
    ensures
        byte_len(decimal(n)) <= k,
    decreases k,
{
    lemma_pow0(10);
    lemma_pow1(10);
    if n < 10 {
        let d = decimal(n);
        assert(d.drop_last() =~= Seq::<char>::empty());
        assert(byte_len(d) == byte_len(d.drop_last()) + char_width(d.last()));
    } else {
        if k == 1 {
            assert(false);
        }
        let m = (k - 1) as nat;
        assert(pow(10, k) == 10 * pow(10, m)) by {
            reveal(pow);
        }
        assert(n / 10 < pow(10, m)) by (nonlinear_arith)
            requires
                n < 10 * pow(10, m),
        ;
        lemma_decimal_bytes(n / 10, m);
        let d = decimal(n);
        assert(d.drop_last() =~= decimal(n / 10));
    }
}

/// Whatever a panel has to say, its details stay within the limit, but for a
/// line that says how much was left out; and what is kept is the beginning.
pub proof fn law_panel_details_are_bounded(body: Seq<char>)
    requires
        byte_len(body) <= u64::MAX,
    ensures
        byte_len(capped_panel(body)) <= GOAL_VERIFIER_PANEL_MAX_BYTES + 80,
        byte_len(body) <= GOAL_VERIFIER_PANEL_MAX_BYTES ==> capped_panel(body) == body,
        exists|n: int|
            0 <= n <= body.len() && n <= capped_panel(body).len() && body.take(n)
                == #[trigger] capped_panel(body).take(n) && byte_len(body.take(n))
                <= GOAL_VERIFIER_PANEL_MAX_BYTES && (n == body.len() || byte_len(
                body.take(n + 1),
            ) > GOAL_VERIFIER_PANEL_MAX_BYTES),
{
    let max = GOAL_VERIFIER_PANEL_MAX_BYTES as int;
    if byte_len(body) <= max {
        assert(body.take(body.len() as int) =~= body);
        assert(body.take(body.len() as int) == capped_panel(body).take(body.len() as int));
    } else {
        lemma_fitting_fits(body, max);
        lemma_fitting_is_longest(body, max);
        let n = fitting(body, max) as int;
        let kept = body.take(n);
        let a = "\n... (panel details truncated, "@;
        let left = (byte_len(body) - byte_len(kept)) as nat;
        let d = decimal(left);
        let b = " bytes elided) ...\n"@;
        reveal_strlit("\n... (panel details truncated, ");
        reveal_strlit(" bytes elided) ...\n");
        assert(left < pow(10, 20)) by {
            reveal_with_fuel(pow, 21);
        }
        lemma_decimal_bytes(left, 20);
        lemma_ascii_bytes(a);
        lemma_ascii_bytes(b);
        lemma_byte_len_append(kept, a);
        lemma_byte_len_append(kept + a, d);
        lemma_byte_len_append(kept + a + d, b);
        assert(capped_panel(body) == kept + a + d + b);
        assert(capped_panel(body).take(n) =~= kept);
    }
}

proof fn lemma_fitting_is_longest(s: Seq<char>, max: int)
    requires
        0 <= max,
    ensures
        fitting(s, max) <= s.len(),
        fitting(s, max) < s.len() ==> byte_len(s.take(fitting(s, max) as int + 1)) > max,
    decreases s.len(),
{
    if byte_len(s) > max && s.len() > 0 {
        let t = s.drop_last();
        lemma_fitting_is_longest(t, max);
        let n = fitting(t, max) as int;
        if n < t.len() {
            assert(t.take(n + 1) =~= s.take(n + 1));
        } else {
            assert(s.take(n + 1) =~= s);
        }
    }
}

proof fn lemma_byte_len_append(a: Seq<char>, b: Seq<char>)
    ensures
        byte_len(a + b) == byte_len(a) + byte_len(b),
    decreases b.len(),
{
    if b.len() == 0 {
        assert(a + b =~= a);
    } else {
        lemma_byte_len_append(a, b.drop_last());
        assert((a + b).drop_last() =~= a + b.drop_last());
    }
}

proof fn lemma_ascii_bytes(s: Seq<char>)
    requires
        forall|i: int| 0 <= i < s.len() ==> (#[trigger] s[i]) as u32 <= 0x7f,
    ensures
        byte_len(s) == s.len(),
    decreases s.len(),
{
    if s.len() > 0 {
        lemma_ascii_bytes(s.drop_last());
        assert(s.last() == s[s.len() - 1]);
    }
}

pub open spec fn panel_headline(refuted_count: nat, total: nat, achieved: bool) -> Seq<char> {
    if achieved {
        "# Goal verification — Achieved\n\n"@ + decimal(refuted_count) + " of "@ + decimal(total)
            + " skeptics refuted; every structured verdict approved.\n\n"@
    } else {
        "# Goal verification — Not Achieved\n\n"@ + decimal(refuted_count) + " of "@ + decimal(
            total,
        ) + " skeptics refuted; panel rejected the claim.\n\n"@
    }
}

pub open spec fn panel_gaps(results: Seq<SkepticResult>, achieved: bool) -> Seq<char> {
    if achieved || gaps_summary(results).len() == 0 {
        seq![]
    } else {
        "## Gaps to fix\n\n"@ + gaps_summary(results) + "\n\n"@
    }
}

pub open spec fn panel_reports(results: Seq<SkepticResult>, achieved: bool) -> Seq<char> {
    if report_paths(results).len() == 0 {
        seq![]
    } else {
        (if achieved {
            "Per-skeptic reports: "@
        } else {
            "Fix the gaps above — they are what matters. For the full reasoning behind each, open the per-skeptic report files: "@
        }) + join(report_paths(results), ", "@) + "\n"@
    }
}

/// The details of a panel: a headline, what to fix, and where the reports of
/// the skeptics are.
pub open spec fn panel_details(
    results: Seq<SkepticResult>,
    refuted_count: nat,
    total: nat,
    achieved: bool,
) -> Seq<char> {
    capped_panel(
        panel_headline(refuted_count, total, achieved) + panel_gaps(results, achieved)
            + panel_reports(results, achieved),
    )
}

pub fn render_skeptic_panel_details(
    results: &[SkepticResult],
    refuted_count: u32,
    total: u32,
    achieved: bool,
) -> (r: String)
    ensures
        r@ == panel_details(results@, refuted_count as nat, total as nat, achieved),
{
    let refuted_text = decimal_string(refuted_count as u128);
    let total_text = decimal_string(total as u128);
    let mut out = if achieved {
        chars_of("# Goal verification — Achieved\n\n")
    } else {
        chars_of("# Goal verification — Not Achieved\n\n")
    };
    append_str(&mut out, refuted_text.as_str());
    append_str(&mut out, " of ");
    append_str(&mut out, total_text.as_str());
    append_str(
        &mut out,
        if achieved {
            " skeptics refuted; every structured verdict approved.\n\n"
        } else {
            " skeptics refuted; panel rejected the claim.\n\n"
        },
    );
    let ghost head = panel_headline(refuted_count as nat, total as nat, achieved);
    proof {
        assert(out@ == head);
    }
    if !achieved {
        let gaps = gaps_summary_of(results);
        if gaps.len() > 0 {
            append_str(&mut out, "## Gaps to fix\n\n");
            append(&mut out, &gaps);
            append_str(&mut out, "\n\n");
        }
    }
    proof {
        assert(out@ =~= head + panel_gaps(results@, achieved));
    }
    let paths = report_paths_of(results);
    proof {
        assert(texts(paths@).len() == paths@.len());
    }
    let ghost upto = out@;
    if paths.len() > 0 {
        append_str(
            &mut out,
            if achieved {
                "Per-skeptic reports: "
            } else {
                "Fix the gaps above — they are what matters. For the full reasoning behind each, open the per-skeptic report files: "
            },
        );
        append(&mut out, &join_of(&paths, ", "));
        out.push('\n');
        proof {
            reveal_strlit("\n");
            assert("\n"@ =~= seq!['\n']);
        }
    }
    proof {
        assert(out@ =~= upto + panel_reports(results@, achieved));
    }
    string_of(&capped_panel_of(&out))
}

// ---------------------------------------------------------------------------
// What a summary can hold

pub open spec fn has_no_angle(s: Seq<char>) -> bool {
    forall|i: int| 0 <= i < s.len() ==> #[trigger] s[i] != '<'
}

proof fn lemma_tag_alphabet(k: int)
    requires
        0 <= k < 4,
    ensures
        is_tag(control_tags()[k]),
        forall|i: int| 0 <= i < control_tags()[k].len() ==> #[trigger] control_tags()[k][i] != '\n',
{
    lemma_tags();
    reveal_strlit("</system-reminder>");
    reveal_strlit("<system-reminder>");
    reveal_strlit("</goal-state>");
    reveal_strlit("<goal-state>");
}

proof fn lemma_clean_after_plain(a: Seq<char>, b: Seq<char>)
    requires
        has_no_angle(a),
        !holds_control_tag(b),
    ensures
        !holds_control_tag(a + b),
{
    let s = a + b;
    if holds_control_tag(s) {
        let k = choose|k: int| 0 <= k < 4 && contains(s, #[trigger] control_tags()[k]);
        let q = control_tags()[k];
        lemma_tag_alphabet(k);
        let i = choose|i: int| matches_at(s, q, i);
        assert(s.subrange(i, i + q.len())[0] == q[0]);
        if i < a.len() {
            assert(s[i] == a[i]);
        } else {
            assert(b.subrange(i - a.len(), i - a.len() + q.len()) =~= s.subrange(i, i + q.len()));
            assert(matches_at(b, q, i - a.len()));
            assert(contains(b, q));
        }
    }
}

proof fn lemma_clean_across_newline(a: Seq<char>, b: Seq<char>)
    requires
        !holds_control_tag(a),
        !holds_control_tag(b),
    ensures
        !holds_control_tag(a + "\n"@ + b),
{
    reveal_strlit("\n");
    let s = a + "\n"@ + b;
    if holds_control_tag(s) {
        let k = choose|k: int| 0 <= k < 4 && contains(s, #[trigger] control_tags()[k]);
        let q = control_tags()[k];
        lemma_tag_alphabet(k);
        let i = choose|i: int| matches_at(s, q, i);
        let n = a.len() as int;
        assert(s[n] == '\n');
        if i + q.len() <= n {
            assert(a.subrange(i, i + q.len()) =~= s.subrange(i, i + q.len()));
            assert(matches_at(a, q, i));
            assert(contains(a, q));
        } else if i > n {
            let j = i - n - 1;
            assert(b.subrange(j, j + q.len()) =~= s.subrange(i, i + q.len()));
            assert(matches_at(b, q, j));
            assert(contains(b, q));
        } else {
            assert(s.subrange(i, i + q.len())[n - i] == q[n - i]);
            assert(q[n - i] == '\n');
        }
    }
}

proof fn lemma_plain_is_clean(a: Seq<char>)
    requires
        has_no_angle(a),
    ensures
        !holds_control_tag(a),
{
    let none = Seq::<char>::empty();
    if holds_control_tag(none) {
        let k = choose|k: int| 0 <= k < 4 && contains(none, #[trigger] control_tags()[k]);
        lemma_tag_alphabet(k);
        let i = choose|i: int| matches_at(none, control_tags()[k], i);
        assert(matches_at(none, control_tags()[k], i));
    }
    lemma_clean_after_plain(a, none);
    assert(a + none =~= a);
}

proof fn lemma_clean_join(parts: Seq<Seq<char>>)
    requires
        forall|i: int| 0 <= i < parts.len() ==> !holds_control_tag(#[trigger] parts[i]),
    ensures
        !holds_control_tag(join(parts, "\n"@)),
    decreases parts.len(),
{
    if parts.len() == 0 {
        lemma_plain_is_clean(join(parts, "\n"@));
    } else if parts.len() > 1 {
        let t = parts.drop_last();
        assert forall|i: int| 0 <= i < t.len() implies !holds_control_tag(#[trigger] t[i]) by {
            assert(t[i] == parts[i]);
        }
        lemma_clean_join(t);
        assert(!holds_control_tag(parts[parts.len() - 1]));
        lemma_clean_across_newline(join(t, "\n"@), parts.last());
    }
}

proof fn lemma_decimal_plain(n: nat)
    ensures
        has_no_angle(decimal(n)),
    decreases n,
{
    if n >= 10 {
        lemma_decimal_plain(n / 10);
    }
}

proof fn lemma_bullet_clean(r: SkepticResult)
    ensures
        !holds_control_tag(refuter_bullet(r)),
{
    reveal_strlit("- [skeptic ");
    reveal_strlit(", ");
    reveal_strlit("]");
    reveal_strlit(" ");
    reveal_strlit("  - ");
    reveal_strlit("high");
    reveal_strlit("medium");
    reveal_strlit("low");
    reveal_strlit("unknown");
    reveal_strlit("] no verdict produced: ");
    reveal_strlit("] refuted (no evidence)");
    lemma_decimal_plain(r.skeptic_idx as nat);
    let max = GAPS_EVIDENCE_MAX_CHARS as int;
    let head = skeptic_head(r);
    assert(has_no_angle(head));
    if r.findings@.len() > 0 {
        let shown = shown_findings(r.findings@);
        assert forall|i: int| 0 <= i < shown.len() implies !holds_control_tag(
            #[trigger] shown[i],
        ) by {
            let f = r.findings@[i];
            law_neutralized_text_holds_no_control_tag(capped(trim(finding_body(f)), max));
            lemma_clean_after_plain("  - "@, finding_line(f));
        }
        lemma_clean_join(shown);
        lemma_plain_is_clean(head);
        lemma_clean_across_newline(head, join(shown, "\n"@));
    } else if trim(r.evidence@).len() > 0 {
        let e = sanitized(trim(r.evidence@), max);
        law_neutralized_text_holds_no_control_tag(capped(trim(trim(r.evidence@)), max));
        lemma_clean_after_plain(head + " "@, e);
    } else {
        match r.fallback_note {
            Some(note) => {
                let e = sanitized(note@, max);
                law_neutralized_text_holds_no_control_tag(capped(trim(note@), max));
                lemma_clean_after_plain(
                    "- [skeptic "@ + decimal(r.skeptic_idx as nat) + "] no verdict produced: "@,
                    e,
                );
            },
            None => {
                lemma_plain_is_clean(refuter_bullet(r));
            },
        }
    }
}

/// Whatever the skeptics write, the summary of the gaps opens and closes no
/// frame of the harness.
pub proof fn law_gaps_summary_holds_no_control_tag(results: Seq<SkepticResult>)
    ensures
        !holds_control_tag(gaps_summary(results)),
{
    let all = ranked_refuters(results);
    assert forall|i: int| 0 <= i < bullets(all).len() implies !holds_control_tag(
        #[trigger] bullets(all)[i],
    ) by {
        lemma_bullet_clean(all[i]);
    }
    lemma_clean_join(bullets(all));
}

proof fn lemma_rank_members(results: Seq<SkepticResult>, rank: u8, n: int)
    requires
        0 <= n <= results.len(),
    ensures
        forall|k: int|
            0 <= k < refuters_of_rank(results, rank, n).len() ==> (#[trigger] refuters_of_rank(
                results,
                rank,
                n,
            )[k]).refuted && refuters_of_rank(results, rank, n)[k].confidence.order() == rank,
        forall|i: int|
            0 <= i < n && (#[trigger] results[i]).refuted && results[i].confidence.order() == rank
                ==> refuters_of_rank(results, rank, n).contains(results[i]),
    decreases n,
{
    if n > 0 {
        lemma_rank_members(results, rank, n - 1);
        let before = refuters_of_rank(results, rank, n - 1);
        let all = refuters_of_rank(results, rank, n);
        assert forall|k: int| 0 <= k < all.len() implies (#[trigger] all[k]).refuted
            && all[k].confidence.order() == rank by {
            if k < before.len() {
                assert(all[k] == before[k]);
            }
        }
        assert forall|i: int|
            0 <= i < n && (#[trigger] results[i]).refuted && results[i].confidence.order()
                == rank implies all.contains(results[i]) by {
            if i < n - 1 {
                assert(before.contains(results[i]));
                let k = choose|k: int| 0 <= k < before.len() && before[k] == results[i];
                assert(all[k] == results[i]);
            } else {
                assert(all[all.len() - 1] == results[i]);
            }
        }
    }
}

/// The summary speaks of the refuting skeptics, of each of them, and of no
/// other, the surest first.
pub proof fn law_ranked_refuters_are_the_refuters(results: Seq<SkepticResult>)
    ensures
        forall|k: int|
            0 <= k < ranked_refuters(results).len() ==> (#[trigger] ranked_refuters(
                results,
            )[k]).refuted,
        forall|i: int|
            0 <= i < results.len() && (#[trigger] results[i]).refuted ==> ranked_refuters(
                results,
            ).contains(results[i]),
        forall|j: int, k: int|
            0 <= j < k < ranked_refuters(results).len() ==> (#[trigger] ranked_refuters(
                results,
            )[j]).confidence.order() <= (#[trigger] ranked_refuters(results)[k]).confidence.order(),
{
    let n = results.len() as int;
    let a = refuters_of_rank(results, 0, n);
    let b = refuters_of_rank(results, 1, n);
    let c = refuters_of_rank(results, 2, n);
    let d = refuters_of_rank(results, 3, n);
    lemma_rank_members(results, 0, n);
    lemma_rank_members(results, 1, n);
    lemma_rank_members(results, 2, n);
    lemma_rank_members(results, 3, n);
    let all = ranked_refuters(results);
    assert(all == a + b + c + d);
    assert forall|i: int| 0 <= i < n && (#[trigger] results[i]).refuted implies all.contains(
        results[i],
    ) by {
        let x = results[i];
        if x.confidence.order() == 0 {
            let k = choose|k: int| 0 <= k < a.len() && a[k] == x;
            assert(all[k] == x);
        } else if x.confidence.order() == 1 {
            let k = choose|k: int| 0 <= k < b.len() && b[k] == x;
            assert(all[a.len() + k] == x);
        } else if x.confidence.order() == 2 {
            let k = choose|k: int| 0 <= k < c.len() && c[k] == x;
            assert(all[a.len() + b.len() + k] == x);
        } else {
            let k = choose|k: int| 0 <= k < d.len() && d[k] == x;
            assert(all[a.len() + b.len() + c.len() + k] == x);
        }
    }
}

/// A rejection always says something: where a skeptic refutes, the summary is
/// not empty.
pub proof fn law_rejection_names_a_gap(results: Seq<SkepticResult>, i: int)
    requires
        0 <= i < results.len(),
        results[i].refuted,
    ensures
        gaps_summary(results).len() > 0,
{
    law_ranked_refuters_are_the_refuters(results);
    reveal_strlit("- [skeptic ");
    let all = ranked_refuters(results);
    assert(all.contains(results[i]));
    let lines = bullets(all);
    assert(lines.len() == all.len());
    assert(lines.last() == refuter_bullet(all.last()));
    assert(refuter_bullet(all.last()).len() > 0);
}

proof fn lemma_of_class(results: Seq<SkepticResult>, class: SkepticBlocking, n: int, r: SkepticResult)
    requires
        0 <= n <= results.len(),
    ensures
        of_class(results, class, n).contains(r) <==> r.blocking == class && exists|k: int|
            0 <= k < n && #[trigger] results[k] == r,
    decreases n,
{
    if n > 0 {
        lemma_of_class(results, class, n - 1, r);
        let before = of_class(results, class, n - 1);
        let now = of_class(results, class, n);
        if before.contains(r) {
            let k = choose|k: int| 0 <= k < before.len() && before[k] == r;
            assert(now[k] == r);
        }
        if now.contains(r) && !before.contains(r) {
            let k = choose|k: int| 0 <= k < now.len() && now[k] == r;
            if k < before.len() {
                assert(before[k] == r);
            }
            assert(results[n - 1] == r);
        }
        if results[n - 1] == r && r.blocking == class {
            assert(now[before.len() as int] == r);
        }
    }
}

proof fn lemma_bullet_among(results: Seq<SkepticResult>, r: SkepticResult)
    requires
        results.contains(r),
    ensures
        contains(join(bullets(results), "\n"@), refuter_bullet(r)),
{
    let k = choose|k: int| 0 <= k < results.len() && results[k] == r;
    assert(bullets(results)[k] == refuter_bullet(r));
    lemma_join_holds_its_parts(bullets(results), "\n"@, k);
}

/// Every skeptic that refutes is heard: what it says stands in the summary of the
/// gaps, and in the summary for the user under the heading of its class.
pub proof fn law_every_refuter_is_heard(results: Seq<SkepticResult>, i: int)
    requires
        0 <= i < results.len(),
        results[i].refuted,
    ensures
        contains(gaps_summary(results), refuter_bullet(results[i])),
        contains(pause_summary(results), refuter_bullet(results[i])),
        results[i].blocking == SkepticBlocking::NonBlocking ==> contains(
            pause_summary(results),
            "Model-fixable gaps:\n"@,
        ),
        results[i].blocking == SkepticBlocking::Contradiction ==> contains(
            pause_summary(results),
            "Contradictions (objective/plan conflict):\n"@,
        ),
        results[i].blocking == SkepticBlocking::Unverifiable ==> contains(
            pause_summary(results),
            "Unverifiable in this environment:\n"@,
        ),
{
    let r = results[i];
    law_ranked_refuters_are_the_refuters(results);
    let ranked = ranked_refuters(results);
    assert(ranked.contains(r));
    lemma_bullet_among(ranked, r);
    let class = r.blocking;
    let at = choose|k: int| 0 <= k < ranked.len() && ranked[k] == r;
    lemma_of_class(ranked, class, ranked.len() as int, r);
    let members = of_class(ranked, class, ranked.len() as int);
    assert(members.contains(r));
    let heading = match class {
        SkepticBlocking::NonBlocking => PAUSE_GROUP_FIXABLE@,
        SkepticBlocking::Contradiction => PAUSE_GROUP_CONTRADICTION@,
        SkepticBlocking::Unverifiable => PAUSE_GROUP_UNVERIFIABLE@,
    };
    let listed = join(bullets(members), "\n"@);
    lemma_bullet_among(members, r);
    let group = heading + ":\n"@ + listed;
    assert(group =~= (heading + ":\n"@) + listed + seq![]);
    lemma_contains_in_whole(heading + ":\n"@, listed, seq![], refuter_bullet(r));
    assert(group =~= seq![] + (heading + ":\n"@) + listed);
    lemma_contains_itself(seq![], heading + ":\n"@, listed);
    let a = pause_group(results, SkepticBlocking::NonBlocking, PAUSE_GROUP_FIXABLE@);
    let b = pause_group(results, SkepticBlocking::Contradiction, PAUSE_GROUP_CONTRADICTION@);
    let c = pause_group(results, SkepticBlocking::Unverifiable, PAUSE_GROUP_UNVERIFIABLE@);
    let groups = a + b + c;
    let k: int = match class {
        SkepticBlocking::NonBlocking => 0,
        SkepticBlocking::Contradiction => a.len() as int,
        SkepticBlocking::Unverifiable => (a.len() + b.len()) as int,
    };
    assert(groups[k] == group);
    lemma_join_holds_its_parts(groups, "\n"@, k);
    lemma_contains_transitive(pause_summary(results), group, refuter_bullet(r));
    lemma_contains_transitive(pause_summary(results), group, heading + ":\n"@);
    lemma_pause_headings();
}

proof fn lemma_pause_headings()
    ensures
        PAUSE_GROUP_FIXABLE@ + ":\n"@ == "Model-fixable gaps:\n"@,
        PAUSE_GROUP_CONTRADICTION@ + ":\n"@ == "Contradictions (objective/plan conflict):\n"@,
        PAUSE_GROUP_UNVERIFIABLE@ + ":\n"@ == "Unverifiable in this environment:\n"@,
{
    reveal_strlit("Model-fixable gaps");
    reveal_strlit("Contradictions (objective/plan conflict)");
    reveal_strlit("Unverifiable in this environment");
    reveal_strlit("Model-fixable gaps:\n");
    reveal_strlit("Contradictions (objective/plan conflict):\n");
    reveal_strlit("Unverifiable in this environment:\n");
    reveal_strlit(":\n");
    assert("Model-fixable gaps"@ + ":\n"@ =~= "Model-fixable gaps:\n"@);
    assert("Contradictions (objective/plan conflict)"@ + ":\n"@
        =~= "Contradictions (objective/plan conflict):\n"@);
    assert("Unverifiable in this environment"@ + ":\n"@ =~= "Unverifiable in this environment:\n"@);
}

/// A class that no refuter belongs to has no group in the summary for the user.
pub proof fn law_group_without_a_refuter_is_left_out(
    results: Seq<SkepticResult>,
    class: SkepticBlocking,
    heading: Seq<char>,
)
    ensures
        pause_group(results, class, heading).len() == 0 <==> forall|i: int|
            0 <= i < results.len() && (#[trigger] results[i]).refuted ==> results[i].blocking
                != class,
{
    law_ranked_refuters_are_the_refuters(results);
    let ranked = ranked_refuters(results);
    let members = of_class(ranked, class, ranked.len() as int);
    if members.len() > 0 {
        assert(members.contains(members[0]));
        lemma_of_class(ranked, class, ranked.len() as int, members[0]);
        let k = choose|k: int| 0 <= k < ranked.len() && ranked[k] == members[0];
        lemma_ranked_come_from(results, ranked[k]);
    }
    if exists|i: int|
        0 <= i < results.len() && (#[trigger] results[i]).refuted && results[i].blocking == class {
        let i = choose|i: int|
            0 <= i < results.len() && (#[trigger] results[i]).refuted && results[i].blocking
                == class;
        assert(ranked.contains(results[i]));
        let k = choose|k: int| 0 <= k < ranked.len() && ranked[k] == results[i];
        lemma_of_class(ranked, class, ranked.len() as int, results[i]);
        assert(members.contains(results[i]));
    }
}

proof fn lemma_rank_come_from(results: Seq<SkepticResult>, rank: u8, n: int, r: SkepticResult)
    requires
        0 <= n <= results.len(),
        refuters_of_rank(results, rank, n).contains(r),
    ensures
        exists|i: int| 0 <= i < n && #[trigger] results[i] == r,
    decreases n,
{
    if n > 0 {
        let before = refuters_of_rank(results, rank, n - 1);
        let now = refuters_of_rank(results, rank, n);
        let k = choose|k: int| 0 <= k < now.len() && now[k] == r;
        if k < before.len() {
            assert(before[k] == r);
            lemma_rank_come_from(results, rank, n - 1, r);
        } else {
            assert(results[n - 1] == r);
        }
    }
}

proof fn lemma_ranked_come_from(results: Seq<SkepticResult>, r: SkepticResult)
    requires
        ranked_refuters(results).contains(r),
    ensures
        exists|i: int| 0 <= i < results.len() && #[trigger] results[i] == r,
{
    let n = results.len() as int;
    let a = refuters_of_rank(results, 0, n);
    let b = refuters_of_rank(results, 1, n);
    let c = refuters_of_rank(results, 2, n);
    let d = refuters_of_rank(results, 3, n);
    let all = ranked_refuters(results);
    let k = choose|k: int| 0 <= k < all.len() && all[k] == r;
    if k < a.len() {
        assert(a[k] == r);
        lemma_rank_come_from(results, 0, n, r);
    } else if k < a.len() + b.len() {
        assert(b[k - a.len()] == r);
        lemma_rank_come_from(results, 1, n, r);
    } else if k < a.len() + b.len() + c.len() {
        assert(c[k - a.len() - b.len()] == r);
        lemma_rank_come_from(results, 2, n, r);
    } else {
        assert(d[k - a.len() - b.len() - c.len()] == r);
        lemma_rank_come_from(results, 3, n, r);
    }
}

/// What a refuter says: each of its first twelve findings; its evidence where it
/// has no finding; and where it has neither, why it gave no verdict.
pub proof fn law_bullet_says_what_the_refuter_says(r: SkepticResult, k: int)
    ensures
        contains(refuter_bullet(r), "- [skeptic "@ + decimal(r.skeptic_idx as nat)),
        0 <= k < r.findings@.len() && k < 12 ==> contains(
            refuter_bullet(r),
            "  - "@ + finding_line(r.findings@[k]),
        ),
        r.findings@.len() == 0 && trim(r.evidence@).len() > 0 ==> contains(
            refuter_bullet(r),
            sanitized(trim(r.evidence@), 800),
        ),
        r.findings@.len() == 0 && trim(r.evidence@).len() == 0 && r.fallback_note is Some
            ==> contains(refuter_bullet(r), sanitized(r.fallback_note->0@, 800)),
{
    let head = "- [skeptic "@ + decimal(r.skeptic_idx as nat);
    let whole = refuter_bullet(r);
    if r.findings@.len() > 0 {
        let shown = shown_findings(r.findings@);
        let list = join(shown, "\n"@);
        assert(whole =~= seq![] + head + (", "@ + r.confidence.name()@ + "]"@ + "\n"@ + list));
        lemma_contains_itself(
            seq![],
            head,
            ", "@ + r.confidence.name()@ + "]"@ + "\n"@ + list,
        );
        if 0 <= k < r.findings@.len() && k < 12 {
            lemma_join_holds_its_parts(shown, "\n"@, k);
            assert(whole =~= (skeptic_head(r) + "\n"@) + list + seq![]);
            lemma_contains_in_whole(skeptic_head(r) + "\n"@, list, seq![], shown[k]);
        }
    } else if trim(r.evidence@).len() > 0 {
        let text = sanitized(trim(r.evidence@), 800);
        assert(whole =~= seq![] + head + (", "@ + r.confidence.name()@ + "]"@ + " "@ + text));
        lemma_contains_itself(seq![], head, ", "@ + r.confidence.name()@ + "]"@ + " "@ + text);
        assert(whole =~= (skeptic_head(r) + " "@) + text + seq![]);
        lemma_contains_itself(skeptic_head(r) + " "@, text, seq![]);
    } else if r.fallback_note is Some {
        let text = sanitized(r.fallback_note->0@, 800);
        assert(whole =~= seq![] + head + ("] no verdict produced: "@ + text));
        lemma_contains_itself(seq![], head, "] no verdict produced: "@ + text);
        assert(whole =~= (head + "] no verdict produced: "@) + text + seq![]);
        lemma_contains_itself(head + "] no verdict produced: "@, text, seq![]);
    } else {
        assert(whole =~= seq![] + head + "] refuted (no evidence)"@);
        lemma_contains_itself(seq![], head, "] refuted (no evidence)"@);
    }
}

/// A finding is told with its kind, its place and its detail, as far as they are
/// given.
pub proof fn law_finding_is_told_whole(f: Finding)
    ensures
        trim(f.kind@).len() > 0 ==> starts_with(finding_body(f), trim(f.kind@)),
        trim(f.kind@).len() == 0 ==> starts_with(finding_body(f), "finding"@),
        contains(finding_body(f), trim(f.location@)),
        ends_with(finding_body(f), trim(f.detail@)) || trim(f.detail@).len() == 0,
{
    let kind = trim(f.kind@);
    let place = trim(f.location@);
    let detail = trim(f.detail@);
    let head = if kind.len() == 0 {
        "finding"@
    } else {
        kind
    };
    let body = finding_body(f);
    assert(body.subrange(0, head.len() as int) =~= head);
    if place.len() > 0 && detail.len() > 0 {
        assert(body =~= (head + " · "@) + place + (" — "@ + detail));
        lemma_contains_itself(head + " · "@, place, " — "@ + detail);
        assert(body.subrange(body.len() - detail.len(), body.len() as int) =~= detail);
    } else if place.len() > 0 {
        assert(body =~= (head + " · "@) + place + seq![]);
        lemma_contains_itself(head + " · "@, place, seq![]);
    } else {
        assert(body =~= seq![] + place + body);
        lemma_contains_itself(seq![], place, body);
        if detail.len() > 0 {
            assert(body.subrange(body.len() - detail.len(), body.len() as int) =~= detail);
        }
    }
}

/// A text is shown up to a number of characters, with an ellipsis where there are
/// more; a shorter one is shown as it is.
pub proof fn law_capped_text_is_a_beginning(text: Seq<char>, max: int)
    requires
        0 <= max,
    ensures
        text.len() <= max ==> capped(text, max) == text,
        text.len() > max ==> capped(text, max).len() == max + 1 && capped(text, max).last() == '…'
            && capped(text, max).take(max) == text.take(max),
{
    if text.len() > max {
        assert(capped(text, max).take(max) =~= text.take(max));
    }
}

proof fn lemma_paths_by_index(results: Seq<SkepticResult>, n: int)
    requires
        0 <= n <= results.len(),
    ensures
        paths_by_index(results, n).len() == n,
        forall|i: int, j: int|
            0 <= i < j < n ==> (#[trigger] paths_by_index(results, n)[i]).0 <= (
            #[trigger] paths_by_index(results, n)[j]).0,
        forall|i: int|
            0 <= i < n ==> paths_by_index(results, n).contains(
                ((#[trigger] results[i]).skeptic_idx, results[i].details_path@),
            ),
    decreases n,
{
    if n > 0 {
        lemma_paths_by_index(results, n - 1);
        let x = (results[n - 1].skeptic_idx, results[n - 1].details_path@);
        let before = paths_by_index(results, n - 1);
        lemma_insert_by_index(before, x);
        let now = insert_by_index(before, x);
        assert forall|i: int| 0 <= i < n implies now.contains(
            ((#[trigger] results[i]).skeptic_idx, results[i].details_path@),
        ) by {
            if i < n - 1 {
                assert(before.contains((results[i].skeptic_idx, results[i].details_path@)));
            }
        }
    }
}

proof fn lemma_insert_by_index(list: Seq<(u32, Seq<char>)>, x: (u32, Seq<char>))
    requires
        forall|i: int, j: int|
            0 <= i < j < list.len() ==> (#[trigger] list[i]).0 <= (#[trigger] list[j]).0,
    ensures
        insert_by_index(list, x).len() == list.len() + 1,
        insert_by_index(list, x).contains(x),
        forall|y: (u32, Seq<char>)| #[trigger]
            list.contains(y) ==> insert_by_index(list, x).contains(y),
        forall|y: (u32, Seq<char>)| #[trigger]
            insert_by_index(list, x).contains(y) ==> y == x || list.contains(y),
        forall|i: int, j: int|
            0 <= i < j < list.len() + 1 ==> (#[trigger] insert_by_index(list, x)[i]).0 <= (
            #[trigger] insert_by_index(list, x)[j]).0,
    decreases list.len(),
{
    let now = insert_by_index(list, x);
    if list.len() > 0 && x.0 < list.last().0 {
        let t = list.drop_last();
        assert forall|i: int, j: int| 0 <= i < j < t.len() implies (#[trigger] t[i]).0 <= (
        #[trigger] t[j]).0 by {
            assert(list[i].0 <= list[j].0);
        }
        lemma_insert_by_index(t, x);
        let u = insert_by_index(t, x);
        assert(now == u.push(list.last()));
        let k = choose|k: int| 0 <= k < u.len() && u[k] == x;
        assert(now[k] == x);
        assert forall|y: (u32, Seq<char>)| #[trigger] list.contains(y) implies now.contains(y) by {
            let m = choose|m: int| 0 <= m < list.len() && list[m] == y;
            if m < t.len() {
                assert(t[m] == y);
                assert(t.contains(y));
                let q = choose|q: int| 0 <= q < u.len() && u[q] == y;
                assert(now[q] == y);
            } else {
                assert(now[u.len() as int] == y);
            }
        }
        assert forall|y: (u32, Seq<char>)| #[trigger] now.contains(y) implies y == x
            || list.contains(y) by {
            let m = choose|m: int| 0 <= m < now.len() && now[m] == y;
            if m < u.len() {
                assert(u[m] == y);
                assert(u.contains(y));
                if t.contains(y) {
                    let q = choose|q: int| 0 <= q < t.len() && t[q] == y;
                    assert(list[q] == y);
                }
            } else {
                assert(list[list.len() - 1] == y);
            }
        }
        assert forall|i: int, j: int| 0 <= i < j < now.len() implies (#[trigger] now[i]).0 <= (
        #[trigger] now[j]).0 by {
            if j < u.len() {
                assert(u[i].0 <= u[j].0);
            } else {
                assert(u.contains(u[i]));
                if u[i] != x {
                    assert(t.contains(u[i]));
                    let q = choose|q: int| 0 <= q < t.len() && t[q] == u[i];
                    assert(list[q].0 <= list[list.len() - 1].0);
                }
            }
        }
    } else {
        assert(now[list.len() as int] == x);
        assert forall|y: (u32, Seq<char>)| #[trigger] list.contains(y) implies now.contains(y) by {
            let m = choose|m: int| 0 <= m < list.len() && list[m] == y;
            assert(now[m] == y);
        }
        assert forall|y: (u32, Seq<char>)| #[trigger] now.contains(y) implies y == x
            || list.contains(y) by {
            let m = choose|m: int| 0 <= m < now.len() && now[m] == y;
            if m < list.len() {
                assert(list[m] == y);
            }
        }
        assert forall|i: int, j: int| 0 <= i < j < now.len() implies (#[trigger] now[i]).0 <= (
        #[trigger] now[j]).0 by {
            if j < list.len() {
                assert(list[i].0 <= list[j].0);
            } else if i < list.len() {
                if i < list.len() - 1 {
                    assert(list[i].0 <= list[list.len() - 1].0);
                }
            }
        }
    }
}

/// The details of a panel name the report of every skeptic, and no more reports
/// than there are skeptics.
pub proof fn law_every_report_is_named(results: Seq<SkepticResult>, i: int)
    requires
        0 <= i < results.len(),
    ensures
        report_paths(results).len() == results.len(),
        report_paths(results).contains(results[i].details_path@),
{
    let n = results.len() as int;
    lemma_paths_by_index(results, n);
    let list = paths_by_index(results, n);
    assert(list.contains((results[i].skeptic_idx, results[i].details_path@)));
    let k = choose|k: int|
        0 <= k < list.len() && list[k] == (results[i].skeptic_idx, results[i].details_path@);
    assert(report_paths(results)[k] == results[i].details_path@);
}

/// The details of a panel begin with what it came to and with its count; where
/// they fit, they hold the gaps of a goal that was not achieved and name every
/// report.
pub proof fn law_details_tell_what_the_panel_came_to(
    results: Seq<SkepticResult>,
    refuted_count: nat,
    total: nat,
    achieved: bool,
    i: int,
)
    requires
        0 <= i < results.len(),
        byte_len(
            panel_headline(refuted_count, total, achieved) + panel_gaps(results, achieved)
                + panel_reports(results, achieved),
        ) <= 524288,
    ensures
        achieved ==> starts_with(
            panel_details(results, refuted_count, total, achieved),
            "# Goal verification — Achieved\n\n"@ + decimal(refuted_count) + " of "@ + decimal(
                total,
            ),
        ),
        !achieved ==> starts_with(
            panel_details(results, refuted_count, total, achieved),
            "# Goal verification — Not Achieved\n\n"@ + decimal(refuted_count) + " of "@
                + decimal(total),
        ),
        contains(panel_details(results, refuted_count, total, achieved), results[i].details_path@),
        !achieved && results[i].refuted ==> contains(
            panel_details(results, refuted_count, total, achieved),
            refuter_bullet(results[i]),
        ),
{
    let whole = panel_details(results, refuted_count, total, achieved);
    let top = panel_headline(refuted_count, total, achieved);
    let gaps = panel_gaps(results, achieved);
    let reports = panel_reports(results, achieved);
    assert(whole == top + gaps + reports);
    let start = if achieved {
        "# Goal verification — Achieved\n\n"@ + decimal(refuted_count) + " of "@ + decimal(total)
    } else {
        "# Goal verification — Not Achieved\n\n"@ + decimal(refuted_count) + " of "@ + decimal(
            total,
        )
    };
    assert(whole.subrange(0, start.len() as int) =~= start);
    law_every_report_is_named(results, i);
    let paths = report_paths(results);
    let k = choose|k: int| 0 <= k < paths.len() && paths[k] == results[i].details_path@;
    lemma_join_holds_its_parts(paths, ", "@, k);
    let lead = if achieved {
        "Per-skeptic reports: "@
    } else {
        "Fix the gaps above — they are what matters. For the full reasoning behind each, open the per-skeptic report files: "@
    };
    lemma_contains_in_whole(lead, join(paths, ", "@), "\n"@, paths[k]);
    assert(whole =~= (top + gaps) + reports + seq![]);
    lemma_contains_in_whole(top + gaps, reports, seq![], paths[k]);
    if !achieved && results[i].refuted {
        law_every_refuter_is_heard(results, i);
        law_rejection_names_a_gap(results, i);
        lemma_contains_in_whole(
            "## Gaps to fix\n\n"@,
            gaps_summary(results),
            "\n\n"@,
            refuter_bullet(results[i]),
        );
        lemma_contains_in_whole(top, gaps, reports, refuter_bullet(results[i]));
    }
}

/// A text without an angle bracket that is short enough is shown as it is, but for
/// the white space around it.
pub proof fn law_harmless_text_is_shown_as_it_is(text: Seq<char>, max: int)
    requires
        !has_char(trim(text), '<'),
        trim(text).len() <= max,
    ensures
        sanitized(text, max) == trim(text),
{
    let t = trim(text);
    reveal_strlit("</system-reminder>");
    reveal_strlit("<system-reminder>");
    reveal_strlit("</goal-state>");
    reveal_strlit("<goal-state>");
    lemma_lacks(t, "</system-reminder>"@, 0);
    lemma_lacks(t, "<system-reminder>"@, 0);
    lemma_lacks(t, "</goal-state>"@, 0);
    lemma_lacks(t, "<goal-state>"@, 0);
    lemma_replace_absent(t, "</system-reminder>"@, "<\u{200b}/system-reminder>"@);
    lemma_replace_absent(t, "<system-reminder>"@, "<\u{200b}system-reminder>"@);
    lemma_replace_absent(t, "</goal-state>"@, "<\u{200b}/goal-state>"@);
    lemma_replace_absent(t, "<goal-state>"@, "<\u{200b}goal-state>"@);
}

/// A refuter is given no more than twelve findings, and no finding and no evidence
/// more than 800 characters before it is made harmless.
pub proof fn law_refuter_is_given_a_bounded_space(all: Seq<Finding>, i: int)
    ensures
        shown_findings(all).len() <= 12,
        shown_findings(all).len() <= all.len(),
        0 <= i < shown_findings(all).len() ==> shown_findings(all)[i] == "  - "@ + sanitized(
            finding_body(all[i]),
            800,
        ),
        capped(trim(finding_body(all[i])), 800).len() <= 801,
{
}

} // verus!
