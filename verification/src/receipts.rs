//! Holding the receipts of a verdict against the round that they belong to.

use vstd::prelude::*;
use vstd::string::*;
use vstd::utf8::encode_utf8;

use crate::digest::{canonical_digest, law_normalizing_twice_is_normalizing_once};
use crate::facets::{
    canonical_facet, canonical_gate, facet_gates, facet_named, gate_named, FacetSet,
    VerificationFacet,
};
use crate::manifest::{lemma_lookup_from, lookup, ArtifactKind, ArtifactManifest, ManifestView};
use crate::runtime::{
    event_supports, event_views, trace_contains, trace_supports, EventView, VerificationToolEvent,
};
use crate::snapshot::{citation_fault, match_entry_diagnostic, recorded_digest};
use crate::text::{
    blank, byte_len, byte_len_of, cat2, cat3, cat4, cat5, chars_of, contains, contains_str,
    is_blank, is_text, join, join_of, lemma_texts_push, lower, lower_of, opt, replace_chars,
    replace_chars_of, same_str, string_of, texts, trim, trim_of, trim_str, CharClass,
};
use crate::verdict::{SkepticBlocking, SkepticVerdict, ValidationCheck, VerdictIdentity};

verus! {

/// What reading a cited artifact gave.
#[derive(Debug)]
pub struct ArtifactRead {
    /// The path that was read, for messages.
    pub display_path: String,
    /// The bytes, or why they could not be read.
    pub outcome: Result<Vec<u8>, String>,
}

// ---------------------------------------------------------------------------
// Identity

/// The first identity in which a verdict is not the one that is expected.
pub open spec fn identity_fault(v: SkepticVerdict, e: VerdictIdentity) -> Option<Seq<char>> {
    if v.goal_id@ != e.goal_id@ {
        Some("structured verdict has wrong goal_id"@)
    } else if v.verification_round_id@ != e.verification_round_id@ {
        Some("structured verdict has wrong verification_round_id"@)
    } else if v.contract_digest@ != e.contract_digest@ {
        Some("structured verdict has wrong contract_digest"@)
    } else if v.reviewed_artifact_manifest_digest@ != e.reviewed_artifact_manifest_digest@ {
        Some("structured verdict has wrong reviewed_artifact_manifest_digest"@)
    } else if v.critic_id@ != e.critic_id@ {
        Some("structured verdict has wrong critic_id"@)
    } else if v.critic_assignment_id@ != e.critic_assignment_id@ {
        Some("structured verdict has wrong critic_assignment_id"@)
    } else if v.verdict_schema_version != 1 {
        Some("structured verdict has an unsupported schema version"@)
    } else {
        None
    }
}

fn check_identity(v: &SkepticVerdict, e: &VerdictIdentity) -> (r: Result<(), String>)
    ensures
        match identity_fault(*v, *e) {
            Some(fault) => r is Err && r->Err_0@ == fault,
            None => r is Ok,
        },
{
    if !same_str(v.goal_id.as_str(), e.goal_id.as_str()) {
        return Err("structured verdict has wrong goal_id".to_owned());
    }
    if !same_str(v.verification_round_id.as_str(), e.verification_round_id.as_str()) {
        return Err("structured verdict has wrong verification_round_id".to_owned());
    }
    if !same_str(v.contract_digest.as_str(), e.contract_digest.as_str()) {
        return Err("structured verdict has wrong contract_digest".to_owned());
    }
    if !same_str(
        v.reviewed_artifact_manifest_digest.as_str(),
        e.reviewed_artifact_manifest_digest.as_str(),
    ) {
        return Err("structured verdict has wrong reviewed_artifact_manifest_digest".to_owned());
    }
    if !same_str(v.critic_id.as_str(), e.critic_id.as_str()) {
        return Err("structured verdict has wrong critic_id".to_owned());
    }
    if !same_str(v.critic_assignment_id.as_str(), e.critic_assignment_id.as_str()) {
        return Err("structured verdict has wrong critic_assignment_id".to_owned());
    }
    if v.verdict_schema_version != 1 {
        return Err("structured verdict has an unsupported schema version".to_owned());
    }
    Ok(())
}

// ---------------------------------------------------------------------------
// One receipt

/// What a receipt is about: a facet and one of its gates, where both are
/// recognized.
pub open spec fn receipt_pair(c: ValidationCheck) -> Option<(VerificationFacet, Seq<char>)> {
    match facet_named(c.facet@) {
        Some(facet) => match gate_named(facet, c.gate@) {
            Some(gate) => Some((facet, gate@)),
            None => None,
        },
        None => None,
    }
}

/// The status of a receipt, however it is cased and separated.
pub open spec fn receipt_status(c: ValidationCheck) -> Seq<char> {
    replace_chars(lower(trim(c.status@)), CharClass::Two(' ', '-'), '_')
}

pub open spec fn is_not_applicable(c: ValidationCheck) -> bool {
    receipt_status(c) == "not_applicable"@ || receipt_status(c) == "n/a"@
}

pub open spec fn is_pass(c: ValidationCheck) -> bool {
    receipt_status(c) == "pass"@
}

pub open spec fn is_fail(c: ValidationCheck) -> bool {
    receipt_status(c) == "fail"@
}

/// A receipt that decides something, rather than being set aside.
pub open spec fn is_decided(c: ValidationCheck) -> bool {
    !is_not_applicable(c) && (is_pass(c) || is_fail(c))
}

/// A receipt that is set aside cites nothing and says why, at some length.
pub open spec fn set_aside_properly(c: ValidationCheck) -> bool {
    is_blank(c.artifact_path@) && is_blank(c.artifact_sha256@) && c.tool_event_id is None
        && c.exact_input_digest is None && c.observed_output_digest is None
        && c.applicability_basis is Some && byte_len(trim(c.applicability_basis->0@)) >= 12
}

/// Whether `part` occurs in `bytes`.
pub open spec fn holds_bytes(bytes: Seq<u8>, part: Seq<u8>) -> bool {
    exists|i: int|
        0 <= i && i + part.len() <= bytes.len() && #[trigger] bytes.subrange(i, i + part.len())
            == part
}

/// A numerical method needs a tolerance.
pub open spec fn lacks_tolerance(c: ValidationCheck) -> bool {
    (contains(lower(c.method@), "numerical"@) || contains(lower(c.method@), "approx"@)) && (
    c.tolerance is None || is_blank(c.tolerance->0@))
}

/// Evidence provenance is approved by the artifact alone: a tool event that it
/// cites is welcome, but the round does not hinge on it.
pub open spec fn binding_is_advisory(
    c: ValidationCheck,
    facet: VerificationFacet,
    gate: Seq<char>,
) -> bool {
    is_pass(c) && facet == VerificationFacet::Math && gate == "evidence-provenance"@
}

/// What is wrong with the tool event that a receipt cites. A receipt cites one
/// whole or not at all.
pub open spec fn binding_fault(
    c: ValidationCheck,
    facet: VerificationFacet,
    gate: Seq<char>,
    label: Seq<char>,
    trace: Seq<EventView>,
) -> Option<Seq<char>> {
    match (c.tool_event_id, c.exact_input_digest, c.observed_output_digest) {
        (None, None, None) => None,
        (Some(event), Some(input), Some(output)) => if binding_is_advisory(c, facet, gate)
            || trace_supports(trace, event@, input@, output@, c.artifact_path@, c.target@) {
            None
        } else {
            Some(
                "receipt "@ + label + " cites a missing, failed, or stale tool event"@,
            )
        },
        _ => Some("receipt "@ + label + " has a partial tool-event binding"@),
    }
}

/// What is wrong with a receipt that passes or fails its gate.
pub open spec fn decision_fault(
    c: ValidationCheck,
    facet: VerificationFacet,
    gate: Seq<char>,
    label: Seq<char>,
    read: ArtifactRead,
    m: ManifestView,
    trace: Seq<EventView>,
) -> Option<Seq<char>> {
    match citation_fault(m, c.artifact_path@, c.artifact_sha256@) {
        Some(reason) => Some("receipt "@ + label + " "@ + reason),
        None => match read.outcome {
            Err(error) => Some(
                "cannot read cited artifact "@ + read.display_path@ + ": "@ + error@,
            ),
            Ok(bytes) => if !holds_bytes(bytes@, encode_utf8(c.target@)) {
                Some(
                    "receipt "@ + label
                        + " target is not present in its cited artifact"@,
                )
            } else if binding_fault(c, facet, gate, label, trace) is Some {
                binding_fault(c, facet, gate, label, trace)
            } else if lacks_tolerance(c) {
                Some(
                    "receipt "@ + label
                        + " uses a numerical method without tolerance"@,
                )
            } else {
                None
            },
        },
    }
}

/// Whether an earlier receipt is about the same facet and gate.
pub open spec fn repeats_receipt(checks: Seq<ValidationCheck>, i: int) -> bool {
    exists|j: int| 0 <= j < i && receipt_pair(#[trigger] checks[j]) == receipt_pair(checks[i])
}

/// What is wrong with receipt `i`, if anything is.
pub open spec fn receipt_fault(
    checks: Seq<ValidationCheck>,
    i: int,
    facets: Set<VerificationFacet>,
    reads: Seq<ArtifactRead>,
    m: ManifestView,
    trace: Seq<EventView>,
) -> Option<Seq<char>> {
    let c = checks[i];
    match facet_named(c.facet@) {
        None => Some("unknown correctness facet `"@ + trim(c.facet@) + "`"@),
        Some(facet) => match gate_named(facet, c.gate@) {
            None => Some("unknown gate `"@ + c.gate@ + "` for facet "@ + c.facet@),
            Some(gate) => {
                let label = facet.name()@ + "/"@ + gate@;
                if !facets.contains(facet) {
                    Some("unassigned receipt "@ + label)
                } else if repeats_receipt(checks, i) {
                    Some("duplicate receipt "@ + label)
                } else if is_blank(c.target@) || is_blank(c.evidence@) || is_blank(c.method@) {
                    Some("receipt "@ + label + " is incomplete"@)
                } else if is_not_applicable(c) {
                    if set_aside_properly(c) {
                        None
                    } else {
                        Some(
                            "receipt "@ + label
                                + " has an invalid not-applicable basis"@,
                        )
                    }
                } else if is_pass(c) || is_fail(c) {
                    decision_fault(c, facet, gate@, label, reads[i], m, trace)
                } else {
                    Some("receipt "@ + label + " has invalid status"@)
                }
            },
        },
    }
}

/// The fault of the first faulty receipt from `i` on.
pub open spec fn receipts_fault_from(
    checks: Seq<ValidationCheck>,
    i: int,
    facets: Set<VerificationFacet>,
    reads: Seq<ArtifactRead>,
    m: ManifestView,
    trace: Seq<EventView>,
) -> Option<Seq<char>>
    decreases checks.len() - i,
{
    if i < 0 || i >= checks.len() {
        None
    } else {
        match receipt_fault(checks, i, facets, reads, m, trace) {
            Some(fault) => Some(fault),
            None => receipts_fault_from(checks, i + 1, facets, reads, m, trace),
        }
    }
}

fn holds_bytes_of(bytes: &Vec<u8>, part: &[u8]) -> (r: bool)
    ensures
        r == holds_bytes(bytes@, part@),
{
    let n: usize = part.len();
    if n > bytes.len() {
        return false;
    }
    let total: usize = bytes.len();
    let last: usize = total - n;
    let mut i: usize = 0;
    loop
        invariant
            i <= last,
            n == part@.len(),
            total == bytes@.len(),
            last + n == total,
            forall|k: int| 0 <= k < i ==> #[trigger] bytes@.subrange(k, k + n) != part@,
        decreases last - i,
    {
        let mut k: usize = 0;
        let mut equal = true;
        while k < n && equal
            invariant
                k <= n,
                i <= last,
                n == part@.len(),
                total == bytes@.len(),
                last + n == total,
                equal ==> forall|q: int| 0 <= q < k ==> bytes@[i + q] == #[trigger] part@[q],
                !equal ==> k > 0 && bytes@[i + k - 1] != part@[k - 1],
            decreases n - k,
        {
            equal = bytes[i + k] == part[k];
            k += 1;
        }
        if equal {
            proof {
                assert(bytes@.subrange(i as int, i + n) =~= part@);
            }
            return true;
        }
        proof {
            assert(bytes@.subrange(i as int, i + n)[k - 1] != part@[k - 1]);
        }
        if i == last {
            proof {
                assert forall|q: int| 0 <= q && q + n <= bytes@.len() implies #[trigger]
                    bytes@.subrange(q, q + n) != part@ by {}
            }
            return false;
        }
        i += 1;
    }
}

fn status_of(c: &ValidationCheck) -> (r: Vec<char>)
    ensures
        r@ == receipt_status(*c),
{
    let v = chars_of(c.status.as_str());
    let low = lower_of(&trim_of(&v));
    replace_chars_of(&low, CharClass::Two(' ', '-'), '_')
}

fn set_aside_properly_of(c: &ValidationCheck) -> (r: bool)
    ensures
        r == set_aside_properly(*c),
{
    if !blank(c.artifact_path.as_str()) || !blank(c.artifact_sha256.as_str())
        || c.tool_event_id.is_some() || c.exact_input_digest.is_some()
        || c.observed_output_digest.is_some() {
        return false;
    }
    match &c.applicability_basis {
        Some(basis) => {
            let v = chars_of(basis.as_str());
            byte_len_of(&trim_of(&v)) >= 12
        },
        None => false,
    }
}

fn lacks_tolerance_of(c: &ValidationCheck) -> (r: bool)
    ensures
        r == lacks_tolerance(*c),
{
    let v = chars_of(c.method.as_str());
    let method = lower_of(&v);
    if !contains_str(&method, "numerical") && !contains_str(&method, "approx") {
        return false;
    }
    match &c.tolerance {
        Some(value) => blank(value.as_str()),
        None => true,
    }
}

fn check_binding(
    c: &ValidationCheck,
    facet: VerificationFacet,
    gate: &str,
    passes: bool,
    label: &str,
    trace: &[VerificationToolEvent],
) -> (r: Option<String>)
    requires
        passes == is_pass(*c),
    ensures
        opt(r) == binding_fault(*c, facet, gate@, label@, event_views(trace@)),
{
    let advisory = passes && facet == VerificationFacet::Math && same_str(
        gate,
        "evidence-provenance",
    );
    match (&c.tool_event_id, &c.exact_input_digest, &c.observed_output_digest) {
        (None, None, None) => None,
        (Some(event), Some(input), Some(output)) => {
            if advisory || trace_contains(
                trace,
                event.as_str(),
                input.as_str(),
                output.as_str(),
                c.artifact_path.as_str(),
                c.target.as_str(),
            ) {
                None
            } else {
                Some(cat3("receipt ", label, " cites a missing, failed, or stale tool event"))
            }
        },
        _ => Some(cat3("receipt ", label, " has a partial tool-event binding")),
    }
}

fn check_decision(
    c: &ValidationCheck,
    facet: VerificationFacet,
    gate: &str,
    passes: bool,
    label: &str,
    read: &ArtifactRead,
    manifest: &ArtifactManifest,
    trace: &[VerificationToolEvent],
) -> (r: Option<String>)
    requires
        passes == is_pass(*c),
    ensures
        opt(r) == decision_fault(
            *c,
            facet,
            gate@,
            label@,
            *read,
            manifest@,
            event_views(trace@),
        ),
{
    if let Err(reason) = match_entry_diagnostic(
        manifest,
        c.artifact_path.as_str(),
        c.artifact_sha256.as_str(),
    ) {
        return Some(cat4("receipt ", label, " ", reason.as_str()));
    }
    let bytes = match &read.outcome {
        Err(error) => {
            return Some(
                cat4(
                    "cannot read cited artifact ",
                    read.display_path.as_str(),
                    ": ",
                    error.as_str(),
                ),
            );
        },
        Ok(bytes) => bytes,
    };
    if !holds_bytes_of(bytes, c.target.as_str().as_bytes()) {
        return Some(cat3("receipt ", label, " target is not present in its cited artifact"));
    }
    let bound = check_binding(c, facet, gate, passes, label, trace);
    if bound.is_some() {
        return bound;
    }
    if lacks_tolerance_of(c) {
        return Some(cat3("receipt ", label, " uses a numerical method without tolerance"));
    }
    None
}

/// The pairs of the first receipts, as they were recognized.
spec fn pairs_recognized(
    pairs: Seq<(VerificationFacet, &'static str)>,
    checks: Seq<ValidationCheck>,
    n: int,
) -> bool {
    pairs.len() == n && forall|k: int|
        0 <= k < n ==> receipt_pair(#[trigger] checks[k]) == Some((pairs[k].0, pairs[k].1@))
}

fn pair_repeats(
    pairs: &Vec<(VerificationFacet, &'static str)>,
    facet: VerificationFacet,
    gate: &'static str,
) -> (r: bool)
    ensures
        r == (exists|k: int|
            0 <= k < pairs@.len() && (#[trigger] pairs@[k]).0 == facet && pairs@[k].1@ == gate@),
{
    let mut k: usize = 0;
    while k < pairs.len()
        invariant
            k <= pairs@.len(),
            forall|q: int|
                0 <= q < k ==> !((#[trigger] pairs@[q]).0 == facet && pairs@[q].1@ == gate@),
        decreases pairs@.len() - k,
    {
        if pairs[k].0 == facet && same_str(pairs[k].1, gate) {
            return true;
        }
        k += 1;
    }
    false
}

// ---------------------------------------------------------------------------
// Coverage

/// Every facet with each of its gates, in order.
pub open spec fn all_pairs() -> Seq<(VerificationFacet, &'static str)> {
    seq![
        (VerificationFacet::Code, "code-correctness"),
        (VerificationFacet::Analysis, "analysis-correctness"),
        (VerificationFacet::Research, "research-validity"),
        (VerificationFacet::Math, "contract-closure"),
        (VerificationFacet::Math, "derivation-integrity"),
        (VerificationFacet::Math, "evidence-provenance"),
        (VerificationFacet::Math, "invariant-ledger"),
        (VerificationFacet::Math, "state-isolation"),
        (VerificationFacet::Empirical, "empirical-validity"),
        (VerificationFacet::Sources, "source-support"),
        (VerificationFacet::Citations, "citation-integrity"),
        (VerificationFacet::DocumentRender, "document-render"),
        (VerificationFacet::StateRegression, "state-isolation"),
    ]
}

/// Whether some receipt is about this facet and this gate.
pub open spec fn is_covered(
    checks: Seq<ValidationCheck>,
    facet: VerificationFacet,
    gate: Seq<char>,
) -> bool {
    exists|i: int| 0 <= i < checks.len() && receipt_pair(#[trigger] checks[i]) == Some((facet, gate))
}

/// Whether every gate of every assigned facet has a receipt.
pub open spec fn coverage_is_complete(
    checks: Seq<ValidationCheck>,
    facets: Set<VerificationFacet>,
) -> bool {
    forall|k: int|
        0 <= k < all_pairs().len() && facets.contains((#[trigger] all_pairs()[k]).0) ==> is_covered(
            checks,
            all_pairs()[k].0,
            all_pairs()[k].1@,
        )
}

/// The facet as diagnostics spell it.
pub open spec fn facet_label(facet: VerificationFacet) -> &'static str {
    match facet {
        VerificationFacet::Code => "Code",
        VerificationFacet::Analysis => "Analysis",
        VerificationFacet::Research => "Research",
        VerificationFacet::Math => "Math",
        VerificationFacet::Empirical => "Empirical",
        VerificationFacet::Sources => "Sources",
        VerificationFacet::Citations => "Citations",
        VerificationFacet::DocumentRender => "DocumentRender",
        VerificationFacet::StateRegression => "StateRegression",
    }
}

pub open spec fn pair_text(pair: (VerificationFacet, &str)) -> Seq<char> {
    "("@ + facet_label(pair.0)@ + ", \""@ + pair.1@ + "\")"@
}

/// Those of the first `n` pairs that are flagged, spelled out.
pub open spec fn flagged(flags: Seq<bool>, n: int) -> Seq<Seq<char>>
    decreases n,
{
    if n <= 0 {
        seq![]
    } else if flags[n - 1] {
        flagged(flags, n - 1).push(pair_text(all_pairs()[n - 1]))
    } else {
        flagged(flags, n - 1)
    }
}

pub open spec fn pair_list(flags: Seq<bool>) -> Seq<char> {
    "{"@ + join(flagged(flags, 13), ", "@) + "}"@
}

pub open spec fn covered_flags(checks: Seq<ValidationCheck>) -> Seq<bool> {
    Seq::new(13, |k: int| is_covered(checks, all_pairs()[k].0, all_pairs()[k].1@))
}

pub open spec fn required_flags(facets: Set<VerificationFacet>) -> Seq<bool> {
    Seq::new(13, |k: int| facets.contains(all_pairs()[k].0))
}

/// Whether some receipt of the facet decides something.
pub open spec fn is_decided_facet(checks: Seq<ValidationCheck>, facet: VerificationFacet) -> bool {
    exists|i: int|
        0 <= i < checks.len() && facet_named((#[trigger] checks[i]).facet@) == Some(facet)
            && is_decided(checks[i])
}

pub open spec fn every_facet_decided(
    checks: Seq<ValidationCheck>,
    facets: Set<VerificationFacet>,
) -> bool {
    forall|f: VerificationFacet| #[trigger] facets.contains(f) ==> is_decided_facet(checks, f)
}

pub open spec fn some_receipt_fails(checks: Seq<ValidationCheck>) -> bool {
    exists|i: int| 0 <= i < checks.len() && is_fail(#[trigger] checks[i])
}

// ---------------------------------------------------------------------------
// The verdict

/// What keeps a vote from being taken, once its receipts are in order.
pub open spec fn vote_fault(v: SkepticVerdict) -> Option<Seq<char>> {
    if v.refuted {
        if !some_receipt_fails(v.checks@) || v.findings@.len() == 0 {
            Some("refutation requires a failed receipt and a structured finding"@)
        } else {
            None
        }
    } else if some_receipt_fails(v.checks@) {
        Some("approval contains a failed receipt"@)
    } else if v.blocking != SkepticBlocking::NonBlocking {
        Some("approval declares a blocking condition"@)
    } else if v.findings@.len() > 0 {
        Some("approval contains unresolved findings"@)
    } else {
        None
    }
}

/// What keeps a verdict from being accepted, if anything does.
pub open spec fn verdict_fault(
    v: SkepticVerdict,
    expected: VerdictIdentity,
    facets: Set<VerificationFacet>,
    reads: Seq<ArtifactRead>,
    m: ManifestView,
    trace: Seq<EventView>,
) -> Option<Seq<char>> {
    if identity_fault(v, expected) is Some {
        identity_fault(v, expected)
    } else if receipts_fault_from(v.checks@, 0, facets, reads, m, trace) is Some {
        receipts_fault_from(v.checks@, 0, facets, reads, m, trace)
    } else if !coverage_is_complete(v.checks@, facets) {
        Some(
            "structured verdict coverage is incomplete: covered="@ + pair_list(
                covered_flags(v.checks@),
            ) + ", required="@ + pair_list(required_flags(facets)),
        )
    } else if !every_facet_decided(v.checks@, facets) {
        Some("a correctness facet cannot be entirely not-applicable"@)
    } else {
        vote_fault(v)
    }
}

/// What the receipts of a verdict come to.
struct Tally {
    pairs: Vec<(VerificationFacet, &'static str)>,
    decided: FacetSet,
    fails: bool,
}

spec fn tally_matches(t: Tally, checks: Seq<ValidationCheck>, n: int) -> bool {
    &&& pairs_recognized(t.pairs@, checks, n)
    &&& forall|f: VerificationFacet|
        #![trigger t.decided@.contains(f)]
        t.decided@.contains(f) <==> exists|i: int|
            0 <= i < n && facet_named((#[trigger] checks[i]).facet@) == Some(f) && is_decided(
                checks[i],
            )
    &&& t.fails <==> exists|i: int| 0 <= i < n && is_fail(#[trigger] checks[i])
}

/// What is wrong with one receipt, and what it decides. `pairs` are those of
/// the receipts before it.
fn check_receipt(
    checks: &Vec<ValidationCheck>,
    i: usize,
    pairs: &Vec<(VerificationFacet, &'static str)>,
    facets: &FacetSet,
    read: &ArtifactRead,
    manifest: &ArtifactManifest,
    trace: &[VerificationToolEvent],
    Ghost(reads): Ghost<Seq<ArtifactRead>>,
) -> (r: Result<(VerificationFacet, &'static str, bool, bool), String>)
    requires
        i < checks@.len(),
        pairs_recognized(pairs@, checks@, i as int),
        0 <= i < reads.len(),
        reads[i as int] == *read,
    ensures
        match receipt_fault(checks@, i as int, facets@, reads, manifest@, event_views(trace@)) {
            Some(fault) => r is Err && r->Err_0@ == fault,
            None => r is Ok && receipt_pair(checks@[i as int]) == Some((r->Ok_0.0, r->Ok_0.1@))
                && facet_named(checks@[i as int].facet@) == Some(r->Ok_0.0) && r->Ok_0.2
                == is_decided(checks@[i as int]) && r->Ok_0.3 == is_fail(checks@[i as int]),
        },
{
    let c = &checks[i];
    let facet = match canonical_facet(c.facet.as_str()) {
        Some(facet) => facet,
        None => {
            let shown = trim_str(c.facet.as_str());
            return Err(cat3("unknown correctness facet `", shown.as_str(), "`"));
        },
    };
    let gate = match canonical_gate(facet, c.gate.as_str()) {
        Some(gate) => gate,
        None => {
            return Err(cat4("unknown gate `", c.gate.as_str(), "` for facet ", c.facet.as_str()));
        },
    };
    let label = cat3(facet.as_str(), "/", gate);
    let l = label.as_str();
    if !facets.contains(&facet) {
        return Err(cat2("unassigned receipt ", l));
    }
    let repeated = pair_repeats(pairs, facet, gate);
    proof {
        if repeated {
            let k = choose|k: int|
                0 <= k < pairs@.len() && (#[trigger] pairs@[k]).0 == facet && pairs@[k].1@ == gate@;
            assert(receipt_pair(checks@[k]) == Some((pairs@[k].0, pairs@[k].1@)));
        } else if repeats_receipt(checks@, i as int) {
            let j = choose|j: int|
                0 <= j < i && receipt_pair(#[trigger] checks@[j]) == receipt_pair(checks@[i as int]);
            assert(pairs@[j].0 == facet);
        }
        assert(repeated == repeats_receipt(checks@, i as int));
    }
    if repeated {
        return Err(cat2("duplicate receipt ", l));
    }
    if blank(c.target.as_str()) || blank(c.evidence.as_str()) || blank(c.method.as_str()) {
        return Err(cat3("receipt ", l, " is incomplete"));
    }
    let status = status_of(c);
    proof {
        lemma_statuses_differ();
    }
    if is_text(&status, "not_applicable") || is_text(&status, "n/a") {
        if !set_aside_properly_of(c) {
            return Err(cat3("receipt ", l, " has an invalid not-applicable basis"));
        }
        return Ok((facet, gate, false, false));
    }
    let passes = is_text(&status, "pass");
    let fails = is_text(&status, "fail");
    if !passes && !fails {
        return Err(cat3("receipt ", l, " has invalid status"));
    }
    if let Some(fault) = check_decision(c, facet, gate, passes, l, read, manifest, trace) {
        return Err(fault);
    }
    Ok((facet, gate, true, fails))
}

proof fn lemma_statuses_differ()
    ensures
        "not_applicable"@ != "fail"@,
        "n/a"@ != "fail"@,
{
    reveal_strlit("not_applicable");
    reveal_strlit("n/a");
    reveal_strlit("fail");
    assert("not_applicable"@.len() == 14);
    assert("n/a"@.len() == 3);
    assert("fail"@.len() == 4);
}

fn check_receipts(
    checks: &Vec<ValidationCheck>,
    facets: &FacetSet,
    reads: &Vec<ArtifactRead>,
    manifest: &ArtifactManifest,
    trace: &[VerificationToolEvent],
) -> (r: Result<Tally, String>)
    requires
        reads@.len() == checks@.len(),
    ensures
        match receipts_fault_from(checks@, 0, facets@, reads@, manifest@, event_views(trace@)) {
            Some(fault) => r is Err && r->Err_0@ == fault,
            None => r is Ok && tally_matches(r->Ok_0, checks@, checks@.len() as int),
        },
{
    let mut t = Tally { pairs: Vec::new(), decided: FacetSet::new(), fails: false };
    let mut i: usize = 0;
    while i < checks.len()
        invariant
            i <= checks@.len() == reads@.len(),
            tally_matches(t, checks@, i as int),
            receipts_fault_from(checks@, 0, facets@, reads@, manifest@, event_views(trace@))
                == receipts_fault_from(
                checks@,
                i as int,
                facets@,
                reads@,
                manifest@,
                event_views(trace@),
            ),
        decreases checks@.len() - i,
    {
        let ghost before = t;
        match check_receipt(
            checks,
            i,
            &t.pairs,
            facets,
            &reads[i],
            manifest,
            trace,
            Ghost(reads@),
        ) {
            Err(fault) => {
                return Err(fault);
            },
            Ok((facet, gate, decided, fails)) => {
                t.pairs.push((facet, gate));
                if decided {
                    t.decided.insert(facet);
                }
                if fails {
                    t.fails = true;
                }
                proof {
                    let c = checks@[i as int];
                    assert forall|k: int| 0 <= k < i + 1 implies receipt_pair(
                        #[trigger] checks@[k],
                    ) == Some((t.pairs@[k].0, t.pairs@[k].1@)) by {
                        if k < i {
                            assert(receipt_pair(checks@[k]) == Some(
                                (before.pairs@[k].0, before.pairs@[k].1@),
                            ));
                        }
                    }
                    assert forall|f: VerificationFacet|
                        #![trigger t.decided@.contains(f)]
                        t.decided@.contains(f) <==> exists|k: int|
                            0 <= k < i + 1 && facet_named((#[trigger] checks@[k]).facet@) == Some(f)
                                && is_decided(checks@[k]) by {
                        assert(t.decided@.contains(f) <==> before.decided@.contains(f) || (decided
                            && f == facet));
                        if before.decided@.contains(f) {
                            let k = choose|k: int|
                                0 <= k < i && facet_named((#[trigger] checks@[k]).facet@) == Some(f)
                                    && is_decided(checks@[k]);
                            assert(0 <= k < i + 1);
                        }
                        if exists|k: int|
                            0 <= k < i + 1 && facet_named((#[trigger] checks@[k]).facet@) == Some(f)
                                && is_decided(checks@[k]) {
                            let k = choose|k: int|
                                0 <= k < i + 1 && facet_named((#[trigger] checks@[k]).facet@)
                                    == Some(f) && is_decided(checks@[k]);
                            if k < i {
                                assert(before.decided@.contains(f));
                            }
                        }
                    }
                    if t.fails {
                        if fails {
                            assert(is_fail(checks@[i as int]));
                        } else {
                            let k = choose|k: int| 0 <= k < i && is_fail(#[trigger] checks@[k]);
                            assert(0 <= k < i + 1);
                        }
                    }
                    if exists|k: int| 0 <= k < i + 1 && is_fail(#[trigger] checks@[k]) {
                        let k = choose|k: int| 0 <= k < i + 1 && is_fail(#[trigger] checks@[k]);
                        if k < i {
                            assert(before.fails);
                        }
                    }
                }
            },
        }
        i += 1;
    }
    Ok(t)
}

pub(crate) fn every_pair() -> (r: Vec<(VerificationFacet, &'static str)>)
    ensures
        r@ == all_pairs(),
{
    let list = vec![
        (VerificationFacet::Code, "code-correctness"),
        (VerificationFacet::Analysis, "analysis-correctness"),
        (VerificationFacet::Research, "research-validity"),
        (VerificationFacet::Math, "contract-closure"),
        (VerificationFacet::Math, "derivation-integrity"),
        (VerificationFacet::Math, "evidence-provenance"),
        (VerificationFacet::Math, "invariant-ledger"),
        (VerificationFacet::Math, "state-isolation"),
        (VerificationFacet::Empirical, "empirical-validity"),
        (VerificationFacet::Sources, "source-support"),
        (VerificationFacet::Citations, "citation-integrity"),
        (VerificationFacet::DocumentRender, "document-render"),
        (VerificationFacet::StateRegression, "state-isolation"),
    ];
    proof {
        assert(list@ =~= all_pairs());
    }
    list
}

fn facet_label_of(facet: VerificationFacet) -> (r: &'static str)
    ensures
        r == facet_label(facet),
{
    match facet {
        VerificationFacet::Code => "Code",
        VerificationFacet::Analysis => "Analysis",
        VerificationFacet::Research => "Research",
        VerificationFacet::Math => "Math",
        VerificationFacet::Empirical => "Empirical",
        VerificationFacet::Sources => "Sources",
        VerificationFacet::Citations => "Citations",
        VerificationFacet::DocumentRender => "DocumentRender",
        VerificationFacet::StateRegression => "StateRegression",
    }
}

fn pair_list_of(flags: &Vec<bool>) -> (r: String)
    requires
        flags@.len() == 13,
    ensures
        r@ == pair_list(flags@),
{
    let all = every_pair();
    let mut names: Vec<Vec<char>> = Vec::new();
    let mut n: usize = 0;
    proof {
        assert(texts(names@) =~= flagged(flags@, 0));
    }
    while n < 13
        invariant
            n <= 13,
            flags@.len() == 13,
            all@ == all_pairs(),
            texts(names@) == flagged(flags@, n as int),
        decreases 13 - n,
    {
        if flags[n] {
            let shown = cat5("(", facet_label_of(all[n].0), ", \"", all[n].1, "\")");
            let v = chars_of(shown.as_str());
            proof {
                lemma_texts_push(names@, v);
            }
            names.push(v);
        }
        n += 1;
    }
    let inner = string_of(&join_of(&names, ", "));
    cat3("{", inner.as_str(), "}")
}

/// Compares what the receipts cover with what the facets require; says what to
/// report where something is missing.
fn check_coverage(
    checks: &Vec<ValidationCheck>,
    pairs: &Vec<(VerificationFacet, &'static str)>,
    facets: &FacetSet,
) -> (r: Option<String>)
    requires
        pairs_recognized(pairs@, checks@, checks@.len() as int),
    ensures
        r is None <==> coverage_is_complete(checks@, facets@),
        r is Some ==> r->0@ == "structured verdict coverage is incomplete: covered="@ + pair_list(
            covered_flags(checks@),
        ) + ", required="@ + pair_list(required_flags(facets@)),
{
    let all = every_pair();
    let mut covered: Vec<bool> = Vec::new();
    let mut required: Vec<bool> = Vec::new();
    let mut complete = true;
    let mut k: usize = 0;
    while k < 13
        invariant
            k <= 13,
            all@ == all_pairs(),
            pairs_recognized(pairs@, checks@, checks@.len() as int),
            covered@ == covered_flags(checks@).take(k as int),
            required@ == required_flags(facets@).take(k as int),
            complete <==> forall|q: int|
                0 <= q < k && facets@.contains((#[trigger] all_pairs()[q]).0) ==> is_covered(
                    checks@,
                    all_pairs()[q].0,
                    all_pairs()[q].1@,
                ),
        decreases 13 - k,
    {
        let (facet, gate) = all[k];
        let c = pair_repeats(pairs, facet, gate);
        let f = facets.contains(&facet);
        proof {
            if c {
                let q = choose|q: int|
                    0 <= q < pairs@.len() && (#[trigger] pairs@[q]).0 == facet && pairs@[q].1@
                        == gate@;
                assert(receipt_pair(checks@[q]) == Some((pairs@[q].0, pairs@[q].1@)));
            }
            if is_covered(checks@, facet, gate@) {
                let q = choose|q: int|
                    0 <= q < checks@.len() && receipt_pair(#[trigger] checks@[q]) == Some(
                        (facet, gate@),
                    );
                assert(pairs@[q].0 == facet && pairs@[q].1@ == gate@);
            }
            assert(c == is_covered(checks@, facet, gate@));
            assert(covered_flags(checks@).take(k + 1) =~= covered_flags(checks@).take(
                k as int,
            ).push(c));
            assert(required_flags(facets@).take(k + 1) =~= required_flags(facets@).take(
                k as int,
            ).push(f));
            assert(all_pairs()[k as int] == (facet, gate));
        }
        covered.push(c);
        required.push(f);
        if f && !c {
            complete = false;
        }
        k += 1;
    }
    proof {
        assert(covered@ =~= covered_flags(checks@));
        assert(required@ =~= required_flags(facets@));
    }
    if complete {
        return None;
    }
    let seen = pair_list_of(&covered);
    let wanted = pair_list_of(&required);
    Some(
        cat4(
            "structured verdict coverage is incomplete: covered=",
            seen.as_str(),
            ", required=",
            wanted.as_str(),
        ),
    )
}

fn some_facet_undecided(facets: &FacetSet, decided: &FacetSet) -> (r: bool)
    ensures
        r == (exists|f: VerificationFacet|
            #[trigger] facets@.contains(f) && !decided@.contains(f)),
{
    let all = every_pair();
    let mut k: usize = 0;
    while k < 13
        invariant
            k <= 13,
            all@ == all_pairs(),
            forall|q: int|
                0 <= q < k ==> !(facets@.contains((#[trigger] all_pairs()[q]).0)
                    && !decided@.contains(all_pairs()[q].0)),
        decreases 13 - k,
    {
        if facets.contains(&all[k].0) && !decided.contains(&all[k].0) {
            return true;
        }
        k += 1;
    }
    proof {
        assert forall|f: VerificationFacet| facets@.contains(f) && !decided@.contains(
            f,
        ) implies false by {
            lemma_every_facet_has_pair(f);
            let q = choose|q: int| 0 <= q < 13 && (#[trigger] all_pairs()[q]).0 == f;
            assert(all_pairs()[q].0 == f);
        }
    }
    false
}

proof fn lemma_every_facet_has_pair(f: VerificationFacet)
    ensures
        exists|q: int| 0 <= q < 13 && (#[trigger] all_pairs()[q]).0 == f,
{
    let q: int = match f {
        VerificationFacet::Code => 0,
        VerificationFacet::Analysis => 1,
        VerificationFacet::Research => 2,
        VerificationFacet::Math => 3,
        VerificationFacet::Empirical => 8,
        VerificationFacet::Sources => 9,
        VerificationFacet::Citations => 10,
        VerificationFacet::DocumentRender => 11,
        VerificationFacet::StateRegression => 12,
    };
    assert(all_pairs()[q].0 == f);
}

/// Accepts a verdict only where it belongs to this round and this critic, every
/// assigned gate has one receipt in order, and the vote agrees with them.
/// `reads` holds, for each receipt, what reading the artifact that it cites
/// gave.
pub fn validate_structured_verdict(
    verdict: &SkepticVerdict,
    expected: &VerdictIdentity,
    facets: &FacetSet,
    reads: &Vec<ArtifactRead>,
    manifest: &ArtifactManifest,
    trace: &[VerificationToolEvent],
) -> (r: Result<(), String>)
    requires
        reads@.len() == verdict.checks@.len(),
    ensures
        match verdict_fault(
            *verdict,
            *expected,
            facets@,
            reads@,
            manifest@,
            event_views(trace@),
        ) {
            Some(fault) => r is Err && r->Err_0@ == fault,
            None => r is Ok,
        },
{
    if let Err(fault) = check_identity(verdict, expected) {
        return Err(fault);
    }
    let tally = match check_receipts(&verdict.checks, facets, reads, manifest, trace) {
        Err(fault) => {
            return Err(fault);
        },
        Ok(tally) => tally,
    };
    if let Some(fault) = check_coverage(&verdict.checks, &tally.pairs, facets) {
        return Err(fault);
    }
    let undecided = some_facet_undecided(facets, &tally.decided);
    proof {
        let checks = verdict.checks@;
        if undecided {
            let f = choose|f: VerificationFacet|
                #[trigger] facets@.contains(f) && !tally.decided@.contains(f);
            assert(!is_decided_facet(checks, f));
        } else {
            assert forall|f: VerificationFacet| #[trigger] facets@.contains(
                f,
            ) implies is_decided_facet(checks, f) by {
                assert(tally.decided@.contains(f));
            }
        }
        assert(undecided == !every_facet_decided(checks, facets@));
    }
    if undecided {
        return Err("a correctness facet cannot be entirely not-applicable".to_owned());
    }
    if verdict.refuted {
        if !tally.fails || verdict.findings.len() == 0 {
            return Err(
                "refutation requires a failed receipt and a structured finding".to_owned(),
            );
        }
    } else {
        if tally.fails {
            return Err("approval contains a failed receipt".to_owned());
        }
        if verdict.blocking.is_blocking() {
            return Err("approval declares a blocking condition".to_owned());
        }
        if verdict.findings.len() > 0 {
            return Err("approval contains unresolved findings".to_owned());
        }
    }
    Ok(())
}

// ---------------------------------------------------------------------------
// What an accepted verdict stands for

proof fn lemma_receipt_in_order(
    checks: Seq<ValidationCheck>,
    i: int,
    k: int,
    facets: Set<VerificationFacet>,
    reads: Seq<ArtifactRead>,
    m: ManifestView,
    trace: Seq<EventView>,
)
    requires
        0 <= i <= k < checks.len(),
        receipts_fault_from(checks, i, facets, reads, m, trace) is None,
    ensures
        receipt_fault(checks, k, facets, reads, m, trace) is None,
    decreases k - i,
{
    if i < k {
        lemma_receipt_in_order(checks, i + 1, k, facets, reads, m, trace);
    }
}

/// An accepted verdict covers exactly what was assigned: each gate of each
/// assigned facet has one receipt and no receipt is about anything else.
pub proof fn law_accepted_verdict_covers_its_assignment_exactly(
    v: SkepticVerdict,
    expected: VerdictIdentity,
    facets: Set<VerificationFacet>,
    reads: Seq<ArtifactRead>,
    m: ManifestView,
    trace: Seq<EventView>,
)
    requires
        verdict_fault(v, expected, facets, reads, m, trace) is None,
    ensures
        forall|k: int|
            0 <= k < all_pairs().len() && facets.contains((#[trigger] all_pairs()[k]).0)
                ==> is_covered(v.checks@, all_pairs()[k].0, all_pairs()[k].1@),
        forall|i: int|
            0 <= i < v.checks@.len() ==> receipt_pair(#[trigger] v.checks@[i]) is Some
                && facets.contains((receipt_pair(v.checks@[i])->0).0),
        forall|i: int, j: int|
            0 <= i < j < v.checks@.len() ==> receipt_pair(#[trigger] v.checks@[i]) != receipt_pair(
                #[trigger] v.checks@[j],
            ),
{
    let checks = v.checks@;
    assert forall|i: int| 0 <= i < checks.len() implies receipt_pair(#[trigger] checks[i]) is Some
        && facets.contains((receipt_pair(checks[i])->0).0) by {
        lemma_receipt_in_order(checks, 0, i, facets, reads, m, trace);
    }
    assert forall|i: int, j: int| 0 <= i < j < checks.len() implies receipt_pair(
        #[trigger] checks[i],
    ) != receipt_pair(#[trigger] checks[j]) by {
        lemma_receipt_in_order(checks, 0, j, facets, reads, m, trace);
        if receipt_pair(checks[i]) == receipt_pair(checks[j]) {
            assert(repeats_receipt(checks, j));
        }
    }
}

/// An accepted approval is backed: no receipt fails, nothing blocks, no finding
/// is open, and every assigned facet has a receipt that passes on the reviewed
/// revision of an artifact which holds what the receipt is about.
pub proof fn law_accepted_approval_is_backed_by_artifacts(
    v: SkepticVerdict,
    expected: VerdictIdentity,
    facets: Set<VerificationFacet>,
    reads: Seq<ArtifactRead>,
    m: ManifestView,
    trace: Seq<EventView>,
)
    requires
        verdict_fault(v, expected, facets, reads, m, trace) is None,
        !v.refuted,
    ensures
        !some_receipt_fails(v.checks@),
        v.blocking == SkepticBlocking::NonBlocking,
        v.findings@.len() == 0,
        forall|f: VerificationFacet| #[trigger]
            facets.contains(f) ==> exists|i: int|
                0 <= i < v.checks@.len() && facet_named((#[trigger] v.checks@[i]).facet@) == Some(f)
                    && is_pass(v.checks@[i]) && citation_fault(
                    m,
                    v.checks@[i].artifact_path@,
                    v.checks@[i].artifact_sha256@,
                ) is None && reads[i].outcome is Ok && holds_bytes(
                    reads[i].outcome->Ok_0@,
                    encode_utf8(v.checks@[i].target@),
                ),
{
    let checks = v.checks@;
    assert forall|f: VerificationFacet| #[trigger] facets.contains(f) implies exists|i: int|
        0 <= i < v.checks@.len() && facet_named((#[trigger] v.checks@[i]).facet@) == Some(f)
            && is_pass(v.checks@[i]) && citation_fault(
            m,
            v.checks@[i].artifact_path@,
            v.checks@[i].artifact_sha256@,
        ) is None && reads[i].outcome is Ok && holds_bytes(
            reads[i].outcome->Ok_0@,
            encode_utf8(v.checks@[i].target@),
        ) by {
        assert(is_decided_facet(checks, f));
        let i = choose|i: int|
            0 <= i < checks.len() && facet_named((#[trigger] checks[i]).facet@) == Some(f)
                && is_decided(checks[i]);
        lemma_receipt_in_order(checks, 0, i, facets, reads, m, trace);
        assert(!is_fail(checks[i]));
        assert(is_pass(checks[i]));
    }
}

/// An accepted refutation names what fails: a receipt and a finding.
pub proof fn law_accepted_refutation_names_a_defect(
    v: SkepticVerdict,
    expected: VerdictIdentity,
    facets: Set<VerificationFacet>,
    reads: Seq<ArtifactRead>,
    m: ManifestView,
    trace: Seq<EventView>,
)
    requires
        verdict_fault(v, expected, facets, reads, m, trace) is None,
        v.refuted,
    ensures
        some_receipt_fails(v.checks@),
        v.findings@.len() > 0,
{
}

proof fn lemma_status_word(c: ValidationCheck)
    ensures
        is_pass(c) <==> lower(trim(c.status@)) == "pass"@,
        is_fail(c) <==> lower(trim(c.status@)) == "fail"@,
        is_pass(c) || is_fail(c) ==> !is_not_applicable(c),
{
    reveal_strlit("pass");
    reveal_strlit("fail");
    reveal_strlit("not_applicable");
    reveal_strlit("n/a");
    let word = lower(trim(c.status@));
    let status = receipt_status(c);
    assert forall|k: int| 0 <= k < word.len() implies #[trigger] status[k] == word[k] || status[k]
        == '_' by {}
    assert("pass"@.len() == 4 && "fail"@.len() == 4);
    if status == "pass"@ || status == "fail"@ {
        assert(word.len() == 4);
        assert(status[0] != '_' && status[1] != '_' && status[2] != '_' && status[3] != '_');
        assert(word[0] == status[0] && word[1] == status[1]);
        assert(word[2] == status[2] && word[3] == status[3]);
        assert(word =~= status);
    }
    if word == "pass"@ {
        assert(word.len() == 4);
        assert(word[0] == 'p' && word[1] == 'a' && word[2] == 's' && word[3] == 's');
        assert(status =~= word);
    }
    if word == "fail"@ {
        assert(word.len() == 4);
        assert(word[0] == 'f' && word[1] == 'a' && word[2] == 'i' && word[3] == 'l');
        assert(status =~= word);
    }
    assert("not_applicable"@.len() == 14 && "n/a"@.len() == 3);
    assert("pass"@.len() == 4 && "fail"@.len() == 4);
}

proof fn lemma_recorded_digest(m: ManifestView, path: Seq<char>, sha256: Seq<char>)
    requires
        citation_fault(m, path, sha256) is None,
    ensures
        canonical_digest(sha256) is Some,
        exists|k: int|
            0 <= k < m.entries.len() && (#[trigger] m.entries[k]).path == path && m.entries[k].kind
                == ArtifactKind::File && m.entries[k].sha256 is Some && lower(
                m.entries[k].sha256->0,
            ) == lower(canonical_digest(sha256)->0),
{
    lemma_lookup_from(m.entries, path, 0);
    let entry = lookup(m.entries, path)->0;
    let k = choose|k: int| 0 <= k < m.entries.len() && m.entries[k] == entry;
    assert(m.entries[k].path == path);
    let cited = canonical_digest(sha256)->0;
    law_normalizing_twice_is_normalizing_once(sha256);
    if entry.sha256 is None {
        reveal_strlit("sha256:");
        assert(lower(recorded_digest(entry)).len() == recorded_digest(entry).len());
        assert(lower(cited).len() == cited.len());
        assert(false);
    }
}

/// Every receipt of an accepted verdict that passes its gate, and just so every
/// one that fails it, is bound to what was reviewed: it cites a regular file of
/// the manifest by the digest that is recorded there, the file was read and holds
/// the bytes of its target, the tool event that it cites, if it cites one, is a
/// successful one of the trace on an input that names file and target, and a
/// numerical method comes with a tolerance. Only a passing receipt on the
/// provenance of evidence may cite an event that the trace does not have.
pub proof fn law_decided_receipts_are_bound_to_what_was_reviewed(
    v: SkepticVerdict,
    expected: VerdictIdentity,
    facets: Set<VerificationFacet>,
    reads: Seq<ArtifactRead>,
    m: ManifestView,
    trace: Seq<EventView>,
    i: int,
)
    requires
        verdict_fault(v, expected, facets, reads, m, trace) is None,
        0 <= i < v.checks@.len(),
        lower(trim(v.checks@[i].status@)) == "pass"@ || lower(trim(v.checks@[i].status@)) == "fail"@,
    ensures
        canonical_digest(v.checks@[i].artifact_sha256@) is Some,
        exists|k: int|
            0 <= k < m.entries.len() && (#[trigger] m.entries[k]).path
                == v.checks@[i].artifact_path@ && m.entries[k].kind == ArtifactKind::File
                && m.entries[k].sha256 is Some && lower(m.entries[k].sha256->0) == lower(
                canonical_digest(v.checks@[i].artifact_sha256@)->0,
            ),
        reads[i].outcome is Ok,
        exists|p: int|
            0 <= p && p + encode_utf8(v.checks@[i].target@).len()
                <= reads[i].outcome->Ok_0@.len() && #[trigger] reads[i].outcome->Ok_0@.subrange(
                p,
                p + encode_utf8(v.checks@[i].target@).len(),
            ) == encode_utf8(v.checks@[i].target@),
        v.checks@[i].tool_event_id is Some <==> v.checks@[i].exact_input_digest is Some,
        v.checks@[i].tool_event_id is Some <==> v.checks@[i].observed_output_digest is Some,
        v.checks@[i].tool_event_id is Some && !(lower(trim(v.checks@[i].status@)) == "pass"@
            && receipt_pair(v.checks@[i]) == Some(
            (VerificationFacet::Math, "evidence-provenance"@),
        )) ==> exists|k: int|
            0 <= k < trace.len() && (#[trigger] trace[k]).success && trace[k].tool_event_id
                == v.checks@[i].tool_event_id->0@ && trace[k].exact_input_digest
                == v.checks@[i].exact_input_digest->0@ && trace[k].observed_output_digest
                == v.checks@[i].observed_output_digest->0@ && contains(
                trace[k].exact_input,
                v.checks@[i].artifact_path@,
            ) && contains(trace[k].exact_input, v.checks@[i].target@),
        contains(lower(v.checks@[i].method@), "numerical"@) || contains(
            lower(v.checks@[i].method@),
            "approx"@,
        ) ==> v.checks@[i].tolerance is Some && trim(v.checks@[i].tolerance->0@).len() > 0,
{
    let checks = v.checks@;
    let c = checks[i];
    lemma_receipt_in_order(checks, 0, i, facets, reads, m, trace);
    lemma_status_word(c);
    let facet = facet_named(c.facet@)->0;
    let gate = gate_named(facet, c.gate@)->0;
    let label = facet.name()@ + "/"@ + gate@;
    assert(decision_fault(c, facet, gate@, label, reads[i], m, trace) is None);
    lemma_recorded_digest(m, c.artifact_path@, c.artifact_sha256@);
    if c.tool_event_id is Some && !binding_is_advisory(c, facet, gate@) {
        let k = choose|k: int|
            0 <= k < trace.len() && event_supports(
                #[trigger] trace[k],
                c.tool_event_id->0@,
                c.exact_input_digest->0@,
                c.observed_output_digest->0@,
                c.artifact_path@,
                c.target@,
            );
        assert(trace[k].success);
    }
}

/// Every receipt of an accepted verdict says what it is about, how it was checked
/// and what was seen, and has one of the known statuses. One that is set aside
/// cites nothing and says why in at least twelve bytes.
pub proof fn law_receipts_of_an_accepted_verdict_are_complete(
    v: SkepticVerdict,
    expected: VerdictIdentity,
    facets: Set<VerificationFacet>,
    reads: Seq<ArtifactRead>,
    m: ManifestView,
    trace: Seq<EventView>,
    i: int,
)
    requires
        verdict_fault(v, expected, facets, reads, m, trace) is None,
        0 <= i < v.checks@.len(),
    ensures
        trim(v.checks@[i].target@).len() > 0,
        trim(v.checks@[i].evidence@).len() > 0,
        trim(v.checks@[i].method@).len() > 0,
        lower(trim(v.checks@[i].status@)) != "pass"@ && lower(trim(v.checks@[i].status@))
            != "fail"@ ==> {
            let c = v.checks@[i];
            &&& replace_chars(lower(trim(c.status@)), CharClass::Two(' ', '-'), '_')
                == "not_applicable"@ || replace_chars(
                lower(trim(c.status@)),
                CharClass::Two(' ', '-'),
                '_',
            ) == "n/a"@
            &&& trim(c.artifact_path@).len() == 0
            &&& trim(c.artifact_sha256@).len() == 0
            &&& c.tool_event_id is None
            &&& c.exact_input_digest is None
            &&& c.observed_output_digest is None
            &&& c.applicability_basis is Some
            &&& byte_len(trim(c.applicability_basis->0@)) >= 12
        },
{
    lemma_receipt_in_order(v.checks@, 0, i, facets, reads, m, trace);
    lemma_status_word(v.checks@[i]);
}

/// An accepted verdict is one of this goal, this round, this contract, this
/// manifest, this critic and this assignment, in the first schema.
pub proof fn law_accepted_verdict_has_the_expected_identity(
    v: SkepticVerdict,
    expected: VerdictIdentity,
    facets: Set<VerificationFacet>,
    reads: Seq<ArtifactRead>,
    m: ManifestView,
    trace: Seq<EventView>,
)
    requires
        verdict_fault(v, expected, facets, reads, m, trace) is None,
    ensures
        v.goal_id@ == expected.goal_id@,
        v.verification_round_id@ == expected.verification_round_id@,
        v.contract_digest@ == expected.contract_digest@,
        v.reviewed_artifact_manifest_digest@ == expected.reviewed_artifact_manifest_digest@,
        v.critic_id@ == expected.critic_id@,
        v.critic_assignment_id@ == expected.critic_assignment_id@,
        v.verdict_schema_version == 1,
{
}

/// The vote of an accepted verdict agrees with its receipts: an approval has no
/// failed receipt, no finding and no blocking condition, and a refutation has a
/// failed receipt and a finding. No assigned facet is set aside as a whole.
pub proof fn law_accepted_vote_agrees_with_its_receipts(
    v: SkepticVerdict,
    expected: VerdictIdentity,
    facets: Set<VerificationFacet>,
    reads: Seq<ArtifactRead>,
    m: ManifestView,
    trace: Seq<EventView>,
)
    requires
        verdict_fault(v, expected, facets, reads, m, trace) is None,
    ensures
        !v.refuted ==> v.findings@.len() == 0 && v.blocking == SkepticBlocking::NonBlocking,
        !v.refuted ==> forall|i: int|
            0 <= i < v.checks@.len() ==> lower(trim((#[trigger] v.checks@[i]).status@)) != "fail"@,
        v.refuted ==> v.findings@.len() > 0,
        v.refuted ==> exists|i: int|
            0 <= i < v.checks@.len() && lower(trim((#[trigger] v.checks@[i]).status@)) == "fail"@,
        forall|f: VerificationFacet| #[trigger]
            facets.contains(f) ==> exists|i: int|
                0 <= i < v.checks@.len() && facet_named((#[trigger] v.checks@[i]).facet@) == Some(f)
                    && (lower(trim(v.checks@[i].status@)) == "pass"@ || lower(
                    trim(v.checks@[i].status@),
                ) == "fail"@),
{
    assert forall|i: int| 0 <= i < v.checks@.len() implies is_fail(#[trigger] v.checks@[i])
        == (lower(trim(v.checks@[i].status@)) == "fail"@) by {
        lemma_status_word(v.checks@[i]);
    }
    assert forall|f: VerificationFacet| #[trigger] facets.contains(f) implies exists|i: int|
        0 <= i < v.checks@.len() && facet_named((#[trigger] v.checks@[i]).facet@) == Some(f) && (
        lower(trim(v.checks@[i].status@)) == "pass"@ || lower(trim(v.checks@[i].status@))
            == "fail"@) by {
        assert(is_decided_facet(v.checks@, f));
        let i = choose|i: int|
            0 <= i < v.checks@.len() && facet_named((#[trigger] v.checks@[i]).facet@) == Some(f)
                && is_decided(v.checks@[i]);
        lemma_status_word(v.checks@[i]);
        assert(facet_named(v.checks@[i].facet@) == Some(f));
    }
    if v.refuted {
        let i = choose|i: int| 0 <= i < v.checks@.len() && is_fail(#[trigger] v.checks@[i]);
        assert(lower(trim(v.checks@[i].status@)) == "fail"@);
    }
}

proof fn lemma_no_receipt_at_fault(
    checks: Seq<ValidationCheck>,
    i: int,
    facets: Set<VerificationFacet>,
    reads: Seq<ArtifactRead>,
    m: ManifestView,
    trace: Seq<EventView>,
)
    requires
        0 <= i,
        forall|k: int|
            0 <= k < checks.len() ==> receipt_fault(checks, k, facets, reads, m, trace) is None,
    ensures
        receipts_fault_from(checks, i, facets, reads, m, trace) is None,
    decreases checks.len() - i,
{
    if i < checks.len() {
        assert(receipt_fault(checks, i, facets, reads, m, trace) is None);
        lemma_no_receipt_at_fault(checks, i + 1, facets, reads, m, trace);
    }
}

/// A verdict that is in order is accepted: it has the expected identity, each gate
/// of each assigned facet has exactly one receipt and there is no other, every
/// receipt is complete and decides its gate on the reviewed revision of a file
/// that holds its target, without a tool event or with one that the trace supports,
/// and by a method that needs no tolerance or has one, and the vote agrees with the
/// receipts.
#[verifier::rlimit(60)]
pub proof fn law_verdict_in_order_is_accepted(
    v: SkepticVerdict,
    expected: VerdictIdentity,
    facets: Set<VerificationFacet>,
    reads: Seq<ArtifactRead>,
    m: ManifestView,
    trace: Seq<EventView>,
)
    requires
        v.goal_id@ == expected.goal_id@,
        v.verification_round_id@ == expected.verification_round_id@,
        v.contract_digest@ == expected.contract_digest@,
        v.reviewed_artifact_manifest_digest@ == expected.reviewed_artifact_manifest_digest@,
        v.critic_id@ == expected.critic_id@,
        v.critic_assignment_id@ == expected.critic_assignment_id@,
        v.verdict_schema_version == 1,
        forall|f: VerificationFacet, gate: &'static str|
            facets.contains(f) && #[trigger] facet_gates(f).contains(gate) ==> is_covered(
                v.checks@,
                f,
                gate@,
            ),
        forall|i: int|
            0 <= i < v.checks@.len() ==> {
                let c = #[trigger] v.checks@[i];
                &&& receipt_pair(c) is Some
                &&& facets.contains((receipt_pair(c)->0).0)
                &&& trim(c.target@).len() > 0
                &&& trim(c.evidence@).len() > 0
                &&& trim(c.method@).len() > 0
                &&& lower(trim(c.status@)) == "pass"@ || lower(trim(c.status@)) == "fail"@
                &&& citation_fault(m, c.artifact_path@, c.artifact_sha256@) is None
                &&& reads[i].outcome is Ok
                &&& exists|p: int|
                    0 <= p && p + encode_utf8(c.target@).len() <= reads[i].outcome->Ok_0@.len()
                        && #[trigger] reads[i].outcome->Ok_0@.subrange(
                        p,
                        p + encode_utf8(c.target@).len(),
                    ) == encode_utf8(c.target@)
                &&& (c.tool_event_id is None && c.exact_input_digest is None
                    && c.observed_output_digest is None) || (c.tool_event_id is Some
                    && c.exact_input_digest is Some && c.observed_output_digest is Some
                    && trace_supports(
                    trace,
                    c.tool_event_id->0@,
                    c.exact_input_digest->0@,
                    c.observed_output_digest->0@,
                    c.artifact_path@,
                    c.target@,
                ))
                &&& (!contains(lower(c.method@), "numerical"@) && !contains(
                    lower(c.method@),
                    "approx"@,
                )) || (c.tolerance is Some && trim(c.tolerance->0@).len() > 0)
            },
        forall|i: int, j: int|
            0 <= i < j < v.checks@.len() ==> receipt_pair(#[trigger] v.checks@[i]) != receipt_pair(
                #[trigger] v.checks@[j],
            ),
        v.refuted ==> v.findings@.len() > 0 && exists|i: int|
            0 <= i < v.checks@.len() && lower(trim((#[trigger] v.checks@[i]).status@)) == "fail"@,
        !v.refuted ==> v.findings@.len() == 0 && v.blocking == SkepticBlocking::NonBlocking
            && forall|i: int|
            0 <= i < v.checks@.len() ==> lower(trim((#[trigger] v.checks@[i]).status@)) == "pass"@,
    ensures
        verdict_fault(v, expected, facets, reads, m, trace) is None,
{
    let checks = v.checks@;
    assert("pass"@ != "fail"@) by {
        reveal_strlit("pass");
        reveal_strlit("fail");
        assert("pass"@[0] == 'p' && "fail"@[0] == 'f');
    }
    assert forall|i: int| 0 <= i < checks.len() implies is_fail(#[trigger] checks[i]) == (lower(
        trim(checks[i].status@),
    ) == "fail"@) && is_decided(checks[i]) by {
        lemma_status_word(checks[i]);
    }
    assert(receipts_fault_from(checks, 0, facets, reads, m, trace) is None) by {
        assert forall|k: int| 0 <= k < checks.len() implies receipt_fault(
            checks,
            k,
            facets,
            reads,
            m,
            trace,
        ) is None by {
            let c = checks[k];
            assert(holds_bytes(reads[k].outcome->Ok_0@, encode_utf8(c.target@)));
            assert forall|j: int| 0 <= j < k implies receipt_pair(#[trigger] checks[j])
                != receipt_pair(checks[k]) by {}
            lemma_receipt_is_in_order(checks, k, facets, reads, m, trace);
        }
        lemma_no_receipt_at_fault(checks, 0, facets, reads, m, trace);
    }
    assert(coverage_is_complete(checks, facets)) by {
        assert forall|k: int|
            0 <= k < all_pairs().len() && facets.contains(
                (#[trigger] all_pairs()[k]).0,
            ) implies is_covered(checks, all_pairs()[k].0, all_pairs()[k].1@) by {
            lemma_pairs_are_gates(k);
            assert(facet_gates(all_pairs()[k].0).contains(all_pairs()[k].1));
        }
    }
    assert(every_facet_decided(checks, facets)) by {
        assert forall|f: VerificationFacet| #[trigger] facets.contains(f) implies is_decided_facet(
            checks,
            f,
        ) by {
            let g = facet_gates(f)[0];
            assert(facet_gates(f).contains(g));
            assert(is_covered(checks, f, g@));
            let i = choose|i: int|
                0 <= i < checks.len() && receipt_pair(#[trigger] checks[i]) == Some((f, g@));
            assert(facet_named(checks[i].facet@) == Some(f) && is_decided(checks[i]));
        }
    }
    if v.refuted {
        let i = choose|i: int|
            0 <= i < checks.len() && lower(trim((#[trigger] checks[i]).status@)) == "fail"@;
        assert(is_fail(checks[i]));
    } else {
        assert forall|i: int| 0 <= i < checks.len() implies !is_fail(#[trigger] checks[i]) by {
            assert(lower(trim(checks[i].status@)) == "pass"@);
        }
    }
    assert(vote_fault(v) is None);
    assert(identity_fault(v, expected) is None);
}

proof fn lemma_receipt_is_in_order(
    checks: Seq<ValidationCheck>,
    k: int,
    facets: Set<VerificationFacet>,
    reads: Seq<ArtifactRead>,
    m: ManifestView,
    trace: Seq<EventView>,
)
    requires
        0 <= k < checks.len(),
        receipt_pair(checks[k]) is Some,
        facets.contains((receipt_pair(checks[k])->0).0),
        forall|j: int|
            0 <= j < k ==> receipt_pair(#[trigger] checks[j]) != receipt_pair(checks[k]),
        trim(checks[k].target@).len() > 0,
        trim(checks[k].evidence@).len() > 0,
        trim(checks[k].method@).len() > 0,
        lower(trim(checks[k].status@)) == "pass"@ || lower(trim(checks[k].status@)) == "fail"@,
        citation_fault(m, checks[k].artifact_path@, checks[k].artifact_sha256@) is None,
        reads[k].outcome is Ok,
        holds_bytes(reads[k].outcome->Ok_0@, encode_utf8(checks[k].target@)),
        (checks[k].tool_event_id is None && checks[k].exact_input_digest is None
            && checks[k].observed_output_digest is None) || (checks[k].tool_event_id is Some
            && checks[k].exact_input_digest is Some && checks[k].observed_output_digest is Some
            && trace_supports(
            trace,
            checks[k].tool_event_id->0@,
            checks[k].exact_input_digest->0@,
            checks[k].observed_output_digest->0@,
            checks[k].artifact_path@,
            checks[k].target@,
        )),
        (!contains(lower(checks[k].method@), "numerical"@) && !contains(
            lower(checks[k].method@),
            "approx"@,
        )) || (checks[k].tolerance is Some && trim(checks[k].tolerance->0@).len() > 0),
    ensures
        receipt_fault(checks, k, facets, reads, m, trace) is None,
{
    lemma_status_word(checks[k]);
    assert(!repeats_receipt(checks, k));
}

proof fn lemma_pairs_are_gates(k: int)
    requires
        0 <= k < 13,
    ensures
        exists|g: int|
            0 <= g < facet_gates(all_pairs()[k].0).len() && #[trigger] facet_gates(
                all_pairs()[k].0,
            )[g] == all_pairs()[k].1,
{
    let f = all_pairs()[k].0;
    let g: int = if 3 <= k < 8 {
        k - 3
    } else {
        0
    };
    assert(facet_gates(f)[g] == all_pairs()[k].1);
}

/// The gates that are to be covered are those of the facets: each gate of each
/// facet, and nothing besides.
pub proof fn law_pairs_are_the_gates_of_the_facets(facet: VerificationFacet, gate: &'static str)
    ensures
        facet_gates(facet).contains(gate) <==> exists|k: int|
            0 <= k < all_pairs().len() && #[trigger] all_pairs()[k] == (facet, gate),
{
    if facet_gates(facet).contains(gate) {
        let g = choose|g: int| 0 <= g < facet_gates(facet).len() && facet_gates(facet)[g] == gate;
        let k: int = match facet {
            VerificationFacet::Code => 0,
            VerificationFacet::Analysis => 1,
            VerificationFacet::Research => 2,
            VerificationFacet::Math => 3 + g,
            VerificationFacet::Empirical => 8,
            VerificationFacet::Sources => 9,
            VerificationFacet::Citations => 10,
            VerificationFacet::DocumentRender => 11,
            VerificationFacet::StateRegression => 12,
        };
        assert(all_pairs()[k] == (facet, gate));
    }
    if exists|k: int| 0 <= k < all_pairs().len() && #[trigger] all_pairs()[k] == (facet, gate) {
        let k = choose|k: int|
            0 <= k < all_pairs().len() && #[trigger] all_pairs()[k] == (facet, gate);
        lemma_pairs_are_gates(k);
    }
}

/// A receipt may be set aside: one that cites nothing and says why in at least
/// twelve bytes is in order, as long as it is complete, assigned and the only one of
/// its gate. So may a passing receipt on the provenance of evidence cite a tool
/// event that the trace does not have.
pub proof fn law_receipt_may_be_set_aside(
    checks: Seq<ValidationCheck>,
    k: int,
    facets: Set<VerificationFacet>,
    reads: Seq<ArtifactRead>,
    m: ManifestView,
    trace: Seq<EventView>,
)
    requires
        0 <= k < checks.len(),
        receipt_pair(checks[k]) is Some,
        facets.contains((receipt_pair(checks[k])->0).0),
        forall|j: int|
            0 <= j < k ==> receipt_pair(#[trigger] checks[j]) != receipt_pair(checks[k]),
        trim(checks[k].target@).len() > 0,
        trim(checks[k].evidence@).len() > 0,
        trim(checks[k].method@).len() > 0,
    ensures
        (replace_chars(lower(trim(checks[k].status@)), CharClass::Two(' ', '-'), '_')
            == "not_applicable"@ || replace_chars(
            lower(trim(checks[k].status@)),
            CharClass::Two(' ', '-'),
            '_',
        ) == "n/a"@) && trim(checks[k].artifact_path@).len() == 0 && trim(
            checks[k].artifact_sha256@,
        ).len() == 0 && checks[k].tool_event_id is None && checks[k].exact_input_digest is None
            && checks[k].observed_output_digest is None && checks[k].applicability_basis is Some
            && byte_len(trim(checks[k].applicability_basis->0@)) >= 12 ==> receipt_fault(
            checks,
            k,
            facets,
            reads,
            m,
            trace,
        ) is None,
        lower(trim(checks[k].status@)) == "pass"@ && receipt_pair(checks[k]) == Some(
            (VerificationFacet::Math, "evidence-provenance"@),
        ) && citation_fault(m, checks[k].artifact_path@, checks[k].artifact_sha256@) is None
            && reads[k].outcome is Ok && holds_bytes(
            reads[k].outcome->Ok_0@,
            encode_utf8(checks[k].target@),
        ) && checks[k].tool_event_id is Some && checks[k].exact_input_digest is Some
            && checks[k].observed_output_digest is Some && !contains(
            lower(checks[k].method@),
            "numerical"@,
        ) && !contains(lower(checks[k].method@), "approx"@) ==> receipt_fault(
            checks,
            k,
            facets,
            reads,
            m,
            trace,
        ) is None,
{
    lemma_status_word(checks[k]);
    assert(!repeats_receipt(checks, k));
}

} // verus!
