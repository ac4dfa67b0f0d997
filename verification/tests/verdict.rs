use ds_verify::digest::digest_bytes;
use ds_verify::facets::{gates_for_facet, FacetSet, VerificationFacet};
use ds_verify::receipts::{validate_structured_verdict, ArtifactRead};
use ds_verify::runtime::VerificationToolEvent;
use ds_verify::skeptic::{conclude_skeptic, judge_verdict, verdict_report, StoreSpot, VerdictFile};
use ds_verify::manifest::{ArtifactManifest, Found, ManifestBuilder, Next};
use ds_verify::verdict::{
    accept_verdict, check_stored_verdict, parse_skeptic_terminal_response, same_verdict, Finding,
    SkepticBlocking, SkepticConfidence, SkepticVerdict, SkepticVerdictRaw, ValidationCheck,
    VerdictIdentity,
};

#[test]
fn parse_skeptic_terminal_accepts_refuted() {
    assert_eq!(parse_skeptic_terminal_response("Refuted"), Some(true));
}

#[test]
fn parse_skeptic_terminal_accepts_not_refuted() {
    assert_eq!(parse_skeptic_terminal_response("Not Refuted"), Some(false));
}

#[test]
fn parse_skeptic_terminal_trims_whitespace() {
    assert_eq!(parse_skeptic_terminal_response("  Refuted \n"), Some(true));
    assert_eq!(
        parse_skeptic_terminal_response("\n\nRefuted\t\n"),
        Some(true),
        "leading newlines + trailing tab+newline must still trim",
    );
    assert_eq!(
        parse_skeptic_terminal_response("\t Not Refuted\t\t"),
        Some(false)
    );
}

#[test]
fn parse_skeptic_terminal_rejects_lowercase() {
    assert_eq!(parse_skeptic_terminal_response("refuted"), None);
    assert_eq!(parse_skeptic_terminal_response("not refuted"), None);
}

#[test]
fn parse_skeptic_terminal_rejects_json_and_prose() {
    assert_eq!(parse_skeptic_terminal_response("{\"refuted\":true}"), None);
    assert_eq!(
        parse_skeptic_terminal_response("The work is Refuted"),
        None,
        "token embedded in prose must not parse",
    );
    assert_eq!(
        parse_skeptic_terminal_response("Refuted\n\nSee details above."),
        None,
        "extra prose lines must not parse",
    );
}

#[test]
fn parse_skeptic_terminal_tolerates_fences_and_punctuation() {
    assert_eq!(
        parse_skeptic_terminal_response("```\nRefuted\n```"),
        Some(true),
    );
    assert_eq!(
        parse_skeptic_terminal_response("```\nNot Refuted\n```"),
        Some(false),
    );
    assert_eq!(
        parse_skeptic_terminal_response("```text\nRefuted\n```"),
        Some(true),
        "language-tagged fence must not break the parse",
    );
    assert_eq!(parse_skeptic_terminal_response("`Refuted`"), Some(true));
    assert_eq!(parse_skeptic_terminal_response("Refuted."), Some(true));
    assert_eq!(parse_skeptic_terminal_response("Not Refuted!"), Some(false),);
}

fn structured_verdict_value(refuted: bool) -> SkepticVerdictRaw {
    SkepticVerdictRaw {
        verdict_schema_version: 1,
        goal_id: "goal-1".into(),
        verification_round_id: "round-1".into(),
        contract_digest: "sha256:contract".into(),
        reviewed_artifact_manifest_digest: "sha256:manifest".into(),
        critic_id: "critic-1".into(),
        critic_assignment_id: "assignment-1".into(),
        refuted,
        evidence: "artifact-bound verification completed".into(),
        confidence: "high".into(),
        blocking: None,
        details_md: None,
        findings: None,
        checks: Vec::new(),
    }
}

fn finding(kind: &str, location: &str, detail: &str) -> Finding {
    Finding {
        kind: kind.into(),
        location: location.into(),
        detail: detail.into(),
    }
}

#[test]
fn parse_verdict_json_happy_path() {
    let mut value = structured_verdict_value(true);
    value.details_md = Some("# Skeptic\n\nbody".into());
    let v = accept_verdict(value).expect("parses");
    assert!(v.refuted);
    assert_eq!(v.evidence, "artifact-bound verification completed");
    assert_eq!(v.confidence, SkepticConfidence::High);
    assert_eq!(v.details_md, "# Skeptic\n\nbody");
    assert!(v.findings.is_empty());
}

#[test]
fn parse_verdict_json_parses_findings_and_drops_empty() {
    let mut value = structured_verdict_value(true);
    value.findings = Some(vec![
        finding("bug", "src/foo.rs:42", "off-by-one"),
        finding("", "", ""),
        finding("gap", "", "criterion 3 undriven"),
    ]);
    let v = accept_verdict(value).expect("parses");
    assert_eq!(v.findings.len(), 2, "the all-empty finding is dropped");
    assert_eq!(v.findings[0].kind, "bug");
    assert_eq!(v.findings[0].location, "src/foo.rs:42");
    assert_eq!(v.findings[1].kind, "gap");
}

#[test]
fn parse_verdict_json_omits_details_md_optional_field() {
    let v = accept_verdict(structured_verdict_value(false)).expect("parses");
    assert!(!v.refuted);
    assert_eq!(v.confidence, SkepticConfidence::High);
    assert_eq!(v.details_md, "");
}

#[test]
fn parse_verdict_json_blocking_defaults_to_none_when_absent() {
    let v = accept_verdict(structured_verdict_value(true)).expect("parses");
    assert_eq!(v.blocking, SkepticBlocking::NonBlocking);
}

#[test]
fn parse_verdict_json_accepts_only_known_blocking_classes() {
    for (raw, want) in [
        ("contradiction", SkepticBlocking::Contradiction),
        ("unverifiable", SkepticBlocking::Unverifiable),
        ("none", SkepticBlocking::NonBlocking),
    ] {
        let mut value = structured_verdict_value(true);
        value.blocking = Some(raw.into());
        let v = accept_verdict(value).expect("parses");
        assert_eq!(v.blocking, want, "blocking={raw}");
    }
    for raw in ["Unverifiable", "bogus"] {
        let mut value = structured_verdict_value(true);
        value.blocking = Some(raw.into());
        assert!(accept_verdict(value).is_none());
    }
}

#[test]
fn parse_verdict_json_rejects_empty_evidence() {
    for evidence in ["", "   \n  "] {
        let mut value = structured_verdict_value(false);
        value.evidence = evidence.into();
        assert!(accept_verdict(value).is_none());
    }
}

#[test]
fn parse_verdict_json_rejects_wrong_or_missing_identity() {
    for field in 0..6 {
        let mut value = structured_verdict_value(false);
        match field {
            0 => value.goal_id.clear(),
            1 => value.verification_round_id.clear(),
            2 => value.contract_digest.clear(),
            3 => value.reviewed_artifact_manifest_digest.clear(),
            4 => value.critic_id.clear(),
            _ => value.critic_assignment_id.clear(),
        }
        assert!(accept_verdict(value).is_none(), "empty field {field} must reject");
    }
    let mut value = structured_verdict_value(false);
    value.verdict_schema_version = 2;
    assert!(accept_verdict(value).is_none());
}

#[test]
fn skeptic_confidence_parse_normalises_unknowns() {
    assert_eq!(SkepticConfidence::parse("HIGH"), SkepticConfidence::High);
    assert_eq!(
        SkepticConfidence::parse("medium"),
        SkepticConfidence::Medium
    );
    assert_eq!(SkepticConfidence::parse("low"), SkepticConfidence::Low);
    assert_eq!(
        SkepticConfidence::parse("bogus"),
        SkepticConfidence::Unknown
    );
    assert_eq!(SkepticConfidence::parse(""), SkepticConfidence::Unknown);
}

#[test]
fn unknown_confidence_is_no_verdict() {
    let mut value = structured_verdict_value(false);
    value.confidence = "certain".into();
    assert!(accept_verdict(value).is_none());
}

#[test]
fn blocking_classes_and_ranks() {
    assert_eq!(
        SkepticBlocking::parse(" Contradiction "),
        SkepticBlocking::Contradiction
    );
    assert_eq!(SkepticBlocking::parse("x"), SkepticBlocking::NonBlocking);
    assert!(SkepticBlocking::Unverifiable.is_blocking());
    assert!(!SkepticBlocking::default().is_blocking());
    assert_eq!(SkepticConfidence::High.rank(), 0);
    assert_eq!(SkepticConfidence::Unknown.rank(), 3);
    assert_eq!(SkepticConfidence::Low.as_const_str(), "low");
}

const ANSWER: &str = "claim: x + y = z\n";

struct Fixture {
    manifest: ArtifactManifest,
    identity: VerdictIdentity,
    facets: FacetSet,
    verdict: SkepticVerdict,
}

fn answer_digest() -> String {
    digest_bytes(ANSWER.as_bytes())
}

fn receipt_fixture(requested_facets: &[VerificationFacet]) -> Fixture {
    let mut builder = ManifestBuilder::of_listing("answer.txt\0").unwrap();
    let found = Found::File {
        len: ANSWER.len() as u64,
    };
    assert!(matches!(builder.inspect(&found), Ok(Next::Read)));
    builder.record_file(&ANSWER.as_bytes().to_vec(), false);
    let manifest = builder.finish();
    let mut facets = FacetSet::new();
    for facet in requested_facets {
        facets.insert(*facet);
    }
    let identity = VerdictIdentity {
        goal_id: "goal-1".to_string(),
        verification_round_id: "round-1".to_string(),
        contract_digest: "sha256:contract".to_string(),
        reviewed_artifact_manifest_digest: manifest.manifest_digest.clone(),
        critic_id: "critic-1".to_string(),
        critic_assignment_id: "assignment-1".to_string(),
    };
    let verdict = approval(requested_facets, &identity);
    Fixture {
        manifest,
        identity,
        facets,
        verdict,
    }
}

fn approval(requested_facets: &[VerificationFacet], identity: &VerdictIdentity) -> SkepticVerdict {
    let mut checks = Vec::new();
    for facet in requested_facets {
        for gate in gates_for_facet(*facet) {
            checks.push(
                if *facet == VerificationFacet::Math && *gate == "evidence-provenance" {
                    ValidationCheck {
                        gate: (*gate).to_string(),
                        facet: facet.as_str().to_string(),
                        status: "not_applicable".to_string(),
                        target: "No symbolic or numerical tool claim was submitted".to_string(),
                        evidence: "The proof was checked directly from the artifact".to_string(),
                        artifact_path: String::new(),
                        artifact_sha256: String::new(),
                        method: "manual derivation review".to_string(),
                        applicability_basis: Some(
                            "No tool-backed evidence is asserted for this claim".to_string(),
                        ),
                        ..Default::default()
                    }
                } else {
                    ValidationCheck {
                        gate: (*gate).to_string(),
                        facet: facet.as_str().to_string(),
                        status: "pass".to_string(),
                        target: "x + y = z".to_string(),
                        evidence: "The cited current artifact supports the assigned gate"
                            .to_string(),
                        artifact_path: "answer.txt".to_string(),
                        artifact_sha256: answer_digest(),
                        method: "manual artifact review".to_string(),
                        ..Default::default()
                    }
                },
            );
        }
    }
    SkepticVerdict {
        verdict_schema_version: 1,
        goal_id: identity.goal_id.clone(),
        verification_round_id: identity.verification_round_id.clone(),
        contract_digest: identity.contract_digest.clone(),
        reviewed_artifact_manifest_digest: identity.reviewed_artifact_manifest_digest.clone(),
        critic_id: identity.critic_id.clone(),
        critic_assignment_id: identity.critic_assignment_id.clone(),
        refuted: false,
        evidence: "complete assigned-scope coverage".to_string(),
        confidence: SkepticConfidence::High,
        blocking: SkepticBlocking::NonBlocking,
        details_md: "# Verified\n\nAll assigned gates passed.".to_string(),
        findings: Vec::new(),
        checks,
    }
}

/// One read of the answer for every check.
fn reads(verdict: &SkepticVerdict) -> Vec<ArtifactRead> {
    verdict
        .checks
        .iter()
        .map(|_| ArtifactRead {
            display_path: "/reviewed/answer.txt".into(),
            outcome: Ok(ANSWER.as_bytes().to_vec()),
        })
        .collect()
}

fn validate(f: &Fixture, events: &[VerificationToolEvent]) -> Result<(), String> {
    validate_structured_verdict(
        &f.verdict,
        &f.identity,
        &f.facets,
        &reads(&f.verdict),
        &f.manifest,
        events,
    )
}

const TWO: [VerificationFacet; 2] = [
    VerificationFacet::Analysis,
    VerificationFacet::StateRegression,
];

const MATHEMATICAL: [VerificationFacet; 2] =
    [VerificationFacet::Math, VerificationFacet::StateRegression];

#[test]
fn structured_verdict_binds_every_identity_field_and_complete_coverage() {
    assert!(validate(&receipt_fixture(&TWO), &[]).is_ok());

    for field in [
        "goal",
        "round",
        "contract",
        "manifest",
        "critic",
        "assignment",
    ] {
        let mut f = receipt_fixture(&TWO);
        let stale = &mut f.verdict;
        match field {
            "goal" => stale.goal_id.push_str("-wrong"),
            "round" => stale.verification_round_id.push_str("-wrong"),
            "contract" => stale.contract_digest.push_str("-wrong"),
            "manifest" => stale.reviewed_artifact_manifest_digest.push_str("-wrong"),
            "critic" => stale.critic_id.push_str("-wrong"),
            "assignment" => stale.critic_assignment_id.push_str("-wrong"),
            _ => unreachable!(),
        }
        assert!(validate(&f, &[]).is_err(), "wrong {field} must reject");
    }

    let mut missing = receipt_fixture(&TWO);
    missing.verdict.checks.pop();
    assert!(validate(&missing, &[]).is_err());
    let mut duplicate = receipt_fixture(&TWO);
    let again = approval(&TWO, &duplicate.identity).checks.remove(0);
    duplicate.verdict.checks.push(again);
    assert!(validate(&duplicate, &[]).is_err());
}

#[test]
fn structured_verdict_rejects_unknown_artifact_and_all_not_applicable() {
    let mut unknown = receipt_fixture(&[VerificationFacet::Analysis]);
    unknown.verdict.checks[0].artifact_sha256 = "sha256:wrong".to_string();
    assert!(validate(&unknown, &[]).is_err());

    let mut all_na = receipt_fixture(&[VerificationFacet::Analysis]);
    for check in &mut all_na.verdict.checks {
        check.status = "not_applicable".to_string();
        check.artifact_path.clear();
        check.artifact_sha256.clear();
        check.applicability_basis = Some("This gate has no applicable submitted claim".into());
    }
    assert!(validate(&all_na, &[]).is_err());
}

#[test]
fn structured_approval_rejects_blockers_and_unresolved_findings() {
    let mut blocked = receipt_fixture(&[VerificationFacet::Analysis]);
    blocked.verdict.blocking = SkepticBlocking::Unverifiable;
    let error = validate(&blocked, &[]).expect_err("approval with a blocker must fail closed");
    assert!(error.contains("blocking condition"));

    let mut unresolved = receipt_fixture(&[VerificationFacet::Analysis]);
    unresolved
        .verdict
        .findings
        .push(finding("gap", "answer.txt:1", "unresolved claim"));
    let error =
        validate(&unresolved, &[]).expect_err("approval with unresolved findings must fail closed");
    assert!(error.contains("unresolved findings"));
}

fn provenance(f: &mut Fixture) -> &mut ValidationCheck {
    let check = f
        .verdict
        .checks
        .iter_mut()
        .find(|check| check.gate == "evidence-provenance")
        .unwrap();
    check.target = "x + y = z".to_string();
    check.artifact_path = "answer.txt".to_string();
    check.artifact_sha256 = answer_digest();
    check.applicability_basis = None;
    check
}

fn event(exact_input: &str, success: bool) -> VerificationToolEvent {
    VerificationToolEvent {
        tool_event_id: "event-1".to_string(),
        exact_input_digest: digest_bytes(b"verify answer.txt expression: x + y = z"),
        observed_output_digest: digest_bytes(b"residual = 0"),
        success,
        exact_input: exact_input.to_string(),
    }
}

fn bind(check: &mut ValidationCheck, event: &VerificationToolEvent) {
    check.tool_event_id = Some(event.tool_event_id.clone());
    check.exact_input_digest = Some(event.exact_input_digest.clone());
    check.observed_output_digest = Some(event.observed_output_digest.clone());
}

#[test]
fn math_tool_evidence_binding_is_advisory_not_fatal() {
    let mut f = receipt_fixture(&MATHEMATICAL);
    let live = event("verify answer.txt expression: x + y = z", true);
    let check = provenance(&mut f);
    check.status = "pass".to_string();
    check.method = "symbolic substitution".to_string();
    bind(check, &live);
    assert!(validate(&f, std::slice::from_ref(&live)).is_ok());

    let stale = event("verify answer.txt expression: x + y = z", false);
    assert!(validate(&f, &[stale]).is_ok());
    let surrogate = event("verify a different expression", true);
    assert!(validate(&f, &[surrogate]).is_ok());
}

#[test]
fn math_evidence_provenance_refutation_needs_no_tool_event() {
    let mut f = receipt_fixture(&MATHEMATICAL);
    let check = provenance(&mut f);
    check.status = "fail".to_string();
    check.method = "inspection".to_string();
    check.tool_event_id = None;
    check.exact_input_digest = None;
    check.observed_output_digest = None;
    f.verdict.refuted = true;
    f.verdict.findings.push(finding(
        "gap",
        "answer.txt:1",
        "captured numerical run output is missing",
    ));
    assert!(
        validate(&f, &[]).is_ok(),
        "a refutation of evidence-provenance must not require a live tool event"
    );
}

#[test]
fn math_evidence_provenance_approval_needs_no_tool_event() {
    let mut f = receipt_fixture(&MATHEMATICAL);
    let check = provenance(&mut f);
    check.status = "pass".to_string();
    check.method = "inspection".to_string();
    check.tool_event_id = None;
    check.exact_input_digest = None;
    check.observed_output_digest = None;
    assert!(
        validate(&f, &[]).is_ok(),
        "an approval of evidence-provenance must not require a live tool event"
    );
}

#[test]
fn other_receipts_bind_a_live_event_or_none() {
    let live = event("verify answer.txt expression: x + y = z", true);
    let mut f = receipt_fixture(&TWO);
    bind(&mut f.verdict.checks[0], &live);
    assert!(validate(&f, &[live]).is_ok());
    let failed = event("verify answer.txt expression: x + y = z", false);
    assert!(validate(&f, &[failed]).is_err());
    assert!(validate(&f, &[]).is_err());

    let mut partial = receipt_fixture(&TWO);
    partial.verdict.checks[0].tool_event_id = Some("event-1".into());
    assert!(validate(&partial, &[]).is_err());
}

#[test]
fn receipts_are_read_against_the_artifact() {
    let mut f = receipt_fixture(&TWO);
    f.verdict.checks[0].target = "x + y = w".into();
    assert!(validate(&f, &[]).is_err());

    let f = receipt_fixture(&TWO);
    let mut unreadable = reads(&f.verdict);
    unreadable[0].outcome = Err("gone".into());
    let error = validate_structured_verdict(
        &f.verdict,
        &f.identity,
        &f.facets,
        &unreadable,
        &f.manifest,
        &[],
    )
    .unwrap_err();
    assert!(error.contains("gone"), "{error}");
}

#[test]
fn receipts_name_known_gates_of_assigned_facets() {
    let mut gate = receipt_fixture(&TWO);
    gate.verdict.checks[0].gate = "made-up".into();
    assert!(validate(&gate, &[]).is_err());
    let mut facet = receipt_fixture(&TWO);
    facet.verdict.checks[0].facet = "math".into();
    assert!(validate(&facet, &[]).is_err());
    let mut status = receipt_fixture(&TWO);
    status.verdict.checks[0].status = "maybe".into();
    assert!(validate(&status, &[]).is_err());
    let mut failed = receipt_fixture(&TWO);
    failed.verdict.checks[0].status = "fail".into();
    assert!(validate(&failed, &[]).is_err(), "an approval has no failed receipt");
}

#[test]
fn refutation_names_a_defect() {
    let mut f = receipt_fixture(&TWO);
    f.verdict.refuted = true;
    assert!(validate(&f, &[]).is_err());
    f.verdict.checks[0].status = "fail".into();
    f.verdict.findings.push(finding("bug", "answer.txt:1", "wrong"));
    assert!(validate(&f, &[]).is_ok());
}

fn conclude(f: Fixture, file: Option<VerdictFile>, terminal: &str) -> ds_verify::panel::SkepticResult {
    let at = reads(&f.verdict);
    let file = file.unwrap_or(VerdictFile::Decoded(f.verdict));
    conclude_skeptic(
        0,
        "/tmp/validated.md",
        file,
        terminal,
        &f.identity,
        &f.facets,
        &at,
        &f.manifest,
        &[],
        &Ok(()),
        true,
        7,
    )
}

#[test]
fn read_skeptic_verdict_requires_structured_current_round_approval() {
    let result = conclude(receipt_fixture(&TWO), None, "Not Refuted");
    assert!(!result.refuted);
    assert!(result.fallback_note.is_none());
    let mut canonical = StoreSpot::found("validated verdict", false);
    assert!(canonical.claim().is_ok());
    assert_eq!(
        canonical.claim(),
        Err("validated verdict path already exists".to_string()),
        "a validated verdict cannot be submitted twice"
    );
    let f = receipt_fixture(&TWO);
    assert_eq!(verdict_report(&f.verdict), f.verdict.details_md);
    let again = approval(&TWO, &f.identity);
    assert!(check_stored_verdict(&f.verdict, &Some(again)).is_ok());
    assert_eq!(
        check_stored_verdict(&f.verdict, &None),
        Err("persisted verdict cannot be parsed".to_string())
    );
}

#[test]
fn terminal_only_not_refuted_never_approves() {
    let result = conclude(
        receipt_fixture(&[VerificationFacet::Analysis]),
        Some(VerdictFile::Unreadable("missing".into())),
        "Not Refuted",
    );
    assert!(result.refuted);
    assert!(result.fallback_note.is_some());
}

#[test]
fn verdict_and_token_have_to_agree() {
    let f = receipt_fixture(&TWO);
    let at = reads(&f.verdict);
    let file = VerdictFile::Decoded(f.verdict);
    assert_eq!(
        judge_verdict(&file, "Not Refuted", &f.identity, &f.facets, &at, &f.manifest, &[]),
        None
    );
    assert!(
        judge_verdict(&file, "Refuted", &f.identity, &f.facets, &at, &f.manifest, &[]).is_some()
    );
    let result = conclude(
        receipt_fixture(&TWO),
        Some(VerdictFile::Malformed),
        "Not Refuted",
    );
    assert!(result.refuted);
}

#[test]
fn stored_verdict_must_not_change() {
    let f = receipt_fixture(&TWO);
    let mut other = approval(&TWO, &f.identity);
    assert!(same_verdict(&f.verdict, &other));
    other.checks[1].target.push('!');
    assert!(!same_verdict(&f.verdict, &other));
    assert_eq!(
        check_stored_verdict(&f.verdict, &Some(other)),
        Err("persisted verdict changed during write".to_string())
    );
}
