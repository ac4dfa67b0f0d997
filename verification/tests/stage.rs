use ds_verify::facets::{kind_lens, FacetSet, GoalKind, VerificationFacet};
use ds_verify::panel::{SkepticResult, GAPS_EVIDENCE_MAX_CHARS};
use ds_verify::prompt::{
    parse_backticked_path, parse_skeptic_details_path_from_prompt, parse_verdict_path_from_prompt,
    render_binding_section, render_skeptic_prompt, render_skeptic_resume_prompt, skeptic_prompt,
    tools_for, PromptParts, RoleToolNames, GOAL_VERIFIER_RESUME_PROMPT_TEMPLATE,
};
use ds_verify::skeptic::{
    build_subagent_trace_items, check_verdict_file, decode_verdict_file, expand_skeptic_assignment,
    refuse_start, skeptic_failure, skeptic_paths, skeptic_request, spawn_failure, spawn_outcome,
    traced_output, verdict_identity, GoalRoleModel, Panel, RoleSpawnOverride, SkepticRequest,
    SpawnBackpressure, SpawnError, SpawnOrigin, SubagentReport, TraceItem,
    GOAL_SPAWN_BACKPRESSURE_MAX_WAIT_MS, MAX_VERDICT_BYTES,
};
use ds_verify::manifest::{ArtifactManifest, Found, ManifestBuilder};
use ds_verify::stage::{
    aggregate_receipt, baseline_commit, contract_digest, contract_json, details_are_there,
    fail_open, fail_open_placeholder, panel_achieved, panel_events, panel_outcome, panel_size,
    prepare_round, round_artifacts, DetailsSpot, GoalClassifierFailOpenReason,
    GoalClassifierOutcome, PanelEvent, RoundEvent, RoundReport, StageFailure, StagePhase,
    VerificationStage, GOAL_CLASSIFIER_MAX_RUNS_DEFAULT, GOAL_VERIFIER_SKEPTIC_COUNT,
};
use ds_verify::subagent_failure::{
    describe_subagent_failure, output_tail, truncate, MAX_MESSAGE_CHARS,
};
use ds_verify::verdict::{SkepticBlocking, SkepticConfidence};

const RESUME_DELTA_FRAMING: &str = "claims it addressed your gaps";

/// A template with every slot, as a panel is asked with.
const TEMPLATE: &str = GOAL_VERIFIER_RESUME_PROMPT_TEMPLATE;

fn parts<'a>(lens: &'a str, prior_gaps: Option<&'a str>, scratch_ready: bool) -> PromptParts<'a> {
    PromptParts {
        packet: "OBJECTIVE:\nobj\n",
        details_path: "/tmp/goal-verifier-details-x-1-0.md",
        verdict_path: "/tmp/goal-verdict-x-1-0.json",
        kind_lens: lens,
        skeptic_scratch: "/tmp/ds-goal-x/skeptic-0",
        implementer_scratch: "/tmp/ds-goal-x/implementer",
        prior_gaps,
        scratch_ready,
    }
}

fn long_multi_skeptic_gaps() -> String {
    (0..3)
        .map(|s| {
            let findings: String = (0..12)
                .map(|f| format!("  - gap · src/file_{s}_{f}.rs:42 — finding {f} of skeptic {s}\n"))
                .collect();
            format!("- [skeptic {s}, high]\n{findings}")
        })
        .collect()
}

#[test]
fn prior_gaps_keeps_full_multi_skeptic_summary_past_800_chars() {
    let gaps = long_multi_skeptic_gaps();
    assert!(
        gaps.chars().count() > GAPS_EVIDENCE_MAX_CHARS,
        "test premise: summary exceeds the per-line cap",
    );
    let rendered = render_skeptic_prompt(
        TEMPLATE,
        &parts("", Some(&gaps), true),
        &RoleToolNames::inherit_defaults(),
    );
    assert!(
        rendered.contains("finding 11 of skeptic 2"),
        "the LAST skeptic's last finding must survive into {{PRIOR_GAPS}}",
    );
}

#[test]
fn render_skeptic_prompt_substitutes_kind_lens_and_leaves_no_placeholder() {
    let body = render_skeptic_prompt(
        TEMPLATE,
        &parts(kind_lens(Some(GoalKind::CodeChange)), None, true),
        &RoleToolNames::inherit_defaults(),
    );
    assert!(body.contains("## Code-change review lens"));
    assert!(
        !body.contains("{KIND_LENS}"),
        "the placeholder must be substituted:\n{body}"
    );
    assert!(body.contains("/tmp/ds-goal-x/skeptic-0"));
    assert!(body.contains("/tmp/ds-goal-x/implementer"));
    assert!(
        !body.contains("{SKEPTIC_SCRATCH}") && !body.contains("{IMPLEMENTER_SCRATCH}"),
        "scratch placeholders must be substituted:\n{body}"
    );

    let generic = render_skeptic_prompt(
        TEMPLATE,
        &parts(kind_lens(None), None, true),
        &RoleToolNames::inherit_defaults(),
    );
    assert!(!generic.contains("{KIND_LENS}"));
    assert!(!generic.contains("review lens"));
}

#[test]
fn render_skeptic_prompt_scratch_status_reflects_readiness() {
    let render = |scratch_ready: bool| {
        render_skeptic_prompt(
            TEMPLATE,
            &parts(kind_lens(Some(GoalKind::CodeChange)), None, scratch_ready),
            &RoleToolNames::inherit_defaults(),
        )
    };
    let ready = render(true);
    assert!(
        ready.contains("Both dirs have been created for you."),
        "ready render must claim both dirs exist:\n{ready}",
    );
    assert!(
        !ready.contains("mkdir -p"),
        "ready render must not tell the skeptic to create a dir:\n{ready}",
    );
    assert!(
        !ready.contains("{SCRATCH_STATUS}"),
        "placeholder must resolve"
    );

    let not_ready = render(false);
    assert!(
        not_ready.contains("Create your own scratch dir with `mkdir -p` if it is missing."),
        "not-ready render must instruct the skeptic to create the dir:\n{not_ready}",
    );
    assert!(
        !not_ready.contains("have been created for you"),
        "not-ready render must not claim the dirs already exist:\n{not_ready}",
    );
    assert!(
        !not_ready.contains("{SCRATCH_STATUS}"),
        "placeholder must resolve"
    );
}

#[test]
fn render_skeptic_prompt_substitutes_prior_gaps() {
    let render = |prior: Option<&str>| {
        render_skeptic_prompt(
            TEMPLATE,
            &parts(kind_lens(Some(GoalKind::CodeChange)), prior, true),
            &RoleToolNames::inherit_defaults(),
        )
    };
    let with_gaps = render(Some("- [skeptic 1, high]\n  gap · src/foo.rs:12 — no test"));
    assert!(with_gaps.contains("gap · src/foo.rs:12 — no test"));
    assert!(with_gaps.contains("Anti-ratchet"));
    assert!(
        !with_gaps.contains("{PRIOR_GAPS}"),
        "placeholder must be substituted:\n{with_gaps}"
    );
    let without = render(None);
    assert!(without.contains("(none — first verification round)"));
    assert!(!without.contains("{PRIOR_GAPS}"));
    let blank = render(Some("   \n"));
    assert!(blank.contains("(none — first verification round)"));
}

#[test]
fn render_skeptic_resume_prompt_is_delta_focused_and_substitutes_paths() {
    let mut p = parts(kind_lens(Some(GoalKind::CodeChange)), None, true);
    p.details_path = "/tmp/goal-classifier-x-2-skeptic-0.md";
    p.verdict_path = "/tmp/goal-verdict-x-2-0.json";
    let body = render_skeptic_resume_prompt(&p, &RoleToolNames::inherit_defaults());
    assert!(body.contains(RESUME_DELTA_FRAMING));
    assert!(body.contains("RE-READ"));
    assert!(body.contains("REGRESSION"));
    assert!(body.contains("Anti-ratchet"));
    assert!(
        !body.contains("{PRIOR_GAPS}"),
        "PRIOR_GAPS placeholder must be substituted in the resume prompt",
    );
    assert!(body.contains("PLAN_CHANGES"));
    assert!(body.contains("## Code-change review lens"));
    assert!(body.contains("/tmp/goal-verdict-x-2-0.json"));
    assert!(body.contains("/tmp/goal-classifier-x-2-skeptic-0.md"));
    assert!(body.contains("/tmp/ds-goal-x/skeptic-0"));
    assert!(body.contains("/tmp/ds-goal-x/implementer"));
    assert!(
        !body.contains("{KIND_LENS}")
            && !body.contains("{DETAILS_FILE}")
            && !body.contains("{VERDICT_FILE}")
            && !body.contains("{SKEPTIC_SCRATCH}")
            && !body.contains("{IMPLEMENTER_SCRATCH}"),
        "all placeholders must be substituted:\n{body}",
    );
}

#[test]
fn tool_names_are_filled_in_once() {
    let mut tools = RoleToolNames::inherit_defaults();
    assert!(tools
        .apply(GOAL_VERIFIER_RESUME_PROMPT_TEMPLATE)
        .contains("(read_file, grep, list_dir, run a command)"));
    tools.read_tool = "{SEARCH_TOOL}".into();
    assert_eq!(tools.apply("a {READ_TOOL} b {SEARCH_TOOL}"), "a {SEARCH_TOOL} b grep");
}

#[test]
fn skeptics_are_told_of_their_own_tools() {
    let mut own = RoleToolNames::inherit_defaults();
    own.read_tool = "cursor_read".into();
    let names = [own];
    let defaults = RoleToolNames::inherit_defaults();
    assert_eq!(tools_for(&names, &defaults, 0).read_tool, "cursor_read");
    assert_eq!(tools_for(&names, &defaults, 1).read_tool, "read_file");
    let identity = verdict_identity("g", "r", "c", "m", "critic-0", 0);
    let prompt = skeptic_prompt(
        "{READ_TOOL} {VERDICT_FILE}",
        &parts("", None, true),
        tools_for(&names, &defaults, 0),
        &identity,
        &FacetSet::new(),
        "/m",
        &vec![],
    );
    assert!(prompt.starts_with("cursor_read /tmp/goal-verdict-x-1-0.json\n\nOBJECTIVE:\nobj\n"));
    assert!(prompt.ends_with("STATE_CHANGED_PATHS_FROM_GOAL_START: []\n"));
    assert!(prompt.contains("REQUIRED_COVERAGE:\n[]\n"));
}

#[test]
fn prompts_name_the_files_of_a_skeptic() {
    let body = render_skeptic_resume_prompt(
        &parts("", None, true),
        &RoleToolNames::inherit_defaults(),
    );
    assert_eq!(
        parse_verdict_path_from_prompt(&body).as_deref(),
        Some("/tmp/goal-verdict-x-1-0.json")
    );
    assert_eq!(
        parse_skeptic_details_path_from_prompt(&body).as_deref(),
        Some("/tmp/goal-verifier-details-x-1-0.md")
    );
    assert_eq!(
        parse_backticked_path("Where: `/a/b`\n", "Where: `").as_deref(),
        Some("/a/b")
    );
    assert_eq!(parse_verdict_path_from_prompt("nothing"), None);
}

#[test]
fn binding_section_is_json() {
    let identity = verdict_identity("g", "r", "c", "m", "critic \"0\"", 4);
    let mut facets = FacetSet::new();
    facets.insert(VerificationFacet::StateRegression);
    let text = render_binding_section(&identity, &facets, "/m.json", &vec!["a b".into()]);
    let from = text.find("IDENTITY:\n").unwrap() + "IDENTITY:\n".len();
    let to = text.find("\n\nREQUIRED_COVERAGE:\n").unwrap();
    let json: serde_json::Value = serde_json::from_str(&text[from..to]).unwrap();
    assert_eq!(json["critic_id"], "critic \"0\"");
    assert_eq!(json["critic_assignment_id"], "r:critic-4");
    let from = to + "\n\nREQUIRED_COVERAGE:\n".len();
    let to = text.find("\n\nARTIFACT_MANIFEST: ").unwrap();
    let coverage: serde_json::Value = serde_json::from_str(&text[from..to]).unwrap();
    assert_eq!(coverage[0]["facet"], "state-regression");
    assert!(text.ends_with(
        "\n\nARTIFACT_MANIFEST: /m.json\nSTATE_CHANGED_PATHS_FROM_GOAL_START: [\"a b\"]\n"
    ));
}

fn pair(model: &str) -> GoalRoleModel {
    GoalRoleModel {
        model: model.to_string(),
        agent_type: "general-purpose".to_string(),
    }
}

#[test]
fn expand_assignment_round_robin_over_clamped_n() {
    let pool = vec![pair("a"), pair("b")];
    let out = expand_skeptic_assignment(&[], &pool, 3);
    let models: Vec<&str> = out.iter().map(|p| p.model.as_str()).collect();
    assert_eq!(models, vec!["a", "b", "a"]);
    assert_eq!(out[0].model, "a");
}

#[test]
fn expand_assignment_empty_pool_inherits_all() {
    assert!(expand_skeptic_assignment(&[], &[], 3).is_empty());
}

#[test]
fn expand_assignment_reuses_frozen_prefix_on_resume() {
    let frozen = vec![pair("a"), pair("b"), pair("a")];
    let again = expand_skeptic_assignment(&frozen, &[pair("a"), pair("b")], 3);
    assert_eq!(again, frozen, "resume must reuse the frozen assignment");
    assert_eq!(again[0].model, "a", "skeptic-0 keeps pool[0] on resume");
}

#[test]
fn expand_assignment_grows_without_rewriting_existing_indices() {
    let frozen = vec![pair("a"), pair("b")];
    let grown = expand_skeptic_assignment(&frozen, &[pair("a"), pair("b")], 4);
    let models: Vec<&str> = grown.iter().map(|p| p.model.as_str()).collect();
    assert_eq!(models, vec!["a", "b", "a", "b"]);
    assert_eq!(&grown[..2], &frozen[..]);
}

#[test]
fn expand_assignment_never_shrinks_and_keeps_frozen_when_pool_cleared() {
    let frozen = vec![pair("a"), pair("b"), pair("a")];
    assert_eq!(
        expand_skeptic_assignment(&frozen, &[], 5),
        frozen,
        "a cleared pool must not wipe a frozen assignment",
    );
    assert_eq!(
        expand_skeptic_assignment(&frozen, &[pair("a"), pair("b")], 1),
        frozen,
    );
}

#[test]
fn prod_default_skeptic_count_is_three() {
    assert_eq!(GOAL_VERIFIER_SKEPTIC_COUNT, 3);
}

#[test]
fn prod_default_classifier_max_runs_is_ten() {
    assert_eq!(GOAL_CLASSIFIER_MAX_RUNS_DEFAULT, 10);
}

#[test]
fn prefers_coordinator_error() {
    let message = describe_subagent_failure(
        false,
        Some("worktree creation failed"),
        "some output",
        "critic-0",
        "verification skeptic",
    );
    assert_eq!(message, "worktree creation failed");
}

#[test]
fn empty_error_and_empty_output_is_actionable() {
    let message = describe_subagent_failure(false, None, "", "critic-0", "verification skeptic");
    assert_eq!(
        message,
        "the verification skeptic subagent `critic-0` terminated without any output or error message"
    );
}

#[test]
fn cancellation_without_error_is_distinct() {
    let message = describe_subagent_failure(true, None, "", "", "goal planner");
    assert!(
        message.contains("cancelled before it produced a verdict"),
        "got: {message}"
    );
}

#[test]
fn non_empty_output_quotes_a_bounded_tail() {
    let output = format!("prefix\n{}", "x".repeat(5000));
    let message = describe_subagent_failure(false, None, &output, "s-1", "strategist");
    assert!(message.contains("final output tail"), "got: {message}");
    assert!(message.chars().count() <= MAX_MESSAGE_CHARS);
    assert!(message.contains("xxxxx"), "tail must surface output content");
}

#[test]
fn messages_never_exceed_the_cap() {
    let huge = "y".repeat(10_000);
    let with_error = describe_subagent_failure(false, Some(&huge), "", "", "summarizer");
    assert!(with_error.chars().count() <= MAX_MESSAGE_CHARS);
}

#[test]
fn tails_and_cuts() {
    assert_eq!(output_tail("abcdef", 3), "…def");
    assert_eq!(output_tail("abc", 3), "abc");
    assert_eq!(truncate("abcdef", 3), "ab…");
    assert_eq!(truncate("abc", 3), "abc");
}

fn vote(idx: u32, refuted: bool, blocking: SkepticBlocking) -> SkepticResult {
    SkepticResult {
        skeptic_idx: idx,
        refuted,
        confidence: SkepticConfidence::Medium,
        blocking,
        evidence: "src/x.rs:1 gap".into(),
        findings: Vec::new(),
        fallback_note: None,
        details_path: format!("/tmp/skeptic-{idx}.md"),
        latency_ms: 0,
    }
}

fn outcome(results: &[SkepticResult], n: u32) -> GoalClassifierOutcome {
    let result = panel_outcome(results, n, "/d.md");
    assert!(result.panel_ran);
    result.outcome
}

const FREE: SkepticBlocking = SkepticBlocking::NonBlocking;

#[test]
fn unanimous_panel_achieves() {
    let votes = [vote(0, false, FREE), vote(1, false, FREE)];
    assert!(panel_achieved(&votes, 2));
    assert!(matches!(
        outcome(&votes, 2),
        GoalClassifierOutcome::Achieved { details_path } if details_path == "/d.md"
    ));
    assert!(!panel_achieved(&votes, 3), "a missing skeptic does not approve");
}

#[test]
fn one_refute_blocks_approval() {
    match outcome(&[vote(0, true, FREE), vote(1, false, FREE)], 2) {
        GoalClassifierOutcome::NotAchieved {
            gaps_summary,
            gap_fingerprint,
            ..
        } => {
            assert_eq!(gaps_summary, "- [skeptic 0, medium] src/x.rs:1 gap");
            assert_eq!(gap_fingerprint, "src/x.rs:1");
        }
        other => panic!("{other:?}"),
    }
}

#[test]
fn refuters_that_all_block_pause_the_goal() {
    let blocked = [
        vote(0, true, SkepticBlocking::Contradiction),
        vote(1, false, FREE),
        vote(2, true, SkepticBlocking::Unverifiable),
    ];
    assert!(matches!(
        outcome(&blocked, 3),
        GoalClassifierOutcome::Blocked { .. }
    ));
    let mixed = [
        vote(0, true, SkepticBlocking::Contradiction),
        vote(1, true, FREE),
    ];
    assert!(matches!(
        outcome(&mixed, 2),
        GoalClassifierOutcome::NotAchieved { .. }
    ));
}

#[test]
fn failed_skeptic_counts_as_a_refutation() {
    let failed = spawn_failure(1, "/d", &SpawnError::Transport("channel closed".into()), 3);
    assert!(failed.refuted);
    assert_eq!(
        failed.fallback_note.as_deref(),
        Some("transport error: channel closed")
    );
    let votes = [vote(0, false, FREE), failed];
    assert!(matches!(
        outcome(&votes, 2),
        GoalClassifierOutcome::NotAchieved { .. }
    ));
    assert_eq!(
        skeptic_failure(4, "/d", "why", 9).fallback_note.as_deref(),
        Some("why")
    );
}

#[test]
fn panel_size_is_clamped() {
    assert_eq!(panel_size(0), 1);
    assert_eq!(panel_size(4), 4);
    assert_eq!(panel_size(99), 5);
}

#[test]
fn spawn_outcomes_are_described() {
    let report = |success, cancelled, error: Option<&str>| SubagentReport {
        success,
        cancelled,
        error: error.map(str::to_string),
        output: "Refuted".into(),
    };
    assert_eq!(spawn_outcome(&report(true, false, None), "s").unwrap(), "Refuted");
    let error = spawn_outcome(&report(false, true, Some("user aborted")), "s").unwrap_err();
    assert!(error.is_cancelled());
    assert_eq!(
        error.message(),
        "subagent runtime error (cancelled=true): user aborted"
    );
    assert_eq!(error.note(), "runtime error (cancelled=true): user aborted");
    assert_eq!(
        SpawnError::Transport("x".into()).message(),
        "subagent transport error: x"
    );
}

#[test]
fn spawns_are_deferred_but_not_for_ever() {
    let pressure = SpawnBackpressure::new();
    assert!(pressure.defers(true, 0));
    assert!(!pressure.defers(false, 0));
    assert!(!pressure.defers(true, GOAL_SPAWN_BACKPRESSURE_MAX_WAIT_MS));
}

#[test]
fn skeptics_start_on_fresh_files_only() {
    let paths = skeptic_paths("/tmp/ds-goal-x", "r", 1);
    assert!(refuse_start(1, &paths, "/tmp", &None, false, false, 0).is_none());
    let refused = refuse_start(1, &paths, "/tmp", &None, true, false, 0).unwrap();
    assert_eq!(
        refused.fallback_note.as_deref(),
        Some("internal: unsafe per-skeptic file path")
    );
    assert!(refuse_start(1, &paths, "/var", &None, false, false, 0).is_some());
    let unsecured = refuse_start(1, &paths, "/tmp", &Some("denied".into()), false, false, 0);
    assert_eq!(
        unsecured.unwrap().fallback_note.as_deref(),
        Some("internal: could not secure the goal scratch root: denied")
    );
}

#[test]
fn verdict_files_are_bounded_text() {
    assert!(check_verdict_file(true, MAX_VERDICT_BYTES).is_ok());
    assert!(check_verdict_file(true, MAX_VERDICT_BYTES + 1).is_err());
    assert!(check_verdict_file(true, 0).is_err());
    assert!(check_verdict_file(false, 1).is_err());
    assert_eq!(decode_verdict_file("é".into(), 2).unwrap(), "é");
    assert_eq!(
        decode_verdict_file(vec![0xff], 1),
        Err("verdict is not UTF-8".to_string())
    );
    assert_eq!(
        decode_verdict_file(vec![b'a'], 2),
        Err("verdict changed while being read".to_string())
    );
}

fn stage_at(phase: StagePhase, skeptic_count: u32) -> VerificationStage {
    let initial = manifest(&[("a", "1")]);
    let reviewed = manifest(&[("a", "2"), (".ds-verification/plan.md", "p")]);
    let mut stage =
        VerificationStage::begin("/tmp/ds-goal-x", "/tmp", "vid", "r", skeptic_count).unwrap();
    while stage.phase() != phase {
        match stage.phase() {
            StagePhase::StateComparison => {
                assert_eq!(stage.compare_state(&initial, &reviewed), None)
            }
            StagePhase::Panel => {
                let votes = (0..stage.panel_size()).map(|i| vote(i, false, FREE)).collect();
                stage.take_panel(votes);
            }
            StagePhase::WorkspaceRecheck => assert_eq!(
                stage.recheck_workspace(&Ok(manifest(&[("a", "2")])), &reviewed),
                None
            ),
            _ => assert_eq!(stage.advance(true), None),
        }
    }
    stage
}

#[test]
fn stage_goes_through_its_phases() {
    let stage = stage_at(StagePhase::Done, 9);
    assert_eq!(stage.panel_size(), 5);
    assert_eq!(stage.details_path(), "/tmp/ds-goal-x/goal-classifier-vid-r.md");
    assert_eq!(*stage.changed(), vec!["a"]);
    assert_eq!(stage.results().len(), 5);
    assert!(stage.achieved());
    assert!(matches!(
        stage.conclude().outcome,
        GoalClassifierOutcome::Achieved { .. }
    ));

    let mut bare = stage_at(StagePhase::ScratchRoot, 1);
    assert_eq!(bare.advance(false), Some(StageFailure::Bare));
    let mut later = stage_at(StagePhase::Changes, 1);
    assert_eq!(later.advance(false), Some(StageFailure::WithPlaceholder));
    assert_eq!(later.phase(), StagePhase::Failed);
}

#[test]
fn stage_fails_where_the_workspace_moved() {
    let mut stage = stage_at(StagePhase::WorkspaceRecheck, 1);
    assert_eq!(
        stage.recheck_workspace(&Ok(manifest(&[("a", "1")])), &manifest(&[("a", "2")])),
        Some(StageFailure::WithPlaceholder)
    );
    assert_eq!(stage.phase(), StagePhase::Failed);
    let mut lost = stage_at(StagePhase::WorkspaceRecheck, 1);
    assert_eq!(
        lost.recheck_workspace(&Err("cannot walk workspace".into()), &manifest(&[])),
        Some(StageFailure::WithPlaceholder)
    );
    assert_eq!(lost.phase(), StagePhase::Failed);
    let mut broken = manifest(&[("a", "1")]);
    broken.manifest_digest.clear();
    let mut stage = stage_at(StagePhase::StateComparison, 1);
    assert_eq!(
        stage.compare_state(&broken, &manifest(&[])),
        Some(StageFailure::WithPlaceholder)
    );
    assert_eq!(stage.phase(), StagePhase::Failed);
}

fn tag(event: &RoundEvent) -> String {
    match event {
        RoundEvent::Fired { attempt, max_runs, model_id } => {
            format!("fired:{attempt}/{max_runs}:{model_id}")
        }
        RoundEvent::Panel(PanelEvent::Skeptic { skeptic_idx, refuted, .. }) => {
            format!("skeptic:{skeptic_idx}:{refuted}")
        }
        RoundEvent::Panel(PanelEvent::Aggregate { refuted_count, total, achieved, .. }) => {
            format!("agg:{refuted_count}/{total}:{achieved}")
        }
        RoundEvent::Verdict { achieved, latency_ms, .. } => {
            format!("decided:{achieved}:{latency_ms}")
        }
        RoundEvent::FailOpen { reason, latency_ms, .. } => {
            format!("fail_open:{}:{latency_ms}", reason.as_const_str())
        }
    }
}

#[test]
fn round_is_reported_from_its_start_to_its_end() {
    let mut report = RoundReport::open(2, 7, "m");
    let votes = [vote(0, false, FREE), vote(1, false, FREE)];
    report.panel(&votes, 2);
    assert_eq!(report.events().len(), 4);
    let outcome = panel_outcome(&votes, 2, "/d").outcome;
    let tags: Vec<String> = report.close(&outcome, 9).iter().map(tag).collect();
    assert_eq!(
        tags,
        vec!["fired:2/7:m", "skeptic:0:false", "skeptic:1:false", "agg:0/2:true", "decided:true:9"]
    );

    let mut report = RoundReport::open(2, 7, "m");
    let votes = [vote(0, true, FREE)];
    report.panel(&votes, 1);
    let outcome = panel_outcome(&votes, 1, "/d").outcome;
    let tags: Vec<String> = report.close(&outcome, 9).iter().map(tag).collect();
    assert_eq!(
        tags,
        vec!["fired:2/7:m", "skeptic:0:true", "agg:1/1:false", "decided:false:9"]
    );

    let reason = GoalClassifierFailOpenReason::FileWriteFailed;
    let outcome = fail_open(reason, "", false).outcome;
    let tags: Vec<String> = RoundReport::open(1, 7, "m")
        .close(&outcome, 3)
        .iter()
        .map(tag)
        .collect();
    assert_eq!(
        tags,
        vec!["fired:1/7:m".to_string(), format!("fail_open:{}:3", reason.as_const_str())]
    );
}

#[test]
fn panel_is_cold_and_each_skeptic_writes_apart() {
    let panel = Panel::convene(2, "/tmp/ds-goal-x", "r", "/tmp/reviewed");
    let prompts = vec![Some("first".to_string()), Some("second".to_string())];
    let requests: Vec<SkepticRequest> = panel
        .requests(&origin(Vec::new()), "final-verifier", &prompts)
        .into_iter()
        .flatten()
        .collect();
    assert_eq!(requests.len(), 2);
    assert_eq!(requests[0].prompt, "first");
    assert_eq!(requests[1].prompt, "second");
    for (idx, request) in requests.iter().enumerate() {
        assert_eq!(request.id, panel.id(idx as u32));
        assert_eq!(request.resume_from, None);
        assert!(!request.fork_context);
        assert_eq!(request.reviewed_root, "/tmp/reviewed");
        assert_eq!(
            request.scratch_root,
            format!("/tmp/ds-goal-x/verification-rounds/r/critic-{idx}")
        );
        assert_eq!(request.scratch_root, panel.paths(idx as u32).scratch);
    }
    assert_ne!(requests[0].id, requests[1].id);
    assert_ne!(requests[0].scratch_root, requests[1].scratch_root);
    let assignment =
        |idx| verdict_identity("g", "r", "c", "m", panel.id(idx), idx).critic_assignment_id;
    assert_ne!(assignment(0), assignment(1));
    let failed = panel.requests(&origin(Vec::new()), "final-verifier", &vec![None, None]);
    assert!(failed.iter().all(Option::is_none));
}

#[test]
fn panel_has_a_bounded_number_of_skeptics_of_their_own() {
    let size = |count| Panel::convene(count, "/s", "r", "/w").size();
    assert_eq!(size(99), 5);
    assert_eq!(size(0), 1);
    assert_eq!(size(3), 3);
    let twice = vec!["a".to_string(), "b".to_string(), "a".to_string()];
    let panel = Panel::of_ids(twice, "/s", "r", "/w");
    let prompts = vec![Some("p".to_string()), None, Some("p".to_string())];
    let asked = panel.requests(&origin(Vec::new()), "final-verifier", &prompts);
    assert_eq!(asked[0].as_ref().unwrap().id, "a");
    assert!(asked[1].is_none());
    assert!(asked[2].is_none(), "the identity is taken");
    let once = vec!["a".to_string(), "b".to_string()];
    assert_eq!(Panel::of_ids(once, "/s", "r", "/w").id(1), "b");
}

#[test]
fn panel_is_reported_skeptic_by_skeptic() {
    let events = panel_events(&[vote(0, false, FREE), vote(1, true, FREE)], 2, 4);
    assert_eq!(events.len(), 3);
    assert_eq!(
        events[1],
        PanelEvent::Skeptic {
            attempt: 4,
            skeptic_idx: 1,
            refuted: true,
            confidence: SkepticConfidence::Medium,
            latency_ms: 0
        }
    );
    assert_eq!(
        events[2],
        PanelEvent::Aggregate {
            attempt: 4,
            refuted_count: 1,
            total: 2,
            achieved: false
        }
    );
}

#[test]
fn round_is_prepared_from_the_goal() {
    let initial = manifest(&[("a", "1")]);
    let material = prepare_round(
        "g",
        "Derive the closed form of the integral.",
        None,
        true,
        "done",
        "diff",
        &initial,
        "{}",
    );
    assert!(material.facets.contains(&VerificationFacet::Math));
    assert!(material.kind_lens.contains("Math / quantitative correctness lens"));
    let value: serde_json::Value = serde_json::from_str(&material.contract).unwrap();
    assert_eq!(value["plan"], "");
    assert_eq!(
        value["initial_workspace_manifest_digest"],
        initial.manifest_digest.as_str()
    );
    assert_eq!(material.contract_digest, contract_digest(&material.contract));
    assert_eq!(material.artifacts[5].bytes, material.contract.as_bytes());
    let planned = prepare_round("g", "o", Some("# Plan"), false, "", "", &initial, "");
    assert_eq!(planned.artifacts[2].bytes, b"# Plan");
}

fn origin(skeptic_overrides: Vec<RoleSpawnOverride>) -> SpawnOrigin {
    SpawnOrigin {
        parent_session_id: "parent".into(),
        parent_prompt_id: None,
        cwd: None,
        skeptic_overrides,
        goal_phase: Some("verify".into()),
        goal_attempt: Some(1),
    }
}

fn request(id: &str, overrides: Vec<RoleSpawnOverride>) -> SkepticRequest {
    let paths = skeptic_paths("/tmp/ds-goal-x", "r", 0);
    skeptic_request(
        &origin(overrides),
        id,
        0,
        "final-verifier",
        "prompt",
        &paths,
        "/tmp/reviewed",
        &None,
    )
}

#[test]
fn channel_spawner_request_is_harness_internal() {
    let request = request("clf-id", Vec::new());
    assert!(
        !request.surface_completion,
        "verifier subagent must not surface to the idle reminder"
    );
    assert!(request.resume_from.is_none());
    assert!(!request.fork_context);
    assert_eq!(request.reviewed_root, "/tmp/reviewed");
    assert_eq!(
        request.scratch_root,
        "/tmp/ds-goal-x/verification-rounds/r/critic-0"
    );
}

#[test]
fn override_that_was_not_chosen_changes_nothing() {
    let request = request(
        "clf-0",
        vec![RoleSpawnOverride {
            explicit: false,
            model: Some("left-over".into()),
            agent_type: Some("cursor".into()),
        }],
    );
    assert_eq!(request.model, None);
    assert_eq!(request.harness_agent_type, None);
}

#[test]
fn channel_spawner_applies_per_index_model_to_request() {
    let request = request(
        "clf-0",
        vec![
            RoleSpawnOverride {
                explicit: true,
                model: Some("pool-0-model".into()),
                agent_type: Some("cursor".into()),
            },
            RoleSpawnOverride {
                explicit: false,
                model: None,
                agent_type: None,
            },
        ],
    );
    assert_eq!(
        request.model.as_deref(),
        Some("pool-0-model"),
        "skeptic 0 must carry pool[0]'s model on the request",
    );
    assert_eq!(request.subagent_type, "final-verifier");
    assert_eq!(
        request.harness_agent_type.as_deref(),
        Some("cursor"),
        "skeptic 0 must carry pool[0]'s agent_type as the harness override",
    );
    assert!(request.resume_from.is_none());
}

#[test]
fn channel_spawner_inherit_index_leaves_model_none() {
    let request = request(
        "clf-x",
        vec![RoleSpawnOverride {
            explicit: false,
            model: None,
            agent_type: None,
        }],
    );
    assert!(
        request.model.is_none(),
        "inherit index must not set a model",
    );
    assert!(
        request.harness_agent_type.is_none(),
        "inherit index must not pin a harness — it inherits the session harness",
    );
    assert_eq!(request.subagent_type, "final-verifier");
}

#[test]
fn build_subagent_trace_items_shapes_a_task_call_pair() {
    let items = build_subagent_trace_items(
        "spawn_subagent",
        "verifier-7",
        "goal-verifier",
        "Verify goal completion",
        "Adversarially verify the objective.",
        "Refuted",
        "<subagent_result>\nsubagent_id: verifier-7\n</subagent_result>",
    );
    assert_eq!(items.len(), 2);

    let TraceItem::ToolCall {
        id,
        name,
        arguments,
    } = &items[0]
    else {
        panic!("first item must be an assistant tool-call message");
    };
    assert_eq!(id, "verifier-7");
    assert_eq!(name, "spawn_subagent");
    let args: serde_json::Value = serde_json::from_str(arguments).unwrap();
    assert_eq!(args["subagent_type"], "goal-verifier");
    assert_eq!(args["description"], "Verify goal completion");
    assert_eq!(args["prompt"], "Adversarially verify the objective.");
    assert_eq!(args.to_string(), *arguments);

    let TraceItem::ToolResult {
        tool_call_id,
        content,
    } = &items[1]
    else {
        panic!("second item must be a tool result");
    };
    assert_eq!(tool_call_id, "verifier-7");
    assert!(content.contains("Refuted"), "must carry the raw output");
    assert!(
        content.contains("<subagent_result>"),
        "tool_result must carry the subagent_result footer:\n{content}"
    );
    assert!(
        content.contains("subagent_id: verifier-7"),
        "footer must expose the subagent/child-session id:\n{content}"
    );
}

#[test]
fn only_what_ran_is_traced() {
    assert_eq!(traced_output(&Ok("out".into())).as_deref(), Some("out"));
    let failed = SpawnError::Runtime {
        message: "crash".into(),
        cancelled: false,
    };
    assert_eq!(traced_output(&Err(failed)).as_deref(), Some("crash"));
    assert_eq!(
        traced_output(&Err(SpawnError::Transport("closed".into()))),
        None
    );
}

fn manifest(files: &[(&str, &str)]) -> ArtifactManifest {
    let listing: String = files.iter().map(|(path, _)| format!("{path}\0")).collect();
    let mut builder = ManifestBuilder::of_listing(&listing).unwrap();
    while let Some(path) = builder.next() {
        let (_, text) = files.iter().find(|(name, _)| *name == path).unwrap();
        let found = Found::File {
            len: text.len() as u64,
        };
        builder.inspect(&found).unwrap();
        builder.record_file(&text.as_bytes().to_vec(), false);
    }
    builder.finish()
}

#[test]
fn baseline_is_what_git_prints() {
    assert_eq!(baseline_commit(true, "abc123\n").as_deref(), Some("abc123"));
    assert_eq!(baseline_commit(true, " \n"), None);
    assert_eq!(baseline_commit(false, "abc123"), None);
}

#[test]
fn unsafe_verifier_id_does_not_begin() {
    assert!(VerificationStage::begin("/tmp/ds-goal-x", "/tmp", "../../etc", "r", 1).is_none());
}

#[test]
fn failed_stage_says_why() {
    let reason = GoalClassifierFailOpenReason::Timeout;
    assert!(fail_open_placeholder(reason)
        .starts_with("# Verification infrastructure failure: timeout\n"));
    let failed = fail_open(reason, "/d", true);
    assert!(!failed.panel_ran);
    assert!(matches!(
        failed.outcome,
        GoalClassifierOutcome::FailOpenAchieved { details_path, .. } if details_path == "/d"
    ));
    assert!(matches!(
        fail_open(reason, "/d", false).outcome,
        GoalClassifierOutcome::FailOpenAchieved { details_path, .. } if details_path.is_empty()
    ));
    assert!(details_are_there(DetailsSpot::Written, false));
    assert!(details_are_there(DetailsSpot::Free, true));
    assert!(!details_are_there(DetailsSpot::Free, false));
    assert!(!details_are_there(DetailsSpot::Taken, true));
}

fn two_facets() -> FacetSet {
    let mut facets = FacetSet::new();
    facets.insert(VerificationFacet::Analysis);
    facets.insert(VerificationFacet::StateRegression);
    facets
}

#[test]
fn aggregate_receipt_is_persisted_once_with_round_bindings() {
    let results = [vote(0, false, FREE), vote(1, false, FREE)];
    let text = aggregate_receipt(
        "goal-1",
        "round-1",
        "sha256:contract",
        "sha256:manifest",
        &two_facets(),
        &results,
        true,
    );
    let persisted: serde_json::Value = serde_json::from_str(&text).unwrap();
    assert_eq!(persisted["goal_id"], "goal-1");
    assert_eq!(persisted["verification_round_id"], "round-1");
    assert_eq!(persisted["contract_digest"], "sha256:contract");
    assert_eq!(
        persisted["reviewed_artifact_manifest_digest"],
        "sha256:manifest"
    );
    assert_eq!(persisted["achieved"], true);
    assert_eq!(serde_json::to_string_pretty(&persisted).unwrap(), text);
}

#[test]
fn contract_is_json_with_a_digest() {
    let text = contract_json("g", "do \"it\"", "# Plan\n", &two_facets(), "sha256:m");
    let value: serde_json::Value = serde_json::from_str(&text).unwrap();
    assert_eq!(value["objective"], "do \"it\"");
    assert_eq!(value["applicable_facets"][1], "state-regression");
    assert_eq!(value["schema_version"], 1);
    assert_eq!(value.to_string(), text);
    assert_eq!(
        contract_digest(&text),
        ds_verify::digest::digest_bytes(text.as_bytes())
    );
}

#[test]
fn round_is_judged_by_six_documents() {
    let all = round_artifacts("o", "f", "p", "d", "m", "c");
    let paths: Vec<&str> = all.iter().map(|a| a.path.as_str()).collect();
    assert_eq!(paths[0], ".ds-verification/objective.txt");
    assert_eq!(paths[5], ".ds-verification/contract.json");
    assert_eq!(all.len(), 6);
    assert_eq!(all[3].bytes, b"d");
}
