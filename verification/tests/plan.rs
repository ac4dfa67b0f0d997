use ds_verify::facets::{
    canonical_facet, canonical_gate, canonical_math_gate, facet_lenses, gates_for_facet, kind_lens,
    math_validation_gates, parse_goal_facets, parse_goal_kind, FacetSet, GoalKind,
    VerificationFacet, KIND_LENS_ANALYSIS, KIND_LENS_CODE_CHANGE, KIND_LENS_MATH,
    KIND_LENS_RESEARCH,
};
use ds_verify::plan::{
    affirmative_gate_mention, has_verification_step_tag, is_gating_verification_item,
    is_markdown_list_item, numbered_item_body, plan_has_adversarial_math_gate,
    plan_has_complete_math_gate_coverage, plan_requires_math_adversarial,
    plan_requires_math_adversarial_source_aware, validate_math_plan_contract,
    validate_math_plan_contract_source_aware, validate_plan_contract, verification_plan_items,
};
use ds_verify::sources::{
    classify_facets, named_local_source_candidates, objective_suggests_code_change,
    objective_suggests_math, source_accepted, source_attempts, SourceCrawl, SourceRequest,
    MAX_FILES, MAX_FILE_BYTES, MAX_TOTAL_BYTES,
};

#[test]
fn verifier_prompt_pins_code_correctness_floor() {
    assert!(KIND_LENS_CODE_CHANGE.contains("Code-correctness floor"));
    assert!(KIND_LENS_CODE_CHANGE.contains("applies EVEN under the End-to-end EXCEPTION"));
    assert!(KIND_LENS_CODE_CHANGE
        .contains("excuses the *runtime* proof, never a defect you can read in the source"));
    assert!(KIND_LENS_CODE_CHANGE.contains("READ the shipped code"));
    assert!(KIND_LENS_CODE_CHANGE.contains("not only the ones the plan enumerated"));
    assert!(KIND_LENS_CODE_CHANGE.contains("absent, a no-op, dead, or wired to nothing"));
    assert!(KIND_LENS_CODE_CHANGE
        .contains("domain-agnostic: CLI, service, library, data job, UI, game"));
    assert!(KIND_LENS_CODE_CHANGE.contains("FLOOR for the objective's CORE purpose ONLY"));
    assert!(KIND_LENS_CODE_CHANGE.contains(
        "do NOT extend it to polish, fidelity, extra scope, edge/error handling, or robustness"
    ));
    assert!(KIND_LENS_CODE_CHANGE.contains("never invent scope beyond the contract"));
    assert!(KIND_LENS_CODE_CHANGE.contains("does not rise between rounds"));
}

#[test]
fn verifier_prompt_pins_launch_failure_not_flakiness() {
    assert!(KIND_LENS_CODE_CHANGE.contains("is a defect, NOT flakiness"));
    assert!(KIND_LENS_CODE_CHANGE.contains("cherry-picked success supersede it"));
    assert!(KIND_LENS_CODE_CHANGE.contains("DISAGREE across attempts"));
    assert!(KIND_LENS_CODE_CHANGE.contains("consensus on the CAUSE"));
    assert!(KIND_LENS_CODE_CHANGE.contains("attribute EVERY failure by the cause test"));
    assert!(KIND_LENS_CODE_CHANGE.contains("a wrong/empty CLI output"));
    assert!(KIND_LENS_CODE_CHANGE.contains("an error response body"));
}

#[test]
fn verifier_prompt_pins_present_is_not_correct() {
    assert!(KIND_LENS_CODE_CHANGE.contains("PRIMARY OBSERVABLE is CORRECT"));
    assert!(KIND_LENS_CODE_CHANGE.contains("not merely present or non-empty"));
    assert!(KIND_LENS_CODE_CHANGE.contains("a server's response body (not just HTTP 200)"));
    assert!(KIND_LENS_CODE_CHANGE
        .contains("a driven input produces the expected visible/state change"));
    assert!(KIND_LENS_CODE_CHANGE.contains("drawing dimensions equal the intended/target size"));
    assert!(KIND_LENS_CODE_CHANGE.contains("SUBSTANTIALLY filled"));
    assert!(KIND_LENS_CODE_CHANGE.contains("NOT a `> 0 pixels` check"));
    assert!(!KIND_LENS_CODE_CHANGE.contains("non-background rendering"));
    assert!(KIND_LENS_CODE_CHANGE.contains("plus the strong primary-observable bar below"));
    assert!(KIND_LENS_CODE_CHANGE.contains("\"exists / non-empty / exited 0\""));
    assert!(KIND_LENS_CODE_CHANGE.contains("is INSUFFICIENT"));
    assert!(KIND_LENS_CODE_CHANGE.contains("request the stronger gate"));
}

#[test]
fn verifier_prompt_pins_environmental_fallback_bound_preserved() {
    assert!(KIND_LENS_CODE_CHANGE.contains(
        "that honest failure capture plus the static fallback IS the accepted bar"
    ));
    assert!(KIND_LENS_CODE_CHANGE.contains("Route by CAUSE, not frequency"));
    assert!(KIND_LENS_CODE_CHANGE.contains("whether every time or only intermittently"));
    assert!(KIND_LENS_CODE_CHANGE.contains("never forces a refute"));
    assert!(KIND_LENS_CODE_CHANGE.contains("cannot run or observe it"));
    assert!(KIND_LENS_CODE_CHANGE.contains("refutes even when only some runs show it"));
    assert!(KIND_LENS_CODE_CHANGE.contains("never an unverifiable environment"));
    assert!(KIND_LENS_CODE_CHANGE.contains("cannot reliably read back the primary observable"));
    assert!(KIND_LENS_CODE_CHANGE.contains("readback mechanism is unavailable or errors"));
    assert!(KIND_LENS_CODE_CHANGE
        .contains("that buffer IS the deliverable's output and a defect to refute"));
}

#[test]
fn parse_goal_kind_reads_the_tag() {
    let plan = "# Plan: x\n\n## Goal kind\n\ncode-change\n\n## Acceptance criteria\n1. a\n";
    assert_eq!(parse_goal_kind(plan), Some(GoalKind::CodeChange));
    assert_eq!(
        parse_goal_kind("## Goal kind\n`research`\n"),
        Some(GoalKind::Research)
    );
    assert_eq!(
        parse_goal_kind("## goal kind\nAnalysis\n"),
        Some(GoalKind::Analysis),
        "header + value matching is case-insensitive",
    );
    assert_eq!(
        parse_goal_kind("## Goal kind\nmath\n"),
        Some(GoalKind::Math)
    );
    assert_eq!(
        parse_goal_kind("## Goal kind\n`math-derivation`\n"),
        Some(GoalKind::Math)
    );
    assert_eq!(parse_goal_kind("## Goal kind\nbogus\n"), None);
    assert_eq!(parse_goal_kind("no kind section here\n"), None);
}

#[test]
fn parse_goal_kind_tolerates_emphasis_and_separator_variants() {
    for v in [
        "**code-change**",
        "code change",
        "code_change",
        "_analysis_",
    ] {
        let plan = format!("## Goal kind\n{v}\n");
        assert!(parse_goal_kind(&plan).is_some(), "variant must parse: {v}",);
    }
    assert_eq!(
        parse_goal_kind("## Goal kind\n**code change**\n"),
        Some(GoalKind::CodeChange),
    );
}

#[test]
fn composable_facets_preserve_hybrid_math_and_code() {
    let plan = "# Plan: solver\n\n## Goal facets\ncode, math, state-regression\n\n\
                ## Acceptance criteria\n1. correct solver\n\n## Verification plan\n1. gating: verify\n";
    let facets = parse_goal_facets(plan);
    assert!(facets.contains(&VerificationFacet::Code));
    assert!(facets.contains(&VerificationFacet::Math));
    assert!(facets.contains(&VerificationFacet::StateRegression));

    let objective = "Implement a solver and derive its governing equation from the mathematical specification.";
    let classified = classify_facets(objective, plan, false);
    assert!(classified.contains(&VerificationFacet::Code));
    assert!(classified.contains(&VerificationFacet::Math));
}

#[test]
fn paper_and_empirical_sources_activate_all_applicable_facets() {
    let objective = "Formulate a mathematical paper from cited \"source paper.pdf\".";
    let paper = classify_facets(objective, "", false);
    for facet in [
        VerificationFacet::Math,
        VerificationFacet::Sources,
        VerificationFacet::Citations,
        VerificationFacet::DocumentRender,
        VerificationFacet::StateRegression,
    ] {
        assert!(paper.contains(&facet), "paper missing {facet:?}");
    }

    let objective = "Analyze experimental data in \"measurements.csv\" and write a Results paper.";
    let empirical = classify_facets(objective, "", false);
    for facet in [
        VerificationFacet::Empirical,
        VerificationFacet::Math,
        VerificationFacet::Sources,
        VerificationFacet::DocumentRender,
        VerificationFacet::StateRegression,
    ] {
        assert!(
            empirical.contains(&facet),
            "empirical paper missing {facet:?}"
        );
    }
}

#[test]
fn non_math_document_task_is_not_spuriously_math() {
    let facets = classify_facets("Correct a documentation typo.", "", false);
    assert!(!facets.contains(&VerificationFacet::Math));
    assert!(facets.contains(&VerificationFacet::Analysis));
    assert!(facets.contains(&VerificationFacet::StateRegression));
}

#[test]
fn typed_plan_validation_rejects_empty_bulleted_and_untagged_plans() {
    assert!(validate_plan_contract("").is_err());
    assert!(
        validate_plan_contract(
            "# Plan: x\n\n## Goal facets\ncode\n\n## Acceptance criteria\n- works\n\n\
             ## Verification plan\n1. gating: test it\n"
        )
        .is_err(),
        "acceptance criteria must be numbered"
    );
    assert!(
        validate_plan_contract(
            "# Plan: x\n\n## Goal facets\ncode\n\n## Acceptance criteria\n1. works\n\n\
             ## Verification plan\n1. run tests\n"
        )
        .is_err(),
        "verification steps must carry a typed gating/evidence tag"
    );
    assert!(validate_plan_contract(
        "# Plan: x\n\n## Goal facets\ncode, state-regression\n\n\
         ## Acceptance criteria\n1. works\n\n## Verification plan\n1. gating: run tests\n"
    )
    .is_ok());
}

#[test]
fn typed_plan_validation_accepts_markdown_decorated_tags() {
    let step = |tag: &str, body: &str| {
        format!(
            "# Plan: x\n\n## Goal facets\ncode\n\n## Acceptance criteria\n1. works\n\n\
             ## Verification plan\n1. {tag} {body}\n"
        )
    };
    for (tag, body) in [
        ("`gating`", "[contract-closure] — parse the artifact"),
        ("`evidence`", "capture the compile log"),
        ("**gating**", "run the real entry point"),
        ("_evidence_", "record the observed output"),
        ("gating:", "run tests"),
        ("evidence:", "run tests"),
        ("gating", "run tests"),
    ] {
        assert!(
            validate_plan_contract(&step(tag, body)).is_ok(),
            "tag {tag:?} should be accepted"
        );
    }
    assert!(validate_plan_contract(&step("contract-closure", "parse")).is_err());
}

#[test]
fn negated_math_gate_language_cannot_satisfy_coverage() {
    let plan = "# Plan: proof\n\n## Goal facets\nmath, state-regression\n\n\
                ## Acceptance criteria\n1. result is correct\n\n## Verification plan\n\
                1. gating: independently recompute, but do not check contract-closure; \
                check derivation-integrity, evidence-provenance, invariant-ledger, and \
                state-isolation\n";
    assert!(validate_plan_contract(plan).is_ok());
    assert!(validate_math_plan_contract("derive the result", plan).is_err());
}

#[test]
fn verifier_prompts_pin_claim_bound_math_approval_schema() {
    for gate in [
        "contract-closure",
        "derivation-integrity",
        "evidence-provenance",
        "invariant-ledger",
        "state-isolation",
    ] {
        assert!(
            kind_lens(Some(GoalKind::Math)).contains(&format!("`{gate}`")),
            "math lens missing gate {gate}"
        );
    }
}

#[test]
fn verifier_prompt_pins_missing_tests_not_a_refute_reframing() {
    assert!(kind_lens(Some(GoalKind::CodeChange))
        .contains("actively HUNT for real bugs, issues, and gaps"));
}

#[test]
fn kind_lens_selects_per_kind_block_and_empty_for_none() {
    assert!(kind_lens(Some(GoalKind::CodeChange)).contains("Code-change review lens"));
    assert!(kind_lens(Some(GoalKind::CodeChange)).contains("unguarded `module.exports`"));
    assert!(kind_lens(Some(GoalKind::Research)).contains("Research fact-check lens"));
    assert!(kind_lens(Some(GoalKind::Research)).contains("available read tools"));
    assert!(kind_lens(Some(GoalKind::Analysis)).contains("Analysis soundness lens"));
    assert!(kind_lens(Some(GoalKind::Math)).contains("Math / quantitative correctness lens"));
    assert!(kind_lens(Some(GoalKind::Math)).contains("actual final artifact"));
    assert!(kind_lens(Some(GoalKind::Math)).contains("For a short derivation"));
    assert!(kind_lens(Some(GoalKind::Math)).contains("residual/substitution"));
    assert!(kind_lens(Some(GoalKind::Math)).contains("equivalent notation"));
    for gate in math_validation_gates() {
        assert!(
            kind_lens(Some(GoalKind::Math)).contains(gate),
            "math lens missing {gate}"
        );
    }
    assert!(kind_lens(Some(GoalKind::Math)).contains("correct final formula"));
    assert!(kind_lens(Some(GoalKind::Math)).contains("unbound successful run"));
    assert!(kind_lens(Some(GoalKind::Math)).contains("whole-artifact rewrite loss"));
    assert!(kind_lens(Some(GoalKind::Math))
        .contains("fixed log or manifest is not evidence by itself"));
    assert_eq!(kind_lens(None), "", "no kind ⇒ generic verifier, no lens");
}

#[test]
fn math_plan_contract_requires_kind_and_independent_gate() {
    let obj = "Derive the closed form of the integral and prove that it holds.";
    let five_gates = "contract-closure; derivation-integrity; evidence-provenance; \
                      invariant-ledger; state-isolation";
    assert!(objective_suggests_math(obj));
    assert!(validate_math_plan_contract(
        "implement a REST API",
        "# Plan\n## Goal kind\ncode-change\n"
    )
    .is_ok());

    let bad_kind =
        "## Goal kind\nanalysis\n## Verification plan\n1. gating: adversarial recompute\n";
    assert!(validate_math_plan_contract(obj, bad_kind).is_err());

    let no_gate = "## Goal kind\nmath\n## Verification plan\n1. evidence: file exists\n";
    assert!(validate_math_plan_contract(obj, no_gate).is_err());

    let good = format!(
        "## Goal kind\nmath\n## Verification plan\n\
         1. gating: attacker-math independently recomputes the requested results; {five_gates}\n"
    );
    assert!(validate_math_plan_contract(obj, &good).is_ok());

    let missing_state_isolation = "## Goal kind\nmath\n## Verification plan\n\
        1. gating: attacker-math independently recomputes every result; contract-closure; \
           derivation-integrity; evidence-provenance; invariant-ledger\n";
    assert_eq!(
        validate_math_plan_contract(obj, missing_state_isolation).unwrap_err(),
        "math plan's gating verification steps must cover contract-closure, \
         derivation-integrity, evidence-provenance, invariant-ledger, and state-isolation"
    );

    let signals_outside_verification = format!(
        "## Goal kind\nmath\n## Verification plan\n1. gating: compile the artifact\n\
         ## Risks / Contradictions\n- independent adversarial recomputation may be expensive; {five_gates}\n"
    );
    assert!(
        validate_math_plan_contract(obj, &signals_outside_verification).is_err(),
        "keywords outside the verification section must not count",
    );

    let split_steps = format!(
        "## Goal kind\nmath\n## Verification plan\n\
         1. gating: compile the artifact\n\
         2. evidence: attacker-math independently recomputes the results; {five_gates}\n"
    );
    assert!(
        validate_math_plan_contract(obj, &split_steps).is_err(),
        "gating and independent recomputation must belong to the same verification step",
    );

    let wrapped_good = format!(
        "## Goal kind\nmath\n## Verification plan\n\
         1. gating: direct independent computation against the actual\n\
            final artifact, including residuals and limiting cases; {five_gates}\n\
         ## Non-goals\n- preferred notation\n"
    );
    assert!(validate_math_plan_contract(obj, &wrapped_good).is_ok());

    for equivalent_check in [
        "independent recomputation of every requested result",
        "separately substitute the final expressions into the governing equations",
        "an alternative derivation of the threshold and branches",
        "adversarial numerical validation of the reported values",
    ] {
        let plan = format!(
            "## Goal kind\nmath\n## Verification plan\n\
             1. **gating**: {equivalent_check}; {five_gates}\n"
        );
        assert!(
            validate_math_plan_contract(obj, &plan).is_ok(),
            "equivalent independent-check wording must be accepted: {equivalent_check}",
        );
    }

    let sympy_name_only =
        "## Goal kind\nmath\n## Verification plan\n1. gating: record the SymPy version\n";
    assert!(
        validate_math_plan_contract(obj, sympy_name_only).is_err(),
        "mentioning a tool is not independent recomputation",
    );
}

/// Follows a crawl through files that are held in memory.
fn crawl(objective: &str, files: &[(&str, &str)]) -> bool {
    if objective_suggests_math(objective) {
        return true;
    }
    let mut crawl = SourceCrawl::new(objective, "/w");
    while let Some(request) = crawl.next() {
        let path = format!("{}/{}", request.base, request.raw);
        let Some((_, body)) = files.iter().find(|(name, _)| format!("/w/{name}") == path) else {
            continue;
        };
        if !crawl.visit(&path) {
            continue;
        }
        let len = body.len() as u64;
        if !crawl.fits(len) {
            continue;
        }
        if crawl.inspect("/w", request.depth, len, body) {
            return true;
        }
    }
    false
}

#[test]
fn quantitative_source_detection_follows_named_text_chain_without_tree_scan() {
    let files = [
        ("a.txt", "Read b.tex and complete every requested subpart.\n"),
        (
            "b.tex",
            "Derive the governing equation, state boundary conditions, and perform numerical validation.\n",
        ),
        ("c.md", "See d.txt for project release history.\n"),
        ("d.txt", "Release notes only.\n"),
    ];
    assert!(crawl("Start from a.txt and complete all.", &files));
    assert!(!crawl("Summarize c.md.", &files));
}

#[test]
fn named_files_are_looked_for_next_to_their_text_first() {
    let request = |base: &str, raw: &str| SourceRequest {
        base: base.into(),
        raw: raw.into(),
        depth: 0,
    };
    assert_eq!(
        source_attempts("/w", &request("/w/sub", "b.tex")),
        vec!["/w/sub/b.tex", "/w/b.tex"]
    );
    assert_eq!(source_attempts("/w", &request("/w", "b.tex")), vec!["/w/b.tex"]);
    assert_eq!(source_attempts("/w", &request("/w", "/x/b.tex")), vec!["/x/b.tex"]);
    assert!(source_accepted("/w", "/w/b.tex", true));
    assert!(!source_accepted("/w", "/w/b.tex", false));
    assert!(!source_accepted("/w", "/x/b.tex", true));
}

#[test]
fn crawl_stops_at_its_depth() {
    let files = [
        ("a.txt", "b.txt"),
        ("b.txt", "c.txt"),
        ("c.txt", "d.txt"),
        ("d.txt", "e.txt"),
        ("e.txt", "the derivation is here"),
    ];
    assert!(!crawl("see a.txt", &files));
    assert!(crawl("see b.txt", &files));
}

#[test]
fn crawl_visits_a_file_once_and_respects_its_bounds() {
    let mut c = SourceCrawl::new("a.txt a.md", "/w");
    assert_eq!(c.next().unwrap().raw, "a.md");
    assert!(c.visit("/w/a.md"));
    assert!(!c.visit("/w/a.md"));
    assert!(c.fits(MAX_FILE_BYTES));
    assert!(!c.fits(MAX_FILE_BYTES + 1));
    for len in [MAX_FILE_BYTES, MAX_FILE_BYTES, MAX_FILE_BYTES, MAX_FILE_BYTES - 1] {
        assert!(!c.inspect("/w", 0, len, ""));
    }
    assert_eq!(4 * MAX_FILE_BYTES, MAX_TOTAL_BYTES);
    assert!(c.fits(1));
    assert!(!c.fits(2));
    assert_eq!(c.next().unwrap().raw, "a.txt");
    assert!(c.next().is_none());
    for _ in 4..MAX_FILES {
        assert!(!c.inspect("/w", 0, 0, "b.txt"));
    }
    assert!(c.next().is_none());
}

#[test]
fn named_sources_are_quoted_or_bare_and_sorted() {
    assert_eq!(
        named_local_source_candidates("see \"my notes.MD\" and src/x.rs. Or 'b.csv', x.exe, .txt"),
        vec!["b.csv", "my notes.MD", "notes.MD", "src/x.rs"]
    );
}

#[test]
fn code_objectives_are_recognized() {
    assert!(objective_suggests_code_change("Please IMPLEMENT the parser"));
    assert!(!objective_suggests_code_change("Explain the parser"));
}

#[test]
fn facets_and_gates_have_canonical_names() {
    assert_eq!(canonical_facet(" Code_Change "), Some(VerificationFacet::Code));
    assert_eq!(canonical_facet("physics"), Some(VerificationFacet::Math));
    assert_eq!(canonical_facet("other"), None);
    assert_eq!(
        canonical_math_gate("State Isolation/Artifact Freezing"),
        Some("state-isolation")
    );
    assert_eq!(canonical_math_gate("code-correctness"), None);
    assert_eq!(
        canonical_gate(VerificationFacet::Code, "Code Correctness"),
        Some("code-correctness")
    );
    assert_eq!(canonical_gate(VerificationFacet::Code, "state-isolation"), None);
    assert_eq!(
        canonical_gate(VerificationFacet::Math, "invariant_ledger_validation"),
        Some("invariant-ledger")
    );
    assert_eq!(gates_for_facet(VerificationFacet::Math).len(), 5);
    assert_eq!(VerificationFacet::DocumentRender.as_str(), "document-render");
}

#[test]
fn facet_section_is_read_to_its_end() {
    let facets = parse_goal_facets("## Goal facets\n- `math` + sources; bogus\n## Next\ncode\n");
    assert!(facets.contains(&VerificationFacet::Math));
    assert!(facets.contains(&VerificationFacet::Sources));
    assert!(!facets.contains(&VerificationFacet::Code));
    assert!(parse_goal_facets("nothing").is_empty());
    assert!(parse_goal_facets("## Goal kind\nresearch\n").contains(&VerificationFacet::Research));
}

#[test]
fn lenses_are_concatenated_once_each() {
    let mut facets = FacetSet::new();
    assert_eq!(facet_lenses(&facets), "");
    facets.insert(VerificationFacet::Empirical);
    facets.insert(VerificationFacet::Analysis);
    facets.insert(VerificationFacet::Math);
    facets.insert(VerificationFacet::Citations);
    assert_eq!(
        facet_lenses(&facets),
        format!("{KIND_LENS_ANALYSIS}{KIND_LENS_RESEARCH}{KIND_LENS_MATH}")
    );
}

#[test]
fn list_items_and_their_bodies() {
    assert_eq!(numbered_item_body("  12) body here "), Some("body here".to_string()));
    assert_eq!(numbered_item_body("1.body"), None);
    assert_eq!(numbered_item_body("1. "), None);
    assert_eq!(numbered_item_body("x"), None);
    assert!(is_markdown_list_item("  * item"));
    assert!(is_markdown_list_item("3. item"));
    assert!(!is_markdown_list_item("*item"));
}

#[test]
fn verification_items_continue_over_lines() {
    assert_eq!(
        verification_plan_items("x\n## verification PLAN\nstray\n1. One\n  More\n\n- Two\n## End\n3. no"),
        vec!["1. one more".to_string(), "- two".to_string()]
    );
}

#[test]
fn step_tags_are_read_through_decoration() {
    assert!(is_gating_verification_item("1. **gating**: x"));
    assert!(!is_gating_verification_item("1. do the gating"));
    assert!(has_verification_step_tag("(evidence) log"));
    assert!(!has_verification_step_tag(""));
}

#[test]
fn gates_are_affirmed_clause_by_clause() {
    assert!(affirmative_gate_mention(
        "skip contract-closure; check contract-closure",
        "contract-closure"
    ));
    assert!(!affirmative_gate_mention("without contract-closure", "contract-closure"));
    assert!(!affirmative_gate_mention("nothing", "contract-closure"));
    assert!(!affirmative_gate_mention(
        "skip contract-closure; do not check contract-closure",
        "contract-closure"
    ));
    assert!(affirmative_gate_mention("anything", ""));
    assert!(plan_has_adversarial_math_gate(
        "## Verification plan\n1. gating: recompute it\n"
    ));
    assert!(!plan_has_complete_math_gate_coverage(
        "## Verification plan\n1. gating: contract-closure\n"
    ));
}

#[test]
fn plan_faults_are_told_apart() {
    assert_eq!(
        validate_plan_contract("# Plan:  \n"),
        Err("plan must begin with a non-empty `# Plan:` heading")
    );
    assert_eq!(
        validate_plan_contract("# Plan: x\n"),
        Err("plan must declare at least one recognized goal facet")
    );
    assert_eq!(
        validate_plan_contract("# Plan: x\n## Goal facets\ncode\n"),
        Err("plan must contain a numbered acceptance criterion")
    );
    assert_eq!(
        validate_plan_contract("# Plan: x\n## Goal facets\ncode\n## Acceptance criteria\n1. a\n"),
        Err("plan must contain a numbered verification step")
    );
    assert_eq!(
        validate_plan_contract(
            "# Plan: x\n## Goal facets\ncode\n## Acceptance criteria\n1. a\n## Verification plan\n1. b\n"
        ),
        Err("every verification step must be tagged `gating` or `evidence`")
    );
}

#[test]
fn code_changes_keep_their_own_checks_whatever_words_they_use() {
    let objective = "Implement a solver and derive its stencil";
    let plan = "## Goal kind\ncode-change\n";
    assert!(plan_requires_math_adversarial(objective, "## Goal kind\nanalysis\n"));
    assert!(!plan_requires_math_adversarial(objective, plan));
    assert!(!plan_requires_math_adversarial_source_aware(objective, plan, true));
    assert!(validate_math_plan_contract(objective, plan).is_ok());
    assert!(plan_requires_math_adversarial(
        "tidy up",
        "## Goal kind\ncode-change\n## Goal facets\nmath\n"
    ));
}

#[test]
fn math_contract_knows_where_mathematics_was_found() {
    let plan = "## Goal kind\nanalysis\n";
    assert!(!plan_requires_math_adversarial("tidy up", plan));
    assert!(plan_requires_math_adversarial_source_aware("tidy up", plan, true));
    assert!(validate_math_plan_contract_source_aware("tidy up", plan, false).is_ok());
    assert_eq!(
        validate_math_plan_contract_source_aware("tidy up", plan, true),
        Err(
            "math/quantitative objective (incl. named sources) requires the `math` goal facet \
             so the math verifier lens applies"
        )
    );
    assert_eq!(
        validate_math_plan_contract("derive it: derivation", plan),
        Err(
            "math/quantitative objective requires the `math` goal facet so the math \
             verifier lens applies"
        )
    );
    assert_eq!(
        validate_math_plan_contract_source_aware("tidy up", "## Goal kind\nmath\n", true),
        Err(
            "math plan missing gating adversarial/independent recomputation step \
             in ## Verification plan"
        )
    );
}
