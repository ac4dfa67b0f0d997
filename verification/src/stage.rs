//! The verification stage: a fresh panel of skeptics on one frozen snapshot,
//! and the outcome that its votes amount to.

use vstd::prelude::*;
use vstd::string::*;
use vstd::utf8::encode_utf8;

use crate::digest::{digest_bytes, digest_text, json_string, json_string_of};
use crate::facets::{all_facets, facet_lenses, lenses, FacetSet, VerificationFacet};
use crate::fingerprint::{
    fingerprint, fingerprint_source, gap_fingerprint, refuter_fingerprint_source, slices,
};
use crate::manifest::{
    held_json, held_json_path, lookup, manifest_fault, ArtifactManifest, ManifestView,
    VirtualArtifact,
};
use crate::panel::{
    aggregate_skeptic_verdicts, build_gaps_summary, build_pause_summary, gaps_summary,
    law_every_refuter_is_heard, pause_summary, refuter_bullet, refuters, SkepticResult,
};
use crate::paths::{
    format_round_panel_details_path, join_path, path_fault, validate_details_path_in_root,
};
use crate::snapshot::{changed_paths, is_changed};
use crate::sources::{classify_facets, goal_facets};
use crate::text::{
    append, append_str, bool_str, bool_text, cat3, chars_of, contains, decimal, decimal_string,
    ends_with, is_sorted_set, join, join_of, lemma_contains_grows, lemma_contains_in_whole,
    lemma_contains_itself, lemma_contains_transitive, lemma_join_holds_its_parts, lemma_texts_push,
    opt, starts_with, string_of, strings, texts, trim, trim_of,
};
use crate::verdict::{SkepticBlocking, SkepticConfidence};

verus! {

// ---------------------------------------------------------------------------
// Limits

/// How often a goal may be classified, unless configured otherwise.
pub const GOAL_CLASSIFIER_MAX_RUNS_DEFAULT: u32 = 10;

/// The least that can be configured; with none nothing would be classified.
pub const GOAL_CLASSIFIER_MAX_RUNS_MIN: u32 = 1;

/// How large a diff may be that skeptics are shown, in bytes.
pub const GOAL_CLASSIFIER_DIFF_MAX_BYTES: usize = 262144;

/// How many skeptics judge a goal, unless configured otherwise.
pub const GOAL_VERIFIER_SKEPTIC_COUNT: u32 = 3;

pub const GOAL_VERIFIER_SKEPTIC_MIN: u32 = 1;

pub const GOAL_VERIFIER_SKEPTIC_MAX: u32 = 5;

pub open spec fn clamped_panel(count: u32) -> u32 {
    if count < GOAL_VERIFIER_SKEPTIC_MIN {
        GOAL_VERIFIER_SKEPTIC_MIN
    } else if count > GOAL_VERIFIER_SKEPTIC_MAX {
        GOAL_VERIFIER_SKEPTIC_MAX
    } else {
        count
    }
}

/// The size of the panel for a configured count.
pub fn panel_size(count: u32) -> (r: u32)
    ensures
        r == clamped_panel(count),
{
    if count < GOAL_VERIFIER_SKEPTIC_MIN {
        GOAL_VERIFIER_SKEPTIC_MIN
    } else if count > GOAL_VERIFIER_SKEPTIC_MAX {
        GOAL_VERIFIER_SKEPTIC_MAX
    } else {
        count
    }
}

// ---------------------------------------------------------------------------
// Outcomes

/// Why the stage could not come to a verdict.
#[derive(Clone, Copy, Debug, PartialEq, Eq, Structural)]
pub enum GoalClassifierFailOpenReason {
    Timeout,
    SamplerError,
    FileWriteFailed,
    Aborted,
}

impl GoalClassifierFailOpenReason {
    pub open spec fn name(self) -> &'static str {
        match self {
            GoalClassifierFailOpenReason::Timeout => "timeout",
            GoalClassifierFailOpenReason::SamplerError => "sampler_error",
            GoalClassifierFailOpenReason::FileWriteFailed => "file_write_failed",
            GoalClassifierFailOpenReason::Aborted => "aborted",
        }
    }

    pub fn as_const_str(self) -> (r: &'static str)
        ensures
            r == self.name(),
    {
        match self {
            GoalClassifierFailOpenReason::Timeout => "timeout",
            GoalClassifierFailOpenReason::SamplerError => "sampler_error",
            GoalClassifierFailOpenReason::FileWriteFailed => "file_write_failed",
            GoalClassifierFailOpenReason::Aborted => "aborted",
        }
    }
}

/// What an attempt to verify a goal comes to.
#[derive(Debug)]
pub enum GoalClassifierOutcome {
    /// Every skeptic approved.
    Achieved { details_path: String },
    /// Some skeptic refuted, and there is something to mend.
    NotAchieved {
        details_path: String,
        gaps_summary: String,
        pause_summary: String,
        gap_fingerprint: String,
    },
    /// Whoever refuted says that nothing can be mended: the user has to decide.
    Blocked { details_path: String, pause_summary: String },
    /// The stage itself failed. The goal pauses and is not approved; the path is
    /// empty where no details could be left.
    FailOpenAchieved { reason: GoalClassifierFailOpenReason, details_path: String },
}

/// An outcome, and whether a panel was behind it.
#[derive(Debug)]
pub struct VerificationStageResult {
    pub outcome: GoalClassifierOutcome,
    pub skeptic0_session_id: Option<String>,
    pub panel_ran: bool,
}

pub open spec fn placeholder_text(reason: GoalClassifierFailOpenReason) -> Seq<char> {
    "# Verification infrastructure failure: "@ + reason.name()@
        + "\n\nThe verification stage did not produce a verdict (infra-class failure). The goal was not approved; the harness pauses until a fresh verification round can run. No skeptic analysis was captured.\n\n## Reason\n\n"@
        + reason.name()@ + "\n"@
}

/// What is left in place of the details where the stage failed.
pub fn fail_open_placeholder(reason: GoalClassifierFailOpenReason) -> (r: String)
    ensures
        r@ == placeholder_text(reason),
{
    let name = reason.as_const_str();
    crate::text::cat5(
        "# Verification infrastructure failure: ",
        name,
        "\n\nThe verification stage did not produce a verdict (infra-class failure). The goal was not approved; the harness pauses until a fresh verification round can run. No skeptic analysis was captured.\n\n## Reason\n\n",
        name,
        "\n",
    )
}

/// What stands at the path of the details before the placeholder is written.
#[derive(Clone, Copy, Debug, PartialEq, Eq, Structural)]
pub enum DetailsSpot {
    /// A regular file with contents.
    Written,
    /// Nothing.
    Free,
    /// Something that must not be written over, or that cannot be told.
    Taken,
}

/// Whether details stand at the path in the end, where `wrote` says whether
/// writing the placeholder to a free spot succeeded.
pub fn details_are_there(spot: DetailsSpot, wrote: bool) -> (r: bool)
    ensures
        r <==> spot == DetailsSpot::Written || (spot == DetailsSpot::Free && wrote),
{
    match spot {
        DetailsSpot::Written => true,
        DetailsSpot::Free => wrote,
        DetailsSpot::Taken => false,
    }
}

/// The outcome of a stage that failed. A path is given only where details stand
/// there.
pub fn fail_open(
    reason: GoalClassifierFailOpenReason,
    details_path: &str,
    details_there: bool,
) -> (r: VerificationStageResult)
    ensures
        r.outcome is FailOpenAchieved,
        r.outcome->reason == reason,
        r.outcome->FailOpenAchieved_details_path@ == (if details_there {
            details_path@
        } else {
            Seq::empty()
        }),
        r.skeptic0_session_id is None,
        !r.panel_ran,
{
    let path = if details_there {
        details_path.to_owned()
    } else {
        String::new()
    };
    VerificationStageResult {
        outcome: GoalClassifierOutcome::FailOpenAchieved { reason, details_path: path },
        skeptic0_session_id: None,
        panel_ran: false,
    }
}

// ---------------------------------------------------------------------------
// The decision

/// Every one of `n` skeptics approved with an accepted verdict.
pub open spec fn is_achieved(results: Seq<SkepticResult>, n: u32) -> bool {
    results.len() == n && n > 0 && forall|i: int|
        0 <= i < results.len() ==> !(#[trigger] results[i]).refuted && results[i].fallback_note is None
}

/// Someone refuted, and whoever did says that nothing can be mended.
pub open spec fn is_blocked(results: Seq<SkepticResult>) -> bool {
    (exists|i: int| 0 <= i < results.len() && (#[trigger] results[i]).refuted) && forall|i: int|
        0 <= i < results.len() && (#[trigger] results[i]).refuted ==> results[i].blocking
            != SkepticBlocking::NonBlocking
}

/// What the first `n` results say for the fingerprint, of those that refute.
pub open spec fn refuting_evidence(results: Seq<SkepticResult>, n: int) -> Seq<Seq<char>>
    decreases n,
{
    if n <= 0 {
        seq![]
    } else if results[n - 1].refuted {
        refuting_evidence(results, n - 1).push(fingerprint_source(results[n - 1]))
    } else {
        refuting_evidence(results, n - 1)
    }
}

/// Whether `outcome` is what the votes of a panel of `n` amount to.
pub open spec fn outcome_of(
    results: Seq<SkepticResult>,
    n: u32,
    details_path: Seq<char>,
    outcome: GoalClassifierOutcome,
) -> bool {
    if is_achieved(results, n) {
        outcome is Achieved && outcome->Achieved_details_path@ == details_path
    } else if is_blocked(results) {
        outcome is Blocked && outcome->Blocked_details_path@ == details_path
            && outcome->Blocked_pause_summary@ == pause_summary(results)
    } else {
        outcome is NotAchieved && outcome->NotAchieved_details_path@ == details_path
            && outcome->gaps_summary@ == gaps_summary(results)
            && outcome->NotAchieved_pause_summary@ == pause_summary(results)
            && outcome->gap_fingerprint@ == fingerprint(
            refuting_evidence(results, results.len() as int),
        )
    }
}

/// Whether the panel achieved unanimous approval.
pub fn panel_achieved(results: &[SkepticResult], n: u32) -> (r: bool)
    ensures
        r == is_achieved(results@, n),
{
    if results.len() != n as usize || n == 0 {
        return false;
    }
    let mut i: usize = 0;
    while i < results.len()
        invariant
            i <= results@.len(),
            forall|k: int|
                0 <= k < i ==> !(#[trigger] results@[k]).refuted && results@[k].fallback_note is None,
        decreases results@.len() - i,
    {
        if results[i].refuted || results[i].fallback_note.is_some() {
            return false;
        }
        i += 1;
    }
    true
}

fn panel_blocked(results: &[SkepticResult]) -> (r: bool)
    ensures
        r == is_blocked(results@),
{
    let mut refuted = false;
    let mut i: usize = 0;
    while i < results.len()
        invariant
            i <= results@.len(),
            refuted <==> exists|k: int| 0 <= k < i && (#[trigger] results@[k]).refuted,
            forall|k: int|
                0 <= k < i && (#[trigger] results@[k]).refuted ==> results@[k].blocking
                    != SkepticBlocking::NonBlocking,
        decreases results@.len() - i,
    {
        if results[i].refuted {
            if !results[i].blocking.is_blocking() {
                return false;
            }
            refuted = true;
        }
        i += 1;
    }
    refuted
}

fn panel_fingerprint(results: &[SkepticResult]) -> (r: String)
    ensures
        r@ == fingerprint(refuting_evidence(results@, results@.len() as int)),
{
    let mut evidence: Vec<&str> = Vec::new();
    let mut n: usize = 0;
    proof {
        assert(slices(evidence@) =~= refuting_evidence(results@, 0));
    }
    while n < results.len()
        invariant
            n <= results@.len(),
            slices(evidence@) == refuting_evidence(results@, n as int),
        decreases results@.len() - n,
    {
        if results[n].refuted {
            let source = refuter_fingerprint_source(&results[n]);
            proof {
                assert(slices(evidence@.push(source)) =~= slices(evidence@).push(source@));
            }
            evidence.push(source);
        }
        n += 1;
    }
    gap_fingerprint(evidence.as_slice())
}

/// Turns the votes of a panel of `n` into the outcome of the stage.
pub fn panel_outcome(results: &[SkepticResult], n: u32, details_path: &str) -> (r:
    VerificationStageResult)
    ensures
        outcome_of(results@, n, details_path@, r.outcome),
        r.skeptic0_session_id is None,
        r.panel_ran,
{
    let path = details_path.to_owned();
    let outcome = if panel_achieved(results, n) {
        GoalClassifierOutcome::Achieved { details_path: path }
    } else if panel_blocked(results) {
        GoalClassifierOutcome::Blocked {
            details_path: path,
            pause_summary: build_pause_summary(results),
        }
    } else {
        GoalClassifierOutcome::NotAchieved {
            details_path: path,
            gaps_summary: build_gaps_summary(results),
            pause_summary: build_pause_summary(results),
            gap_fingerprint: panel_fingerprint(results),
        }
    };
    VerificationStageResult { outcome, skeptic0_session_id: None, panel_ran: true }
}

/// Approval is unanimous: one refutation, or one skeptic without an accepted
/// verdict, keeps a goal from being achieved, whatever the others say.
pub proof fn law_one_refutation_blocks_approval(
    results: Seq<SkepticResult>,
    n: u32,
    details_path: Seq<char>,
    outcome: GoalClassifierOutcome,
    i: int,
)
    requires
        outcome_of(results, n, details_path, outcome),
        0 <= i < results.len(),
        results[i].refuted || results[i].fallback_note is Some,
    ensures
        !(outcome is Achieved),
{
}

/// A goal that someone refutes with something to mend is sent back to be mended,
/// and not to the user.
pub proof fn law_fixable_gap_is_not_blocked(
    results: Seq<SkepticResult>,
    n: u32,
    details_path: Seq<char>,
    outcome: GoalClassifierOutcome,
    i: int,
)
    requires
        outcome_of(results, n, details_path, outcome),
        0 <= i < results.len(),
        results[i].refuted,
        results[i].blocking == SkepticBlocking::NonBlocking,
    ensures
        outcome is NotAchieved,
{
}

/// Where someone refutes, and everyone who does says that the goal contradicts
/// itself or cannot be verified, there is nothing to mend: the user has to decide.
/// One such refuter is enough.
pub proof fn law_refuters_that_leave_nothing_to_mend_pause_the_goal(
    results: Seq<SkepticResult>,
    n: u32,
    details_path: Seq<char>,
    outcome: GoalClassifierOutcome,
    i: int,
)
    requires
        outcome_of(results, n, details_path, outcome),
        0 <= i < results.len(),
        results[i].refuted,
        forall|k: int|
            0 <= k < results.len() && (#[trigger] results[k]).refuted ==> results[k].blocking
                == SkepticBlocking::Contradiction || results[k].blocking
                == SkepticBlocking::Unverifiable,
    ensures
        outcome is Blocked,
        outcome->Blocked_details_path@ == details_path,
{
}

/// A goal pauses for the user only where someone refutes it.
pub proof fn law_only_a_refuted_goal_pauses(
    results: Seq<SkepticResult>,
    n: u32,
    details_path: Seq<char>,
    outcome: GoalClassifierOutcome,
)
    requires
        outcome_of(results, n, details_path, outcome),
        forall|k: int| 0 <= k < results.len() ==> !(#[trigger] results[k]).refuted,
    ensures
        outcome is Achieved || outcome is NotAchieved,
{
}

/// A panel never ends in an infrastructure failure. One that is whole and
/// unanimous always ends in approval, and nothing else does: not a panel that is
/// short of a vote, and not one on which somebody refutes or has no accepted
/// verdict.
pub proof fn law_unanimous_panel_achieves(
    results: Seq<SkepticResult>,
    n: u32,
    details_path: Seq<char>,
    outcome: GoalClassifierOutcome,
)
    requires
        outcome_of(results, n, details_path, outcome),
    ensures
        !(outcome is FailOpenAchieved),
        outcome is Achieved <==> is_achieved(results, n),
        outcome is Achieved <==> results.len() == n && n >= 1 && forall|i: int|
            0 <= i < results.len() ==> !(#[trigger] results[i]).refuted
                && results[i].fallback_note is None,
        outcome is Achieved ==> outcome->Achieved_details_path@ == details_path,
        outcome is NotAchieved ==> outcome->NotAchieved_details_path@ == details_path,
{
}

// ---------------------------------------------------------------------------
// The course of a stage

/// What the stage is about to do, in order.
#[derive(Clone, Copy, Debug, PartialEq, Eq, Structural)]
pub enum StagePhase {
    /// Secure the scratch root of the goal.
    ScratchRoot,
    /// Capture what changed.
    Changes,
    /// Read the plan.
    Plan,
    /// Read the manifest of the start of the goal.
    InitialManifest,
    /// Freeze the reviewed snapshot.
    Snapshot,
    /// Compare the snapshot with the start of the goal.
    StateComparison,
    /// Create the directory that keeps the rounds.
    AuditRoot,
    /// Create the directory of this round.
    RoundDir,
    /// Create the directory of its verdicts.
    VerdictDir,
    /// Store the manifest of the snapshot.
    StoredManifest,
    /// Store the contract.
    StoredContract,
    /// Run the skeptics.
    Panel,
    /// Write the aggregated details.
    Details,
    /// Hold the snapshot against its manifest once more.
    SnapshotRecheck,
    /// Hold the workspace against the snapshot once more.
    WorkspaceRecheck,
    /// Store the aggregate receipt.
    Receipt,
    /// Nothing more.
    Done,
    /// Give up.
    Failed,
}

impl StagePhase {
    /// The place of a phase in the course of the stage.
    pub open spec fn place(self) -> int {
        match self {
            StagePhase::ScratchRoot => 0,
            StagePhase::Changes => 1,
            StagePhase::Plan => 2,
            StagePhase::InitialManifest => 3,
            StagePhase::Snapshot => 4,
            StagePhase::StateComparison => 5,
            StagePhase::AuditRoot => 6,
            StagePhase::RoundDir => 7,
            StagePhase::VerdictDir => 8,
            StagePhase::StoredManifest => 9,
            StagePhase::StoredContract => 10,
            StagePhase::Panel => 11,
            StagePhase::Details => 12,
            StagePhase::SnapshotRecheck => 13,
            StagePhase::WorkspaceRecheck => 14,
            StagePhase::Receipt => 15,
            StagePhase::Done => 16,
            StagePhase::Failed => 17,
        }
    }

    pub open spec fn following(self) -> StagePhase {
        match self {
            StagePhase::ScratchRoot => StagePhase::Changes,
            StagePhase::Changes => StagePhase::Plan,
            StagePhase::Plan => StagePhase::InitialManifest,
            StagePhase::InitialManifest => StagePhase::Snapshot,
            StagePhase::Snapshot => StagePhase::StateComparison,
            StagePhase::StateComparison => StagePhase::AuditRoot,
            StagePhase::AuditRoot => StagePhase::RoundDir,
            StagePhase::RoundDir => StagePhase::VerdictDir,
            StagePhase::VerdictDir => StagePhase::StoredManifest,
            StagePhase::StoredManifest => StagePhase::StoredContract,
            StagePhase::StoredContract => StagePhase::Panel,
            StagePhase::Panel => StagePhase::Details,
            StagePhase::Details => StagePhase::SnapshotRecheck,
            StagePhase::SnapshotRecheck => StagePhase::WorkspaceRecheck,
            StagePhase::WorkspaceRecheck => StagePhase::Receipt,
            StagePhase::Receipt => StagePhase::Done,
            StagePhase::Done => StagePhase::Done,
            StagePhase::Failed => StagePhase::Failed,
        }
    }

    pub fn next(self) -> (r: StagePhase)
        ensures
            r == self.following(),
    {
        match self {
            StagePhase::ScratchRoot => StagePhase::Changes,
            StagePhase::Changes => StagePhase::Plan,
            StagePhase::Plan => StagePhase::InitialManifest,
            StagePhase::InitialManifest => StagePhase::Snapshot,
            StagePhase::Snapshot => StagePhase::StateComparison,
            StagePhase::StateComparison => StagePhase::AuditRoot,
            StagePhase::AuditRoot => StagePhase::RoundDir,
            StagePhase::RoundDir => StagePhase::VerdictDir,
            StagePhase::VerdictDir => StagePhase::StoredManifest,
            StagePhase::StoredManifest => StagePhase::StoredContract,
            StagePhase::StoredContract => StagePhase::Panel,
            StagePhase::Panel => StagePhase::Details,
            StagePhase::Details => StagePhase::SnapshotRecheck,
            StagePhase::SnapshotRecheck => StagePhase::WorkspaceRecheck,
            StagePhase::WorkspaceRecheck => StagePhase::Receipt,
            StagePhase::Receipt => StagePhase::Done,
            StagePhase::Done => StagePhase::Done,
            StagePhase::Failed => StagePhase::Failed,
        }
    }
}

/// A verification stage under way. What it has to do is done outside; how that
/// went decides how it goes on.
pub struct VerificationStage {
    phase: StagePhase,
    panel_size: u32,
    details_path: String,
    changed: Vec<String>,
    results: Vec<SkepticResult>,
    course: Ghost<Seq<StagePhase>>,
}

#[verifier::ext_equal]
pub struct StageView {
    pub phase: StagePhase,
    pub panel_size: u32,
    pub details_path: Seq<char>,
    /// What changed since the start of the goal.
    pub changed: Seq<Seq<char>>,
    pub results: Seq<SkepticResult>,
    /// The phases whose steps succeeded, in the order in which they did.
    pub course: Seq<StagePhase>,
}

impl View for VerificationStage {
    type V = StageView;

    closed spec fn view(&self) -> StageView {
        StageView {
            phase: self.phase,
            panel_size: self.panel_size,
            details_path: self.details_path@,
            changed: strings(self.changed@),
            results: self.results@,
            course: self.course@,
        }
    }
}

impl StageView {
    /// The steps that succeeded are those of the phases before this one, one
    /// after the other.
    pub open spec fn wf(self) -> bool {
        &&& forall|k: int|
            0 <= k < self.course.len() ==> (#[trigger] self.course[k]).place() == k
        &&& self.phase != StagePhase::Failed ==> self.course.len() == self.phase.place()
    }

    /// The stage after the step of its phase succeeded.
    pub open spec fn advanced(self) -> StageView {
        StageView {
            phase: self.phase.following(),
            course: self.course.push(self.phase),
            ..self
        }
    }

    pub open spec fn failed(self) -> StageView {
        StageView { phase: StagePhase::Failed, ..self }
    }
}

/// What to do where a step failed.
#[derive(Clone, Copy, Debug, PartialEq, Eq, Structural)]
pub enum StageFailure {
    /// Leave nothing behind: the place for it is not to be trusted.
    Bare,
    /// Leave a placeholder in place of the details.
    WithPlaceholder,
}

/// Two manifests that each hold together.
pub open spec fn comparable(a: ManifestView, b: ManifestView) -> bool {
    manifest_fault(a) is None && manifest_fault(b) is None
}

/// Nothing in the workspace differs from what was reviewed.
pub open spec fn held_still(now: ManifestView, reviewed: ManifestView) -> bool {
    comparable(now, reviewed) && forall|p: Seq<char>|
        !#[trigger] is_changed(now.entries, reviewed.entries, p)
}

impl VerificationStage {
    /// A stage for one round. None where its details would lie in an unsafe
    /// place: the stage fails without leaving anything behind.
    pub fn begin(
        scratch_root: &str,
        temp_root: &str,
        verifier_id: &str,
        round_id: &str,
        skeptic_count: u32,
    ) -> (r: Option<VerificationStage>)
        ensures
            ({
                let path = join_path(
                    scratch_root@,
                    "goal-classifier-"@ + verifier_id@ + "-"@ + round_id@ + ".md"@,
                );
                &&& r is None <==> path_fault(path, temp_root@) is Some
                &&& r is Some ==> r->0@ == (StageView {
                    phase: StagePhase::ScratchRoot,
                    panel_size: clamped_panel(skeptic_count),
                    details_path: path,
                    changed: seq![],
                    results: seq![],
                    course: seq![],
                }) && r->0@.wf()
            }),
    {
        let details_path = format_round_panel_details_path(scratch_root, verifier_id, round_id);
        if validate_details_path_in_root(details_path.as_str(), temp_root).is_err() {
            return None;
        }
        let stage = VerificationStage {
            phase: StagePhase::ScratchRoot,
            panel_size: panel_size(skeptic_count),
            details_path,
            changed: Vec::new(),
            results: Vec::new(),
            course: Ghost(Seq::empty()),
        };
        proof {
            assert(stage@.changed =~= seq![]);
        }
        Some(stage)
    }

    pub fn phase(&self) -> (r: StagePhase)
        ensures
            r == self@.phase,
    {
        self.phase
    }

    pub fn panel_size(&self) -> (r: u32)
        ensures
            r == self@.panel_size,
    {
        self.panel_size
    }

    pub fn details_path(&self) -> (r: &str)
        ensures
            r@ == self@.details_path,
    {
        self.details_path.as_str()
    }

    pub fn changed(&self) -> (r: &Vec<String>)
        ensures
            strings(r@) == self@.changed,
    {
        &self.changed
    }

    pub fn results(&self) -> (r: &Vec<SkepticResult>)
        ensures
            r@ == self@.results,
    {
        &self.results
    }

    fn enter(&mut self, phase: StagePhase)
        requires
            phase == old(self)@.phase.following(),
        ensures
            final(self)@ == old(self)@.advanced(),
    {
        proof {
            self.course@ = self.course@.push(self.phase);
        }
        self.phase = phase;
    }

    /// Goes on to the next phase where the step of this phase succeeded, and
    /// fails otherwise. The comparisons and the panel have steps of their own.
    pub fn advance(&mut self, ok: bool) -> (r: Option<StageFailure>)
        requires
            old(self)@.wf(),
            old(self)@.phase != StagePhase::StateComparison,
            old(self)@.phase != StagePhase::Panel,
            old(self)@.phase != StagePhase::WorkspaceRecheck,
            old(self)@.phase != StagePhase::Done,
            old(self)@.phase != StagePhase::Failed,
        ensures
            final(self)@.wf(),
            ok ==> r is None && final(self)@ == old(self)@.advanced(),
            !ok ==> final(self)@ == old(self)@.failed() && r == Some(
                if old(self)@.phase == StagePhase::ScratchRoot {
                    StageFailure::Bare
                } else {
                    StageFailure::WithPlaceholder
                },
            ),
    {
        if ok {
            self.enter(self.phase.next());
            return None;
        }
        let failure = match self.phase {
            StagePhase::ScratchRoot => StageFailure::Bare,
            _ => StageFailure::WithPlaceholder,
        };
        self.phase = StagePhase::Failed;
        Some(failure)
    }

    /// Compares the reviewed snapshot with the start of the goal, and keeps what
    /// changed. Fails where one of the manifests does not hold together.
    pub fn compare_state(&mut self, initial: &ArtifactManifest, reviewed: &ArtifactManifest) -> (r:
        Option<StageFailure>)
        requires
            old(self)@.wf(),
            old(self)@.phase == StagePhase::StateComparison,
        ensures
            final(self)@.wf(),
            comparable(initial@, reviewed@) ==> {
                &&& r is None
                &&& final(self)@ == (StageView {
                    changed: final(self)@.changed,
                    ..old(self)@.advanced()
                })
                &&& is_sorted_set(final(self)@.changed)
                &&& forall|p: Seq<char>| #[trigger]
                    final(self)@.changed.contains(p) <==> is_changed(
                        initial@.entries,
                        reviewed@.entries,
                        p,
                    )
            },
            !comparable(initial@, reviewed@) ==> r == Some(StageFailure::WithPlaceholder)
                && final(self)@ == old(self)@.failed(),
    {
        match changed_paths(initial, reviewed) {
            Ok(paths) => {
                self.changed = paths;
                self.enter(StagePhase::AuditRoot);
                None
            },
            Err(_) => {
                self.phase = StagePhase::Failed;
                Some(StageFailure::WithPlaceholder)
            },
        }
    }

    /// Holds the workspace, as it was captured after the panel, against what was
    /// reviewed. The stage fails unless it could be captured and held still.
    pub fn recheck_workspace(
        &mut self,
        now: &Result<ArtifactManifest, String>,
        reviewed: &ArtifactManifest,
    ) -> (r: Option<StageFailure>)
        requires
            old(self)@.wf(),
            old(self)@.phase == StagePhase::WorkspaceRecheck,
        ensures
            final(self)@.wf(),
            now is Ok && held_still(now->Ok_0@, reviewed@) ==> r is None && final(self)@ == old(
                self,
            )@.advanced(),
            !(now is Ok && held_still(now->Ok_0@, reviewed@)) ==> r == Some(
                StageFailure::WithPlaceholder,
            ) && final(self)@ == old(self)@.failed(),
    {
        let still = match now {
            Ok(now) => {
                match changed_paths(now, reviewed) {
                    Ok(paths) => {
                        let ghost all = strings(paths@);
                        proof {
                            assert(all.len() == paths@.len());
                            if paths@.len() > 0 {
                                assert(all.contains(all[0]));
                                assert(is_changed(now@.entries, reviewed@.entries, all[0]));
                            } else {
                                assert forall|p: Seq<char>| !is_changed(
                                    now@.entries,
                                    reviewed@.entries,
                                    p,
                                ) by {
                                    assert(!all.contains(p));
                                }
                            }
                        }
                        paths.len() == 0
                    },
                    Err(_) => false,
                }
            },
            Err(_) => false,
        };
        if still {
            self.enter(StagePhase::Receipt);
            None
        } else {
            self.phase = StagePhase::Failed;
            Some(StageFailure::WithPlaceholder)
        }
    }

    /// Takes the results of the panel in.
    pub fn take_panel(&mut self, results: Vec<SkepticResult>)
        requires
            old(self)@.wf(),
            old(self)@.phase == StagePhase::Panel,
        ensures
            final(self)@.wf(),
            final(self)@ == (StageView { results: results@, ..old(self)@.advanced() }),
    {
        self.results = results;
        self.enter(StagePhase::Details);
    }

    /// Whether the panel approved unanimously.
    pub fn achieved(&self) -> (r: bool)
        ensures
            r == is_achieved(self@.results, self@.panel_size),
    {
        panel_achieved(self.results.as_slice(), self.panel_size)
    }

    /// The outcome of a stage that went through.
    pub fn conclude(&self) -> (r: VerificationStageResult)
        requires
            self@.wf(),
            self@.phase == StagePhase::Done,
        ensures
            outcome_of(self@.results, self@.panel_size, self@.details_path, r.outcome),
            r.skeptic0_session_id is None,
            r.panel_ran,
    {
        panel_outcome(self.results.as_slice(), self.panel_size, self.details_path.as_str())
    }
}

/// A stage that reaches its end has gone through every phase, each once and in
/// its place: there is no outcome without a frozen snapshot, a panel on it, and
/// both found unchanged afterwards.
pub proof fn law_no_phase_is_skipped(stage: StageView, phase: StagePhase)
    requires
        stage.wf(),
        stage.phase == StagePhase::Done,
        phase != StagePhase::Done,
        phase != StagePhase::Failed,
    ensures
        stage.course[phase.place()] == phase,
        forall|k: int|
            0 <= k < stage.course.len() && #[trigger] stage.course[k] == phase ==> k
                == phase.place(),
{
    let at = stage.course[phase.place()];
    assert(at.place() == phase.place());
}

/// A workspace that held still is, path by path, what was reviewed, and none of
/// the harness's own files got into it.
pub proof fn law_held_still_workspace_is_what_was_reviewed(
    now: ManifestView,
    reviewed: ManifestView,
    path: Seq<char>,
)
    requires
        held_still(now, reviewed),
    ensures
        starts_with(path, ".ds-verification/"@) ==> lookup(now.entries, path) is None,
        !starts_with(path, ".ds-verification/"@) ==> lookup(now.entries, path) == lookup(
            reviewed.entries,
            path,
        ),
{
    assert(!is_changed(now.entries, reviewed.entries, path));
}

// ---------------------------------------------------------------------------
// The baseline of a goal

/// The commit that a goal starts from, by what git printed; none where git
/// failed or printed nothing.
pub fn baseline_commit(succeeded: bool, output: &str) -> (r: Option<String>)
    ensures
        opt(r) == (if succeeded && trim(output@).len() > 0 {
            Some(trim(output@))
        } else {
            None
        }),
{
    let commit = trim_of(&chars_of(output));
    if succeeded && commit.len() > 0 {
        Some(string_of(&commit))
    } else {
        None
    }
}

// ---------------------------------------------------------------------------
// What is reported

/// What the stage reports of a panel.
#[derive(Clone, Copy, Debug, PartialEq, Eq, Structural)]
pub enum PanelEvent {
    /// What one skeptic said.
    Skeptic {
        attempt: u32,
        skeptic_idx: u32,
        refuted: bool,
        confidence: SkepticConfidence,
        latency_ms: u64,
    },
    /// What the panel says as a whole.
    Aggregate { attempt: u32, refuted_count: u32, total: u32, achieved: bool },
}

/// What the stage reports of a round.
#[derive(Debug)]
pub enum RoundEvent {
    /// The round begins.
    Fired { attempt: u32, max_runs: u32, model_id: String },
    /// The panel has voted.
    Panel(PanelEvent),
    /// The round came to a verdict on the goal.
    Verdict { attempt: u32, achieved: bool, latency_ms: u64 },
    /// The stage itself failed.
    FailOpen { reason: GoalClassifierFailOpenReason, attempt: u32, latency_ms: u64 },
}

#[verifier::ext_equal]
pub enum EventView {
    Fired { attempt: u32, max_runs: u32, model_id: Seq<char> },
    Panel(PanelEvent),
    Verdict { attempt: u32, achieved: bool, latency_ms: u64 },
    FailOpen { reason: GoalClassifierFailOpenReason, attempt: u32, latency_ms: u64 },
}

impl View for RoundEvent {
    type V = EventView;

    open spec fn view(&self) -> EventView {
        match *self {
            RoundEvent::Fired { attempt, max_runs, model_id } => EventView::Fired {
                attempt,
                max_runs,
                model_id: model_id@,
            },
            RoundEvent::Panel(event) => EventView::Panel(event),
            RoundEvent::Verdict { attempt, achieved, latency_ms } => EventView::Verdict {
                attempt,
                achieved,
                latency_ms,
            },
            RoundEvent::FailOpen { reason, attempt, latency_ms } => EventView::FailOpen {
                reason,
                attempt,
                latency_ms,
            },
        }
    }
}

pub open spec fn event_views(events: Seq<RoundEvent>) -> Seq<EventView> {
    events.map_values(|e: RoundEvent| e@)
}

/// The report on each of the first `k` results.
pub open spec fn skeptic_events(results: Seq<SkepticResult>, attempt: u32, k: int) -> Seq<
    PanelEvent,
> {
    Seq::new(
        k as nat,
        |i: int|
            PanelEvent::Skeptic {
                attempt,
                skeptic_idx: results[i].skeptic_idx,
                refuted: results[i].refuted,
                confidence: results[i].confidence,
                latency_ms: results[i].latency_ms,
            },
    )
}

/// The report on a panel of `n`: on every skeptic in turn, and then on the panel
/// as a whole.
pub open spec fn events_of_panel(results: Seq<SkepticResult>, n: u32, attempt: u32) -> Seq<
    PanelEvent,
> {
    skeptic_events(results, attempt, results.len() as int).push(
        PanelEvent::Aggregate {
            attempt,
            refuted_count: refuters(results) as u32,
            total: results.len() as u32,
            achieved: is_achieved(results, n),
        },
    )
}

/// Reports every skeptic in turn, and then the panel of `n` as a whole.
pub fn panel_events(results: &[SkepticResult], n: u32, attempt: u32) -> (r: Vec<PanelEvent>)
    requires
        results@.len() <= u32::MAX,
    ensures
        r@ == events_of_panel(results@, n, attempt),
{
    let mut out: Vec<PanelEvent> = Vec::new();
    let mut i: usize = 0;
    proof {
        assert(out@ =~= skeptic_events(results@, attempt, 0));
    }
    while i < results.len()
        invariant
            i <= results@.len(),
            out@ == skeptic_events(results@, attempt, i as int),
        decreases results@.len() - i,
    {
        let r = &results[i];
        out.push(
            PanelEvent::Skeptic {
                attempt,
                skeptic_idx: r.skeptic_idx,
                refuted: r.refuted,
                confidence: r.confidence,
                latency_ms: r.latency_ms,
            },
        );
        proof {
            assert(out@ =~= skeptic_events(results@, attempt, i + 1));
        }
        i += 1;
    }
    let (refuted_count, total, _) = aggregate_skeptic_verdicts(results);
    out.push(
        PanelEvent::Aggregate {
            attempt,
            refuted_count,
            total,
            achieved: panel_achieved(results, n),
        },
    );
    out
}

proof fn lemma_refuters(results: Seq<SkepticResult>)
    ensures
        refuters(results) == 0 <==> forall|i: int|
            0 <= i < results.len() ==> !(#[trigger] results[i]).refuted,
        refuters(results) <= results.len(),
    decreases results.len(),
{
    if results.len() > 0 {
        let t = results.drop_last();
        lemma_refuters(t);
        if refuters(results) == 0 {
            assert forall|i: int| 0 <= i < results.len() implies !(#[trigger] results[i]).refuted by {
                if i < t.len() {
                    assert(t[i] == results[i]);
                }
            }
        } else if forall|i: int| 0 <= i < results.len() ==> !(#[trigger] results[i]).refuted {
            assert forall|i: int| 0 <= i < t.len() implies !(#[trigger] t[i]).refuted by {
                assert(t[i] == results[i]);
            }
            assert(!results[results.len() - 1].refuted);
        }
    }
}

/// A whole panel whose verdicts were all accepted is reported with as many votes
/// as it has skeptics, and as a success exactly where nobody refutes.
pub proof fn law_whole_panel_succeeds_where_nobody_refutes(
    results: Seq<SkepticResult>,
    n: u32,
    attempt: u32,
)
    requires
        results.len() == n,
        n > 0,
        forall|i: int| 0 <= i < results.len() ==> (#[trigger] results[i]).fallback_note is None,
    ensures
        events_of_panel(results, n, attempt).len() == n + 1,
        events_of_panel(results, n, attempt).last() == (PanelEvent::Aggregate {
            attempt,
            refuted_count: refuters(results) as u32,
            total: n,
            achieved: refuters(results) as u32 == 0,
        }),
{
    lemma_refuters(results);
}

/// The last report of a round.
pub open spec fn closing_event(
    outcome: GoalClassifierOutcome,
    attempt: u32,
    latency_ms: u64,
) -> EventView {
    match outcome {
        GoalClassifierOutcome::FailOpenAchieved { reason, details_path } => EventView::FailOpen {
            reason,
            attempt,
            latency_ms,
        },
        _ => EventView::Verdict { attempt, achieved: outcome is Achieved, latency_ms },
    }
}

/// All that is reported of a round, in order: that it begins, what each skeptic
/// and the panel say where there was a panel, and what it came to.
pub open spec fn events_of_round(
    attempt: u32,
    max_runs: u32,
    model_id: Seq<char>,
    panel: Option<(Seq<SkepticResult>, u32)>,
    outcome: GoalClassifierOutcome,
    latency_ms: u64,
) -> Seq<EventView> {
    opened_with_panel(attempt, max_runs, model_id, panel).push(
        closing_event(outcome, attempt, latency_ms),
    )
}

/// What is reported of a round before it comes to an end.
pub open spec fn opened_with_panel(
    attempt: u32,
    max_runs: u32,
    model_id: Seq<char>,
    panel: Option<(Seq<SkepticResult>, u32)>,
) -> Seq<EventView> {
    let fired = seq![EventView::Fired { attempt, max_runs, model_id }];
    match panel {
        Some((results, n)) => fired + events_of_panel(results, n, attempt).map_values(
            |e: PanelEvent| EventView::Panel(e),
        ),
        None => fired,
    }
}

/// The report on a round under way.
pub struct RoundReport {
    attempt: u32,
    max_runs: u32,
    model_id: String,
    panel: Ghost<Option<(Seq<SkepticResult>, u32)>>,
    events: Vec<RoundEvent>,
}

#[verifier::ext_equal]
pub struct ReportView {
    pub attempt: u32,
    pub max_runs: u32,
    pub model_id: Seq<char>,
    /// The votes that were reported, and the size of the panel.
    pub panel: Option<(Seq<SkepticResult>, u32)>,
    pub events: Seq<EventView>,
}

impl View for RoundReport {
    type V = ReportView;

    closed spec fn view(&self) -> ReportView {
        ReportView {
            attempt: self.attempt,
            max_runs: self.max_runs,
            model_id: self.model_id@,
            panel: self.panel@,
            events: event_views(self.events@),
        }
    }
}

impl ReportView {
    pub open spec fn wf(self) -> bool {
        self.events == opened_with_panel(self.attempt, self.max_runs, self.model_id, self.panel)
    }
}

impl RoundReport {
    /// Reports that a round begins.
    pub fn open(attempt: u32, max_runs: u32, model_id: &str) -> (r: RoundReport)
        ensures
            r@.wf(),
            r@.attempt == attempt && r@.max_runs == max_runs && r@.model_id == model_id@,
            r@.panel is None,
    {
        let mut events: Vec<RoundEvent> = Vec::new();
        events.push(RoundEvent::Fired { attempt, max_runs, model_id: model_id.to_owned() });
        let report = RoundReport {
            attempt,
            max_runs,
            model_id: model_id.to_owned(),
            panel: Ghost(None),
            events,
        };
        proof {
            assert(report@.events =~= opened_with_panel(attempt, max_runs, model_id@, None));
        }
        report
    }

    /// Reports what a panel of `n` says.
    pub fn panel(&mut self, results: &[SkepticResult], n: u32)
        requires
            old(self)@.wf(),
            old(self)@.panel is None,
            results@.len() <= u32::MAX,
        ensures
            final(self)@.wf(),
            final(self)@ == (ReportView {
                panel: Some((results@, n)),
                events: final(self)@.events,
                ..old(self)@
            }),
    {
        let votes = panel_events(results, n, self.attempt);
        let ghost fired = self@.events;
        let ghost all = votes@.map_values(|e: PanelEvent| EventView::Panel(e));
        let mut i: usize = 0;
        proof {
            assert(fired + all.take(0) =~= fired);
        }
        while i < votes.len()
            invariant
                i <= votes@.len(),
                all == votes@.map_values(|e: PanelEvent| EventView::Panel(e)),
                event_views(self.events@) == fired + all.take(i as int),
                self.attempt == old(self).attempt,
                self.max_runs == old(self).max_runs,
                self.model_id@ == old(self).model_id@,
            decreases votes@.len() - i,
        {
            let ghost before = self.events@;
            let event = RoundEvent::Panel(votes[i]);
            self.events.push(event);
            proof {
                assert(event_views(self.events@) =~= event_views(before).push(event@));
                assert(fired + all.take(i + 1) =~= (fired + all.take(i as int)).push(
                    all[i as int],
                ));
            }
            i += 1;
        }
        proof {
            assert(all.take(all.len() as int) =~= all);
            self.panel@ = Some((results@, n));
        }
    }

    /// Reports what the round came to; the whole report.
    pub fn close(self, outcome: &GoalClassifierOutcome, latency_ms: u64) -> (r: Vec<RoundEvent>)
        requires
            self@.wf(),
        ensures
            event_views(r@) == events_of_round(
                self@.attempt,
                self@.max_runs,
                self@.model_id,
                self@.panel,
                *outcome,
                latency_ms,
            ),
    {
        let attempt = self.attempt;
        let mut events = self.events;
        let ghost before = events@;
        let event = match outcome {
            GoalClassifierOutcome::FailOpenAchieved { reason, .. } => RoundEvent::FailOpen {
                reason: *reason,
                attempt,
                latency_ms,
            },
            GoalClassifierOutcome::Achieved { .. } => RoundEvent::Verdict {
                attempt,
                achieved: true,
                latency_ms,
            },
            _ => RoundEvent::Verdict { attempt, achieved: false, latency_ms },
        };
        events.push(event);
        proof {
            assert(event_views(events@) =~= event_views(before).push(event@));
        }
        events
    }

    /// What has been reported so far.
    pub fn events(&self) -> (r: &Vec<RoundEvent>)
        ensures
            event_views(r@) == self@.events,
    {
        &self.events
    }
}

// ---------------------------------------------------------------------------
// What a round puts on record

/// The names of the facets among the first `n`, in JSON.
pub open spec fn facet_names(facets: Set<VerificationFacet>, n: int) -> Seq<Seq<char>>
    decreases n,
{
    if n <= 0 {
        seq![]
    } else if facets.contains(crate::facets::all_facets()[n - 1]) {
        facet_names(facets, n - 1).push(
            "\""@ + crate::facets::all_facets()[n - 1].name()@ + "\""@,
        )
    } else {
        facet_names(facets, n - 1)
    }
}

fn facet_names_of(facets: &FacetSet) -> (r: Vec<Vec<char>>)
    ensures
        texts(r@) == facet_names(facets@, 9),
{
    let all = [
        VerificationFacet::Code,
        VerificationFacet::Analysis,
        VerificationFacet::Research,
        VerificationFacet::Math,
        VerificationFacet::Empirical,
        VerificationFacet::Sources,
        VerificationFacet::Citations,
        VerificationFacet::DocumentRender,
        VerificationFacet::StateRegression,
    ];
    let mut out: Vec<Vec<char>> = Vec::new();
    let mut n: usize = 0;
    proof {
        assert(all@ =~= crate::facets::all_facets());
        assert(texts(out@) =~= facet_names(facets@, 0));
    }
    while n < 9
        invariant
            n <= 9,
            all@ == crate::facets::all_facets(),
            texts(out@) == facet_names(facets@, n as int),
        decreases 9 - n,
    {
        let facet = all[n];
        if facets.contains(&facet) {
            let name = cat3("\"", facet.as_str(), "\"");
            let v = chars_of(name.as_str());
            proof {
                lemma_texts_push(out@, v);
            }
            out.push(v);
        }
        n += 1;
    }
    out
}

/// The contract that a round verifies against, as a JSON object without white
/// space, its keys in order.
pub open spec fn contract_text(
    goal_id: Seq<char>,
    objective: Seq<char>,
    plan: Seq<char>,
    facets: Set<VerificationFacet>,
    manifest_digest: Seq<char>,
) -> Seq<char> {
    "{\"applicable_facets\":["@ + join(facet_names(facets, 9), ","@) + "],\"goal_id\":"@
        + json_string_of(goal_id) + ",\"initial_workspace_manifest_digest\":"@ + json_string_of(
        manifest_digest,
    ) + ",\"objective\":"@ + json_string_of(objective) + ",\"plan\":"@ + json_string_of(plan)
        + ",\"schema_version\":1}"@
}

pub fn contract_json(
    goal_id: &str,
    objective: &str,
    plan: &str,
    facets: &FacetSet,
    manifest_digest: &str,
) -> (r: String)
    ensures
        r@ == contract_text(goal_id@, objective@, plan@, facets@, manifest_digest@),
{
    let mut out = chars_of("{\"applicable_facets\":[");
    append(&mut out, &join_of(&facet_names_of(facets), ","));
    append_str(&mut out, "],\"goal_id\":");
    append_str(&mut out, json_string(goal_id).as_str());
    append_str(&mut out, ",\"initial_workspace_manifest_digest\":");
    append_str(&mut out, json_string(manifest_digest).as_str());
    append_str(&mut out, ",\"objective\":");
    append_str(&mut out, json_string(objective).as_str());
    append_str(&mut out, ",\"plan\":");
    append_str(&mut out, json_string(plan).as_str());
    append_str(&mut out, ",\"schema_version\":1}");
    string_of(&out)
}

/// The digest by which verdicts refer to a contract.
pub fn contract_digest(contract: &str) -> (r: String)
    ensures
        r@ == digest_text(encode_utf8(contract@)),
{
    digest_bytes(contract.as_bytes())
}

fn artifact(path: &str, text: &str) -> (r: VirtualArtifact)
    ensures
        r.path@ == path@,
        r.bytes@ == encode_utf8(text@),
{
    VirtualArtifact { path: path.to_owned(), bytes: text.as_bytes_vec() }
}

pub open spec fn artifacts(v: Seq<VirtualArtifact>) -> Seq<(Seq<char>, Seq<u8>)> {
    Seq::new(v.len(), |i: int| (v[i].path@, v[i].bytes@))
}

/// What a round adds to the snapshot: everything that it is judged by.
pub open spec fn round_documents(
    objective: Seq<char>,
    final_response: Seq<char>,
    plan: Seq<char>,
    diff: Seq<char>,
    initial_manifest: Seq<char>,
    contract: Seq<char>,
) -> Seq<(Seq<char>, Seq<u8>)> {
    seq![
        (".ds-verification/objective.txt"@, encode_utf8(objective)),
        (".ds-verification/final-response.md"@, encode_utf8(final_response)),
        (".ds-verification/plan.md"@, encode_utf8(plan)),
        (".ds-verification/changes.patch"@, encode_utf8(diff)),
        (held_json("initial-workspace-manifest"@), encode_utf8(initial_manifest)),
        (held_json("contract"@), encode_utf8(contract)),
    ]
}

pub fn round_artifacts(
    objective: &str,
    final_response: &str,
    plan: &str,
    diff: &str,
    initial_manifest: &str,
    contract: &str,
) -> (r: Vec<VirtualArtifact>)
    ensures
        artifacts(r@) == round_documents(
            objective@,
            final_response@,
            plan@,
            diff@,
            initial_manifest@,
            contract@,
        ),
{
    let mut out: Vec<VirtualArtifact> = Vec::new();
    out.push(artifact(".ds-verification/objective.txt", objective));
    out.push(artifact(".ds-verification/final-response.md", final_response));
    out.push(artifact(".ds-verification/plan.md", plan));
    out.push(artifact(".ds-verification/changes.patch", diff));
    out.push(artifact(held_json_path("initial-workspace-manifest").as_str(), initial_manifest));
    out.push(artifact(held_json_path("contract").as_str(), contract));
    proof {
        assert(artifacts(out@) =~= round_documents(
            objective@,
            final_response@,
            plan@,
            diff@,
            initial_manifest@,
            contract@,
        ));
    }
    out
}

/// What a round is verified against.
#[derive(Debug)]
pub struct RoundMaterial {
    pub facets: FacetSet,
    pub kind_lens: String,
    pub contract: String,
    pub contract_digest: String,
    pub artifacts: Vec<VirtualArtifact>,
}

/// What the plan says; nothing where there is none.
pub open spec fn plan_text(plan: Option<&str>) -> Seq<char> {
    match plan {
        Some(text) => text@,
        None => Seq::empty(),
    }
}

/// Puts together what a round is verified against: the facets of the goal with
/// their lenses, the contract, and the documents of the snapshot.
/// `initial_text` spells the manifest of the start of the goal.
pub fn prepare_round(
    goal_id: &str,
    objective: &str,
    plan: Option<&str>,
    sources_are_math: bool,
    final_response: &str,
    diff: &str,
    initial: &ArtifactManifest,
    initial_text: &str,
) -> (r: RoundMaterial)
    ensures
        r.facets@ == goal_facets(objective@, plan_text(plan), sources_are_math),
        r.kind_lens@ == lenses(r.facets@),
        r.contract@ == contract_text(
            goal_id@,
            objective@,
            plan_text(plan),
            r.facets@,
            initial.manifest_digest@,
        ),
        r.contract_digest@ == digest_text(encode_utf8(r.contract@)),
        artifacts(r.artifacts@) == round_documents(
            objective@,
            final_response@,
            plan_text(plan),
            diff@,
            initial_text@,
            r.contract@,
        ),
{
    let body = match plan {
        Some(text) => text.to_owned(),
        None => String::new(),
    };
    proof {
        assert(body@ =~= plan_text(plan));
    }
    let plan_body = body.as_str();
    let facets = classify_facets(objective, plan_body, sources_are_math);
    let contract = contract_json(
        goal_id,
        objective,
        plan_body,
        &facets,
        initial.manifest_digest.as_str(),
    );
    let artifacts = round_artifacts(
        objective,
        final_response,
        plan_body,
        diff,
        initial_text,
        contract.as_str(),
    );
    RoundMaterial {
        kind_lens: facet_lenses(&facets),
        contract_digest: contract_digest(contract.as_str()),
        facets,
        contract,
        artifacts,
    }
}

/// One critic in the aggregate receipt.
pub open spec fn critic_json(r: SkepticResult) -> Seq<char> {
    "    {\n      \"critic_index\": "@ + decimal(r.skeptic_idx as nat)
        + ",\n      \"details_path\": "@ + json_string_of(r.details_path@)
        + ",\n      \"refuted\": "@ + bool_text(r.refuted)
        + ",\n      \"structured_verdict_accepted\": "@ + bool_text(r.fallback_note is None)
        + "\n    }"@
}

pub open spec fn critics_json(results: Seq<SkepticResult>) -> Seq<Seq<char>> {
    Seq::new(results.len(), |i: int| critic_json(results[i]))
}

/// A JSON list on lines of their own, closed at the indentation of its key.
pub open spec fn block_list(items: Seq<Seq<char>>) -> Seq<char> {
    if items.len() == 0 {
        "[]"@
    } else {
        "[\n"@ + join(items, ",\n"@) + "\n  ]"@
    }
}

pub open spec fn indented(items: Seq<Seq<char>>) -> Seq<Seq<char>> {
    Seq::new(items.len(), |i: int| "    "@ + items[i])
}

/// The aggregate receipt of a round, as an indented JSON object with its keys in
/// order.
pub open spec fn receipt_text(
    goal_id: Seq<char>,
    round_id: Seq<char>,
    contract: Seq<char>,
    manifest_digest: Seq<char>,
    facets: Set<VerificationFacet>,
    results: Seq<SkepticResult>,
    achieved: bool,
) -> Seq<char> {
    "{\n  \"achieved\": "@ + bool_text(achieved) + ",\n  \"applicable_facets\": "@ + block_list(
        indented(facet_names(facets, 9)),
    ) + ",\n  \"contract_digest\": "@ + json_string_of(contract) + ",\n  \"critics\": "@
        + block_list(critics_json(results)) + ",\n  \"goal_id\": "@ + json_string_of(goal_id)
        + ",\n  \"reviewed_artifact_manifest_digest\": "@ + json_string_of(manifest_digest)
        + ",\n  \"schema_version\": 1,\n  \"verification_round_id\": "@ + json_string_of(round_id)
        + "\n}"@
}

fn block_list_of(items: &Vec<Vec<char>>) -> (r: Vec<char>)
    ensures
        r@ == block_list(texts(items@)),
{
    proof {
        assert(texts(items@).len() == items@.len());
    }
    if items.len() == 0 {
        return chars_of("[]");
    }
    let mut out = chars_of("[\n");
    append(&mut out, &join_of(items, ",\n"));
    append_str(&mut out, "\n  ]");
    out
}

fn indented_of(items: &Vec<Vec<char>>) -> (r: Vec<Vec<char>>)
    ensures
        texts(r@) == indented(texts(items@)),
{
    let ghost all = texts(items@);
    let mut out: Vec<Vec<char>> = Vec::new();
    let mut i: usize = 0;
    while i < items.len()
        invariant
            i <= items@.len(),
            all == texts(items@),
            out@.len() == i,
            forall|k: int| 0 <= k < i ==> (#[trigger] out@[k])@ == indented(all)[k],
        decreases items@.len() - i,
    {
        let mut line = chars_of("    ");
        append(&mut line, &items[i]);
        out.push(line);
        i += 1;
    }
    proof {
        assert(texts(out@) =~= indented(all));
    }
    out
}

fn critics_json_of(results: &[SkepticResult]) -> (r: Vec<Vec<char>>)
    ensures
        texts(r@) == critics_json(results@),
{
    let mut out: Vec<Vec<char>> = Vec::new();
    let mut i: usize = 0;
    while i < results.len()
        invariant
            i <= results@.len(),
            out@.len() == i,
            forall|k: int| 0 <= k < i ==> (#[trigger] out@[k])@ == critics_json(results@)[k],
        decreases results@.len() - i,
    {
        let r = &results[i];
        let mut item = chars_of("    {\n      \"critic_index\": ");
        append_str(&mut item, decimal_string(r.skeptic_idx as u128).as_str());
        append_str(&mut item, ",\n      \"details_path\": ");
        append_str(&mut item, json_string(r.details_path.as_str()).as_str());
        append_str(&mut item, ",\n      \"refuted\": ");
        append_str(&mut item, bool_str(r.refuted));
        append_str(&mut item, ",\n      \"structured_verdict_accepted\": ");
        append_str(&mut item, bool_str(r.fallback_note.is_none()));
        append_str(&mut item, "\n    }");
        out.push(item);
        i += 1;
    }
    proof {
        assert(texts(out@) =~= critics_json(results@));
    }
    out
}

pub fn aggregate_receipt(
    goal_id: &str,
    round_id: &str,
    contract: &str,
    manifest_digest: &str,
    facets: &FacetSet,
    results: &[SkepticResult],
    achieved: bool,
) -> (r: String)
    ensures
        r@ == receipt_text(
            goal_id@,
            round_id@,
            contract@,
            manifest_digest@,
            facets@,
            results@,
            achieved,
        ),
{
    let mut out = chars_of("{\n  \"achieved\": ");
    append_str(&mut out, bool_str(achieved));
    append_str(&mut out, ",\n  \"applicable_facets\": ");
    append(&mut out, &block_list_of(&indented_of(&facet_names_of(facets))));
    append_str(&mut out, ",\n  \"contract_digest\": ");
    append_str(&mut out, json_string(contract).as_str());
    append_str(&mut out, ",\n  \"critics\": ");
    append(&mut out, &block_list_of(&critics_json_of(results)));
    append_str(&mut out, ",\n  \"goal_id\": ");
    append_str(&mut out, json_string(goal_id).as_str());
    append_str(&mut out, ",\n  \"reviewed_artifact_manifest_digest\": ");
    append_str(&mut out, json_string(manifest_digest).as_str());
    append_str(&mut out, ",\n  \"schema_version\": 1,\n  \"verification_round_id\": ");
    append_str(&mut out, json_string(round_id).as_str());
    append_str(&mut out, "\n}");
    string_of(&out)
}

// ---------------------------------------------------------------------------
// What a round is held to

/// A panel has between one and five skeptics, as many as are asked for where that
/// lies between them.
pub proof fn law_panel_size_is_clamped(count: u32)
    ensures
        1 <= clamped_panel(count) <= 5,
        1 <= count <= 5 ==> clamped_panel(count) == count,
        count == 0 ==> clamped_panel(count) == 1,
        count > 5 ==> clamped_panel(count) == 5,
{
}

/// The last report of a round tells what it came to: a verdict where there is one,
/// which is a success for an achieved goal alone, and the reason where the stage
/// itself failed.
pub proof fn law_round_is_closed_with_what_it_came_to(
    outcome: GoalClassifierOutcome,
    attempt: u32,
    latency_ms: u64,
)
    ensures
        outcome is Achieved ==> closing_event(outcome, attempt, latency_ms) == (
        EventView::Verdict { attempt, achieved: true, latency_ms }),
        outcome is NotAchieved || outcome is Blocked ==> closing_event(
            outcome,
            attempt,
            latency_ms,
        ) == (EventView::Verdict { attempt, achieved: false, latency_ms }),
        outcome is FailOpenAchieved ==> closing_event(outcome, attempt, latency_ms) == (
        EventView::FailOpen { reason: outcome->reason, attempt, latency_ms }),
{
}

/// A round is reported from its start to its end: first that it begins, with its
/// attempt, the number of attempts and the model, then each vote in turn, then the
/// panel, and last what it came to.
pub proof fn law_round_is_reported_in_order(
    attempt: u32,
    max_runs: u32,
    model_id: Seq<char>,
    results: Seq<SkepticResult>,
    n: u32,
    outcome: GoalClassifierOutcome,
    latency_ms: u64,
    k: int,
)
    requires
        0 <= k < results.len(),
    ensures
        ({
            let events = events_of_round(
                attempt,
                max_runs,
                model_id,
                Some((results, n)),
                outcome,
                latency_ms,
            );
            &&& events.len() == results.len() + 3
            &&& events[0] == (EventView::Fired { attempt, max_runs, model_id })
            &&& events[k + 1] == EventView::Panel(
                PanelEvent::Skeptic {
                    attempt,
                    skeptic_idx: results[k].skeptic_idx,
                    refuted: results[k].refuted,
                    confidence: results[k].confidence,
                    latency_ms: results[k].latency_ms,
                },
            )
            &&& events[results.len() as int + 1] is Panel && events[results.len() as int
                + 1]->Panel_0 is Aggregate
            &&& events[results.len() as int + 2] == closing_event(outcome, attempt, latency_ms)
            &&& events_of_round(
                attempt,
                max_runs,
                model_id,
                None,
                outcome,
                latency_ms,
            ) == seq![
                EventView::Fired { attempt, max_runs, model_id },
                closing_event(outcome, attempt, latency_ms),
            ]
        }),
{
    let none = events_of_round(attempt, max_runs, model_id, None, outcome, latency_ms);
    assert(none =~= seq![
        EventView::Fired { attempt, max_runs, model_id },
        closing_event(outcome, attempt, latency_ms),
    ]);
    let events = events_of_round(
        attempt,
        max_runs,
        model_id,
        Some((results, n)),
        outcome,
        latency_ms,
    );
    let votes = events_of_panel(results, n, attempt);
    assert(votes.len() == results.len() + 1);
    assert(events[k + 1] == EventView::Panel(votes[k]));
    assert(events[results.len() as int + 1] == EventView::Panel(votes[results.len() as int]));
}

proof fn lemma_facet_names(facets: Set<VerificationFacet>, n: int, f: VerificationFacet)
    requires
        0 <= n <= 9,
        facets.contains(f),
        exists|i: int| 0 <= i < n && #[trigger] all_facets()[i] == f,
    ensures
        facet_names(facets, n).contains("\""@ + f.name()@ + "\""@),
    decreases n,
{
    let now = facet_names(facets, n);
    let before = facet_names(facets, n - 1);
    if all_facets()[n - 1] == f {
        assert(now[before.len() as int] == "\""@ + f.name()@ + "\""@);
    } else {
        let i = choose|i: int| 0 <= i < n && #[trigger] all_facets()[i] == f;
        assert(all_facets()[i] == f && i < n - 1);
        lemma_facet_names(facets, n - 1, f);
        let k = choose|k: int| 0 <= k < before.len() && before[k] == "\""@ + f.name()@ + "\""@;
        assert(now[k] == before[k]);
    }
}

proof fn lemma_facet_names_come_from(facets: Set<VerificationFacet>, n: int, name: Seq<char>)
    requires
        0 <= n <= 9,
        facet_names(facets, n).contains(name),
    ensures
        exists|f: VerificationFacet|
            #[trigger] facets.contains(f) && name == "\""@ + f.name()@ + "\""@,
    decreases n,
{
    if n > 0 {
        let now = facet_names(facets, n);
        let before = facet_names(facets, n - 1);
        let k = choose|k: int| 0 <= k < now.len() && now[k] == name;
        if k < before.len() {
            assert(before[k] == name);
            lemma_facet_names_come_from(facets, n - 1, name);
        } else {
            assert(facets.contains(all_facets()[n - 1]));
        }
    }
}

/// The contract of a round names each facet that applies and no other, and holds
/// the goal, the objective, the plan and the state of the workspace at the start.
pub proof fn law_contract_holds_all_that_is_agreed(
    goal_id: Seq<char>,
    objective: Seq<char>,
    plan: Seq<char>,
    facets: Set<VerificationFacet>,
    manifest_digest: Seq<char>,
    f: VerificationFacet,
    k: int,
)
    ensures
        contains(
            contract_text(goal_id, objective, plan, facets, manifest_digest),
            "\"goal_id\":"@ + json_string_of(goal_id),
        ),
        contains(
            contract_text(goal_id, objective, plan, facets, manifest_digest),
            "\"objective\":"@ + json_string_of(objective),
        ),
        contains(
            contract_text(goal_id, objective, plan, facets, manifest_digest),
            "\"plan\":"@ + json_string_of(plan),
        ),
        contains(
            contract_text(goal_id, objective, plan, facets, manifest_digest),
            "\"initial_workspace_manifest_digest\":"@ + json_string_of(manifest_digest),
        ),
        facets.contains(f) ==> contains(
            contract_text(goal_id, objective, plan, facets, manifest_digest),
            "\""@ + f.name()@ + "\""@,
        ),
        0 <= k < facet_names(facets, 9).len() ==> exists|g: VerificationFacet|
            #[trigger] facets.contains(g) && facet_names(facets, 9)[k] == "\""@ + g.name()@ + "\""@,
{
    let whole = contract_text(goal_id, objective, plan, facets, manifest_digest);
    let names = facet_names(facets, 9);
    let list = join(names, ","@);
    let a = "{\"applicable_facets\":["@;
    let b = "],\"goal_id\":"@;
    let c = ",\"initial_workspace_manifest_digest\":"@;
    let d = ",\"objective\":"@;
    let e = ",\"plan\":"@;
    let z = ",\"schema_version\":1}"@;
    let g = json_string_of(goal_id);
    let m = json_string_of(manifest_digest);
    let o = json_string_of(objective);
    let p = json_string_of(plan);
    reveal_strlit("],\"goal_id\":");
    reveal_strlit("\"goal_id\":");
    reveal_strlit(",\"initial_workspace_manifest_digest\":");
    reveal_strlit("\"initial_workspace_manifest_digest\":");
    reveal_strlit(",\"objective\":");
    reveal_strlit("\"objective\":");
    reveal_strlit(",\"plan\":");
    reveal_strlit("\"plan\":");
    assert(b =~= seq![']', ','] + "\"goal_id\":"@);
    assert(c =~= seq![','] + "\"initial_workspace_manifest_digest\":"@);
    assert(d =~= seq![','] + "\"objective\":"@);
    assert(e =~= seq![','] + "\"plan\":"@);
    assert(whole =~= (a + list + seq![']', ',']) + ("\"goal_id\":"@ + g) + (c + m + d + o + e + p + z));
    lemma_contains_itself(a + list + seq![']', ','], "\"goal_id\":"@ + g, c + m + d + o + e + p + z);
    assert(whole =~= (a + list + b + g + seq![',']) + ("\"initial_workspace_manifest_digest\":"@ + m)
        + (d + o + e + p + z));
    lemma_contains_itself(
        a + list + b + g + seq![','],
        "\"initial_workspace_manifest_digest\":"@ + m,
        d + o + e + p + z,
    );
    assert(whole =~= (a + list + b + g + c + m + seq![',']) + ("\"objective\":"@ + o) + (e + p + z));
    lemma_contains_itself(a + list + b + g + c + m + seq![','], "\"objective\":"@ + o, e + p + z);
    assert(whole =~= (a + list + b + g + c + m + d + o + seq![',']) + ("\"plan\":"@ + p) + z);
    lemma_contains_itself(a + list + b + g + c + m + d + o + seq![','], "\"plan\":"@ + p, z);
    if facets.contains(f) {
        let i: int = f.rank();
        assert(all_facets()[i] == f);
        lemma_facet_names(facets, 9, f);
        let q = choose|q: int| 0 <= q < names.len() && names[q] == "\""@ + f.name()@ + "\""@;
        lemma_join_holds_its_parts(names, ","@, q);
        assert(whole =~= a + list + (b + g + c + m + d + o + e + p + z));
        lemma_contains_in_whole(a, list, b + g + c + m + d + o + e + p + z, names[q]);
    }
    if 0 <= k < names.len() {
        assert(names.contains(names[k]));
        lemma_facet_names_come_from(facets, 9, names[k]);
    }
}

/// The documents that a round adds to the snapshot lie in the harness's own
/// directory, each at a path of its own, and hold what the round is judged by.
pub proof fn law_round_documents_hold_what_is_judged(
    objective: Seq<char>,
    final_response: Seq<char>,
    plan: Seq<char>,
    diff: Seq<char>,
    initial_manifest: Seq<char>,
    contract: Seq<char>,
    i: int,
    j: int,
)
    requires
        0 <= i < j < 6,
    ensures
        ({
            let all = round_documents(
                objective,
                final_response,
                plan,
                diff,
                initial_manifest,
                contract,
            );
            &&& all.len() == 6
            &&& all[i].0 != all[j].0
            &&& starts_with(all[i].0, ".ds-verification/"@)
            &&& starts_with(all[j].0, ".ds-verification/"@)
            &&& all[0] == (".ds-verification/objective.txt"@, encode_utf8(objective))
            &&& all[1] == (".ds-verification/final-response.md"@, encode_utf8(final_response))
            &&& all[2] == (".ds-verification/plan.md"@, encode_utf8(plan))
            &&& all[3] == (".ds-verification/changes.patch"@, encode_utf8(diff))
            &&& all[4].1 == encode_utf8(initial_manifest)
            &&& all[5].1 == encode_utf8(contract)
        }),
{
    let all = round_documents(
        objective,
        final_response,
        plan,
        diff,
        initial_manifest,
        contract,
    );
    reveal_strlit(".ds-verification/");
    reveal_strlit(".ds-verification/objective.txt");
    reveal_strlit(".ds-verification/final-response.md");
    reveal_strlit(".ds-verification/plan.md");
    reveal_strlit(".ds-verification/changes.patch");
    reveal_strlit("initial-workspace-manifest");
    reveal_strlit("contract");
    reveal_strlit(".json");
    reveal_strlit("json");
    reveal_strlit(".");
    let p = ".ds-verification/"@;
    assert(p.len() == 17);
    assert(all[0].0.subrange(0, 17) =~= p);
    assert(all[1].0.subrange(0, 17) =~= p);
    assert(all[2].0.subrange(0, 17) =~= p);
    assert(all[3].0.subrange(0, 17) =~= p);
    assert(all[4].0.subrange(0, 17) =~= p);
    assert(all[5].0.subrange(0, 17) =~= p);
    assert(all[0].0[17] == 'o');
    assert(all[1].0[17] == 'f');
    assert(all[2].0[17] == 'p');
    assert(all[3].0[17] == 'c' && all[3].0[18] == 'h');
    assert(all[4].0[17] == 'i');
    assert(all[5].0[17] == 'c' && all[5].0[18] == 'o');
    assert(i == 0 || i == 1 || i == 2 || i == 3 || i == 4);
    assert(j == 1 || j == 2 || j == 3 || j == 4 || j == 5);
}

/// The receipt of a round tells whether the goal was achieved, and of each critic
/// whether it refuted and whether its verdict was accepted.
pub proof fn law_receipt_tells_of_every_critic(
    goal_id: Seq<char>,
    round_id: Seq<char>,
    contract: Seq<char>,
    manifest_digest: Seq<char>,
    facets: Set<VerificationFacet>,
    results: Seq<SkepticResult>,
    achieved: bool,
    k: int,
)
    requires
        0 <= k < results.len(),
    ensures
        ({
            let whole = receipt_text(
                goal_id,
                round_id,
                contract,
                manifest_digest,
                facets,
                results,
                achieved,
            );
            &&& achieved ==> starts_with(whole, "{\n  \"achieved\": true"@)
            &&& !achieved ==> starts_with(whole, "{\n  \"achieved\": false"@)
            &&& contains(
                whole,
                "\"critic_index\": "@ + decimal(results[k].skeptic_idx as nat)
                    + ",\n      \"details_path\": "@ + json_string_of(results[k].details_path@)
                    + ",\n      \"refuted\": "@ + (if results[k].refuted {
                    "true"@
                } else {
                    "false"@
                }) + ",\n      \"structured_verdict_accepted\": "@ + (
                if results[k].fallback_note is None {
                    "true"@
                } else {
                    "false"@
                }),
            )
            &&& contains(whole, "\"contract_digest\": "@ + json_string_of(contract))
            &&& contains(whole, "\"goal_id\": "@ + json_string_of(goal_id))
            &&& contains(
                whole,
                "\"reviewed_artifact_manifest_digest\": "@ + json_string_of(manifest_digest),
            )
            &&& contains(whole, "\"verification_round_id\": "@ + json_string_of(round_id))
        }),
{
    let whole = receipt_text(
        goal_id,
        round_id,
        contract,
        manifest_digest,
        facets,
        results,
        achieved,
    );
    let p1 = "{\n  \"achieved\": "@ + bool_text(achieved);
    let p2 = p1 + ",\n  \"applicable_facets\": "@ + block_list(indented(facet_names(facets, 9)));
    let p3 = p2 + ",\n  \"contract_digest\": "@ + json_string_of(contract);
    let list = block_list(critics_json(results));
    let p4 = p3 + ",\n  \"critics\": "@ + list;
    let p5 = p4 + ",\n  \"goal_id\": "@ + json_string_of(goal_id);
    let p6 = p5 + ",\n  \"reviewed_artifact_manifest_digest\": "@ + json_string_of(manifest_digest);
    let p7 = p6 + ",\n  \"schema_version\": 1,\n  \"verification_round_id\": "@ + json_string_of(
        round_id,
    );
    assert(whole == p7 + "\n}"@);
    let lead = ",\n  "@;
    assert(starts_with(whole, p1)) by {
        assert(whole.subrange(0, p1.len() as int) =~= p1);
    }
    assert(achieved ==> p1 == "{\n  \"achieved\": true"@) by {
        reveal_strlit("{\n  \"achieved\": ");
        reveal_strlit("{\n  \"achieved\": true");
        reveal_strlit("true");
        assert("{\n  \"achieved\": "@ + "true"@ =~= "{\n  \"achieved\": true"@);
    }
    assert(!achieved ==> p1 == "{\n  \"achieved\": false"@) by {
        reveal_strlit("{\n  \"achieved\": ");
        reveal_strlit("{\n  \"achieved\": false");
        reveal_strlit("false");
        assert("{\n  \"achieved\": "@ + "false"@ =~= "{\n  \"achieved\": false"@);
    }
    let w3 = "\"contract_digest\": "@ + json_string_of(contract);
    assert(contains(p3, w3)) by {
        reveal_strlit(",\n  ");
        reveal_strlit(",\n  \"contract_digest\": ");
        reveal_strlit("\"contract_digest\": ");
        assert(",\n  \"contract_digest\": "@ =~= lead + "\"contract_digest\": "@);
        lemma_field_at_end(p2, lead, "\"contract_digest\": "@, json_string_of(contract));
    }
    lemma_contains_grows(p3, ",\n  \"critics\": "@, list, w3);
    lemma_contains_grows(p4, ",\n  \"goal_id\": "@, json_string_of(goal_id), w3);
    lemma_contains_grows(
        p5,
        ",\n  \"reviewed_artifact_manifest_digest\": "@,
        json_string_of(manifest_digest),
        w3,
    );
    lemma_contains_grows(
        p6,
        ",\n  \"schema_version\": 1,\n  \"verification_round_id\": "@,
        json_string_of(round_id),
        w3,
    );
    lemma_contains_grows(p7, "\n}"@, seq![], w3);
    let w5 = "\"goal_id\": "@ + json_string_of(goal_id);
    assert(contains(p5, w5)) by {
        reveal_strlit(",\n  ");
        reveal_strlit(",\n  \"goal_id\": ");
        reveal_strlit("\"goal_id\": ");
        assert(",\n  \"goal_id\": "@ =~= lead + "\"goal_id\": "@);
        lemma_field_at_end(p4, lead, "\"goal_id\": "@, json_string_of(goal_id));
    }
    lemma_contains_grows(
        p5,
        ",\n  \"reviewed_artifact_manifest_digest\": "@,
        json_string_of(manifest_digest),
        w5,
    );
    lemma_contains_grows(
        p6,
        ",\n  \"schema_version\": 1,\n  \"verification_round_id\": "@,
        json_string_of(round_id),
        w5,
    );
    lemma_contains_grows(p7, "\n}"@, seq![], w5);
    let w6 = "\"reviewed_artifact_manifest_digest\": "@ + json_string_of(manifest_digest);
    assert(contains(p6, w6)) by {
        reveal_strlit(",\n  ");
        reveal_strlit(",\n  \"reviewed_artifact_manifest_digest\": ");
        reveal_strlit("\"reviewed_artifact_manifest_digest\": ");
        assert(",\n  \"reviewed_artifact_manifest_digest\": "@ =~= lead
            + "\"reviewed_artifact_manifest_digest\": "@);
        lemma_field_at_end(
            p5,
            lead,
            "\"reviewed_artifact_manifest_digest\": "@,
            json_string_of(manifest_digest),
        );
    }
    lemma_contains_grows(
        p6,
        ",\n  \"schema_version\": 1,\n  \"verification_round_id\": "@,
        json_string_of(round_id),
        w6,
    );
    lemma_contains_grows(p7, "\n}"@, seq![], w6);
    let w7 = "\"verification_round_id\": "@ + json_string_of(round_id);
    let long = ",\n  \"schema_version\": 1,\n  "@;
    assert(contains(p7, w7)) by {
        reveal_strlit(",\n  \"schema_version\": 1,\n  ");
        reveal_strlit(",\n  \"schema_version\": 1,\n  \"verification_round_id\": ");
        reveal_strlit("\"verification_round_id\": ");
        assert(",\n  \"schema_version\": 1,\n  \"verification_round_id\": "@ =~= long
            + "\"verification_round_id\": "@);
        lemma_field_at_end(p6, long, "\"verification_round_id\": "@, json_string_of(round_id));
    }
    lemma_contains_grows(p7, "\n}"@, seq![], w7);
    let items = critics_json(results);
    let one = "\"critic_index\": "@ + decimal(results[k].skeptic_idx as nat)
        + ",\n      \"details_path\": "@ + json_string_of(results[k].details_path@)
        + ",\n      \"refuted\": "@ + bool_text(results[k].refuted)
        + ",\n      \"structured_verdict_accepted\": "@ + bool_text(
        results[k].fallback_note is None,
    );
    assert(contains(items[k], one)) by {
        reveal_strlit("    {\n      \"critic_index\": ");
        reveal_strlit("    {\n      ");
        reveal_strlit("\"critic_index\": ");
        assert("    {\n      \"critic_index\": "@ =~= "    {\n      "@ + "\"critic_index\": "@);
        assert(items[k] =~= "    {\n      "@ + one + "\n    }"@);
        lemma_contains_itself("    {\n      "@, one, "\n    }"@);
    }
    assert(contains(list, one)) by {
        lemma_join_holds_its_parts(items, ",\n"@, k);
        lemma_contains_in_whole("[\n"@, join(items, ",\n"@), "\n  ]"@, items[k]);
        lemma_contains_transitive(list, items[k], one);
    }
    assert(contains(p4, one)) by {
        assert(p4 =~= (p3 + ",\n  \"critics\": "@) + list + seq![]);
        lemma_contains_in_whole(p3 + ",\n  \"critics\": "@, list, seq![], one);
    }
    lemma_contains_grows(p4, ",\n  \"goal_id\": "@, json_string_of(goal_id), one);
    lemma_contains_grows(
        p5,
        ",\n  \"reviewed_artifact_manifest_digest\": "@,
        json_string_of(manifest_digest),
        one,
    );
    lemma_contains_grows(
        p6,
        ",\n  \"schema_version\": 1,\n  \"verification_round_id\": "@,
        json_string_of(round_id),
        one,
    );
    lemma_contains_grows(p7, "\n}"@, seq![], one);
    assert(p7 + "\n}"@ + Seq::<char>::empty() =~= p7 + "\n}"@);
}

proof fn lemma_field_at_end(a: Seq<char>, lead: Seq<char>, name: Seq<char>, value: Seq<char>)
    ensures
        contains(a + (lead + name) + value, name + value),
{
    assert(a + (lead + name) + value =~= (a + lead) + (name + value) + seq![]);
    lemma_contains_itself(a + lead, name + value, seq![]);
}

proof fn lemma_refuting_evidence(results: Seq<SkepticResult>, n: int, k: int)
    requires
        0 <= k < n <= results.len(),
        results[k].refuted,
    ensures
        refuting_evidence(results, n).contains(fingerprint_source(results[k])),
    decreases n,
{
    let before = refuting_evidence(results, n - 1);
    let now = refuting_evidence(results, n);
    if k == n - 1 {
        assert(now[before.len() as int] == fingerprint_source(results[k]));
    } else {
        lemma_refuting_evidence(results, n - 1, k);
        let i = choose|i: int|
            0 <= i < before.len() && before[i] == fingerprint_source(results[k]);
        assert(now[i] == before[i]);
    }
}

proof fn lemma_evidence_of_refuters(results: Seq<SkepticResult>, n: int, text: Seq<char>)
    requires
        0 <= n <= results.len(),
        refuting_evidence(results, n).contains(text),
    ensures
        exists|k: int|
            0 <= k < n && (#[trigger] results[k]).refuted && fingerprint_source(results[k]) == text,
    decreases n,
{
    if n > 0 {
        let before = refuting_evidence(results, n - 1);
        let now = refuting_evidence(results, n);
        let i = choose|i: int| 0 <= i < now.len() && now[i] == text;
        if i < before.len() {
            assert(before[i] == text);
            lemma_evidence_of_refuters(results, n - 1, text);
        } else {
            assert(results[n - 1].refuted);
        }
    }
}

/// The fingerprint of a goal that was not achieved is made of what every refuter
/// says, and of nothing that anybody else says; what is to be mended is told for
/// every refuter.
pub proof fn law_unachieved_goal_is_told_what_every_refuter_says(
    results: Seq<SkepticResult>,
    n: u32,
    details_path: Seq<char>,
    outcome: GoalClassifierOutcome,
    i: int,
    text: Seq<char>,
)
    requires
        outcome_of(results, n, details_path, outcome),
        outcome is NotAchieved,
        0 <= i < results.len(),
        results[i].refuted,
    ensures
        outcome->gap_fingerprint@ == fingerprint(refuting_evidence(results, results.len() as int)),
        refuting_evidence(results, results.len() as int).contains(fingerprint_source(results[i])),
        refuting_evidence(results, results.len() as int).contains(text) ==> exists|k: int|
            0 <= k < results.len() && (#[trigger] results[k]).refuted && fingerprint_source(
                results[k],
            ) == text,
        contains(outcome->gaps_summary@, refuter_bullet(results[i])),
        contains(outcome->NotAchieved_pause_summary@, refuter_bullet(results[i])),
{
    lemma_refuting_evidence(results, results.len() as int, i);
    if refuting_evidence(results, results.len() as int).contains(text) {
        lemma_evidence_of_refuters(results, results.len() as int, text);
    }
    law_every_refuter_is_heard(results, i);
}

/// A goal that pauses is told why by every refuter.
pub proof fn law_paused_goal_is_told_what_every_refuter_says(
    results: Seq<SkepticResult>,
    n: u32,
    details_path: Seq<char>,
    outcome: GoalClassifierOutcome,
    i: int,
)
    requires
        outcome_of(results, n, details_path, outcome),
        outcome is Blocked,
        0 <= i < results.len(),
        results[i].refuted,
    ensures
        contains(outcome->Blocked_pause_summary@, refuter_bullet(results[i])),
        results[i].blocking != SkepticBlocking::NonBlocking,
{
    law_every_refuter_is_heard(results, i);
}

/// A workspace held still exactly where both manifests hold together, none of the
/// harness's own files got into it, and every other path is recorded in both alike.
pub proof fn law_workspace_that_is_the_same_held_still(now: ManifestView, reviewed: ManifestView)
    requires
        manifest_fault(now) is None,
        manifest_fault(reviewed) is None,
        forall|path: Seq<char>|
            starts_with(path, ".ds-verification/"@) ==> #[trigger] lookup(now.entries, path) is None,
        forall|path: Seq<char>|
            !starts_with(path, ".ds-verification/"@) ==> #[trigger] lookup(now.entries, path)
                == lookup(reviewed.entries, path),
    ensures
        held_still(now, reviewed),
{
    assert forall|p: Seq<char>| !#[trigger] is_changed(now.entries, reviewed.entries, p) by {
        assert(lookup(now.entries, p) == lookup(now.entries, p));
    }
}

/// A stage that failed is told by its reason, and that the goal was not approved.
pub proof fn law_placeholder_tells_the_reason(reason: GoalClassifierFailOpenReason)
    ensures
        starts_with(
            placeholder_text(reason),
            "# Verification infrastructure failure: "@ + reason.name()@,
        ),
        ends_with(placeholder_text(reason), "\n\n## Reason\n\n"@ + reason.name()@ + "\n"@),
{
    let whole = placeholder_text(reason);
    let head = "# Verification infrastructure failure: "@ + reason.name()@;
    assert(whole.subrange(0, head.len() as int) =~= head);
    let long =
        "\n\nThe verification stage did not produce a verdict (infra-class failure). The goal was not approved; the harness pauses until a fresh verification round can run. No skeptic analysis was captured.\n\n## Reason\n\n"@;
    let short =
        "\n\nThe verification stage did not produce a verdict (infra-class failure). The goal was not approved; the harness pauses until a fresh verification round can run. No skeptic analysis was captured."@;
    let tail = "\n\n## Reason\n\n"@ + reason.name()@ + "\n"@;
    assert(long =~= short + "\n\n## Reason\n\n"@) by {
        reveal_strlit(
            "\n\nThe verification stage did not produce a verdict (infra-class failure). The goal was not approved; the harness pauses until a fresh verification round can run. No skeptic analysis was captured.\n\n## Reason\n\n",
        );
        reveal_strlit(
            "\n\nThe verification stage did not produce a verdict (infra-class failure). The goal was not approved; the harness pauses until a fresh verification round can run. No skeptic analysis was captured.",
        );
        reveal_strlit("\n\n## Reason\n\n");
    }
    assert(whole =~= head + short + tail);
    assert(whole.subrange(whole.len() - tail.len(), whole.len() as int) =~= tail);
}

} // verus!
