//! One skeptic: who it is, where it writes, and what its run comes to.

use vstd::prelude::*;

use crate::digest::{json_string, json_string_of};
use crate::facets::{FacetSet, VerificationFacet};
use crate::manifest::{is_uuid, new_round_id, ArtifactManifest, ManifestView};
use crate::panel::SkepticResult;
use crate::paths::{
    critic_dir, format_round_details_path, format_round_verdict_path, is_plain_id, join_path,
    law_critics_write_apart, path_fault, round_critic_dir, validate_details_path_in_root,
};
use crate::receipts::{validate_structured_verdict, verdict_fault, ArtifactRead};
use crate::runtime::{event_views, EventView, VerificationToolEvent};
use crate::stage::{clamped_panel, panel_size};
use crate::subagent_failure::{describe_subagent_failure, failure_message};
use crate::text::{
    blank, bool_str, bool_text, cat2, cat3, cat4, cat7, clone_opt, contains, decimal,
    decimal_string, is_blank, lemma_contains_itself, lemma_decimal_injective, opt, same_str,
    strings, trim,
};
use crate::verdict::{
    parse_skeptic_terminal_response, terminal_vote, SkepticBlocking, SkepticConfidence,
    SkepticVerdict, VerdictIdentity,
};

verus! {

// ---------------------------------------------------------------------------
// Assignment of models

/// A model and the harness that it runs in.
#[derive(Debug, PartialEq, Eq)]
pub struct GoalRoleModel {
    pub model: String,
    pub agent_type: String,
}

pub open spec fn role_models(v: Seq<GoalRoleModel>) -> Seq<(Seq<char>, Seq<char>)> {
    Seq::new(v.len(), |i: int| (v[i].model@, v[i].agent_type@))
}

/// `existing` as it is, and behind it the pool in turn, up to `n`.
pub open spec fn expanded<T>(existing: Seq<T>, pool: Seq<T>, n: int) -> Seq<T> {
    if pool.len() == 0 || existing.len() >= n {
        existing
    } else {
        Seq::new(
            n as nat,
            |i: int|
                if i < existing.len() {
                    existing[i]
                } else {
                    pool[i % (pool.len() as int)]
                },
        )
    }
}

fn role_model_copy(m: &GoalRoleModel) -> (r: GoalRoleModel)
    ensures
        r.model@ == m.model@,
        r.agent_type@ == m.agent_type@,
{
    GoalRoleModel { model: m.model.clone(), agent_type: m.agent_type.clone() }
}

/// Assigns models to `n` skeptics. What was assigned before is kept; the rest
/// of the places go to the pool in turn.
pub fn expand_skeptic_assignment(
    existing: &[GoalRoleModel],
    pool: &[GoalRoleModel],
    n: usize,
) -> (r: Vec<GoalRoleModel>)
    ensures
        role_models(r@) == expanded(role_models(existing@), role_models(pool@), n as int),
{
    let ghost es = role_models(existing@);
    let ghost ps = role_models(pool@);
    let mut out: Vec<GoalRoleModel> = Vec::new();
    let mut i: usize = 0;
    while i < existing.len()
        invariant
            i <= existing@.len(),
            es == role_models(existing@),
            out@.len() == i,
            forall|k: int| 0 <= k < i ==> role_models(out@)[k] == #[trigger] es[k],
        decreases existing@.len() - i,
    {
        out.push(role_model_copy(&existing[i]));
        proof {
            assert forall|k: int| 0 <= k < i + 1 implies role_models(out@)[k] == #[trigger] es[k] by {
                assert(es[k] == (existing@[k].model@, existing@[k].agent_type@));
            }
        }
        i += 1;
    }
    proof {
        assert(role_models(out@) =~= es);
    }
    if pool.len() == 0 || existing.len() >= n {
        return out;
    }
    let ghost want = expanded(es, ps, n as int);
    while i < n
        invariant
            existing@.len() <= i <= n,
            pool@.len() > 0,
            es == role_models(existing@),
            ps == role_models(pool@),
            es.len() < n,
            want == expanded(es, ps, n as int),
            out@.len() == i,
            forall|k: int| 0 <= k < i ==> role_models(out@)[k] == #[trigger] want[k],
        decreases n - i,
    {
        let ghost before = role_models(out@);
        out.push(role_model_copy(&pool[i % pool.len()]));
        proof {
            assert(ps.len() == pool@.len());
            assert(ps[i as int % (pool@.len() as int)] == want[i as int]);
            assert forall|k: int| 0 <= k < i + 1 implies role_models(out@)[k]
                == #[trigger] want[k] by {
                if k < i {
                    assert(before[k] == want[k]);
                    assert(role_models(out@)[k] == before[k]);
                }
            }
        }
        i += 1;
    }
    proof {
        assert(role_models(out@) =~= want);
    }
    out
}

/// A frozen assignment is never rewritten, and growing it in two steps is
/// growing it in one.
pub proof fn law_assignment_grows_without_rewriting<T>(
    existing: Seq<T>,
    pool: Seq<T>,
    n: int,
    m: int,
)
    requires
        0 <= n <= m,
    ensures
        existing.len() <= expanded(existing, pool, n).len(),
        expanded(existing, pool, n).take(existing.len() as int) == existing,
        expanded(expanded(existing, pool, n), pool, m) == expanded(existing, pool, m),
{
    let first = expanded(existing, pool, n);
    assert(first.take(existing.len() as int) =~= existing);
    assert(expanded(first, pool, m) =~= expanded(existing, pool, m));
}

// ---------------------------------------------------------------------------
// Spawning

/// Why a skeptic could not be run.
#[derive(Debug)]
pub enum SpawnError {
    /// The coordinator could not be reached.
    Transport(String),
    /// The skeptic ran and failed.
    Runtime { message: String, cancelled: bool },
}

impl SpawnError {
    pub open spec fn text(self) -> Seq<char> {
        match self {
            SpawnError::Transport(detail) => "subagent transport error: "@ + detail@,
            SpawnError::Runtime { message, cancelled } => "subagent runtime error (cancelled="@
                + bool_text(cancelled) + "): "@ + message@,
        }
    }

    /// The message to show.
    pub fn message(&self) -> (r: String)
        ensures
            r@ == self.text(),
    {
        match self {
            SpawnError::Transport(detail) => cat2("subagent transport error: ", detail.as_str()),
            SpawnError::Runtime { message, cancelled } => cat4(
                "subagent runtime error (cancelled=",
                bool_str(*cancelled),
                "): ",
                message.as_str(),
            ),
        }
    }

    pub fn is_cancelled(&self) -> (r: bool)
        ensures
            r == (self is Runtime && self->cancelled),
    {
        match self {
            SpawnError::Transport(_) => false,
            SpawnError::Runtime { message: _, cancelled } => *cancelled,
        }
    }

    /// What is noted of a skeptic that did not come back with a verdict.
    pub open spec fn note_text(self) -> Seq<char> {
        match self {
            SpawnError::Transport(detail) => "transport error: "@ + detail@,
            SpawnError::Runtime { message, cancelled } => "runtime error (cancelled="@ + bool_text(
                cancelled,
            ) + "): "@ + message@,
        }
    }

    pub fn note(&self) -> (r: String)
        ensures
            r@ == self.note_text(),
    {
        match self {
            SpawnError::Transport(detail) => cat2("transport error: ", detail.as_str()),
            SpawnError::Runtime { message, cancelled } => cat4(
                "runtime error (cancelled=",
                bool_str(*cancelled),
                "): ",
                message.as_str(),
            ),
        }
    }
}

/// What the coordinator reports of a finished subagent.
#[derive(Debug)]
pub struct SubagentReport {
    pub success: bool,
    pub cancelled: bool,
    pub error: Option<String>,
    pub output: String,
}

/// The terminal response of a subagent that succeeded, or else why it failed.
pub fn spawn_outcome(report: &SubagentReport, subagent_id: &str) -> (r: Result<String, SpawnError>)
    ensures
        report.success ==> r is Ok && r->Ok_0@ == report.output@,
        !report.success ==> r is Err && r->Err_0 is Runtime && r->Err_0->cancelled
            == report.cancelled && r->Err_0->message@ == failure_message(
            report.cancelled,
            opt(report.error),
            report.output@,
            subagent_id@,
            "verification skeptic"@,
        ),
{
    if report.success {
        return Ok(report.output.clone());
    }
    let error = match &report.error {
        Some(text) => Some(text.as_str()),
        None => None,
    };
    let message = describe_subagent_failure(
        report.cancelled,
        error,
        report.output.as_str(),
        subagent_id,
        "verification skeptic",
    );
    Err(SpawnError::Runtime { message, cancelled: report.cancelled })
}

/// How long a spawn is put off while the subagents are under pressure: it is
/// polled, and it is never put off for longer than this, in milliseconds.
pub const GOAL_SPAWN_BACKPRESSURE_MAX_WAIT_MS: u64 = 30000;

pub const GOAL_SPAWN_BACKPRESSURE_POLL_MS: u64 = 2000;

/// Soft backpressure: spawns are deferred, never dropped.
#[derive(Clone, Copy, Debug)]
pub struct SpawnBackpressure {
    pub poll_ms: u64,
}

impl SpawnBackpressure {
    pub fn new() -> (r: SpawnBackpressure)
        ensures
            r.poll_ms == GOAL_SPAWN_BACKPRESSURE_POLL_MS,
    {
        SpawnBackpressure { poll_ms: GOAL_SPAWN_BACKPRESSURE_POLL_MS }
    }

    /// Whether to sleep once more before the spawn.
    pub fn defers(&self, is_over: bool, waited_ms: u64) -> (r: bool)
        ensures
            r <==> is_over && waited_ms < GOAL_SPAWN_BACKPRESSURE_MAX_WAIT_MS,
    {
        is_over && waited_ms < GOAL_SPAWN_BACKPRESSURE_MAX_WAIT_MS
    }
}

// ---------------------------------------------------------------------------
// Failures

/// What a skeptic without an accepted verdict counts as: a refutation.
pub open spec fn is_failure(
    r: SkepticResult,
    skeptic_idx: u32,
    details_path: Seq<char>,
    note: Seq<char>,
    latency_ms: u64,
) -> bool {
    &&& r.skeptic_idx == skeptic_idx
    &&& r.refuted
    &&& r.confidence == SkepticConfidence::Unknown
    &&& r.blocking == SkepticBlocking::NonBlocking
    &&& r.evidence@.len() == 0
    &&& r.findings@.len() == 0
    &&& opt(r.fallback_note) == Some(note)
    &&& r.details_path@ == details_path
    &&& r.latency_ms == latency_ms
}

pub fn skeptic_failure(skeptic_idx: u32, details_path: &str, note: &str, latency_ms: u64) -> (r:
    SkepticResult)
    ensures
        is_failure(r, skeptic_idx, details_path@, note@, latency_ms),
{
    SkepticResult {
        skeptic_idx,
        refuted: true,
        confidence: SkepticConfidence::Unknown,
        blocking: SkepticBlocking::NonBlocking,
        evidence: String::new(),
        findings: Vec::new(),
        fallback_note: Some(note.to_owned()),
        details_path: details_path.to_owned(),
        latency_ms,
    }
}

pub fn spawn_failure(skeptic_idx: u32, details_path: &str, error: &SpawnError, latency_ms: u64) -> (
r: SkepticResult)
    ensures
        is_failure(r, skeptic_idx, details_path@, error.note_text(), latency_ms),
{
    let note = error.note();
    skeptic_failure(skeptic_idx, details_path, note.as_str(), latency_ms)
}

// ---------------------------------------------------------------------------
// Before the spawn

/// Where one skeptic writes.
#[derive(Debug)]
pub struct SkepticPaths {
    pub details: String,
    pub verdict: String,
    pub scratch: String,
}

pub fn skeptic_paths(scratch_root: &str, round_id: &str, skeptic_idx: u32) -> (r: SkepticPaths)
    ensures
        r.scratch@ == critic_dir(scratch_root@, round_id@, skeptic_idx as nat),
        r.details@ == join_path(r.scratch@, "details.md"@),
        r.verdict@ == join_path(r.scratch@, "verdict.json"@),
{
    SkepticPaths {
        details: format_round_details_path(scratch_root, round_id, skeptic_idx),
        verdict: format_round_verdict_path(scratch_root, round_id, skeptic_idx),
        scratch: round_critic_dir(scratch_root, round_id, skeptic_idx),
    }
}

/// Why a skeptic must not be started: its root could not be secured, or its
/// files would not be safe or not be new.
pub open spec fn start_fault(
    paths: SkepticPaths,
    temp_root: Seq<char>,
    root_error: Option<Seq<char>>,
    verdict_exists: bool,
    details_exists: bool,
) -> Option<Seq<char>> {
    if root_error is Some {
        Some("internal: could not secure the goal scratch root: "@ + root_error->0)
    } else if path_fault(paths.details@, temp_root) is Some || path_fault(
        paths.verdict@,
        temp_root,
    ) is Some || verdict_exists || details_exists {
        Some("internal: unsafe per-skeptic file path"@)
    } else {
        None
    }
}

/// The failure of a skeptic that must not be started, if it must not.
pub fn refuse_start(
    skeptic_idx: u32,
    paths: &SkepticPaths,
    temp_root: &str,
    root_error: &Option<String>,
    verdict_exists: bool,
    details_exists: bool,
    latency_ms: u64,
) -> (r: Option<SkepticResult>)
    ensures
        match start_fault(*paths, temp_root@, opt(*root_error), verdict_exists, details_exists) {
            Some(note) => r is Some && is_failure(
                r->0,
                skeptic_idx,
                paths.details@,
                note,
                latency_ms,
            ),
            None => r is None,
        },
{
    let details = paths.details.as_str();
    if let Some(error) = root_error {
        let note = cat2("internal: could not secure the goal scratch root: ", error.as_str());
        return Some(skeptic_failure(skeptic_idx, details, note.as_str(), latency_ms));
    }
    if validate_details_path_in_root(details, temp_root).is_err()
        || validate_details_path_in_root(paths.verdict.as_str(), temp_root).is_err()
        || verdict_exists || details_exists {
        return Some(
            skeptic_failure(
                skeptic_idx,
                details,
                "internal: unsafe per-skeptic file path",
                latency_ms,
            ),
        );
    }
    None
}

/// What the verdict of a skeptic has to be about.
pub fn verdict_identity(
    goal_id: &str,
    round_id: &str,
    contract_digest: &str,
    manifest_digest: &str,
    critic_id: &str,
    skeptic_idx: u32,
) -> (r: VerdictIdentity)
    ensures
        r.goal_id@ == goal_id@,
        r.verification_round_id@ == round_id@,
        r.contract_digest@ == contract_digest@,
        r.reviewed_artifact_manifest_digest@ == manifest_digest@,
        r.critic_id@ == critic_id@,
        r.critic_assignment_id@ == round_id@ + ":critic-"@ + decimal(skeptic_idx as nat),
{
    let n = decimal_string(skeptic_idx as u128);
    VerdictIdentity {
        goal_id: goal_id.to_owned(),
        verification_round_id: round_id.to_owned(),
        contract_digest: contract_digest.to_owned(),
        reviewed_artifact_manifest_digest: manifest_digest.to_owned(),
        critic_id: critic_id.to_owned(),
        critic_assignment_id: cat3(round_id, ":critic-", n.as_str()),
    }
}

/// How a spawn departs from the session that it belongs to.
#[derive(Debug)]
pub struct RoleSpawnOverride {
    /// Whether it was chosen for the role; otherwise it changes nothing.
    pub explicit: bool,
    pub model: Option<String>,
    pub agent_type: Option<String>,
}

/// On whose behalf skeptics are spawned.
#[derive(Debug)]
pub struct SpawnOrigin {
    pub parent_session_id: String,
    pub parent_prompt_id: Option<String>,
    pub cwd: Option<String>,
    /// One for each skeptic; a skeptic without one inherits from the session.
    pub skeptic_overrides: Vec<RoleSpawnOverride>,
    pub goal_phase: Option<String>,
    pub goal_attempt: Option<u32>,
}

/// What a skeptic is called in the list of subagents.
pub const GOAL_CLASSIFIER_SUBAGENT_DESCRIPTION: &'static str = "goal achievement skeptic";

/// What the coordinator is asked to spawn.
#[derive(Debug)]
pub struct SkepticRequest {
    pub id: String,
    pub prompt: String,
    pub description: String,
    pub subagent_type: String,
    pub parent_session_id: String,
    pub parent_prompt_id: Option<String>,
    pub cwd: Option<String>,
    /// The session whose transcript is gone on with.
    pub resume_from: Option<String>,
    pub model: Option<String>,
    pub harness_agent_type: Option<String>,
    /// What the skeptic may read, and where it may write.
    pub reviewed_root: String,
    pub scratch_root: String,
    pub run_in_background: bool,
    /// Whether its end is shown to the model of the session.
    pub surface_completion: bool,
    pub fork_context: bool,
    pub goal_phase: Option<String>,
    pub goal_attempt: Option<u32>,
}

/// The model and the harness that a skeptic runs with.
pub open spec fn override_of(overrides: Seq<RoleSpawnOverride>, skeptic_idx: int) -> (
    Option<Seq<char>>,
    Option<Seq<char>>,
) {
    if 0 <= skeptic_idx < overrides.len() && overrides[skeptic_idx].explicit {
        (opt(overrides[skeptic_idx].model), opt(overrides[skeptic_idx].agent_type))
    } else {
        (None, None)
    }
}

/// Whether a request is the one for a skeptic: it runs in the foreground, knows
/// nothing of the session's conversation, reads the reviewed tree and writes to
/// its own directory.
pub open spec fn is_skeptic_request(
    r: SkepticRequest,
    origin: SpawnOrigin,
    id: Seq<char>,
    skeptic_idx: int,
    subagent_type: Seq<char>,
    prompt: Seq<char>,
    scratch: Seq<char>,
    reviewed_root: Seq<char>,
    resume_from: Option<Seq<char>>,
) -> bool {
    &&& r.id@ == id
    &&& r.prompt@ == prompt
    &&& r.description@ == GOAL_CLASSIFIER_SUBAGENT_DESCRIPTION@
    &&& r.subagent_type@ == subagent_type
    &&& r.parent_session_id@ == origin.parent_session_id@
    &&& opt(r.parent_prompt_id) == opt(origin.parent_prompt_id)
    &&& opt(r.cwd) == opt(origin.cwd)
    &&& opt(r.resume_from) == resume_from
    &&& (opt(r.model), opt(r.harness_agent_type)) == override_of(
        origin.skeptic_overrides@,
        skeptic_idx,
    )
    &&& r.reviewed_root@ == reviewed_root
    &&& r.scratch_root@ == scratch
    &&& !r.run_in_background
    &&& !r.surface_completion
    &&& !r.fork_context
    &&& opt(r.goal_phase) == opt(origin.goal_phase)
    &&& r.goal_attempt == origin.goal_attempt
}

/// The request for one skeptic.
pub fn skeptic_request(
    origin: &SpawnOrigin,
    id: &str,
    skeptic_idx: u32,
    subagent_type: &str,
    prompt: &str,
    paths: &SkepticPaths,
    reviewed_root: &str,
    resume_from: &Option<String>,
) -> (r: SkepticRequest)
    ensures
        is_skeptic_request(
            r,
            *origin,
            id@,
            skeptic_idx as int,
            subagent_type@,
            prompt@,
            paths.scratch@,
            reviewed_root@,
            opt(*resume_from),
        ),
{
    let i: usize = skeptic_idx as usize;
    let (model, harness_agent_type) = if i < origin.skeptic_overrides.len()
        && origin.skeptic_overrides[i].explicit {
        let given = &origin.skeptic_overrides[i];
        (clone_opt(&given.model), clone_opt(&given.agent_type))
    } else {
        (None, None)
    };
    SkepticRequest {
        id: id.to_owned(),
        prompt: prompt.to_owned(),
        description: GOAL_CLASSIFIER_SUBAGENT_DESCRIPTION.to_owned(),
        subagent_type: subagent_type.to_owned(),
        parent_session_id: origin.parent_session_id.clone(),
        parent_prompt_id: clone_opt(&origin.parent_prompt_id),
        cwd: clone_opt(&origin.cwd),
        resume_from: clone_opt(resume_from),
        model,
        harness_agent_type,
        reviewed_root: reviewed_root.to_owned(),
        scratch_root: paths.scratch.clone(),
        run_in_background: false,
        surface_completion: false,
        fork_context: false,
        goal_phase: clone_opt(&origin.goal_phase),
        goal_attempt: origin.goal_attempt,
    }
}

// ---------------------------------------------------------------------------
// The panel of a round

/// The skeptics of a round: who they are, and what they review.
pub struct Panel {
    ids: Vec<String>,
    scratch_root: String,
    round_id: String,
    reviewed_root: String,
}

#[verifier::ext_equal]
pub struct PanelView {
    /// The identities of the skeptics.
    pub ids: Seq<Seq<char>>,
    pub scratch_root: Seq<char>,
    pub round_id: Seq<char>,
    /// The frozen tree that they all read.
    pub reviewed_root: Seq<char>,
}

impl View for Panel {
    type V = PanelView;

    closed spec fn view(&self) -> PanelView {
        PanelView {
            ids: strings(self.ids@),
            scratch_root: self.scratch_root@,
            round_id: self.round_id@,
            reviewed_root: self.reviewed_root@,
        }
    }
}

/// The request that a panel makes for one of its skeptics.
pub open spec fn is_panel_request(
    panel: PanelView,
    origin: SpawnOrigin,
    skeptic_idx: int,
    subagent_type: Seq<char>,
    prompt: Seq<char>,
    r: SkepticRequest,
) -> bool {
    is_skeptic_request(
        r,
        origin,
        panel.ids[skeptic_idx],
        skeptic_idx,
        subagent_type,
        prompt,
        critic_dir(panel.scratch_root, panel.round_id, skeptic_idx as nat),
        panel.reviewed_root,
        None,
    )
}

/// The identities for a panel, freshly drawn. That no identity is drawn twice
/// rests on chance and time.
fn draw_ids(size: u32) -> (r: Vec<String>)
    ensures
        r@.len() == size,
        forall|k: int|
            0 <= k < size ==> is_uuid((#[trigger] r@[k])@) && is_plain_id(r@[k]@)
                && r@[k]@.len() == 36,
{
    let mut ids: Vec<String> = Vec::new();
    let mut i: u32 = 0;
    while i < size
        invariant
            i <= size,
            ids@.len() == i,
            forall|k: int|
                0 <= k < i ==> is_uuid((#[trigger] ids@[k])@) && is_plain_id(ids@[k]@)
                    && ids@[k]@.len() == 36,
        decreases size - i,
    {
        ids.push(new_round_id());
        i += 1;
    }
    ids
}

/// Whether an earlier skeptic has the identity of this one already. The trace of
/// an identity is opened once, so that such a skeptic is turned away.
pub open spec fn repeats_identity(ids: Seq<Seq<char>>, skeptic_idx: int) -> bool {
    exists|k: int| 0 <= k < skeptic_idx && #[trigger] ids[k] == ids[skeptic_idx]
}

impl Panel {
    /// A panel of skeptics with these identities.
    pub fn of_ids(ids: Vec<String>, scratch_root: &str, round_id: &str, reviewed_root: &str) -> (r:
        Panel)
        ensures
            r@ == (PanelView {
                ids: strings(ids@),
                scratch_root: scratch_root@,
                round_id: round_id@,
                reviewed_root: reviewed_root@,
            }),
    {
        Panel {
            ids,
            scratch_root: scratch_root.to_owned(),
            round_id: round_id.to_owned(),
            reviewed_root: reviewed_root.to_owned(),
        }
    }

    /// The panel of a round that asks for `skeptic_count` skeptics, each with a
    /// freshly drawn identity.
    pub fn convene(
        skeptic_count: u32,
        scratch_root: &str,
        round_id: &str,
        reviewed_root: &str,
    ) -> (r: Panel)
        ensures
            r@.ids.len() == clamped_panel(skeptic_count),
            forall|i: int|
                0 <= i < r@.ids.len() ==> is_uuid(#[trigger] r@.ids[i]) && is_plain_id(r@.ids[i])
                    && r@.ids[i].len() == 36,
            r@.scratch_root == scratch_root@,
            r@.round_id == round_id@,
            r@.reviewed_root == reviewed_root@,
    {
        let ids = draw_ids(panel_size(skeptic_count));
        proof {
            assert forall|i: int| 0 <= i < strings(ids@).len() implies is_uuid(
                #[trigger] strings(ids@)[i],
            ) && is_plain_id(strings(ids@)[i]) && strings(ids@)[i].len() == 36 by {
                assert(strings(ids@)[i] == ids@[i]@);
            }
        }
        Panel::of_ids(ids, scratch_root, round_id, reviewed_root)
    }

    fn repeats(&self, skeptic_idx: usize) -> (r: bool)
        requires
            skeptic_idx < self@.ids.len(),
        ensures
            r == repeats_identity(self@.ids, skeptic_idx as int),
    {
        let ghost all = self@.ids;
        let mut k: usize = 0;
        while k < skeptic_idx
            invariant
                k <= skeptic_idx < all.len(),
                all == self@.ids,
                all == strings(self.ids@),
                forall|j: int| 0 <= j < k ==> #[trigger] all[j] != all[skeptic_idx as int],
            decreases skeptic_idx - k,
        {
            proof {
                assert(all[k as int] == self.ids@[k as int]@);
                assert(all[skeptic_idx as int] == self.ids@[skeptic_idx as int]@);
            }
            if same_str(self.ids[k].as_str(), self.ids[skeptic_idx].as_str()) {
                return true;
            }
            k += 1;
        }
        false
    }

    pub fn size(&self) -> (r: usize)
        ensures
            r == self@.ids.len(),
    {
        self.ids.len()
    }

    pub fn id(&self, skeptic_idx: u32) -> (r: &str)
        requires
            skeptic_idx < self@.ids.len(),
        ensures
            r@ == self@.ids[skeptic_idx as int],
    {
        self.ids[skeptic_idx as usize].as_str()
    }

    /// Where a skeptic of the panel writes.
    pub fn paths(&self, skeptic_idx: u32) -> (r: SkepticPaths)
        ensures
            r.scratch@ == critic_dir(self@.scratch_root, self@.round_id, skeptic_idx as nat),
            r.details@ == join_path(r.scratch@, "details.md"@),
            r.verdict@ == join_path(r.scratch@, "verdict.json"@),
    {
        skeptic_paths(self.scratch_root.as_str(), self.round_id.as_str(), skeptic_idx)
    }

    /// The request for one of the skeptics. It starts without a past, whatever
    /// round this is.
    pub fn request(
        &self,
        skeptic_idx: u32,
        origin: &SpawnOrigin,
        subagent_type: &str,
        prompt: &str,
    ) -> (r: SkepticRequest)
        requires
            skeptic_idx < self@.ids.len(),
        ensures
            is_panel_request(self@, *origin, skeptic_idx as int, subagent_type@, prompt@, r),
    {
        let paths = self.paths(skeptic_idx);
        skeptic_request(
            origin,
            self.id(skeptic_idx),
            skeptic_idx,
            subagent_type,
            prompt,
            &paths,
            self.reviewed_root.as_str(),
            &None,
        )
    }

    /// The requests of a round, one for each skeptic in turn; none for a skeptic
    /// that has no prompt because it failed before it could be asked, or whose
    /// identity an earlier one has.
    pub fn requests(
        &self,
        origin: &SpawnOrigin,
        subagent_type: &str,
        prompts: &Vec<Option<String>>,
    ) -> (r: Vec<Option<SkepticRequest>>)
        requires
            prompts@.len() == self@.ids.len(),
            prompts@.len() <= u32::MAX,
        ensures
            r@.len() == self@.ids.len(),
            forall|i: int|
                0 <= i < r@.len() ==> {
                    &&& (#[trigger] r@[i]) is Some <==> prompts@[i] is Some && !repeats_identity(
                        self@.ids,
                        i,
                    )
                    &&& r@[i] is Some ==> is_panel_request(
                        self@,
                        *origin,
                        i,
                        subagent_type@,
                        prompts@[i]->0@,
                        r@[i]->0,
                    )
                },
    {
        let mut out: Vec<Option<SkepticRequest>> = Vec::new();
        let mut i: usize = 0;
        while i < prompts.len()
            invariant
                i <= prompts@.len(),
                prompts@.len() == self@.ids.len(),
                prompts@.len() <= u32::MAX,
                out@.len() == i,
                forall|k: int|
                    0 <= k < i ==> {
                        &&& (#[trigger] out@[k]) is Some <==> prompts@[k] is Some
                            && !repeats_identity(self@.ids, k)
                        &&& out@[k] is Some ==> is_panel_request(
                            self@,
                            *origin,
                            k,
                            subagent_type@,
                            prompts@[k]->0@,
                            out@[k]->0,
                        )
                    },
            decreases prompts@.len() - i,
        {
            let request = match &prompts[i] {
                Some(prompt) => {
                    if self.repeats(i) {
                        None
                    } else {
                        Some(self.request(i as u32, origin, subagent_type, prompt.as_str()))
                    }
                },
                None => None,
            };
            out.push(request);
            i += 1;
        }
        out
    }
}

/// The skeptics that a panel asks are cold, read one frozen tree, and each has an
/// identity of its own and writes to a directory of its own. None of them goes on
/// with an earlier session or with the conversation of its parent.
pub proof fn law_skeptics_are_cold_and_apart(
    panel: PanelView,
    origin: SpawnOrigin,
    first: int,
    second: int,
    subagent_type: Seq<char>,
    first_prompt: Seq<char>,
    second_prompt: Seq<char>,
    a: SkepticRequest,
    b: SkepticRequest,
)
    requires
        0 <= first < panel.ids.len(),
        0 <= second < panel.ids.len(),
        first != second,
        !repeats_identity(panel.ids, first),
        !repeats_identity(panel.ids, second),
        is_panel_request(panel, origin, first, subagent_type, first_prompt, a),
        is_panel_request(panel, origin, second, subagent_type, second_prompt, b),
    ensures
        a.resume_from is None && b.resume_from is None,
        !a.fork_context && !b.fork_context,
        a.reviewed_root@ == panel.reviewed_root && b.reviewed_root@ == panel.reviewed_root,
        a.scratch_root@ != b.scratch_root@,
        a.id@ != b.id@,
{
    law_critics_write_apart(panel.scratch_root, panel.round_id, first as nat, second as nat);
    if panel.ids[first] == panel.ids[second] {
        assert(panel.ids[second] == panel.ids[first]);
    }
}

/// The assignments of a round are told apart.
pub proof fn law_assignments_of_a_round_differ(
    round_id: Seq<char>,
    first: VerdictIdentity,
    second: VerdictIdentity,
    i: u32,
    j: u32,
)
    requires
        i != j,
        first.critic_assignment_id@ == round_id + ":critic-"@ + decimal(i as nat),
        second.critic_assignment_id@ == round_id + ":critic-"@ + decimal(j as nat),
    ensures
        first.critic_assignment_id@ != second.critic_assignment_id@,
{
    let head = round_id + ":critic-"@;
    let a = decimal(i as nat);
    let b = decimal(j as nat);
    if head + a == head + b {
        assert((head + a).len() == head.len() + a.len());
        assert((head + b).len() == head.len() + b.len());
        assert(a =~= b) by {
            assert forall|k: int| 0 <= k < a.len() implies a[k] == b[k] by {
                assert((head + a)[head.len() + k] == a[k]);
                assert((head + b)[head.len() + k] == b[k]);
            }
        }
        lemma_decimal_injective(i as nat, j as nat);
    }
}

// ---------------------------------------------------------------------------
// What is stored once

/// The place of something that is stored once and never written over.
#[derive(Debug)]
pub struct StoreSpot {
    what: String,
    taken: bool,
}

impl StoreSpot {
    pub closed spec fn holds(&self) -> Seq<char> {
        self.what@
    }

    pub closed spec fn is_taken(&self) -> bool {
        self.taken
    }

    /// The place for `what`, where `taken` says whether anything stands there.
    pub fn found(what: &str, taken: bool) -> (r: StoreSpot)
        ensures
            r.holds() == what@,
            r.is_taken() == taken,
    {
        StoreSpot { what: what.to_owned(), taken }
    }

    /// Takes the place, which succeeds only once: after a first claim, and
    /// wherever something stood there before, every claim is refused.
    pub fn claim(&mut self) -> (r: Result<(), String>)
        ensures
            final(self).holds() == old(self).holds(),
            final(self).is_taken(),
            r is Err <==> old(self).is_taken(),
            r is Err ==> r->Err_0@ == old(self).holds() + " path already exists"@,
    {
        if self.taken {
            return Err(cat2(self.what.as_str(), " path already exists"));
        }
        self.taken = true;
        Ok(())
    }
}

// ---------------------------------------------------------------------------
// What the trace of a session shows of a subagent

/// An item of a conversation.
#[derive(Debug)]
pub enum TraceItem {
    ToolCall { id: String, name: String, arguments: String },
    ToolResult { tool_call_id: String, content: String },
}

/// The arguments of the call, as a JSON object with its keys in order.
pub open spec fn call_arguments(
    description: Seq<char>,
    subagent_type: Seq<char>,
    prompt: Seq<char>,
) -> Seq<char> {
    "{\"description\":"@ + json_string_of(description) + ",\"prompt\":"@ + json_string_of(prompt)
        + ",\"subagent_type\":"@ + json_string_of(subagent_type) + "}"@
}

/// A subagent as a call of the tool that spawns them, with its result. The
/// footer tells which subagent it was.
pub fn build_subagent_trace_items(
    task_tool_name: &str,
    subagent_id: &str,
    subagent_type: &str,
    description: &str,
    prompt: &str,
    output: &str,
    footer: &str,
) -> (r: Vec<TraceItem>)
    ensures
        r@.len() == 2,
        r@[0] is ToolCall,
        r@[0]->id@ == subagent_id@,
        r@[0]->name@ == task_tool_name@,
        r@[0]->arguments@ == call_arguments(description@, subagent_type@, prompt@),
        r@[1] is ToolResult,
        r@[1]->tool_call_id@ == subagent_id@,
        r@[1]->content@ == output@ + "\n\n"@ + footer@,
{
    let d = json_string(description);
    let p = json_string(prompt);
    let t = json_string(subagent_type);
    let arguments = cat7(
        "{\"description\":",
        d.as_str(),
        ",\"prompt\":",
        p.as_str(),
        ",\"subagent_type\":",
        t.as_str(),
        "}",
    );
    let mut out: Vec<TraceItem> = Vec::new();
    out.push(
        TraceItem::ToolCall {
            id: subagent_id.to_owned(),
            name: task_tool_name.to_owned(),
            arguments,
        },
    );
    out.push(
        TraceItem::ToolResult {
            tool_call_id: subagent_id.to_owned(),
            content: cat3(output, "\n\n", footer),
        },
    );
    out
}

/// What the trace records of a spawn: what the subagent said, or why it failed;
/// nothing where it never ran.
pub fn traced_output(outcome: &Result<String, SpawnError>) -> (r: Option<String>)
    ensures
        opt(r) == (match *outcome {
            Ok(text) => Some(text@),
            Err(SpawnError::Runtime { message, cancelled }) => Some(message@),
            Err(SpawnError::Transport(detail)) => None,
        }),
{
    match outcome {
        Ok(text) => Some(text.clone()),
        Err(SpawnError::Runtime { message, cancelled: _ }) => Some(message.clone()),
        Err(SpawnError::Transport(_)) => None,
    }
}

// ---------------------------------------------------------------------------
// Reading the verdict file

/// How large a verdict file may be.
pub const MAX_VERDICT_BYTES: u64 = 4194304;

/// Accepts a verdict file only where it is a regular file with contents of a
/// bounded size.
pub fn check_verdict_file(is_file: bool, len: u64) -> (r: Result<(), String>)
    ensures
        r is Ok <==> is_file && 0 < len <= MAX_VERDICT_BYTES,
        r is Err ==> r->Err_0@ == "verdict is not a bounded regular file"@,
{
    if !is_file || len == 0 || len > MAX_VERDICT_BYTES {
        Err("verdict is not a bounded regular file".to_owned())
    } else {
        Ok(())
    }
}

/// `String::from_utf8`: the text that the bytes encode, and an error where they
/// are not UTF-8.
#[verifier::external_body]
pub(crate) fn utf8_text(bytes: Vec<u8>) -> (r: Option<String>)
    ensures
        r is Some <==> vstd::utf8::valid_utf8(bytes@),
        r is Some ==> vstd::utf8::encode_utf8(r->0@) == bytes@,
{
    String::from_utf8(bytes).ok()
}

/// Decodes the bytes of a verdict file of `len` bytes.
pub fn decode_verdict_file(bytes: Vec<u8>, len: u64) -> (r: Result<String, String>)
    ensures
        bytes@.len() != len ==> r is Err && r->Err_0@ == "verdict changed while being read"@,
        bytes@.len() == len && !vstd::utf8::valid_utf8(bytes@) ==> r is Err && r->Err_0@
            == "verdict is not UTF-8"@,
        bytes@.len() == len && vstd::utf8::valid_utf8(bytes@) ==> r is Ok
            && vstd::utf8::encode_utf8(r->Ok_0@) == bytes@,
{
    if bytes.len() as u64 != len {
        return Err("verdict changed while being read".to_owned());
    }
    match utf8_text(bytes) {
        Some(text) => Ok(text),
        None => Err("verdict is not UTF-8".to_owned()),
    }
}

/// What became of a verdict file.
#[derive(Debug)]
pub enum VerdictFile {
    /// It could not be read, for the reason given.
    Unreadable(String),
    /// It is not a verdict.
    Malformed,
    Decoded(SkepticVerdict),
}

/// Why the verdict of a skeptic is not taken, if it is not. A terminal response
/// can turn an approval down; it can never stand in for one.
pub open spec fn rejection(
    file: VerdictFile,
    terminal: Seq<char>,
    identity: VerdictIdentity,
    facets: Set<VerificationFacet>,
    reads: Seq<ArtifactRead>,
    m: ManifestView,
    trace: Seq<EventView>,
) -> Option<Seq<char>> {
    match file {
        VerdictFile::Unreadable(reason) => Some(reason@),
        VerdictFile::Malformed => Some("missing, malformed, or unknown-schema JSON"@),
        VerdictFile::Decoded(v) => if terminal_vote(terminal) == Some(true) && !v.refuted {
            Some("terminal refutation conflicts with structured approval"@)
        } else {
            verdict_fault(v, identity, facets, reads, m, trace)
        },
    }
}

/// Whether there is a read for every receipt.
pub open spec fn reads_fit(file: VerdictFile, reads: Seq<ArtifactRead>) -> bool {
    match file {
        VerdictFile::Decoded(v) => reads.len() == v.checks@.len(),
        _ => true,
    }
}

pub fn judge_verdict(
    file: &VerdictFile,
    terminal: &str,
    identity: &VerdictIdentity,
    facets: &FacetSet,
    reads: &Vec<ArtifactRead>,
    manifest: &ArtifactManifest,
    trace: &[VerificationToolEvent],
) -> (r: Option<String>)
    requires
        reads_fit(*file, reads@),
    ensures
        opt(r) == rejection(
            *file,
            terminal@,
            *identity,
            facets@,
            reads@,
            manifest@,
            event_views(trace@),
        ),
{
    match file {
        VerdictFile::Unreadable(reason) => Some(reason.clone()),
        VerdictFile::Malformed => Some("missing, malformed, or unknown-schema JSON".to_owned()),
        VerdictFile::Decoded(v) => {
            let refuted_aloud = match parse_skeptic_terminal_response(terminal) {
                Some(vote) => vote,
                None => false,
            };
            if refuted_aloud && !v.refuted {
                return Some("terminal refutation conflicts with structured approval".to_owned());
            }
            match validate_structured_verdict(v, identity, facets, reads, manifest, trace) {
                Ok(()) => None,
                Err(fault) => Some(fault),
            }
        },
    }
}

/// The report that is kept of an accepted verdict.
pub open spec fn report_text(v: SkepticVerdict) -> Seq<char> {
    if is_blank(v.details_md@) {
        "# Verification receipt\n\n"@ + v.evidence@ + "\n"@
    } else {
        v.details_md@
    }
}

pub fn verdict_report(v: &SkepticVerdict) -> (r: String)
    ensures
        r@ == report_text(*v),
{
    if blank(v.details_md.as_str()) {
        cat3("# Verification receipt\n\n", v.evidence.as_str(), "\n")
    } else {
        v.details_md.clone()
    }
}

/// What keeps an accepted verdict from counting: it, or its report, could not
/// be stored.
pub open spec fn storage_fault(stored: Result<(), String>, details_stored: bool) -> Option<
    Seq<char>,
> {
    match stored {
        Err(reason) => Some(reason@),
        Ok(_) => if details_stored {
            None
        } else {
            Some("critic details could not be persisted safely"@)
        },
    }
}

/// What a skeptic that came back comes to. `stored` and `details_stored` say
/// how storing the verdict and its report went.
pub fn conclude_skeptic(
    skeptic_idx: u32,
    details_path: &str,
    file: VerdictFile,
    terminal: &str,
    identity: &VerdictIdentity,
    facets: &FacetSet,
    reads: &Vec<ArtifactRead>,
    manifest: &ArtifactManifest,
    trace: &[VerificationToolEvent],
    stored: &Result<(), String>,
    details_stored: bool,
    latency_ms: u64,
) -> (r: SkepticResult)
    requires
        reads_fit(file, reads@),
    ensures
        ({
            let rejected = rejection(
                file,
                terminal@,
                *identity,
                facets@,
                reads@,
                manifest@,
                event_views(trace@),
            );
            let fault = if rejected is Some {
                rejected
            } else {
                storage_fault(*stored, details_stored)
            };
            match fault {
                Some(reason) => is_failure(
                    r,
                    skeptic_idx,
                    details_path@,
                    "structured verdict rejected: "@ + reason,
                    latency_ms,
                ),
                None => {
                    &&& file is Decoded
                    &&& r.skeptic_idx == skeptic_idx
                    &&& r.refuted == file->Decoded_0.refuted
                    &&& r.confidence == file->Decoded_0.confidence
                    &&& r.blocking == file->Decoded_0.blocking
                    &&& r.evidence@ == file->Decoded_0.evidence@
                    &&& r.findings@ == file->Decoded_0.findings@
                    &&& r.fallback_note is None
                    &&& r.details_path@ == details_path@
                    &&& r.latency_ms == latency_ms
                },
            }
        }),
{
    let rejected = judge_verdict(&file, terminal, identity, facets, reads, manifest, trace);
    if let Some(reason) = rejected {
        let note = cat2("structured verdict rejected: ", reason.as_str());
        return skeptic_failure(skeptic_idx, details_path, note.as_str(), latency_ms);
    }
    if let Err(reason) = stored {
        let note = cat2("structured verdict rejected: ", reason.as_str());
        return skeptic_failure(skeptic_idx, details_path, note.as_str(), latency_ms);
    }
    if !details_stored {
        let note = cat2(
            "structured verdict rejected: ",
            "critic details could not be persisted safely",
        );
        return skeptic_failure(skeptic_idx, details_path, note.as_str(), latency_ms);
    }
    match file {
        VerdictFile::Decoded(v) => SkepticResult {
            skeptic_idx,
            refuted: v.refuted,
            confidence: v.confidence,
            blocking: v.blocking,
            evidence: v.evidence,
            findings: v.findings,
            fallback_note: None,
            details_path: details_path.to_owned(),
            latency_ms,
        },
        _ => skeptic_failure(skeptic_idx, details_path, "", latency_ms),
    }
}

/// A skeptic approves only through a verdict of its own that approves, that
/// passes every check, and that its terminal response does not contradict.
pub proof fn law_only_an_accepted_verdict_approves(
    file: VerdictFile,
    terminal: Seq<char>,
    identity: VerdictIdentity,
    facets: Set<VerificationFacet>,
    reads: Seq<ArtifactRead>,
    m: ManifestView,
    trace: Seq<EventView>,
)
    requires
        rejection(file, terminal, identity, facets, reads, m, trace) is None,
    ensures
        file is Decoded,
        verdict_fault(file->Decoded_0, identity, facets, reads, m, trace) is None,
        !file->Decoded_0.refuted ==> terminal_vote(terminal) != Some(true),
{
}

// ---------------------------------------------------------------------------
// What becomes of a skeptic

/// A skeptic without an accepted verdict counts as one that refutes, with nothing
/// that would pause the goal; why there is no verdict is kept, so that it can never
/// be taken for an approval.
pub proof fn law_skeptic_without_a_verdict_refutes(
    r: SkepticResult,
    skeptic_idx: u32,
    details_path: Seq<char>,
    note: Seq<char>,
    latency_ms: u64,
)
    requires
        is_failure(r, skeptic_idx, details_path, note, latency_ms),
    ensures
        r.refuted,
        r.fallback_note is Some,
        r.fallback_note->0@ == note,
        r.blocking == SkepticBlocking::NonBlocking,
        r.confidence == SkepticConfidence::Unknown,
        r.skeptic_idx == skeptic_idx,
        r.details_path@ == details_path,
        r.evidence@.len() == 0 && r.findings@.len() == 0,
{
}

/// A skeptic is started exactly where its root is secured, both its files lie where
/// they are accepted, and neither of them is there yet.
pub proof fn law_skeptic_starts_on_a_clean_and_safe_place(
    paths: SkepticPaths,
    temp_root: Seq<char>,
    root_error: Option<Seq<char>>,
    verdict_exists: bool,
    details_exists: bool,
)
    ensures
        start_fault(paths, temp_root, root_error, verdict_exists, details_exists) is None <==> {
            &&& root_error is None
            &&& path_fault(paths.details@, temp_root) is None
            &&& path_fault(paths.verdict@, temp_root) is None
            &&& !verdict_exists
            &&& !details_exists
        },
{
}

/// A verdict is taken exactly where it could be read and decoded, where every check
/// on it passes, and where the skeptic did not refute aloud what it approves in
/// writing; and it counts only once both it and its report are stored.
pub proof fn law_verdict_is_taken_only_whole(
    file: VerdictFile,
    terminal: Seq<char>,
    identity: VerdictIdentity,
    facets: Set<VerificationFacet>,
    reads: Seq<ArtifactRead>,
    m: ManifestView,
    trace: Seq<EventView>,
    stored: Result<(), String>,
    details_stored: bool,
)
    ensures
        rejection(file, terminal, identity, facets, reads, m, trace) is None <==> {
            &&& file is Decoded
            &&& verdict_fault(file->Decoded_0, identity, facets, reads, m, trace) is None
            &&& file->Decoded_0.refuted || terminal_vote(terminal) != Some(true)
        },
        storage_fault(stored, details_stored) is None <==> stored is Ok && details_stored,
{
}

/// The report on a verdict is what the skeptic wrote, and its evidence where it
/// wrote nothing.
pub proof fn law_report_tells_what_the_skeptic_wrote(v: SkepticVerdict)
    ensures
        trim(v.details_md@).len() > 0 ==> report_text(v) == v.details_md@,
        trim(v.details_md@).len() == 0 ==> contains(report_text(v), v.evidence@),
{
    lemma_contains_itself("# Verification receipt\n\n"@, v.evidence@, "\n"@);
}

/// A skeptic runs with the model and the harness that were chosen for its place,
/// and with those of the session where none were.
pub proof fn law_override_is_that_of_the_place(overrides: Seq<RoleSpawnOverride>, i: int)
    ensures
        0 <= i < overrides.len() && overrides[i].explicit ==> override_of(overrides, i) == (
            opt(overrides[i].model),
            opt(overrides[i].agent_type),
        ),
        0 <= i < overrides.len() && !overrides[i].explicit ==> override_of(overrides, i) == (
            None::<Seq<char>>,
            None::<Seq<char>>,
        ),
        i >= overrides.len() ==> override_of(overrides, i) == (
            None::<Seq<char>>,
            None::<Seq<char>>,
        ),
{
}

/// The request for a skeptic asks for what it is to do and nothing is left over
/// from elsewhere: its own prompt and identity, the session it serves, the tree it
/// reads and the directory it writes to; in the foreground, out of the model's
/// sight.
pub proof fn law_request_is_for_this_skeptic(
    r: SkepticRequest,
    origin: SpawnOrigin,
    id: Seq<char>,
    skeptic_idx: int,
    subagent_type: Seq<char>,
    prompt: Seq<char>,
    scratch: Seq<char>,
    reviewed_root: Seq<char>,
    resume_from: Option<Seq<char>>,
)
    requires
        is_skeptic_request(
            r,
            origin,
            id,
            skeptic_idx,
            subagent_type,
            prompt,
            scratch,
            reviewed_root,
            resume_from,
        ),
    ensures
        r.id@ == id && r.prompt@ == prompt && r.subagent_type@ == subagent_type,
        r.description@ == "goal achievement skeptic"@,
        r.parent_session_id@ == origin.parent_session_id@,
        opt(r.parent_prompt_id) == opt(origin.parent_prompt_id),
        opt(r.cwd) == opt(origin.cwd),
        r.reviewed_root@ == reviewed_root && r.scratch_root@ == scratch,
        !r.run_in_background && !r.surface_completion && !r.fork_context,
        opt(r.goal_phase) == opt(origin.goal_phase) && r.goal_attempt == origin.goal_attempt,
        opt(r.resume_from) == resume_from,
        0 <= skeptic_idx < origin.skeptic_overrides@.len()
            && origin.skeptic_overrides@[skeptic_idx].explicit ==> opt(r.model) == opt(
            origin.skeptic_overrides@[skeptic_idx].model,
        ) && opt(r.harness_agent_type) == opt(origin.skeptic_overrides@[skeptic_idx].agent_type),
{
}

/// An assignment reaches the number that is asked for wherever there is a pool to
/// draw from: what was there stays in its place, and the rest is drawn from the
/// pool in turn.
pub proof fn law_assignment_is_filled_from_the_pool<T>(
    existing: Seq<T>,
    pool: Seq<T>,
    n: int,
    i: int,
)
    requires
        pool.len() > 0,
        0 <= i < n,
    ensures
        existing.len() < n ==> expanded(existing, pool, n).len() == n,
        existing.len() >= n ==> expanded(existing, pool, n) == existing,
        i < existing.len() ==> expanded(existing, pool, n)[i] == existing[i],
        existing.len() <= i ==> expanded(existing, pool, n)[i] == pool[i % pool.len() as int],
{
}

/// An empty pool adds nothing.
pub proof fn law_empty_pool_adds_nothing<T>(existing: Seq<T>, n: int)
    ensures
        expanded(existing, Seq::<T>::empty(), n) == existing,
{
}

/// A spawn under pressure is put off in steps of two seconds and for no more than
/// half a minute, and a verdict of more than four mebibytes is not read.
pub proof fn law_waits_and_verdicts_are_bounded()
    ensures
        GOAL_SPAWN_BACKPRESSURE_POLL_MS == 2000,
        GOAL_SPAWN_BACKPRESSURE_MAX_WAIT_MS == 30000,
        MAX_VERDICT_BYTES == 4194304,
{
}

} // verus!
