//! The structured verdict of one skeptic, and what makes it acceptable.

use vstd::prelude::*;
use vstd::string::*;

use crate::text::{
    blank, chars_of, is_blank, is_text, lines, lines_of, lower, lower_of, opt, same_opt, same_str,
    starts_with, starts_with_str, texts, trim, trim_by, trim_by_of, trim_end_by, trim_end_by_of,
    trim_of, CharClass,
};

verus! {

// ---------------------------------------------------------------------------
// Vocabulary

/// How sure a skeptic is.
#[derive(Clone, Copy, Debug, PartialEq, Eq, Structural)]
pub enum SkepticConfidence {
    High,
    Medium,
    Low,
    Unknown,
}

impl SkepticConfidence {
    pub open spec fn named(s: Seq<char>) -> SkepticConfidence {
        let n = lower(trim(s));
        if n == "high"@ {
            SkepticConfidence::High
        } else if n == "medium"@ {
            SkepticConfidence::Medium
        } else if n == "low"@ {
            SkepticConfidence::Low
        } else {
            SkepticConfidence::Unknown
        }
    }

    pub fn parse(s: &str) -> (r: SkepticConfidence)
        ensures
            r == SkepticConfidence::named(s@),
    {
        let v = chars_of(s);
        let n = lower_of(&trim_of(&v));
        if is_text(&n, "high") {
            SkepticConfidence::High
        } else if is_text(&n, "medium") {
            SkepticConfidence::Medium
        } else if is_text(&n, "low") {
            SkepticConfidence::Low
        } else {
            SkepticConfidence::Unknown
        }
    }

    pub open spec fn name(self) -> &'static str {
        match self {
            SkepticConfidence::High => "high",
            SkepticConfidence::Medium => "medium",
            SkepticConfidence::Low => "low",
            SkepticConfidence::Unknown => "unknown",
        }
    }

    pub fn as_const_str(self) -> (r: &'static str)
        ensures
            r == self.name(),
    {
        match self {
            SkepticConfidence::High => "high",
            SkepticConfidence::Medium => "medium",
            SkepticConfidence::Low => "low",
            SkepticConfidence::Unknown => "unknown",
        }
    }

    pub open spec fn order(self) -> u8 {
        match self {
            SkepticConfidence::High => 0,
            SkepticConfidence::Medium => 1,
            SkepticConfidence::Low => 2,
            SkepticConfidence::Unknown => 3,
        }
    }

    /// The place in a list that puts the surest first.
    pub fn rank(self) -> (r: u8)
        ensures
            r == self.order(),
    {
        match self {
            SkepticConfidence::High => 0,
            SkepticConfidence::Medium => 1,
            SkepticConfidence::Low => 2,
            SkepticConfidence::Unknown => 3,
        }
    }
}

/// Whether a refuted goal can be mended by working on it.
#[derive(Clone, Copy, Debug, PartialEq, Eq, Structural)]
pub enum SkepticBlocking {
    NonBlocking,
    Contradiction,
    Unverifiable,
}

impl SkepticBlocking {
    pub open spec fn named(s: Seq<char>) -> SkepticBlocking {
        let n = lower(trim(s));
        if n == "contradiction"@ {
            SkepticBlocking::Contradiction
        } else if n == "unverifiable"@ {
            SkepticBlocking::Unverifiable
        } else {
            SkepticBlocking::NonBlocking
        }
    }

    pub fn parse(s: &str) -> (r: SkepticBlocking)
        ensures
            r == SkepticBlocking::named(s@),
    {
        let v = chars_of(s);
        let n = lower_of(&trim_of(&v));
        if is_text(&n, "contradiction") {
            SkepticBlocking::Contradiction
        } else if is_text(&n, "unverifiable") {
            SkepticBlocking::Unverifiable
        } else {
            SkepticBlocking::NonBlocking
        }
    }

    pub fn is_blocking(self) -> (r: bool)
        ensures
            r == (self != SkepticBlocking::NonBlocking),
    {
        match self {
            SkepticBlocking::NonBlocking => false,
            _ => true,
        }
    }
}

impl Default for SkepticBlocking {
    fn default() -> (r: SkepticBlocking)
        ensures
            r == SkepticBlocking::NonBlocking,
    {
        SkepticBlocking::NonBlocking
    }
}

/// The vote that a terminal response says. A line of fences, backticks and a
/// final `.` or `!` are put aside; the token has to stand alone.
pub open spec fn terminal_line(line: Seq<char>) -> Seq<char> {
    trim(trim_end_by(trim_by(trim(line), CharClass::Only('`')), CharClass::Two('.', '!')))
}

pub open spec fn terminal_lines(all: Seq<Seq<char>>, n: int) -> Seq<Seq<char>>
    decreases n,
{
    if n <= 0 {
        seq![]
    } else {
        let before = terminal_lines(all, n - 1);
        let line = all[n - 1];
        if starts_with(trim(line), "```"@) || terminal_line(line).len() == 0 {
            before
        } else {
            before.push(terminal_line(line))
        }
    }
}

pub open spec fn terminal_vote(text: Seq<char>) -> Option<bool> {
    let all = terminal_lines(lines(text), lines(text).len() as int);
    if all.len() == 1 && all[0] == "Refuted"@ {
        Some(true)
    } else if all.len() == 1 && all[0] == "Not Refuted"@ {
        Some(false)
    } else {
        None
    }
}

pub fn parse_skeptic_terminal_response(text: &str) -> (r: Option<bool>)
    ensures
        r == terminal_vote(text@),
{
    let v = chars_of(text);
    let all = lines_of(&v);
    let ghost ls = lines(text@);
    let mut kept: Vec<Vec<char>> = Vec::new();
    let mut n: usize = 0;
    proof {
        assert(texts(kept@) =~= terminal_lines(ls, 0));
    }
    while n < all.len()
        invariant
            n <= all@.len(),
            ls == texts(all@),
            texts(kept@) == terminal_lines(ls, n as int),
        decreases all@.len() - n,
    {
        proof {
            assert(ls[n as int] == all@[n as int]@);
        }
        let line = trim_of(&all[n]);
        if !starts_with_str(&line, "```") {
            let bare = trim_end_by_of(
                &trim_by_of(&line, CharClass::Only('`')),
                CharClass::Two('.', '!'),
            );
            let token = trim_of(&bare);
            if token.len() > 0 {
                proof {
                    crate::text::lemma_texts_push(kept@, token);
                }
                kept.push(token);
            }
        }
        n += 1;
    }
    let ghost ks = terminal_lines(ls, ls.len() as int);
    proof {
        assert(ks.len() == kept@.len());
        if ks.len() == 1 {
            assert(ks[0] == kept@[0]@);
        }
    }
    if kept.len() == 1 {
        if is_text(&kept[0], "Refuted") {
            return Some(true);
        }
        if is_text(&kept[0], "Not Refuted") {
            return Some(false);
        }
    }
    None
}

// ---------------------------------------------------------------------------
// Records

/// One thing that is wrong.
#[derive(Debug)]
pub struct Finding {
    pub kind: String,
    pub location: String,
    pub detail: String,
}

impl Finding {
    pub open spec fn says_nothing(&self) -> bool {
        is_blank(self.kind@) && is_blank(self.location@) && is_blank(self.detail@)
    }

    pub fn is_empty(&self) -> (r: bool)
        ensures
            r == self.says_nothing(),
    {
        blank(self.kind.as_str()) && blank(self.location.as_str()) && blank(self.detail.as_str())
    }
}

/// What a skeptic reports of one gate.
#[derive(Debug)]
pub struct ValidationCheck {
    pub gate: String,
    pub facet: String,
    pub status: String,
    pub target: String,
    pub evidence: String,
    pub artifact_path: String,
    pub artifact_sha256: String,
    pub method: String,
    pub tool_event_id: Option<String>,
    pub exact_input_digest: Option<String>,
    pub observed_output_digest: Option<String>,
    pub tolerance: Option<String>,
    pub applicability_basis: Option<String>,
}

impl Default for ValidationCheck {
    fn default() -> (r: ValidationCheck)
        ensures
            r.gate@.len() == 0,
            r.facet@.len() == 0,
            r.status@.len() == 0,
            r.target@.len() == 0,
            r.evidence@.len() == 0,
            r.artifact_path@.len() == 0,
            r.artifact_sha256@.len() == 0,
            r.method@.len() == 0,
            r.tool_event_id is None,
            r.exact_input_digest is None,
            r.observed_output_digest is None,
            r.tolerance is None,
            r.applicability_basis is None,
    {
        ValidationCheck {
            gate: String::new(),
            facet: String::new(),
            status: String::new(),
            target: String::new(),
            evidence: String::new(),
            artifact_path: String::new(),
            artifact_sha256: String::new(),
            method: String::new(),
            tool_event_id: None,
            exact_input_digest: None,
            observed_output_digest: None,
            tolerance: None,
            applicability_basis: None,
        }
    }
}

/// A verdict whose form is accepted.
#[derive(Debug)]
pub struct SkepticVerdict {
    pub verdict_schema_version: u32,
    pub goal_id: String,
    pub verification_round_id: String,
    pub contract_digest: String,
    pub reviewed_artifact_manifest_digest: String,
    pub critic_id: String,
    pub critic_assignment_id: String,
    pub refuted: bool,
    pub evidence: String,
    pub confidence: SkepticConfidence,
    pub blocking: SkepticBlocking,
    pub details_md: String,
    pub findings: Vec<Finding>,
    pub checks: Vec<ValidationCheck>,
}

/// A verdict as its file spells it.
#[derive(Debug)]
pub struct SkepticVerdictRaw {
    pub verdict_schema_version: u32,
    pub goal_id: String,
    pub verification_round_id: String,
    pub contract_digest: String,
    pub reviewed_artifact_manifest_digest: String,
    pub critic_id: String,
    pub critic_assignment_id: String,
    pub refuted: bool,
    pub evidence: String,
    pub confidence: String,
    pub blocking: Option<String>,
    pub details_md: Option<String>,
    pub findings: Option<Vec<Finding>>,
    pub checks: Vec<ValidationCheck>,
}

/// The round, the contract and the critic that a verdict has to be about.
#[derive(Debug)]
pub struct VerdictIdentity {
    pub goal_id: String,
    pub verification_round_id: String,
    pub contract_digest: String,
    pub reviewed_artifact_manifest_digest: String,
    pub critic_id: String,
    pub critic_assignment_id: String,
}

// ---------------------------------------------------------------------------
// The form of a verdict

/// The blocking class that a verdict file may spell; no value is `none`.
pub open spec fn blocking_spelled(raw: Option<Seq<char>>) -> Option<SkepticBlocking> {
    match raw {
        None => Some(SkepticBlocking::NonBlocking),
        Some(s) => if s == "none"@ {
            Some(SkepticBlocking::NonBlocking)
        } else if s == "contradiction"@ {
            Some(SkepticBlocking::Contradiction)
        } else if s == "unverifiable"@ {
            Some(SkepticBlocking::Unverifiable)
        } else {
            None
        },
    }
}

/// Whether the form of a verdict file is accepted: the known schema, every
/// identity and the evidence given, a known confidence and a known blocking
/// class.
pub open spec fn is_well_formed(raw: SkepticVerdictRaw) -> bool {
    raw.verdict_schema_version == 1 && !is_blank(raw.goal_id@) && !is_blank(
        raw.verification_round_id@,
    ) && !is_blank(raw.contract_digest@) && !is_blank(raw.reviewed_artifact_manifest_digest@)
        && !is_blank(raw.critic_id@) && !is_blank(raw.critic_assignment_id@) && !is_blank(
        raw.evidence@,
    ) && SkepticConfidence::named(raw.confidence@) != SkepticConfidence::Unknown
        && blocking_spelled(opt(raw.blocking)) is Some
}

/// Those of the first `n` findings that say something.
pub open spec fn kept_findings(all: Seq<Finding>, n: int) -> Seq<Finding>
    decreases n,
{
    if n <= 0 {
        seq![]
    } else if all[n - 1].says_nothing() {
        kept_findings(all, n - 1)
    } else {
        kept_findings(all, n - 1).push(all[n - 1])
    }
}

pub open spec fn raw_findings(raw: SkepticVerdictRaw) -> Seq<Finding> {
    match raw.findings {
        Some(all) => all@,
        None => seq![],
    }
}

fn keep_findings(all: Vec<Finding>) -> (r: Vec<Finding>)
    ensures
        r@ == kept_findings(all@, all@.len() as int),
{
    let ghost whole = all@;
    let mut rest = all;
    let mut reversed: Vec<Finding> = Vec::new();
    let mut out: Vec<Finding> = Vec::new();
    while rest.len() > 0
        invariant
            rest@ + reversed@.reverse() =~= whole,
        decreases rest@.len(),
    {
        let last = rest.pop();
        if let Some(x) = last {
            reversed.push(x);
        }
    }
    proof {
        assert(reversed@.reverse() =~= whole);
    }
    let ghost mut n: int = 0;
    while reversed.len() > 0
        invariant
            0 <= n <= whole.len(),
            reversed@.len() == whole.len() - n,
            forall|k: int| 0 <= k < reversed@.len() ==> #[trigger] reversed@[k] == whole[whole.len()
                - 1 - k],
            out@ == kept_findings(whole, n),
        decreases reversed@.len(),
    {
        let next = reversed.pop();
        if let Some(x) = next {
            proof {
                assert(x == whole[n]);
                n = n + 1;
            }
            if !x.is_empty() {
                out.push(x);
            }
        }
    }
    out
}

/// Accepts the form of a verdict file, once it is decoded. Findings that say
/// nothing are dropped.
pub fn accept_verdict(raw: SkepticVerdictRaw) -> (r: Option<SkepticVerdict>)
    ensures
        r is Some <==> is_well_formed(raw),
        r is Some ==> ({
            let v = r->0;
            &&& v.verdict_schema_version == 1
            &&& v.goal_id@ == raw.goal_id@
            &&& v.verification_round_id@ == raw.verification_round_id@
            &&& v.contract_digest@ == raw.contract_digest@
            &&& v.reviewed_artifact_manifest_digest@ == raw.reviewed_artifact_manifest_digest@
            &&& v.critic_id@ == raw.critic_id@
            &&& v.critic_assignment_id@ == raw.critic_assignment_id@
            &&& v.refuted == raw.refuted
            &&& v.evidence@ == raw.evidence@
            &&& v.confidence == SkepticConfidence::named(raw.confidence@)
            &&& v.blocking == blocking_spelled(opt(raw.blocking))->0
            &&& v.details_md@ == (match raw.details_md {
                Some(text) => text@,
                None => Seq::empty(),
            })
            &&& v.findings@ == kept_findings(raw_findings(raw), raw_findings(raw).len() as int)
            &&& v.checks@ == raw.checks@
        }),
{
    if raw.verdict_schema_version != 1 || blank(raw.goal_id.as_str()) || blank(
        raw.verification_round_id.as_str(),
    ) || blank(raw.contract_digest.as_str()) || blank(
        raw.reviewed_artifact_manifest_digest.as_str(),
    ) || blank(raw.critic_id.as_str()) || blank(raw.critic_assignment_id.as_str()) || blank(
        raw.evidence.as_str(),
    ) {
        return None;
    }
    let confidence = SkepticConfidence::parse(raw.confidence.as_str());
    if confidence == SkepticConfidence::Unknown {
        return None;
    }
    let blocking = match &raw.blocking {
        None => SkepticBlocking::NonBlocking,
        Some(s) => {
            if same_str(s.as_str(), "none") {
                SkepticBlocking::NonBlocking
            } else if same_str(s.as_str(), "contradiction") {
                SkepticBlocking::Contradiction
            } else if same_str(s.as_str(), "unverifiable") {
                SkepticBlocking::Unverifiable
            } else {
                return None;
            }
        },
    };
    let findings = match raw.findings {
        Some(all) => keep_findings(all),
        None => {
            let none: Vec<Finding> = Vec::new();
            none
        },
    };
    let details_md = match raw.details_md {
        Some(text) => text,
        None => String::new(),
    };
    Some(
        SkepticVerdict {
            verdict_schema_version: raw.verdict_schema_version,
            goal_id: raw.goal_id,
            verification_round_id: raw.verification_round_id,
            contract_digest: raw.contract_digest,
            reviewed_artifact_manifest_digest: raw.reviewed_artifact_manifest_digest,
            critic_id: raw.critic_id,
            critic_assignment_id: raw.critic_assignment_id,
            refuted: raw.refuted,
            evidence: raw.evidence,
            confidence,
            blocking,
            details_md,
            findings,
            checks: raw.checks,
        },
    )
}

// ---------------------------------------------------------------------------
// Comparison

pub open spec fn findings_agree(a: Finding, b: Finding) -> bool {
    a.kind@ == b.kind@ && a.location@ == b.location@ && a.detail@ == b.detail@
}

pub open spec fn checks_agree(a: ValidationCheck, b: ValidationCheck) -> bool {
    a.gate@ == b.gate@ && a.facet@ == b.facet@ && a.status@ == b.status@ && a.target@ == b.target@
        && a.evidence@ == b.evidence@ && a.artifact_path@ == b.artifact_path@ && a.artifact_sha256@
        == b.artifact_sha256@ && a.method@ == b.method@ && opt(a.tool_event_id) == opt(
        b.tool_event_id,
    ) && opt(a.exact_input_digest) == opt(b.exact_input_digest) && opt(a.observed_output_digest)
        == opt(b.observed_output_digest) && opt(a.tolerance) == opt(b.tolerance) && opt(
        a.applicability_basis,
    ) == opt(b.applicability_basis)
}

/// Whether two verdicts say the same.
pub open spec fn verdicts_agree(a: SkepticVerdict, b: SkepticVerdict) -> bool {
    &&& a.verdict_schema_version == b.verdict_schema_version
    &&& a.goal_id@ == b.goal_id@
    &&& a.verification_round_id@ == b.verification_round_id@
    &&& a.contract_digest@ == b.contract_digest@
    &&& a.reviewed_artifact_manifest_digest@ == b.reviewed_artifact_manifest_digest@
    &&& a.critic_id@ == b.critic_id@
    &&& a.critic_assignment_id@ == b.critic_assignment_id@
    &&& a.refuted == b.refuted
    &&& a.evidence@ == b.evidence@
    &&& a.confidence == b.confidence
    &&& a.blocking == b.blocking
    &&& a.details_md@ == b.details_md@
    &&& a.findings@.len() == b.findings@.len()
    &&& forall|i: int|
        0 <= i < a.findings@.len() ==> findings_agree(#[trigger] a.findings@[i], b.findings@[i])
    &&& a.checks@.len() == b.checks@.len()
    &&& forall|i: int|
        0 <= i < a.checks@.len() ==> checks_agree(#[trigger] a.checks@[i], b.checks@[i])
}

fn same_finding(a: &Finding, b: &Finding) -> (r: bool)
    ensures
        r == findings_agree(*a, *b),
{
    same_str(a.kind.as_str(), b.kind.as_str()) && same_str(
        a.location.as_str(),
        b.location.as_str(),
    ) && same_str(a.detail.as_str(), b.detail.as_str())
}

fn same_check(a: &ValidationCheck, b: &ValidationCheck) -> (r: bool)
    ensures
        r == checks_agree(*a, *b),
{
    same_str(a.gate.as_str(), b.gate.as_str()) && same_str(a.facet.as_str(), b.facet.as_str())
        && same_str(a.status.as_str(), b.status.as_str()) && same_str(
        a.target.as_str(),
        b.target.as_str(),
    ) && same_str(a.evidence.as_str(), b.evidence.as_str()) && same_str(
        a.artifact_path.as_str(),
        b.artifact_path.as_str(),
    ) && same_str(a.artifact_sha256.as_str(), b.artifact_sha256.as_str()) && same_str(
        a.method.as_str(),
        b.method.as_str(),
    ) && same_opt(&a.tool_event_id, &b.tool_event_id) && same_opt(
        &a.exact_input_digest,
        &b.exact_input_digest,
    ) && same_opt(&a.observed_output_digest, &b.observed_output_digest) && same_opt(
        &a.tolerance,
        &b.tolerance,
    ) && same_opt(&a.applicability_basis, &b.applicability_basis)
}

pub fn same_verdict(a: &SkepticVerdict, b: &SkepticVerdict) -> (r: bool)
    ensures
        r == verdicts_agree(*a, *b),
{
    if a.verdict_schema_version != b.verdict_schema_version || a.refuted != b.refuted
        || a.confidence != b.confidence || a.blocking != b.blocking || a.findings.len()
        != b.findings.len() || a.checks.len() != b.checks.len() {
        return false;
    }
    if !same_str(a.goal_id.as_str(), b.goal_id.as_str()) || !same_str(
        a.verification_round_id.as_str(),
        b.verification_round_id.as_str(),
    ) || !same_str(a.contract_digest.as_str(), b.contract_digest.as_str()) || !same_str(
        a.reviewed_artifact_manifest_digest.as_str(),
        b.reviewed_artifact_manifest_digest.as_str(),
    ) || !same_str(a.critic_id.as_str(), b.critic_id.as_str()) || !same_str(
        a.critic_assignment_id.as_str(),
        b.critic_assignment_id.as_str(),
    ) || !same_str(a.evidence.as_str(), b.evidence.as_str()) || !same_str(
        a.details_md.as_str(),
        b.details_md.as_str(),
    ) {
        return false;
    }
    let mut i: usize = 0;
    while i < a.findings.len()
        invariant
            i <= a.findings@.len() == b.findings@.len(),
            forall|k: int|
                0 <= k < i ==> findings_agree(#[trigger] a.findings@[k], b.findings@[k]),
        decreases a.findings@.len() - i,
    {
        if !same_finding(&a.findings[i], &b.findings[i]) {
            return false;
        }
        i += 1;
    }
    let mut j: usize = 0;
    while j < a.checks.len()
        invariant
            j <= a.checks@.len() == b.checks@.len(),
            forall|k: int| 0 <= k < j ==> checks_agree(#[trigger] a.checks@[k], b.checks@[k]),
        decreases a.checks@.len() - j,
    {
        if !same_check(&a.checks[j], &b.checks[j]) {
            return false;
        }
        j += 1;
    }
    true
}

/// Whether a stored verdict reads back as it was written. `reread` is what the
/// stored file decodes to.
pub fn check_stored_verdict(verdict: &SkepticVerdict, reread: &Option<SkepticVerdict>) -> (r: Result<
    (),
    String,
>)
    ensures
        reread is None ==> r is Err && r->Err_0@ == "persisted verdict cannot be parsed"@,
        reread is Some && !verdicts_agree(reread->0, *verdict) ==> r is Err && r->Err_0@
            == "persisted verdict changed during write"@,
        reread is Some && verdicts_agree(reread->0, *verdict) ==> r is Ok,
{
    match reread {
        None => Err("persisted verdict cannot be parsed".to_owned()),
        Some(found) => {
            if same_verdict(found, verdict) {
                Ok(())
            } else {
                Err("persisted verdict changed during write".to_owned())
            }
        },
    }
}

// ---------------------------------------------------------------------------
// What a skeptic's words amount to

proof fn lemma_terminal_lines(all: Seq<Seq<char>>, n: int, k: int)
    requires
        0 <= k < n <= all.len(),
        !starts_with(trim(all[k]), "```"@),
        terminal_line(all[k]).len() > 0,
        forall|m: int|
            0 <= m < n && m != k ==> starts_with(trim(#[trigger] all[m]), "```"@) || terminal_line(
                all[m],
            ).len() == 0,
    ensures
        terminal_lines(all, n) == seq![terminal_line(all[k])],
    decreases n,
{
    if n - 1 == k {
        lemma_no_terminal_lines(all, k);
        assert(Seq::<Seq<char>>::empty().push(terminal_line(all[k])) =~= seq![
            terminal_line(all[k]),
        ]);
    } else {
        lemma_terminal_lines(all, n - 1, k);
        assert(starts_with(trim(all[n - 1]), "```"@) || terminal_line(all[n - 1]).len() == 0);
    }
}

proof fn lemma_no_terminal_lines(all: Seq<Seq<char>>, n: int)
    requires
        0 <= n <= all.len(),
        forall|m: int|
            0 <= m < n ==> starts_with(trim(#[trigger] all[m]), "```"@) || terminal_line(
                all[m],
            ).len() == 0,
    ensures
        terminal_lines(all, n) == Seq::<Seq<char>>::empty(),
    decreases n,
{
    if n > 0 {
        lemma_no_terminal_lines(all, n - 1);
        assert(starts_with(trim(all[n - 1]), "```"@) || terminal_line(all[n - 1]).len() == 0);
    }
}

proof fn lemma_terminal_lines_grow(all: Seq<Seq<char>>, n: int, k: int)
    requires
        0 <= k < n <= all.len(),
        !starts_with(trim(all[k]), "```"@),
        terminal_line(all[k]).len() > 0,
    ensures
        terminal_lines(all, n).len() >= terminal_lines(all, k).len() + 1,
    decreases n,
{
    if n - 1 > k {
        lemma_terminal_lines_grow(all, n - 1, k);
    }
}

/// A terminal response is a vote exactly where one line of it says something,
/// fences, backticks and a closing point or exclamation mark aside, and that line
/// is the token alone. A response that says more than that, or less, is none.
pub proof fn law_terminal_vote_is_one_token(text: Seq<char>, k: int)
    requires
        0 <= k < lines(text).len(),
        !starts_with(trim(lines(text)[k]), "```"@),
        trim(
            trim_end_by(
                trim_by(trim(lines(text)[k]), CharClass::Only('`')),
                CharClass::Two('.', '!'),
            ),
        ).len() > 0,
    ensures
        ({
            let token = trim(
                trim_end_by(
                    trim_by(trim(lines(text)[k]), CharClass::Only('`')),
                    CharClass::Two('.', '!'),
                ),
            );
            let alone = forall|m: int|
                0 <= m < lines(text).len() && m != k ==> starts_with(
                    trim(#[trigger] lines(text)[m]),
                    "```"@,
                ) || trim(
                    trim_end_by(
                        trim_by(trim(lines(text)[m]), CharClass::Only('`')),
                        CharClass::Two('.', '!'),
                    ),
                ).len() == 0;
            &&& alone && token == "Refuted"@ ==> terminal_vote(text) == Some(true)
            &&& alone && token == "Not Refuted"@ ==> terminal_vote(text) == Some(false)
            &&& alone && token != "Refuted"@ && token != "Not Refuted"@ ==> terminal_vote(
                text,
            ) is None
            &&& !alone ==> terminal_vote(text) is None
        }),
{
    let all = lines(text);
    let n = all.len() as int;
    assert("Refuted"@ != "Not Refuted"@) by {
        reveal_strlit("Refuted");
        reveal_strlit("Not Refuted");
        assert("Refuted"@.len() == 7 && "Not Refuted"@.len() == 11);
    }
    if forall|m: int|
        0 <= m < n && m != k ==> starts_with(trim(#[trigger] all[m]), "```"@) || terminal_line(
            all[m],
        ).len() == 0 {
        lemma_terminal_lines(all, n, k);
        assert(seq![terminal_line(all[k])][0] == terminal_line(all[k]));
    } else {
        let m = choose|m: int|
            0 <= m < n && m != k && !(starts_with(trim(#[trigger] all[m]), "```"@)
                || terminal_line(all[m]).len() == 0);
        let (a, b) = if m < k {
            (m, k)
        } else {
            (k, m)
        };
        lemma_terminal_lines_grow(all, n, b);
        lemma_terminal_lines_grow(all, b, a);
        assert(terminal_lines(all, n).len() >= 2);
    }
}

/// A response on which no line says anything is no vote.
pub proof fn law_silent_response_is_no_vote(text: Seq<char>)
    requires
        forall|m: int|
            0 <= m < lines(text).len() ==> starts_with(trim(#[trigger] lines(text)[m]), "```"@)
                || trim(
                trim_end_by(
                    trim_by(trim(lines(text)[m]), CharClass::Only('`')),
                    CharClass::Two('.', '!'),
                ),
            ).len() == 0,
    ensures
        terminal_vote(text) is None,
{
    lemma_no_terminal_lines(lines(text), lines(text).len() as int);
}

/// A confidence is known by its word, in any case; whatever else is said is not
/// known, and the surer comes first.
pub proof fn law_confidence_is_known_by_its_word(s: Seq<char>)
    ensures
        SkepticConfidence::named(s) == SkepticConfidence::High <==> lower(trim(s)) == "high"@,
        SkepticConfidence::named(s) == SkepticConfidence::Medium <==> lower(trim(s)) == "medium"@,
        SkepticConfidence::named(s) == SkepticConfidence::Low <==> lower(trim(s)) == "low"@,
        SkepticConfidence::High.order() < SkepticConfidence::Medium.order(),
        SkepticConfidence::Medium.order() < SkepticConfidence::Low.order(),
        SkepticConfidence::Low.order() < SkepticConfidence::Unknown.order(),
{
    reveal_strlit("high");
    reveal_strlit("medium");
    reveal_strlit("low");
    assert("high"@.len() == 4 && "medium"@.len() == 6 && "low"@.len() == 3);
}

/// A blocking class is known by its word, in any case; whatever else is said blocks
/// nothing. In a verdict file the word has to be spelled exactly, and one that is
/// not known is refused rather than taken for none.
pub proof fn law_blocking_is_known_by_its_word(s: Seq<char>)
    ensures
        SkepticBlocking::named(s) == SkepticBlocking::Contradiction <==> lower(trim(s))
            == "contradiction"@,
        SkepticBlocking::named(s) == SkepticBlocking::Unverifiable <==> lower(trim(s))
            == "unverifiable"@,
        blocking_spelled(None) == Some(SkepticBlocking::NonBlocking),
        blocking_spelled(Some(s)) == Some(SkepticBlocking::NonBlocking) <==> s == "none"@,
        blocking_spelled(Some(s)) == Some(SkepticBlocking::Contradiction) <==> s
            == "contradiction"@,
        blocking_spelled(Some(s)) == Some(SkepticBlocking::Unverifiable) <==> s == "unverifiable"@,
{
    reveal_strlit("none");
    reveal_strlit("contradiction");
    reveal_strlit("unverifiable");
    assert("none"@.len() == 4 && "contradiction"@.len() == 13 && "unverifiable"@.len() == 12);
}

/// The form of a verdict file is accepted exactly where it is in the first schema,
/// nothing of its identity and no evidence is missing, and its confidence and its
/// blocking class are known.
pub proof fn law_verdict_file_is_accepted_by_its_form(raw: SkepticVerdictRaw)
    ensures
        is_well_formed(raw) <==> {
            &&& raw.verdict_schema_version == 1
            &&& trim(raw.goal_id@).len() > 0
            &&& trim(raw.verification_round_id@).len() > 0
            &&& trim(raw.contract_digest@).len() > 0
            &&& trim(raw.reviewed_artifact_manifest_digest@).len() > 0
            &&& trim(raw.critic_id@).len() > 0
            &&& trim(raw.critic_assignment_id@).len() > 0
            &&& trim(raw.evidence@).len() > 0
            &&& lower(trim(raw.confidence@)) == "high"@ || lower(trim(raw.confidence@))
                == "medium"@ || lower(trim(raw.confidence@)) == "low"@
            &&& raw.blocking is None || raw.blocking->0@ == "none"@ || raw.blocking->0@
                == "contradiction"@ || raw.blocking->0@ == "unverifiable"@
        },
{
    law_confidence_is_known_by_its_word(raw.confidence@);
}

proof fn lemma_kept_findings(all: Seq<Finding>, n: int, f: Finding)
    requires
        0 <= n <= all.len(),
    ensures
        kept_findings(all, n).contains(f) <==> exists|k: int|
            0 <= k < n && #[trigger] all[k] == f && (trim(f.kind@).len() > 0 || trim(
                f.location@,
            ).len() > 0 || trim(f.detail@).len() > 0),
        kept_findings(all, n).len() <= n,
    decreases n,
{
    if n > 0 {
        lemma_kept_findings(all, n - 1, f);
        let before = kept_findings(all, n - 1);
        let now = kept_findings(all, n);
        if before.contains(f) {
            let k = choose|k: int| 0 <= k < before.len() && before[k] == f;
            assert(now[k] == f);
        }
        if now.contains(f) && !before.contains(f) {
            let k = choose|k: int| 0 <= k < now.len() && now[k] == f;
            if k < before.len() {
                assert(before[k] == f);
            }
            assert(all[n - 1] == f);
        }
        if all[n - 1] == f && !f.says_nothing() {
            assert(now[before.len() as int] == f);
        }
    }
}

/// Of the findings of a verdict file those are kept that say anything at all, and
/// no others.
pub proof fn law_findings_that_say_something_are_kept(all: Seq<Finding>, f: Finding)
    ensures
        kept_findings(all, all.len() as int).contains(f) <==> exists|k: int|
            0 <= k < all.len() && #[trigger] all[k] == f && (trim(f.kind@).len() > 0 || trim(
                f.location@,
            ).len() > 0 || trim(f.detail@).len() > 0),
{
    lemma_kept_findings(all, all.len() as int, f);
}

/// Two verdicts that agree agree in everything: their identity, their vote, each
/// finding and each receipt.
pub proof fn law_agreeing_verdicts_say_the_same(
    a: SkepticVerdict,
    b: SkepticVerdict,
    i: int,
    k: int,
)
    requires
        verdicts_agree(a, b),
        0 <= i < a.findings@.len(),
        0 <= k < a.checks@.len(),
    ensures
        a.verdict_schema_version == b.verdict_schema_version,
        a.goal_id@ == b.goal_id@,
        a.verification_round_id@ == b.verification_round_id@,
        a.contract_digest@ == b.contract_digest@,
        a.reviewed_artifact_manifest_digest@ == b.reviewed_artifact_manifest_digest@,
        a.critic_id@ == b.critic_id@,
        a.critic_assignment_id@ == b.critic_assignment_id@,
        a.refuted == b.refuted,
        a.evidence@ == b.evidence@,
        a.confidence == b.confidence,
        a.blocking == b.blocking,
        a.details_md@ == b.details_md@,
        a.findings@.len() == b.findings@.len(),
        a.findings@[i].kind@ == b.findings@[i].kind@,
        a.findings@[i].location@ == b.findings@[i].location@,
        a.findings@[i].detail@ == b.findings@[i].detail@,
        a.checks@.len() == b.checks@.len(),
        a.checks@[k].gate@ == b.checks@[k].gate@,
        a.checks@[k].facet@ == b.checks@[k].facet@,
        a.checks@[k].status@ == b.checks@[k].status@,
        a.checks@[k].target@ == b.checks@[k].target@,
        a.checks@[k].evidence@ == b.checks@[k].evidence@,
        a.checks@[k].artifact_path@ == b.checks@[k].artifact_path@,
        a.checks@[k].artifact_sha256@ == b.checks@[k].artifact_sha256@,
        a.checks@[k].method@ == b.checks@[k].method@,
        opt(a.checks@[k].tool_event_id) == opt(b.checks@[k].tool_event_id),
        opt(a.checks@[k].exact_input_digest) == opt(b.checks@[k].exact_input_digest),
        opt(a.checks@[k].observed_output_digest) == opt(b.checks@[k].observed_output_digest),
        opt(a.checks@[k].tolerance) == opt(b.checks@[k].tolerance),
        opt(a.checks@[k].applicability_basis) == opt(b.checks@[k].applicability_basis),
{
    assert(findings_agree(a.findings@[i], b.findings@[i]));
    assert(checks_agree(a.checks@[k], b.checks@[k]));
}

/// A verdict agrees with itself.
pub proof fn law_verdict_agrees_with_itself(a: SkepticVerdict)
    ensures
        verdicts_agree(a, a),
{
}

} // verus!
