//! The prompts that skeptics are given.

use vstd::prelude::*;

use crate::digest::{json_string, json_string_of};
use crate::facets::{FacetSet, VerificationFacet};
use crate::panel::{sanitize_prior_gaps, sanitized, PRIOR_GAPS_MAX_CHARS};
use crate::receipts::all_pairs;
use crate::text::{
    append, append_str, blank, cat2, chars_of, contains, ends_with, has_char, is_blank, is_white,
    join, join_of, lemma_contains_grows, lemma_contains_in_whole, lemma_contains_itself,
    lemma_join_holds_its_parts, lemma_lacks, lemma_replace_absent, lemma_replace_once,
    lemma_texts_push, matches_at, matches_at_of, replace, replace_of, slice_of, string_of, strings,
    texts, trim, trim_of, white,
};
use crate::verdict::VerdictIdentity;

verus! {

// ---------------------------------------------------------------------------
// Tool names

/// The names under which the tools of a role are known to it.
#[derive(Debug)]
pub struct RoleToolNames {
    pub read_tool: String,
    pub list_tool: String,
    pub search_tool: String,
    pub write_tool: String,
    pub execute_tool: String,
    /// What to say of the whole toolset; empty where it is the usual one.
    pub toolset_tools: String,
}

/// The placeholder at position `i`, as its length and what stands for it.
pub open spec fn tool_at(t: RoleToolNames, s: Seq<char>, i: int) -> Option<(nat, Seq<char>)> {
    if matches_at(s, "{READ_TOOL}"@, i) {
        Some(("{READ_TOOL}"@.len(), t.read_tool@))
    } else if matches_at(s, "{LIST_TOOL}"@, i) {
        Some(("{LIST_TOOL}"@.len(), t.list_tool@))
    } else if matches_at(s, "{SEARCH_TOOL}"@, i) {
        Some(("{SEARCH_TOOL}"@.len(), t.search_tool@))
    } else if matches_at(s, "{WRITE_TOOL}"@, i) {
        Some(("{WRITE_TOOL}"@.len(), t.write_tool@))
    } else if matches_at(s, "{EXECUTE_TOOL}"@, i) {
        Some(("{EXECUTE_TOOL}"@.len(), t.execute_tool@))
    } else if matches_at(s, "{TOOLSET_TOOLS}"@, i) {
        Some(("{TOOLSET_TOOLS}"@.len(), t.toolset_tools@))
    } else {
        None
    }
}

/// The text from `i` on with the tool placeholders filled in, in one pass: what
/// is filled in is not looked at again.
pub open spec fn with_tools_from(t: RoleToolNames, s: Seq<char>, i: int) -> Seq<char>
    decreases s.len() - i,
{
    if i < 0 || i >= s.len() {
        seq![]
    } else {
        match tool_at(t, s, i) {
            Some((n, name)) => if n == 0 {
                seq![]
            } else {
                name + with_tools_from(t, s, i + n)
            },
            None => seq![s[i]] + with_tools_from(t, s, i + 1),
        }
    }
}

proof fn lemma_placeholders()
    ensures
        "{READ_TOOL}"@.len() == 11,
        "{LIST_TOOL}"@.len() == 11,
        "{SEARCH_TOOL}"@.len() == 13,
        "{WRITE_TOOL}"@.len() == 12,
        "{EXECUTE_TOOL}"@.len() == 14,
        "{TOOLSET_TOOLS}"@.len() == 15,
{
    reveal_strlit("{READ_TOOL}");
    reveal_strlit("{LIST_TOOL}");
    reveal_strlit("{SEARCH_TOOL}");
    reveal_strlit("{WRITE_TOOL}");
    reveal_strlit("{EXECUTE_TOOL}");
    reveal_strlit("{TOOLSET_TOOLS}");
}

impl RoleToolNames {
    /// The usual toolset.
    pub fn inherit_defaults() -> (r: RoleToolNames)
        ensures
            r.read_tool@ == "read_file"@,
            r.list_tool@ == "list_dir"@,
            r.search_tool@ == "grep"@,
            r.write_tool@ == "write"@,
            r.execute_tool@ == "run_terminal_command"@,
            r.toolset_tools@ == ""@,
    {
        RoleToolNames {
            read_tool: "read_file".to_owned(),
            list_tool: "list_dir".to_owned(),
            search_tool: "grep".to_owned(),
            write_tool: "write".to_owned(),
            execute_tool: "run_terminal_command".to_owned(),
            toolset_tools: "".to_owned(),
        }
    }

    fn apply_chars(&self, v: &Vec<char>) -> (r: Vec<char>)
        ensures
            r@ == with_tools_from(*self, v@, 0),
    {
        let read = chars_of("{READ_TOOL}");
        let list = chars_of("{LIST_TOOL}");
        let search = chars_of("{SEARCH_TOOL}");
        let write = chars_of("{WRITE_TOOL}");
        let execute = chars_of("{EXECUTE_TOOL}");
        let toolset = chars_of("{TOOLSET_TOOLS}");
        let mut out: Vec<char> = Vec::new();
        let mut i: usize = 0;
        proof {
            lemma_placeholders();
            assert(out@ + with_tools_from(*self, v@, 0) =~= with_tools_from(*self, v@, 0));
        }
        while i < v.len()
            invariant
                i <= v@.len(),
                read@ == "{READ_TOOL}"@,
                list@ == "{LIST_TOOL}"@,
                search@ == "{SEARCH_TOOL}"@,
                write@ == "{WRITE_TOOL}"@,
                execute@ == "{EXECUTE_TOOL}"@,
                toolset@ == "{TOOLSET_TOOLS}"@,
                read@.len() == 11,
                list@.len() == 11,
                search@.len() == 13,
                write@.len() == 12,
                execute@.len() == 14,
                toolset@.len() == 15,
                out@ + with_tools_from(*self, v@, i as int) == with_tools_from(*self, v@, 0),
            decreases v@.len() - i,
        {
            let ghost before = out@;
            let found: Option<(usize, &String)> = if matches_at_of(v, &read, i) {
                Some((11, &self.read_tool))
            } else if matches_at_of(v, &list, i) {
                Some((11, &self.list_tool))
            } else if matches_at_of(v, &search, i) {
                Some((13, &self.search_tool))
            } else if matches_at_of(v, &write, i) {
                Some((12, &self.write_tool))
            } else if matches_at_of(v, &execute, i) {
                Some((14, &self.execute_tool))
            } else if matches_at_of(v, &toolset, i) {
                Some((15, &self.toolset_tools))
            } else {
                None
            };
            match found {
                Some((n, name)) => {
                    append_str(&mut out, name.as_str());
                    proof {
                        let rest = with_tools_from(*self, v@, i + n);
                        assert(before + (name@ + rest) =~= (before + name@) + rest);
                    }
                    i += n;
                },
                None => {
                    out.push(v[i]);
                    proof {
                        let rest = with_tools_from(*self, v@, i + 1);
                        assert(before + (seq![v@[i as int]] + rest) =~= before.push(v@[i as int])
                            + rest);
                    }
                    i += 1;
                },
            }
        }
        proof {
            assert(out@ + seq![] =~= out@);
        }
        out
    }

    /// Fills the tool placeholders of a template in.
    pub fn apply(&self, template: &str) -> (r: String)
        ensures
            r@ == with_tools_from(*self, template@, 0),
    {
        let v = chars_of(template);
        string_of(&self.apply_chars(&v))
    }
}

// ---------------------------------------------------------------------------
// Rendering

/// The prompt of a skeptic that judges the same goal once more.
pub const GOAL_VERIFIER_RESUME_PROMPT_TEMPLATE: &'static str = "You are the SAME adversarial verifier from the previous attempt — you have your \
prior transcript, the gaps you flagged, and the evidence you cited. You are NOT \
the agent that produced the changes. Your job is still to **refute** that the \
objective has been met. The agent claims it addressed your gaps; do NOT trust \
that — RE-CHECK. **Default to `refuted: true` if uncertain** (passing broken \
work is far worse than one more iteration).\n\n\
You have your standard tool inventory ({READ_TOOL}, {SEARCH_TOOL}, {LIST_TOOL}, \
run a command).{TOOLSET_TOOLS}\n\n\
## Delta re-check\n\n\
- Your cached reads are STALE — RE-READ the CURRENT contents of every file in \
CHANGED_FILES (and CHANGES_FILE) before judging.\n\
- For EACH prior gap, confirm it is GENUINELY fixed — not merely claimed, \
papered over, hardcoded, or stubbed. AUDIT the implementer's updated tests + \
captured evidence (CHANGED_FILES and `{IMPLEMENTER_SCRATCH}`) first; reach for \
RUNNING the code yourself only as a cheap spot-check, and reuse the \
implementer's captured run instead of expensive re-runs. A gap you cannot \
confirm is fixed remains `refuted: true`. If the fix's evidence is missing, \
refute and ask the implementer to produce it — do not build it yourself.\n\
- Check for REGRESSIONS: the changes must not break a criterion that previously \
held, an adjacent call site, or a passing test.\n\
- PRIOR_GAPS — the gaps the previous round told the implementer to fix:\n\n\
{PRIOR_GAPS}\n\n\
- The whole contract still applies (all numbered criteria + the \
`## Verification plan`), not only the gaps you flagged; refute a newly-doubtful \
criterion too. Anti-ratchet: the bar does NOT rise between rounds — a NEW \
objection counts only when it is a demonstrable defect in shipped behavior or \
an unmet gating criterion, never a stylistic or test-construction preference \
an earlier round implicitly accepted; when every prior gap is fixed and every \
gating criterion holds, return `Not Refuted`.\n\
- PLAN_CHANGES shows how the agent edited PLAN_FILE this run — a weakened, \
deleted, or self-serving criterion is itself grounds for `refuted: true`.\n\
- Cite concrete evidence per assertion (`path:line`, a captured transcript, or \
a diff hunk). Classify any refute via `blocking` as before (`\"none\"`, \
`\"contradiction\"`, or `\"unverifiable\"`).\n\
{KIND_LENS}\n\
## Scratch dirs\n\n\
- `{IMPLEMENTER_SCRATCH}` — the implementer's outputs / captured evidence, your \
PRIMARY source: READ it instead of re-running; do NOT write into it.\n\
- `{SKEPTIC_SCRATCH}` — yours, for cheap spot-checks only; when one re-runs the \
`## Verification plan`, the literal `{SCRATCH}` placeholder resolves here.\n\n\
{SCRATCH_STATUS}\n\n\
## Output contract — STRICT\n\n\
Do BOTH, then emit the terminal token.\n\n\
### 1. JSON verdict → `{VERDICT_FILE}`\n\n\
Write this object (fixed schema) with your file-write tool:\n\n\
```json\n\
{\n\
  \"refuted\": true,\n\
  \"findings\": [{\"kind\": \"bug|gap|todo\", \"location\": \"path:line or where\", \"detail\": \"one line\"}],\n\
  \"evidence\": \"string — one-line summary citation\",\n\
  \"confidence\": \"high\",\n\
  \"blocking\": \"none\",\n\
  \"math_checks\": [\n\
    {\"gate\": \"contract-closure\", \"status\": \"pass|fail|not_applicable\", \"target\": \"result/equation/artifact\", \"evidence\": \"claim-bound observation or N/A reason\"},\n\
    {\"gate\": \"derivation-integrity\", \"status\": \"pass|fail|not_applicable\", \"target\": \"result/equation/artifact\", \"evidence\": \"claim-bound observation or N/A reason\"},\n\
    {\"gate\": \"evidence-provenance\", \"status\": \"pass|fail|not_applicable\", \"target\": \"result/equation/artifact\", \"evidence\": \"claim-bound observation or N/A reason\"},\n\
    {\"gate\": \"invariant-ledger\", \"status\": \"pass|fail|not_applicable\", \"target\": \"result/equation/artifact\", \"evidence\": \"claim-bound observation or N/A reason\"},\n\
    {\"gate\": \"state-isolation\", \"status\": \"pass|fail|not_applicable\", \"target\": \"result/equation/artifact\", \"evidence\": \"claim-bound observation or N/A reason\"}\n\
  ],\n\
  \"details_md\": \"Markdown summary of your findings\"\n\
}\n\
```\n\n\
- `findings` (array — the PRIMARY output the implementer acts on): one terse item \
per gap. `kind` = `bug` (defect in shipped behavior) | `gap` (unmet criterion / \
missing test or evidence) | `todo` (TODO/`#[ignore]`/stub left in). `location` = \
`path:line` when code-related, else where. `detail` = one concrete line, no prose.\n\
- `refuted` (bool): `false` only if every prior gap is confirmed fixed and no \
regression or other criterion fails.\n\
- `evidence` (string): a one-line summary citation; for `code-change`, FINAL_RESPONSE \
prose is NOT evidence.\n\
- `confidence` (string): `\"high\"` | `\"medium\"` | `\"low\"`.\n\
- `blocking` (string, default `\"none\"`): `\"none\"` | `\"contradiction\"` | \
`\"unverifiable\"`.\n\
- `math_checks` (array): mandatory when the math lens applies and `refuted: false`; \
exactly one non-empty, claim-bound row per canonical gate. `not_applicable` needs \
a concrete reason; an approval cannot contain `fail`. Non-math verdicts may omit it.\n\
- `details_md` (string, optional): Markdown writeup; if omitted, the aggregator \
falls back to the `{DETAILS_FILE}` contents.\n\n\
### 2. Details → `{DETAILS_FILE}`\n\n\
The same findings as `details_md`, rendered as real Markdown.\n\n\
### 3. Terminal token\n\n\
Your terminal response must be **exactly** one of these and nothing else — no \
prose, fences, or punctuation; capitalization is significant:\n\n\
```\nRefuted\n```\n\nor\n\n```\nNot Refuted\n```\n\n\
`Refuted` ⇒ `refuted: true`; `Not Refuted` ⇒ `refuted: false`. The JSON is \
authoritative; the token is the fast-path signal.";

/// What a prompt is made of, besides its template.
pub struct PromptParts<'a> {
    /// The evidence packet that follows the instructions.
    pub packet: &'a str,
    pub details_path: &'a str,
    pub verdict_path: &'a str,
    pub kind_lens: &'a str,
    pub skeptic_scratch: &'a str,
    pub implementer_scratch: &'a str,
    pub prior_gaps: Option<&'a str>,
    pub scratch_ready: bool,
}

/// The gaps of the round before, or that there was none.
pub open spec fn prior_gaps_text(prior_gaps: Option<&str>) -> Seq<char> {
    match prior_gaps {
        Some(gaps) => if is_blank(gaps@) {
            "(none — first verification round)"@
        } else {
            sanitized(gaps@, PRIOR_GAPS_MAX_CHARS as int)
        },
        None => "(none — first verification round)"@,
    }
}

pub open spec fn scratch_status(ready: bool) -> Seq<char> {
    if ready {
        "Both dirs have been created for you."@
    } else {
        "Create your own scratch dir with `mkdir -p` if it is missing."@
    }
}

/// A template with everything but the tools filled in, slot after slot.
pub open spec fn filled(template: Seq<char>, parts: PromptParts<'_>) -> Seq<char> {
    let a = replace(template, "{KIND_LENS}"@, parts.kind_lens@);
    let b = replace(a, "{DETAILS_FILE}"@, parts.details_path@);
    let c = replace(b, "{VERDICT_FILE}"@, parts.verdict_path@);
    let d = replace(c, "{SKEPTIC_SCRATCH}"@, parts.skeptic_scratch@);
    let e = replace(d, "{IMPLEMENTER_SCRATCH}"@, parts.implementer_scratch@);
    let f = replace(e, "{SCRATCH_STATUS}"@, scratch_status(parts.scratch_ready));
    replace(f, "{PRIOR_GAPS}"@, prior_gaps_text(parts.prior_gaps))
}

/// A whole prompt: the template filled in, and the evidence packet behind it.
pub open spec fn rendered(template: Seq<char>, parts: PromptParts<'_>, tools: RoleToolNames) -> Seq<
    char,
> {
    with_tools_from(tools, filled(template, parts), 0) + "\n\n"@ + parts.packet@
}

pub fn render_verifier_prompt(template: &str, parts: &PromptParts<'_>, tools: &RoleToolNames) -> (r:
    String)
    ensures
        r@ == rendered(template@, *parts, *tools),
{
    proof {
        reveal_strlit("{KIND_LENS}");
        reveal_strlit("{DETAILS_FILE}");
        reveal_strlit("{VERDICT_FILE}");
        reveal_strlit("{SKEPTIC_SCRATCH}");
        reveal_strlit("{IMPLEMENTER_SCRATCH}");
        reveal_strlit("{SCRATCH_STATUS}");
        reveal_strlit("{PRIOR_GAPS}");
    }
    let gaps = match parts.prior_gaps {
        Some(gaps) => {
            if blank(gaps) {
                "(none — first verification round)".to_owned()
            } else {
                sanitize_prior_gaps(gaps)
            }
        },
        None => "(none — first verification round)".to_owned(),
    };
    let v = chars_of(template);
    let a = replace_of(&v, "{KIND_LENS}", parts.kind_lens);
    let b = replace_of(&a, "{DETAILS_FILE}", parts.details_path);
    let c = replace_of(&b, "{VERDICT_FILE}", parts.verdict_path);
    let d = replace_of(&c, "{SKEPTIC_SCRATCH}", parts.skeptic_scratch);
    let e = replace_of(&d, "{IMPLEMENTER_SCRATCH}", parts.implementer_scratch);
    let f = replace_of(
        &e,
        "{SCRATCH_STATUS}",
        if parts.scratch_ready {
            "Both dirs have been created for you."
        } else {
            "Create your own scratch dir with `mkdir -p` if it is missing."
        },
    );
    let g = replace_of(&f, "{PRIOR_GAPS}", gaps.as_str());
    let mut out = tools.apply_chars(&g);
    append_str(&mut out, "\n\n");
    append_str(&mut out, parts.packet);
    string_of(&out)
}

/// The prompt of a skeptic that has not seen the goal before. `template` is the
/// verifier template that the installation carries.
pub fn render_skeptic_prompt(template: &str, parts: &PromptParts<'_>, tools: &RoleToolNames) -> (r:
    String)
    ensures
        r@ == rendered(template@, *parts, *tools),
{
    render_verifier_prompt(template, parts, tools)
}

/// The prompt of a skeptic that judges the same goal once more.
pub fn render_skeptic_resume_prompt(parts: &PromptParts<'_>, tools: &RoleToolNames) -> (r: String)
    ensures
        r@ == rendered(GOAL_VERIFIER_RESUME_PROMPT_TEMPLATE@, *parts, *tools),
{
    render_verifier_prompt(GOAL_VERIFIER_RESUME_PROMPT_TEMPLATE, parts, tools)
}

// ---------------------------------------------------------------------------
// What the harness binds a verdict to

pub open spec fn json_field(name: Seq<char>, value: Seq<char>) -> Seq<char> {
    "  \""@ + name + "\": "@ + json_string_of(value)
}

/// The identity as a JSON object, indented.
pub open spec fn identity_json(e: VerdictIdentity) -> Seq<char> {
    "{\n"@ + json_field("goal_id"@, e.goal_id@) + ",\n"@ + json_field(
        "verification_round_id"@,
        e.verification_round_id@,
    ) + ",\n"@ + json_field("contract_digest"@, e.contract_digest@) + ",\n"@ + json_field(
        "reviewed_artifact_manifest_digest"@,
        e.reviewed_artifact_manifest_digest@,
    ) + ",\n"@ + json_field("critic_id"@, e.critic_id@) + ",\n"@ + json_field(
        "critic_assignment_id"@,
        e.critic_assignment_id@,
    ) + "\n}"@
}

fn append_field(out: &mut Vec<char>, name: &str, value: &str)
    ensures
        final(out)@ == old(out)@ + json_field(name@, value@),
{
    let text = json_string(value);
    let mut field = chars_of("  \"");
    append_str(&mut field, name);
    append_str(&mut field, "\": ");
    append_str(&mut field, text.as_str());
    append(out, &field);
}

fn identity_json_of(e: &VerdictIdentity) -> (r: Vec<char>)
    ensures
        r@ == identity_json(*e),
{
    let mut out = chars_of("{\n");
    append_field(&mut out, "goal_id", e.goal_id.as_str());
    append_str(&mut out, ",\n");
    append_field(&mut out, "verification_round_id", e.verification_round_id.as_str());
    append_str(&mut out, ",\n");
    append_field(&mut out, "contract_digest", e.contract_digest.as_str());
    append_str(&mut out, ",\n");
    append_field(
        &mut out,
        "reviewed_artifact_manifest_digest",
        e.reviewed_artifact_manifest_digest.as_str(),
    );
    append_str(&mut out, ",\n");
    append_field(&mut out, "critic_id", e.critic_id.as_str());
    append_str(&mut out, ",\n");
    append_field(&mut out, "critic_assignment_id", e.critic_assignment_id.as_str());
    append_str(&mut out, "\n}");
    out
}

/// One assigned gate as a JSON object, indented as an element of a list.
pub open spec fn assignment_json(pair: (VerificationFacet, &str)) -> Seq<char> {
    "  {\n    \"facet\": \""@ + pair.0.name()@ + "\",\n    \"gate\": \""@ + pair.1@ + "\"\n  }"@
}

/// The gates among the first `n` pairs that the facets call for.
pub open spec fn assigned(facets: Set<VerificationFacet>, n: int) -> Seq<Seq<char>>
    decreases n,
{
    if n <= 0 {
        seq![]
    } else if facets.contains(all_pairs()[n - 1].0) {
        assigned(facets, n - 1).push(assignment_json(all_pairs()[n - 1]))
    } else {
        assigned(facets, n - 1)
    }
}

/// Every gate that a critic has to write a receipt for, as a JSON list.
pub open spec fn coverage_json(facets: Set<VerificationFacet>) -> Seq<char> {
    let list = assigned(facets, 13);
    if list.len() == 0 {
        "[]"@
    } else {
        "[\n"@ + join(list, ",\n"@) + "\n]"@
    }
}

fn coverage_json_of(facets: &FacetSet) -> (r: Vec<char>)
    ensures
        r@ == coverage_json(facets@),
{
    let all = crate::receipts::every_pair();
    let mut list: Vec<Vec<char>> = Vec::new();
    let mut n: usize = 0;
    proof {
        assert(texts(list@) =~= assigned(facets@, 0));
    }
    while n < 13
        invariant
            n <= 13,
            all@ == all_pairs(),
            texts(list@) == assigned(facets@, n as int),
        decreases 13 - n,
    {
        let (facet, gate) = all[n];
        if facets.contains(&facet) {
            let mut item = chars_of("  {\n    \"facet\": \"");
            append_str(&mut item, facet.as_str());
            append_str(&mut item, "\",\n    \"gate\": \"");
            append_str(&mut item, gate);
            append_str(&mut item, "\"\n  }");
            proof {
                lemma_texts_push(list@, item);
            }
            list.push(item);
        }
        n += 1;
    }
    proof {
        assert(texts(list@).len() == list@.len());
    }
    if list.len() == 0 {
        return chars_of("[]");
    }
    let mut out = chars_of("[\n");
    append(&mut out, &join_of(&list, ",\n"));
    append_str(&mut out, "\n]");
    out
}

pub open spec fn json_strings(list: Seq<Seq<char>>) -> Seq<Seq<char>> {
    Seq::new(list.len(), |i: int| json_string_of(list[i]))
}

/// A list of texts as a JSON list, without white space.
pub open spec fn list_json(list: Seq<Seq<char>>) -> Seq<char> {
    "["@ + join(json_strings(list), ","@) + "]"@
}

pub(crate) fn list_json_of(list: &Vec<String>) -> (r: Vec<char>)
    ensures
        r@ == list_json(strings(list@)),
{
    let ghost all = strings(list@);
    let mut parts: Vec<Vec<char>> = Vec::new();
    let mut i: usize = 0;
    while i < list.len()
        invariant
            i <= list@.len(),
            all == strings(list@),
            parts@.len() == i,
            forall|k: int| 0 <= k < i ==> (#[trigger] parts@[k])@ == json_strings(all)[k],
        decreases list@.len() - i,
    {
        let text = json_string(list[i].as_str());
        let v = chars_of(text.as_str());
        parts.push(v);
        i += 1;
    }
    proof {
        assert(texts(parts@) =~= json_strings(all));
    }
    let mut out = chars_of("[");
    append(&mut out, &join_of(&parts, ","));
    append_str(&mut out, "]");
    out
}

/// The part of a prompt that binds the verdict to the round, the critic and the
/// reviewed artifacts.
pub open spec fn binding_section(
    identity: VerdictIdentity,
    facets: Set<VerificationFacet>,
    manifest_path: Seq<char>,
    changed_paths: Seq<Seq<char>>,
) -> Seq<char> {
    "\n\n## Harness-bound verification identity\n\nIDENTITY:\n"@ + identity_json(identity)
        + "\n\nREQUIRED_COVERAGE:\n"@ + coverage_json(facets) + "\n\nARTIFACT_MANIFEST: "@
        + manifest_path + "\nSTATE_CHANGED_PATHS_FROM_GOAL_START: "@ + list_json(changed_paths)
        + "\n"@
}

pub fn render_binding_section(
    identity: &VerdictIdentity,
    facets: &FacetSet,
    manifest_path: &str,
    changed_paths: &Vec<String>,
) -> (r: String)
    ensures
        r@ == binding_section(*identity, facets@, manifest_path@, strings(changed_paths@)),
{
    let mut out = chars_of("\n\n## Harness-bound verification identity\n\nIDENTITY:\n");
    append(&mut out, &identity_json_of(identity));
    append_str(&mut out, "\n\nREQUIRED_COVERAGE:\n");
    append(&mut out, &coverage_json_of(facets));
    append_str(&mut out, "\n\nARTIFACT_MANIFEST: ");
    append_str(&mut out, manifest_path);
    append_str(&mut out, "\nSTATE_CHANGED_PATHS_FROM_GOAL_START: ");
    append(&mut out, &list_json_of(changed_paths));
    append_str(&mut out, "\n");
    string_of(&out)
}

/// The tools that a skeptic is told of: those of its own role, or else the
/// defaults.
pub fn tools_for<'a>(
    names: &'a [RoleToolNames],
    defaults: &'a RoleToolNames,
    skeptic_idx: u32,
) -> (r: &'a RoleToolNames)
    ensures
        *r == (if skeptic_idx < names@.len() {
            names@[skeptic_idx as int]
        } else {
            *defaults
        }),
{
    let i: usize = skeptic_idx as usize;
    if i < names.len() {
        &names[i]
    } else {
        defaults
    }
}

/// The whole prompt of a skeptic: the instructions, the evidence, and what its
/// verdict is bound to.
pub fn skeptic_prompt(
    template: &str,
    parts: &PromptParts<'_>,
    tools: &RoleToolNames,
    identity: &VerdictIdentity,
    facets: &FacetSet,
    manifest_path: &str,
    changed_paths: &Vec<String>,
) -> (r: String)
    ensures
        r@ == rendered(template@, *parts, *tools) + binding_section(
            *identity,
            facets@,
            manifest_path@,
            strings(changed_paths@),
        ),
{
    let instructions = render_skeptic_prompt(template, parts, tools);
    let binding = render_binding_section(identity, facets, manifest_path, changed_paths);
    cat2(instructions.as_str(), binding.as_str())
}

// ---------------------------------------------------------------------------
// Reading paths back out of a prompt

/// The first position from `i` on at which `p` stands.
pub open spec fn find_from(s: Seq<char>, p: Seq<char>, i: int) -> Option<int>
    decreases s.len() + 1 - i,
{
    if i < 0 || i > s.len() {
        None
    } else if matches_at(s, p, i) {
        Some(i)
    } else {
        find_from(s, p, i + 1)
    }
}

fn find_of(s: &Vec<char>, p: &Vec<char>, from: usize) -> (r: Option<usize>)
    requires
        from <= s@.len(),
    ensures
        match find_from(s@, p@, from as int) {
            Some(i) => r == Some(i as usize) && from <= i && i + p@.len() <= s@.len(),
            None => r is None,
        },
        s@.len() <= usize::MAX,
{
    let mut i: usize = from;
    while i < s.len()
        invariant
            from <= i <= s@.len(),
            find_from(s@, p@, from as int) == find_from(s@, p@, i as int),
        decreases s@.len() - i,
    {
        if matches_at_of(s, p, i) {
            return Some(i);
        }
        i += 1;
    }
    proof {
        assert(find_from(s@, p@, i + 1) is None);
    }
    if matches_at_of(s, p, i) {
        Some(i)
    } else {
        None
    }
}

/// What stands between a heading and the next backtick, unless it is blank.
pub open spec fn backticked_path(prompt: Seq<char>, heading: Seq<char>) -> Option<Seq<char>> {
    match find_from(prompt, heading, 0) {
        None => None,
        Some(i) => {
            let start = i + heading.len();
            match find_from(prompt, "`"@, start) {
                None => None,
                Some(end) => if is_blank(prompt.subrange(start, end)) {
                    None
                } else {
                    Some(prompt.subrange(start, end))
                },
            }
        },
    }
}

pub fn parse_backticked_path(prompt: &str, heading: &str) -> (r: Option<String>)
    ensures
        crate::text::opt(r) == backticked_path(prompt@, heading@),
{
    let s = chars_of(prompt);
    let h = chars_of(heading);
    let tick = chars_of("`");
    let i = match find_of(&s, &h, 0) {
        Some(i) => i,
        None => {
            return None;
        },
    };
    let start: usize = i + h.len();
    let end = match find_of(&s, &tick, start) {
        Some(end) => end,
        None => {
            return None;
        },
    };
    let path = slice_of(&s, start, end);
    if trim_of(&path).len() == 0 {
        None
    } else {
        Some(string_of(&path))
    }
}

/// Where the token that holds position `i` begins: behind the last white space
/// or backtick before `i`.
pub open spec fn token_start(s: Seq<char>, i: int) -> int
    decreases i,
{
    if i <= 0 {
        0
    } else if is_white(s[i - 1]) || s[i - 1] == '`' {
        i
    } else {
        token_start(s, i - 1)
    }
}

/// The path that holds a marker, up to a suffix.
pub open spec fn marked_path(prompt: Seq<char>, marker: Seq<char>, suffix: Seq<char>) -> Option<
    Seq<char>,
> {
    match find_from(prompt, marker, 0) {
        None => None,
        Some(i) => {
            let start = token_start(prompt, i);
            match find_from(prompt, suffix, start) {
                None => None,
                Some(end) => Some(prompt.subrange(start, end + suffix.len())),
            }
        },
    }
}

pub fn parse_prompt_path(prompt: &str, marker: &str, suffix: &str) -> (r: Option<String>)
    ensures
        crate::text::opt(r) == marked_path(prompt@, marker@, suffix@),
{
    let s = chars_of(prompt);
    let m = chars_of(marker);
    let x = chars_of(suffix);
    let i = match find_of(&s, &m, 0) {
        Some(i) => i,
        None => {
            return None;
        },
    };
    let mut start: usize = i;
    while start > 0 && !white(s[start - 1]) && s[start - 1] != '`'
        invariant
            start <= i <= s@.len(),
            token_start(s@, i as int) == token_start(s@, start as int),
        decreases start,
    {
        start -= 1;
    }
    proof {
        assert(token_start(s@, i as int) == start);
    }
    match find_of(&s, &x, start) {
        Some(end) => Some(string_of(&slice_of(&s, start, end + x.len()))),
        None => None,
    }
}

/// The verdict file that a prompt names.
pub fn parse_verdict_path_from_prompt(prompt: &str) -> (r: Option<String>)
    ensures
        crate::text::opt(r) == (match backticked_path(prompt@, "### 1. JSON verdict → `"@) {
            Some(path) => Some(path),
            None => marked_path(prompt@, "goal-verdict-"@, ".json"@),
        }),
{
    match parse_backticked_path(prompt, "### 1. JSON verdict → `") {
        Some(path) => Some(path),
        None => parse_prompt_path(prompt, "goal-verdict-", ".json"),
    }
}

/// The details file that a prompt names.
pub fn parse_skeptic_details_path_from_prompt(prompt: &str) -> (r: Option<String>)
    ensures
        crate::text::opt(r) == (match backticked_path(prompt@, "### 2. Details → `"@) {
            Some(path) => Some(path),
            None => marked_path(prompt@, "-skeptic-"@, ".md"@),
        }),
{
    match parse_backticked_path(prompt, "### 2. Details → `") {
        Some(path) => Some(path),
        None => parse_prompt_path(prompt, "-skeptic-", ".md"),
    }
}

// ---------------------------------------------------------------------------
// What a prompt tells

/// A slot in a text without other braces is the only one there is.
proof fn lemma_slot_alone(a: Seq<char>, slot: Seq<char>, b: Seq<char>, other: Seq<char>, k: int)
    requires
        !has_char(a, '{'),
        !has_char(b, '{'),
        slot.len() > 0 && slot[0] == '{',
        forall|i: int| 1 <= i < slot.len() ==> #[trigger] slot[i] != '{',
        other.len() > 0 && other[0] == '{',
        matches_at(a + slot + b, other, k),
    ensures
        k == a.len(),
{
    let s = a + slot + b;
    assert(s.subrange(k, k + other.len())[0] == '{');
    assert(s[k] == '{');
    if k < a.len() {
        assert(a[k] == '{');
    } else if k >= a.len() + slot.len() {
        assert(b[k - a.len() - slot.len()] == '{');
    } else if k > a.len() {
        assert(slot[k - a.len()] == '{');
    }
}

proof fn lemma_fill_other(a: Seq<char>, slot: Seq<char>, b: Seq<char>, other: Seq<char>, t: Seq<char>, d: int)
    requires
        !has_char(a, '{'),
        !has_char(b, '{'),
        slot.len() > 0 && slot[0] == '{',
        forall|i: int| 1 <= i < slot.len() ==> #[trigger] slot[i] != '{',
        other.len() > 0 && other[0] == '{',
        0 <= d < slot.len(),
        0 <= d < other.len(),
        slot[d] != other[d],
    ensures
        replace(a + slot + b, other, t) == a + slot + b,
{
    let s = a + slot + b;
    if contains(s, other) {
        let k = choose|k: int| matches_at(s, other, k);
        lemma_slot_alone(a, slot, b, other, k);
        assert(s.subrange(k, k + other.len())[d] == other[d]);
        assert(s[k + d] == slot[d]);
    }
    lemma_replace_absent(s, other, t);
}

proof fn lemma_fill_slot(a: Seq<char>, slot: Seq<char>, b: Seq<char>, t: Seq<char>)
    requires
        !has_char(a, '{'),
        !has_char(b, '{'),
        slot.len() > 0 && slot[0] == '{',
        forall|i: int| 1 <= i < slot.len() ==> #[trigger] slot[i] != '{',
    ensures
        replace(a + slot + b, slot, t) == a + t + b,
{
    assert forall|k: int| 0 <= k < (a + slot + b).len() && k != a.len() implies !#[trigger] matches_at(
        a + slot + b,
        slot,
        k,
    ) by {
        if matches_at(a + slot + b, slot, k) {
            lemma_slot_alone(a, slot, b, slot, k);
        }
    }
    lemma_replace_once(a, slot, b, t);
}

proof fn lemma_fill_none(s: Seq<char>, other: Seq<char>, t: Seq<char>)
    requires
        !has_char(s, '{'),
        other.len() > 0 && other[0] == '{',
    ensures
        replace(s, other, t) == s,
{
    lemma_lacks(s, other, 0);
    lemma_replace_absent(s, other, t);
}

proof fn lemma_no_brace(a: Seq<char>, t: Seq<char>, b: Seq<char>)
    requires
        !has_char(a, '{'),
        !has_char(t, '{'),
        !has_char(b, '{'),
    ensures
        !has_char(a + t + b, '{'),
{
    let s = a + t + b;
    if has_char(s, '{') {
        let i = choose|i: int| 0 <= i < s.len() && s[i] == '{';
        if i < a.len() {
            assert(a[i] == '{');
        } else if i < a.len() + t.len() {
            assert(t[i - a.len()] == '{');
        } else {
            assert(b[i - a.len() - t.len()] == '{');
        }
    }
}

/// The slot `{KIND_LENS}` of a template is filled with what it stands for, and what
/// stands around it stays.
pub proof fn law_kind_lens_is_filled_in(a: Seq<char>, b: Seq<char>, parts: PromptParts<'_>)
    requires
        !has_char(a, '{'),
        !has_char(b, '{'),
        !has_char(parts.kind_lens@, '{'),
    ensures
        filled(a + "{KIND_LENS}"@ + b, parts) == a + parts.kind_lens@ + b,
{
    let s = a + "{KIND_LENS}"@ + b;
    let value = parts.kind_lens@;
    reveal_strlit("{KIND_LENS}");
    reveal_strlit("{DETAILS_FILE}");
    reveal_strlit("{VERDICT_FILE}");
    reveal_strlit("{SKEPTIC_SCRATCH}");
    reveal_strlit("{IMPLEMENTER_SCRATCH}");
    reveal_strlit("{SCRATCH_STATUS}");
    reveal_strlit("{PRIOR_GAPS}");
    lemma_fill_slot(a, "{KIND_LENS}"@, b, value);
    lemma_no_brace(a, value, b);
    lemma_fill_none(a + value + b, "{DETAILS_FILE}"@, parts.details_path@);
    lemma_fill_none(a + value + b, "{VERDICT_FILE}"@, parts.verdict_path@);
    lemma_fill_none(a + value + b, "{SKEPTIC_SCRATCH}"@, parts.skeptic_scratch@);
    lemma_fill_none(a + value + b, "{IMPLEMENTER_SCRATCH}"@, parts.implementer_scratch@);
    lemma_fill_none(a + value + b, "{SCRATCH_STATUS}"@, scratch_status(parts.scratch_ready));
    lemma_fill_none(a + value + b, "{PRIOR_GAPS}"@, prior_gaps_text(parts.prior_gaps));
}

/// The slot `{DETAILS_FILE}` of a template is filled with what it stands for, and what
/// stands around it stays.
pub proof fn law_details_file_is_filled_in(a: Seq<char>, b: Seq<char>, parts: PromptParts<'_>)
    requires
        !has_char(a, '{'),
        !has_char(b, '{'),
        !has_char(parts.details_path@, '{'),
    ensures
        filled(a + "{DETAILS_FILE}"@ + b, parts) == a + parts.details_path@ + b,
{
    let s = a + "{DETAILS_FILE}"@ + b;
    let value = parts.details_path@;
    reveal_strlit("{KIND_LENS}");
    reveal_strlit("{DETAILS_FILE}");
    reveal_strlit("{VERDICT_FILE}");
    reveal_strlit("{SKEPTIC_SCRATCH}");
    reveal_strlit("{IMPLEMENTER_SCRATCH}");
    reveal_strlit("{SCRATCH_STATUS}");
    reveal_strlit("{PRIOR_GAPS}");
    assert("{DETAILS_FILE}"@[1] == 'D' && "{KIND_LENS}"@[1] == 'K');
    lemma_fill_other(a, "{DETAILS_FILE}"@, b, "{KIND_LENS}"@, parts.kind_lens@, 1);
    lemma_fill_slot(a, "{DETAILS_FILE}"@, b, value);
    lemma_no_brace(a, value, b);
    lemma_fill_none(a + value + b, "{VERDICT_FILE}"@, parts.verdict_path@);
    lemma_fill_none(a + value + b, "{SKEPTIC_SCRATCH}"@, parts.skeptic_scratch@);
    lemma_fill_none(a + value + b, "{IMPLEMENTER_SCRATCH}"@, parts.implementer_scratch@);
    lemma_fill_none(a + value + b, "{SCRATCH_STATUS}"@, scratch_status(parts.scratch_ready));
    lemma_fill_none(a + value + b, "{PRIOR_GAPS}"@, prior_gaps_text(parts.prior_gaps));
}

/// The slot `{VERDICT_FILE}` of a template is filled with what it stands for, and what
/// stands around it stays.
pub proof fn law_verdict_file_is_filled_in(a: Seq<char>, b: Seq<char>, parts: PromptParts<'_>)
    requires
        !has_char(a, '{'),
        !has_char(b, '{'),
        !has_char(parts.verdict_path@, '{'),
    ensures
        filled(a + "{VERDICT_FILE}"@ + b, parts) == a + parts.verdict_path@ + b,
{
    let s = a + "{VERDICT_FILE}"@ + b;
    let value = parts.verdict_path@;
    reveal_strlit("{KIND_LENS}");
    reveal_strlit("{DETAILS_FILE}");
    reveal_strlit("{VERDICT_FILE}");
    reveal_strlit("{SKEPTIC_SCRATCH}");
    reveal_strlit("{IMPLEMENTER_SCRATCH}");
    reveal_strlit("{SCRATCH_STATUS}");
    reveal_strlit("{PRIOR_GAPS}");
    assert("{VERDICT_FILE}"@[1] == 'V' && "{KIND_LENS}"@[1] == 'K');
    lemma_fill_other(a, "{VERDICT_FILE}"@, b, "{KIND_LENS}"@, parts.kind_lens@, 1);
    assert("{VERDICT_FILE}"@[1] == 'V' && "{DETAILS_FILE}"@[1] == 'D');
    lemma_fill_other(a, "{VERDICT_FILE}"@, b, "{DETAILS_FILE}"@, parts.details_path@, 1);
    lemma_fill_slot(a, "{VERDICT_FILE}"@, b, value);
    lemma_no_brace(a, value, b);
    lemma_fill_none(a + value + b, "{SKEPTIC_SCRATCH}"@, parts.skeptic_scratch@);
    lemma_fill_none(a + value + b, "{IMPLEMENTER_SCRATCH}"@, parts.implementer_scratch@);
    lemma_fill_none(a + value + b, "{SCRATCH_STATUS}"@, scratch_status(parts.scratch_ready));
    lemma_fill_none(a + value + b, "{PRIOR_GAPS}"@, prior_gaps_text(parts.prior_gaps));
}

/// The slot `{SKEPTIC_SCRATCH}` of a template is filled with what it stands for, and what
/// stands around it stays.
pub proof fn law_skeptic_scratch_is_filled_in(a: Seq<char>, b: Seq<char>, parts: PromptParts<'_>)
    requires
        !has_char(a, '{'),
        !has_char(b, '{'),
        !has_char(parts.skeptic_scratch@, '{'),
    ensures
        filled(a + "{SKEPTIC_SCRATCH}"@ + b, parts) == a + parts.skeptic_scratch@ + b,
{
    let s = a + "{SKEPTIC_SCRATCH}"@ + b;
    let value = parts.skeptic_scratch@;
    reveal_strlit("{KIND_LENS}");
    reveal_strlit("{DETAILS_FILE}");
    reveal_strlit("{VERDICT_FILE}");
    reveal_strlit("{SKEPTIC_SCRATCH}");
    reveal_strlit("{IMPLEMENTER_SCRATCH}");
    reveal_strlit("{SCRATCH_STATUS}");
    reveal_strlit("{PRIOR_GAPS}");
    assert("{SKEPTIC_SCRATCH}"@[1] == 'S' && "{KIND_LENS}"@[1] == 'K');
    lemma_fill_other(a, "{SKEPTIC_SCRATCH}"@, b, "{KIND_LENS}"@, parts.kind_lens@, 1);
    assert("{SKEPTIC_SCRATCH}"@[1] == 'S' && "{DETAILS_FILE}"@[1] == 'D');
    lemma_fill_other(a, "{SKEPTIC_SCRATCH}"@, b, "{DETAILS_FILE}"@, parts.details_path@, 1);
    assert("{SKEPTIC_SCRATCH}"@[1] == 'S' && "{VERDICT_FILE}"@[1] == 'V');
    lemma_fill_other(a, "{SKEPTIC_SCRATCH}"@, b, "{VERDICT_FILE}"@, parts.verdict_path@, 1);
    lemma_fill_slot(a, "{SKEPTIC_SCRATCH}"@, b, value);
    lemma_no_brace(a, value, b);
    lemma_fill_none(a + value + b, "{IMPLEMENTER_SCRATCH}"@, parts.implementer_scratch@);
    lemma_fill_none(a + value + b, "{SCRATCH_STATUS}"@, scratch_status(parts.scratch_ready));
    lemma_fill_none(a + value + b, "{PRIOR_GAPS}"@, prior_gaps_text(parts.prior_gaps));
}

/// The slot `{IMPLEMENTER_SCRATCH}` of a template is filled with what it stands for, and what
/// stands around it stays.
pub proof fn law_implementer_scratch_is_filled_in(a: Seq<char>, b: Seq<char>, parts: PromptParts<'_>)
    requires
        !has_char(a, '{'),
        !has_char(b, '{'),
        !has_char(parts.implementer_scratch@, '{'),
    ensures
        filled(a + "{IMPLEMENTER_SCRATCH}"@ + b, parts) == a + parts.implementer_scratch@ + b,
{
    let s = a + "{IMPLEMENTER_SCRATCH}"@ + b;
    let value = parts.implementer_scratch@;
    reveal_strlit("{KIND_LENS}");
    reveal_strlit("{DETAILS_FILE}");
    reveal_strlit("{VERDICT_FILE}");
    reveal_strlit("{SKEPTIC_SCRATCH}");
    reveal_strlit("{IMPLEMENTER_SCRATCH}");
    reveal_strlit("{SCRATCH_STATUS}");
    reveal_strlit("{PRIOR_GAPS}");
    assert("{IMPLEMENTER_SCRATCH}"@[1] == 'I' && "{KIND_LENS}"@[1] == 'K');
    lemma_fill_other(a, "{IMPLEMENTER_SCRATCH}"@, b, "{KIND_LENS}"@, parts.kind_lens@, 1);
    assert("{IMPLEMENTER_SCRATCH}"@[1] == 'I' && "{DETAILS_FILE}"@[1] == 'D');
    lemma_fill_other(a, "{IMPLEMENTER_SCRATCH}"@, b, "{DETAILS_FILE}"@, parts.details_path@, 1);
    assert("{IMPLEMENTER_SCRATCH}"@[1] == 'I' && "{VERDICT_FILE}"@[1] == 'V');
    lemma_fill_other(a, "{IMPLEMENTER_SCRATCH}"@, b, "{VERDICT_FILE}"@, parts.verdict_path@, 1);
    assert("{IMPLEMENTER_SCRATCH}"@[1] == 'I' && "{SKEPTIC_SCRATCH}"@[1] == 'S');
    lemma_fill_other(a, "{IMPLEMENTER_SCRATCH}"@, b, "{SKEPTIC_SCRATCH}"@, parts.skeptic_scratch@, 1);
    lemma_fill_slot(a, "{IMPLEMENTER_SCRATCH}"@, b, value);
    lemma_no_brace(a, value, b);
    lemma_fill_none(a + value + b, "{SCRATCH_STATUS}"@, scratch_status(parts.scratch_ready));
    lemma_fill_none(a + value + b, "{PRIOR_GAPS}"@, prior_gaps_text(parts.prior_gaps));
}

/// The slot `{SCRATCH_STATUS}` of a template is filled with what it stands for, and what
/// stands around it stays.
pub proof fn law_scratch_status_is_filled_in(a: Seq<char>, b: Seq<char>, parts: PromptParts<'_>)
    requires
        !has_char(a, '{'),
        !has_char(b, '{'),
        !has_char(scratch_status(parts.scratch_ready), '{'),
    ensures
        filled(a + "{SCRATCH_STATUS}"@ + b, parts) == a + scratch_status(parts.scratch_ready) + b,
{
    let s = a + "{SCRATCH_STATUS}"@ + b;
    let value = scratch_status(parts.scratch_ready);
    reveal_strlit("{KIND_LENS}");
    reveal_strlit("{DETAILS_FILE}");
    reveal_strlit("{VERDICT_FILE}");
    reveal_strlit("{SKEPTIC_SCRATCH}");
    reveal_strlit("{IMPLEMENTER_SCRATCH}");
    reveal_strlit("{SCRATCH_STATUS}");
    reveal_strlit("{PRIOR_GAPS}");
    assert("{SCRATCH_STATUS}"@[1] == 'S' && "{KIND_LENS}"@[1] == 'K');
    lemma_fill_other(a, "{SCRATCH_STATUS}"@, b, "{KIND_LENS}"@, parts.kind_lens@, 1);
    assert("{SCRATCH_STATUS}"@[1] == 'S' && "{DETAILS_FILE}"@[1] == 'D');
    lemma_fill_other(a, "{SCRATCH_STATUS}"@, b, "{DETAILS_FILE}"@, parts.details_path@, 1);
    assert("{SCRATCH_STATUS}"@[1] == 'S' && "{VERDICT_FILE}"@[1] == 'V');
    lemma_fill_other(a, "{SCRATCH_STATUS}"@, b, "{VERDICT_FILE}"@, parts.verdict_path@, 1);
    assert("{SCRATCH_STATUS}"@[2] == 'C' && "{SKEPTIC_SCRATCH}"@[2] == 'K');
    lemma_fill_other(a, "{SCRATCH_STATUS}"@, b, "{SKEPTIC_SCRATCH}"@, parts.skeptic_scratch@, 2);
    assert("{SCRATCH_STATUS}"@[1] == 'S' && "{IMPLEMENTER_SCRATCH}"@[1] == 'I');
    lemma_fill_other(a, "{SCRATCH_STATUS}"@, b, "{IMPLEMENTER_SCRATCH}"@, parts.implementer_scratch@, 1);
    lemma_fill_slot(a, "{SCRATCH_STATUS}"@, b, value);
    lemma_no_brace(a, value, b);
    lemma_fill_none(a + value + b, "{PRIOR_GAPS}"@, prior_gaps_text(parts.prior_gaps));
}

/// The slot `{PRIOR_GAPS}` of a template is filled with what it stands for, and what
/// stands around it stays.
pub proof fn law_prior_gaps_is_filled_in(a: Seq<char>, b: Seq<char>, parts: PromptParts<'_>)
    requires
        !has_char(a, '{'),
        !has_char(b, '{'),
        !has_char(prior_gaps_text(parts.prior_gaps), '{'),
    ensures
        filled(a + "{PRIOR_GAPS}"@ + b, parts) == a + prior_gaps_text(parts.prior_gaps) + b,
{
    let s = a + "{PRIOR_GAPS}"@ + b;
    let value = prior_gaps_text(parts.prior_gaps);
    reveal_strlit("{KIND_LENS}");
    reveal_strlit("{DETAILS_FILE}");
    reveal_strlit("{VERDICT_FILE}");
    reveal_strlit("{SKEPTIC_SCRATCH}");
    reveal_strlit("{IMPLEMENTER_SCRATCH}");
    reveal_strlit("{SCRATCH_STATUS}");
    reveal_strlit("{PRIOR_GAPS}");
    assert("{PRIOR_GAPS}"@[1] == 'P' && "{KIND_LENS}"@[1] == 'K');
    lemma_fill_other(a, "{PRIOR_GAPS}"@, b, "{KIND_LENS}"@, parts.kind_lens@, 1);
    assert("{PRIOR_GAPS}"@[1] == 'P' && "{DETAILS_FILE}"@[1] == 'D');
    lemma_fill_other(a, "{PRIOR_GAPS}"@, b, "{DETAILS_FILE}"@, parts.details_path@, 1);
    assert("{PRIOR_GAPS}"@[1] == 'P' && "{VERDICT_FILE}"@[1] == 'V');
    lemma_fill_other(a, "{PRIOR_GAPS}"@, b, "{VERDICT_FILE}"@, parts.verdict_path@, 1);
    assert("{PRIOR_GAPS}"@[1] == 'P' && "{SKEPTIC_SCRATCH}"@[1] == 'S');
    lemma_fill_other(a, "{PRIOR_GAPS}"@, b, "{SKEPTIC_SCRATCH}"@, parts.skeptic_scratch@, 1);
    assert("{PRIOR_GAPS}"@[1] == 'P' && "{IMPLEMENTER_SCRATCH}"@[1] == 'I');
    lemma_fill_other(a, "{PRIOR_GAPS}"@, b, "{IMPLEMENTER_SCRATCH}"@, parts.implementer_scratch@, 1);
    assert("{PRIOR_GAPS}"@[1] == 'P' && "{SCRATCH_STATUS}"@[1] == 'S');
    lemma_fill_other(a, "{PRIOR_GAPS}"@, b, "{SCRATCH_STATUS}"@, scratch_status(parts.scratch_ready), 1);
    lemma_fill_slot(a, "{PRIOR_GAPS}"@, b, value);
    lemma_no_brace(a, value, b);
}

/// A prompt ends with the evidence, behind the instructions.
pub proof fn law_prompt_ends_with_the_evidence(
    template: Seq<char>,
    parts: PromptParts<'_>,
    tools: RoleToolNames,
)
    ensures
        ends_with(rendered(template, parts, tools), "\n\n"@ + parts.packet@),
{
    let whole = rendered(template, parts, tools);
    let tail = "\n\n"@ + parts.packet@;
    assert(whole.subrange(whole.len() - tail.len(), whole.len() as int) =~= tail);
}

/// The gaps of the round before are told, and that there was none where nothing is
/// known of it; where the directories are not there, the skeptic is told to make
/// its own.
pub proof fn law_prior_gaps_are_told(prior_gaps: Option<&str>)
    ensures
        prior_gaps is None ==> prior_gaps_text(prior_gaps) == "(none — first verification round)"@,
        prior_gaps is Some && trim(prior_gaps->0@).len() == 0 ==> prior_gaps_text(prior_gaps)
            == "(none — first verification round)"@,
        prior_gaps is Some && trim(prior_gaps->0@).len() > 0 ==> prior_gaps_text(prior_gaps)
            == sanitized(prior_gaps->0@, 4000),
        contains(scratch_status(false), "`mkdir -p`"@),
        contains(scratch_status(true), "created"@),
{
    reveal_strlit("Create your own scratch dir with `mkdir -p` if it is missing.");
    reveal_strlit("`mkdir -p`");
    reveal_strlit("Both dirs have been created for you.");
    reveal_strlit("created");
    let a = "Create your own scratch dir with `mkdir -p` if it is missing."@;
    assert(a.subrange(33, 43) =~= "`mkdir -p`"@);
    assert(matches_at(a, "`mkdir -p`"@, 33));
    let b = "Both dirs have been created for you."@;
    assert(b.subrange(20, 27) =~= "created"@);
    assert(matches_at(b, "created"@, 20));
}

proof fn lemma_assigned(facets: Set<VerificationFacet>, n: int, k: int)
    requires
        0 <= k < n <= 13,
        facets.contains(all_pairs()[k].0),
    ensures
        assigned(facets, n).contains(assignment_json(all_pairs()[k])),
    decreases n,
{
    let before = assigned(facets, n - 1);
    let now = assigned(facets, n);
    if k == n - 1 {
        assert(now[before.len() as int] == assignment_json(all_pairs()[k]));
    } else {
        lemma_assigned(facets, n - 1, k);
        let i = choose|i: int|
            0 <= i < before.len() && before[i] == assignment_json(all_pairs()[k]);
        assert(now[i] == before[i]);
    }
}

/// A skeptic is told who it is, which gates it has to write receipts for, where the
/// manifest stands and what has changed.
pub proof fn law_skeptic_is_told_what_it_is_bound_to(
    identity: VerdictIdentity,
    facets: Set<VerificationFacet>,
    manifest_path: Seq<char>,
    changed: Seq<Seq<char>>,
    k: int,
    c: int,
)
    ensures
        contains(
            binding_section(identity, facets, manifest_path, changed),
            json_field("goal_id"@, identity.goal_id@),
        ),
        contains(
            binding_section(identity, facets, manifest_path, changed),
            json_field("verification_round_id"@, identity.verification_round_id@),
        ),
        contains(
            binding_section(identity, facets, manifest_path, changed),
            json_field("contract_digest"@, identity.contract_digest@),
        ),
        contains(
            binding_section(identity, facets, manifest_path, changed),
            json_field(
                "reviewed_artifact_manifest_digest"@,
                identity.reviewed_artifact_manifest_digest@,
            ),
        ),
        contains(
            binding_section(identity, facets, manifest_path, changed),
            json_field("critic_id"@, identity.critic_id@),
        ),
        contains(
            binding_section(identity, facets, manifest_path, changed),
            json_field("critic_assignment_id"@, identity.critic_assignment_id@),
        ),
        contains(
            binding_section(identity, facets, manifest_path, changed),
            "\n\nARTIFACT_MANIFEST: "@ + manifest_path,
        ),
        0 <= k < 13 && facets.contains(all_pairs()[k].0) ==> contains(
            binding_section(identity, facets, manifest_path, changed),
            assignment_json(all_pairs()[k]),
        ),
        0 <= c < changed.len() ==> contains(
            binding_section(identity, facets, manifest_path, changed),
            json_string_of(changed[c]),
        ),
{
    let whole = binding_section(identity, facets, manifest_path, changed);
    let p0 = "\n\n## Harness-bound verification identity\n\nIDENTITY:\n"@;
    let id = identity_json(identity);
    let p1 = p0 + id;
    let p2 = p1 + "\n\nREQUIRED_COVERAGE:\n"@ + coverage_json(facets);
    let p3 = p2 + "\n\nARTIFACT_MANIFEST: "@ + manifest_path;
    let p4 = p3 + "\nSTATE_CHANGED_PATHS_FROM_GOAL_START: "@ + list_json(changed);
    assert(whole == p4 + "\n"@);
    assert forall|x: Seq<char>| #[trigger] contains(id, x) implies contains(whole, x) by {
        assert(p1 =~= p0 + id + seq![]);
        lemma_contains_in_whole(p0, id, seq![], x);
        lemma_contains_grows(p1, "\n\nREQUIRED_COVERAGE:\n"@, coverage_json(facets), x);
        lemma_contains_grows(p2, "\n\nARTIFACT_MANIFEST: "@, manifest_path, x);
        lemma_contains_grows(p3, "\nSTATE_CHANGED_PATHS_FROM_GOAL_START: "@, list_json(changed), x);
        lemma_contains_grows(p4, "\n"@, seq![], x);
        assert(p4 + "\n"@ + Seq::<char>::empty() =~= p4 + "\n"@);
    }
    lemma_identity_fields(identity);
    let place = "\n\nARTIFACT_MANIFEST: "@ + manifest_path;
    assert(p3 =~= p2 + place + seq![]);
    lemma_contains_itself(p2, place, seq![]);
    lemma_contains_grows(p3, "\nSTATE_CHANGED_PATHS_FROM_GOAL_START: "@, list_json(changed), place);
    lemma_contains_grows(p4, "\n"@, seq![], place);
    assert(p4 + "\n"@ + Seq::<char>::empty() =~= p4 + "\n"@);
    if 0 <= k < 13 && facets.contains(all_pairs()[k].0) {
        let x = assignment_json(all_pairs()[k]);
        lemma_assigned(facets, 13, k);
        let list = assigned(facets, 13);
        let i = choose|i: int| 0 <= i < list.len() && list[i] == x;
        lemma_coverage_holds(facets, i);
        assert(p2 =~= (p1 + "\n\nREQUIRED_COVERAGE:\n"@) + coverage_json(facets) + seq![]);
        lemma_contains_in_whole(
            p1 + "\n\nREQUIRED_COVERAGE:\n"@,
            coverage_json(facets),
            seq![],
            x,
        );
        lemma_contains_grows(p2, "\n\nARTIFACT_MANIFEST: "@, manifest_path, x);
        lemma_contains_grows(p3, "\nSTATE_CHANGED_PATHS_FROM_GOAL_START: "@, list_json(changed), x);
        lemma_contains_grows(p4, "\n"@, seq![], x);
    }
    if 0 <= c < changed.len() {
        let x = json_string_of(changed[c]);
        lemma_join_holds_its_parts(json_strings(changed), ","@, c);
        lemma_contains_in_whole("["@, join(json_strings(changed), ","@), "]"@, x);
        assert(p4 =~= (p3 + "\nSTATE_CHANGED_PATHS_FROM_GOAL_START: "@) + list_json(changed)
            + seq![]);
        lemma_contains_in_whole(
            p3 + "\nSTATE_CHANGED_PATHS_FROM_GOAL_START: "@,
            list_json(changed),
            seq![],
            x,
        );
        lemma_contains_grows(p4, "\n"@, seq![], x);
    }
}

proof fn lemma_coverage_holds(facets: Set<VerificationFacet>, i: int)
    requires
        0 <= i < assigned(facets, 13).len(),
    ensures
        contains(coverage_json(facets), assigned(facets, 13)[i]),
{
    let list = assigned(facets, 13);
    lemma_join_holds_its_parts(list, ",\n"@, i);
    lemma_contains_in_whole("[\n"@, join(list, ",\n"@), "\n]"@, list[i]);
}

proof fn lemma_identity_fields(e: VerdictIdentity)
    ensures
        contains(identity_json(e), json_field("goal_id"@, e.goal_id@)),
        contains(identity_json(e), json_field("verification_round_id"@, e.verification_round_id@)),
        contains(identity_json(e), json_field("contract_digest"@, e.contract_digest@)),
        contains(
            identity_json(e),
            json_field("reviewed_artifact_manifest_digest"@, e.reviewed_artifact_manifest_digest@),
        ),
        contains(identity_json(e), json_field("critic_id"@, e.critic_id@)),
        contains(identity_json(e), json_field("critic_assignment_id"@, e.critic_assignment_id@)),
{
    let a = json_field("goal_id"@, e.goal_id@);
    let b = json_field("verification_round_id"@, e.verification_round_id@);
    let c = json_field("contract_digest"@, e.contract_digest@);
    let d = json_field("reviewed_artifact_manifest_digest"@, e.reviewed_artifact_manifest_digest@);
    let f = json_field("critic_id"@, e.critic_id@);
    let g = json_field("critic_assignment_id"@, e.critic_assignment_id@);
    let q1 = "{\n"@ + a;
    let q2 = q1 + ",\n"@ + b;
    let q3 = q2 + ",\n"@ + c;
    let q4 = q3 + ",\n"@ + d;
    let q5 = q4 + ",\n"@ + f;
    let q6 = q5 + ",\n"@ + g;
    assert(identity_json(e) == q6 + "\n}"@);
    assert(q6 + "\n}"@ + Seq::<char>::empty() =~= q6 + "\n}"@);
    assert(q1 =~= "{\n"@ + a + seq![]);
    lemma_contains_itself("{\n"@, a, seq![]);
    assert(q2 =~= (q1 + ",\n"@) + b + seq![]);
    lemma_contains_itself(q1 + ",\n"@, b, seq![]);
    assert(q3 =~= (q2 + ",\n"@) + c + seq![]);
    lemma_contains_itself(q2 + ",\n"@, c, seq![]);
    assert(q4 =~= (q3 + ",\n"@) + d + seq![]);
    lemma_contains_itself(q3 + ",\n"@, d, seq![]);
    assert(q5 =~= (q4 + ",\n"@) + f + seq![]);
    lemma_contains_itself(q4 + ",\n"@, f, seq![]);
    assert(q6 =~= (q5 + ",\n"@) + g + seq![]);
    lemma_contains_itself(q5 + ",\n"@, g, seq![]);
    lemma_contains_grows(q1, ",\n"@, b, a);
    lemma_contains_grows(q2, ",\n"@, c, a);
    lemma_contains_grows(q3, ",\n"@, d, a);
    lemma_contains_grows(q4, ",\n"@, f, a);
    lemma_contains_grows(q5, ",\n"@, g, a);
    lemma_contains_grows(q6, "\n}"@, seq![], a);
    lemma_contains_grows(q2, ",\n"@, c, b);
    lemma_contains_grows(q3, ",\n"@, d, b);
    lemma_contains_grows(q4, ",\n"@, f, b);
    lemma_contains_grows(q5, ",\n"@, g, b);
    lemma_contains_grows(q6, "\n}"@, seq![], b);
    lemma_contains_grows(q3, ",\n"@, d, c);
    lemma_contains_grows(q4, ",\n"@, f, c);
    lemma_contains_grows(q5, ",\n"@, g, c);
    lemma_contains_grows(q6, "\n}"@, seq![], c);
    lemma_contains_grows(q4, ",\n"@, f, d);
    lemma_contains_grows(q5, ",\n"@, g, d);
    lemma_contains_grows(q6, "\n}"@, seq![], d);
    lemma_contains_grows(q5, ",\n"@, g, f);
    lemma_contains_grows(q6, "\n}"@, seq![], f);
    lemma_contains_grows(q6, "\n}"@, seq![], g);
}

proof fn lemma_found_first(s: Seq<char>, p: Seq<char>, i: int, at: int)
    requires
        0 <= i <= at <= s.len(),
        matches_at(s, p, at),
        forall|k: int| i <= k < at ==> !#[trigger] matches_at(s, p, k),
    ensures
        find_from(s, p, i) == Some(at),
    decreases at - i,
{
    if i < at {
        assert(!matches_at(s, p, i));
        lemma_found_first(s, p, i + 1, at);
    }
}

/// A path that stands in a prompt between a heading and a backtick is read back,
/// where the heading does not stand before.
pub proof fn law_path_is_read_back_from_the_prompt(
    before: Seq<char>,
    heading: Seq<char>,
    path: Seq<char>,
    rest: Seq<char>,
)
    requires
        forall|k: int|
            0 <= k < before.len() ==> !#[trigger] matches_at(
                before + heading + path + "`"@ + rest,
                heading,
                k,
            ),
        !has_char(path, '`'),
        trim(path).len() > 0,
    ensures
        backticked_path(before + heading + path + "`"@ + rest, heading) == Some(path),
{
    let s = before + heading + path + "`"@ + rest;
    let i = before.len() as int;
    assert(s.subrange(i, i + heading.len()) =~= heading);
    lemma_found_first(s, heading, 0, i);
    let start = i + heading.len();
    let end = start + path.len();
    reveal_strlit("`");
    assert("`"@.len() == 1 && "`"@[0] == '`');
    assert(s[end] == '`');
    assert(s.subrange(end, end + 1) =~= "`"@);
    assert forall|k: int| start <= k < end implies !#[trigger] matches_at(s, "`"@, k) by {
        if matches_at(s, "`"@, k) {
            assert(s.subrange(k, k + 1)[0] == '`');
            assert(path[k - start] == '`');
        }
    }
    lemma_found_first(s, "`"@, start, end);
    assert(s.subrange(start, end) =~= path);
}

proof fn lemma_no_tool_from(t: RoleToolNames, s: Seq<char>, i: int)
    requires
        0 <= i <= s.len(),
        forall|k: int| i <= k < s.len() ==> #[trigger] s[k] != '{',
    ensures
        with_tools_from(t, s, i) == s.skip(i),
    decreases s.len() - i,
{
    if i < s.len() {
        lemma_no_tool_at(t, s, i);
        lemma_no_tool_from(t, s, i + 1);
        assert(seq![s[i]] + s.skip(i + 1) =~= s.skip(i));
    } else {
        assert(s.skip(i) =~= seq![]);
    }
}

proof fn lemma_no_tool_at(t: RoleToolNames, s: Seq<char>, i: int)
    requires
        0 <= i < s.len(),
        s[i] != '{',
    ensures
        tool_at(t, s, i) is None,
{
    reveal_strlit("{READ_TOOL}");
    assert("{READ_TOOL}"@[0] == '{');
    if matches_at(s, "{READ_TOOL}"@, i) {
        assert(s.subrange(i, i + "{READ_TOOL}"@.len())[0] == '{');
    }
    reveal_strlit("{LIST_TOOL}");
    assert("{LIST_TOOL}"@[0] == '{');
    if matches_at(s, "{LIST_TOOL}"@, i) {
        assert(s.subrange(i, i + "{LIST_TOOL}"@.len())[0] == '{');
    }
    reveal_strlit("{SEARCH_TOOL}");
    assert("{SEARCH_TOOL}"@[0] == '{');
    if matches_at(s, "{SEARCH_TOOL}"@, i) {
        assert(s.subrange(i, i + "{SEARCH_TOOL}"@.len())[0] == '{');
    }
    reveal_strlit("{WRITE_TOOL}");
    assert("{WRITE_TOOL}"@[0] == '{');
    if matches_at(s, "{WRITE_TOOL}"@, i) {
        assert(s.subrange(i, i + "{WRITE_TOOL}"@.len())[0] == '{');
    }
    reveal_strlit("{EXECUTE_TOOL}");
    assert("{EXECUTE_TOOL}"@[0] == '{');
    if matches_at(s, "{EXECUTE_TOOL}"@, i) {
        assert(s.subrange(i, i + "{EXECUTE_TOOL}"@.len())[0] == '{');
    }
    reveal_strlit("{TOOLSET_TOOLS}");
    assert("{TOOLSET_TOOLS}"@[0] == '{');
    if matches_at(s, "{TOOLSET_TOOLS}"@, i) {
        assert(s.subrange(i, i + "{TOOLSET_TOOLS}"@.len())[0] == '{');
    }
}

proof fn lemma_tool_tail(
    t: RoleToolNames,
    a: Seq<char>,
    slot: Seq<char>,
    b: Seq<char>,
    name: Seq<char>,
    i: int,
)
    requires
        0 <= i <= a.len(),
        !has_char(a, '{'),
        !has_char(b, '{'),
        slot.len() > 0,
        tool_at(t, a + slot + b, a.len() as int) == Some((slot.len(), name)),
    ensures
        with_tools_from(t, a + slot + b, i) == a.skip(i) + name + b,
    decreases a.len() - i,
{
    let s = a + slot + b;
    if i < a.len() {
        assert(s[i] == a[i]);
        assert(a[i] != '{');
        lemma_no_tool_at(t, s, i);
        lemma_tool_tail(t, a, slot, b, name, i + 1);
        assert(seq![s[i]] + (a.skip(i + 1) + name + b) =~= a.skip(i) + name + b);
    } else {
        let rest = a.len() + slot.len();
        assert forall|k: int| rest <= k < s.len() implies #[trigger] s[k] != '{' by {
            assert(s[k] == b[k - rest]);
        }
        lemma_no_tool_from(t, s, rest as int);
        assert(s.skip(rest as int) =~= b);
        assert(name + b =~= a.skip(i) + name + b);
    }
}

/// Each placeholder of a tool is filled with the name that the tool goes by in the
/// role, and what stands around it stays.
pub proof fn law_tools_go_by_the_names_of_the_role(t: RoleToolNames, a: Seq<char>, b: Seq<char>)
    requires
        !has_char(a, '{'),
        !has_char(b, '{'),
    ensures
        with_tools_from(t, a + "{READ_TOOL}"@ + b, 0) == a + t.read_tool@ + b,
        with_tools_from(t, a + "{LIST_TOOL}"@ + b, 0) == a + t.list_tool@ + b,
        with_tools_from(t, a + "{SEARCH_TOOL}"@ + b, 0) == a + t.search_tool@ + b,
        with_tools_from(t, a + "{WRITE_TOOL}"@ + b, 0) == a + t.write_tool@ + b,
        with_tools_from(t, a + "{EXECUTE_TOOL}"@ + b, 0) == a + t.execute_tool@ + b,
        with_tools_from(t, a + "{TOOLSET_TOOLS}"@ + b, 0) == a + t.toolset_tools@ + b,
{
    reveal_strlit("{READ_TOOL}");
    reveal_strlit("{LIST_TOOL}");
    reveal_strlit("{SEARCH_TOOL}");
    reveal_strlit("{WRITE_TOOL}");
    reveal_strlit("{EXECUTE_TOOL}");
    reveal_strlit("{TOOLSET_TOOLS}");
    assert(a.skip(0) =~= a);
    lemma_placeholders();
    let s0 = a + "{READ_TOOL}"@ + b;
    let n: int = a.len() as int;
    assert(s0.subrange(n, n + "{READ_TOOL}"@.len()) =~= "{READ_TOOL}"@);
    lemma_tool_tail(t, a, "{READ_TOOL}"@, b, t.read_tool@, 0);
    let s1 = a + "{LIST_TOOL}"@ + b;
    assert(s1.subrange(n, n + "{LIST_TOOL}"@.len()) =~= "{LIST_TOOL}"@);
    assert(!matches_at(s1, "{READ_TOOL}"@, n)) by {
        assert(s1[n + 1] == "{LIST_TOOL}"@[1]);
        if matches_at(s1, "{READ_TOOL}"@, n) {
            assert(s1.subrange(n, n + "{READ_TOOL}"@.len())[1] == "{READ_TOOL}"@[1]);
        }
    }
    lemma_tool_tail(t, a, "{LIST_TOOL}"@, b, t.list_tool@, 0);
    let s2 = a + "{SEARCH_TOOL}"@ + b;
    assert(s2.subrange(n, n + "{SEARCH_TOOL}"@.len()) =~= "{SEARCH_TOOL}"@);
    assert(!matches_at(s2, "{READ_TOOL}"@, n)) by {
        assert(s2[n + 1] == "{SEARCH_TOOL}"@[1]);
        if matches_at(s2, "{READ_TOOL}"@, n) {
            assert(s2.subrange(n, n + "{READ_TOOL}"@.len())[1] == "{READ_TOOL}"@[1]);
        }
    }
    assert(!matches_at(s2, "{LIST_TOOL}"@, n)) by {
        assert(s2[n + 1] == "{SEARCH_TOOL}"@[1]);
        if matches_at(s2, "{LIST_TOOL}"@, n) {
            assert(s2.subrange(n, n + "{LIST_TOOL}"@.len())[1] == "{LIST_TOOL}"@[1]);
        }
    }
    lemma_tool_tail(t, a, "{SEARCH_TOOL}"@, b, t.search_tool@, 0);
    let s3 = a + "{WRITE_TOOL}"@ + b;
    assert(s3.subrange(n, n + "{WRITE_TOOL}"@.len()) =~= "{WRITE_TOOL}"@);
    assert(!matches_at(s3, "{READ_TOOL}"@, n)) by {
        assert(s3[n + 1] == "{WRITE_TOOL}"@[1]);
        if matches_at(s3, "{READ_TOOL}"@, n) {
            assert(s3.subrange(n, n + "{READ_TOOL}"@.len())[1] == "{READ_TOOL}"@[1]);
        }
    }
    assert(!matches_at(s3, "{LIST_TOOL}"@, n)) by {
        assert(s3[n + 1] == "{WRITE_TOOL}"@[1]);
        if matches_at(s3, "{LIST_TOOL}"@, n) {
            assert(s3.subrange(n, n + "{LIST_TOOL}"@.len())[1] == "{LIST_TOOL}"@[1]);
        }
    }
    assert(!matches_at(s3, "{SEARCH_TOOL}"@, n)) by {
        assert(s3[n + 1] == "{WRITE_TOOL}"@[1]);
        if matches_at(s3, "{SEARCH_TOOL}"@, n) {
            assert(s3.subrange(n, n + "{SEARCH_TOOL}"@.len())[1] == "{SEARCH_TOOL}"@[1]);
        }
    }
    lemma_tool_tail(t, a, "{WRITE_TOOL}"@, b, t.write_tool@, 0);
    let s4 = a + "{EXECUTE_TOOL}"@ + b;
    assert(s4.subrange(n, n + "{EXECUTE_TOOL}"@.len()) =~= "{EXECUTE_TOOL}"@);
    assert(!matches_at(s4, "{READ_TOOL}"@, n)) by {
        assert(s4[n + 1] == "{EXECUTE_TOOL}"@[1]);
        if matches_at(s4, "{READ_TOOL}"@, n) {
            assert(s4.subrange(n, n + "{READ_TOOL}"@.len())[1] == "{READ_TOOL}"@[1]);
        }
    }
    assert(!matches_at(s4, "{LIST_TOOL}"@, n)) by {
        assert(s4[n + 1] == "{EXECUTE_TOOL}"@[1]);
        if matches_at(s4, "{LIST_TOOL}"@, n) {
            assert(s4.subrange(n, n + "{LIST_TOOL}"@.len())[1] == "{LIST_TOOL}"@[1]);
        }
    }
    assert(!matches_at(s4, "{SEARCH_TOOL}"@, n)) by {
        assert(s4[n + 1] == "{EXECUTE_TOOL}"@[1]);
        if matches_at(s4, "{SEARCH_TOOL}"@, n) {
            assert(s4.subrange(n, n + "{SEARCH_TOOL}"@.len())[1] == "{SEARCH_TOOL}"@[1]);
        }
    }
    assert(!matches_at(s4, "{WRITE_TOOL}"@, n)) by {
        assert(s4[n + 1] == "{EXECUTE_TOOL}"@[1]);
        if matches_at(s4, "{WRITE_TOOL}"@, n) {
            assert(s4.subrange(n, n + "{WRITE_TOOL}"@.len())[1] == "{WRITE_TOOL}"@[1]);
        }
    }
    lemma_tool_tail(t, a, "{EXECUTE_TOOL}"@, b, t.execute_tool@, 0);
    let s5 = a + "{TOOLSET_TOOLS}"@ + b;
    assert(s5.subrange(n, n + "{TOOLSET_TOOLS}"@.len()) =~= "{TOOLSET_TOOLS}"@);
    assert(!matches_at(s5, "{READ_TOOL}"@, n)) by {
        assert(s5[n + 1] == "{TOOLSET_TOOLS}"@[1]);
        if matches_at(s5, "{READ_TOOL}"@, n) {
            assert(s5.subrange(n, n + "{READ_TOOL}"@.len())[1] == "{READ_TOOL}"@[1]);
        }
    }
    assert(!matches_at(s5, "{LIST_TOOL}"@, n)) by {
        assert(s5[n + 1] == "{TOOLSET_TOOLS}"@[1]);
        if matches_at(s5, "{LIST_TOOL}"@, n) {
            assert(s5.subrange(n, n + "{LIST_TOOL}"@.len())[1] == "{LIST_TOOL}"@[1]);
        }
    }
    assert(!matches_at(s5, "{SEARCH_TOOL}"@, n)) by {
        assert(s5[n + 1] == "{TOOLSET_TOOLS}"@[1]);
        if matches_at(s5, "{SEARCH_TOOL}"@, n) {
            assert(s5.subrange(n, n + "{SEARCH_TOOL}"@.len())[1] == "{SEARCH_TOOL}"@[1]);
        }
    }
    assert(!matches_at(s5, "{WRITE_TOOL}"@, n)) by {
        assert(s5[n + 1] == "{TOOLSET_TOOLS}"@[1]);
        if matches_at(s5, "{WRITE_TOOL}"@, n) {
            assert(s5.subrange(n, n + "{WRITE_TOOL}"@.len())[1] == "{WRITE_TOOL}"@[1]);
        }
    }
    assert(!matches_at(s5, "{EXECUTE_TOOL}"@, n)) by {
        assert(s5[n + 1] == "{TOOLSET_TOOLS}"@[1]);
        if matches_at(s5, "{EXECUTE_TOOL}"@, n) {
            assert(s5.subrange(n, n + "{EXECUTE_TOOL}"@.len())[1] == "{EXECUTE_TOOL}"@[1]);
        }
    }
    lemma_tool_tail(t, a, "{TOOLSET_TOOLS}"@, b, t.toolset_tools@, 0);
}

} // verus!
