//! File paths as texts, read as a Unix system reads them.

use vstd::prelude::*;

use crate::text::{
    append, cat3, cat5, chars_of, contains, contains_str, copy_of, decimal, decimal_string,
    has_char, has_char_of, is_text, lemma_decimal_injective, lemma_split_some, lemma_texts_push,
    matches_at, replace, replace_of, same, slice_of, split, split_from, split_of, starts_with,
    starts_with_str, string_of, texts, CharClass,
};

verus! {

// ---------------------------------------------------------------------------
// Components

/// Whether a component adds nothing to a path.
pub open spec fn is_idle_component(part: Seq<char>) -> bool {
    part.len() == 0 || part == "."@
}

/// The last of the first `n` components that adds something.
pub open spec fn last_component(parts: Seq<Seq<char>>, n: int) -> Option<Seq<char>>
    decreases n,
{
    if n <= 0 {
        None
    } else if is_idle_component(parts[n - 1]) {
        last_component(parts, n - 1)
    } else {
        Some(parts[n - 1])
    }
}

/// `Path::file_name`.
pub open spec fn file_name(path: Seq<char>) -> Option<Seq<char>> {
    let parts = split(path, CharClass::Only('/'));
    match last_component(parts, parts.len() as int) {
        Some(name) => if name == ".."@ {
            None
        } else {
            Some(name)
        },
        None => None,
    }
}

/// The position behind the last `.` of `name` up to `i`; 0 where there is none.
pub open spec fn after_last_dot(name: Seq<char>, i: int) -> int
    decreases i,
{
    if i <= 0 {
        0
    } else if name[i - 1] == '.' {
        i
    } else {
        after_last_dot(name, i - 1)
    }
}

/// `Path::extension`: what follows the last `.` of the file name, where that
/// `.` is not its first character.
pub open spec fn extension(path: Seq<char>) -> Option<Seq<char>> {
    match file_name(path) {
        Some(name) => {
            let dot = after_last_dot(name, name.len() as int);
            if dot <= 1 {
                None
            } else {
                Some(name.skip(dot))
            }
        },
        None => None,
    }
}

fn file_name_of(path: &Vec<char>) -> (r: Option<Vec<char>>)
    ensures
        match file_name(path@) {
            Some(name) => r is Some && r->0@ == name,
            None => r is None,
        },
{
    let parts = split_of(path, CharClass::Only('/'));
    let ghost ps = split(path@, CharClass::Only('/'));
    let mut n: usize = parts.len();
    while n > 0
        invariant
            n <= parts@.len(),
            ps == texts(parts@),
            ps == split(path@, CharClass::Only('/')),
            last_component(ps, ps.len() as int) == last_component(ps, n as int),
        decreases n,
    {
        proof {
            assert(ps[n - 1] == parts@[n - 1]@);
        }
        let part = &parts[n - 1];
        if part.len() > 0 && !is_text(part, ".") {
            if is_text(part, "..") {
                return None;
            }
            return Some(slice_of(part, 0, part.len()));
        }
        n -= 1;
    }
    None
}

pub fn extension_of(path: &Vec<char>) -> (r: Option<Vec<char>>)
    ensures
        match extension(path@) {
            Some(ext) => r is Some && r->0@ == ext,
            None => r is None,
        },
{
    match file_name_of(path) {
        Some(name) => {
            let mut dot: usize = name.len();
            while dot > 0 && name[dot - 1] != '.'
                invariant
                    dot <= name@.len(),
                    after_last_dot(name@, name@.len() as int) == after_last_dot(name@, dot as int),
                decreases dot,
            {
                dot -= 1;
            }
            proof {
                assert(after_last_dot(name@, name@.len() as int) == dot);
            }
            if dot <= 1 {
                None
            } else {
                proof {
                    assert(name@.subrange(dot as int, name@.len() as int) =~= name@.skip(
                        dot as int,
                    ));
                }
                Some(slice_of(&name, dot, name.len()))
            }
        },
        None => None,
    }
}

/// Those of the first `n` parts that add something to a path.
pub open spec fn busy_parts(parts: Seq<Seq<char>>, n: int) -> Seq<Seq<char>>
    decreases n,
{
    if n <= 0 {
        seq![]
    } else if is_idle_component(parts[n - 1]) {
        busy_parts(parts, n - 1)
    } else {
        busy_parts(parts, n - 1).push(parts[n - 1])
    }
}

/// `Path::components`: the root or a leading `.`, and then the parts that add
/// something.
pub open spec fn components(path: Seq<char>) -> Seq<Seq<char>> {
    let parts = split(path, CharClass::Only('/'));
    let rest = busy_parts(parts, parts.len() as int);
    if path.len() > 0 && path[0] == '/' {
        seq!["/"@] + rest
    } else if parts.len() > 0 && parts[0] == "."@ {
        seq!["."@] + rest
    } else {
        rest
    }
}

/// `Path::starts_with`: whether `path` is `root` or lies below it.
pub open spec fn is_within(path: Seq<char>, root: Seq<char>) -> bool {
    components(root).len() <= components(path).len() && components(path).take(
        components(root).len() as int,
    ) == components(root)
}

fn components_of(path: &Vec<char>) -> (r: Vec<Vec<char>>)
    ensures
        texts(r@) == components(path@),
{
    broadcast use lemma_texts_push;

    let parts = split_of(path, CharClass::Only('/'));
    let ghost ps = split(path@, CharClass::Only('/'));
    let mut out: Vec<Vec<char>> = Vec::new();
    proof {
        assert(texts(out@) =~= seq![]);
        assert(ps.len() == parts@.len());
        if ps.len() > 0 {
            assert(ps[0] == parts@[0]@);
        }
    }
    if path.len() > 0 && path[0] == '/' {
        let root = chars_of("/");
        out.push(root);
    } else if parts.len() > 0 && is_text(&parts[0], ".") {
        let dot = chars_of(".");
        out.push(dot);
    }
    let ghost head = texts(out@);
    let mut n: usize = 0;
    proof {
        assert(head + busy_parts(ps, 0) =~= head);
    }
    while n < parts.len()
        invariant
            n <= parts@.len(),
            ps == texts(parts@),
            texts(out@) == head + busy_parts(ps, n as int),
        decreases parts@.len() - n,
    {
        proof {
            assert(ps[n as int] == parts@[n as int]@);
        }
        if parts[n].len() > 0 && !is_text(&parts[n], ".") {
            let part = copy_of(&parts[n]);
            proof {
                let before = busy_parts(ps, n as int);
                assert((head + before).push(part@) =~= head + before.push(part@));
            }
            out.push(part);
        }
        n += 1;
    }
    proof {
        let rest = busy_parts(ps, ps.len() as int);
        if path@.len() > 0 && path@[0] == '/' {
            assert(head =~= seq!["/"@]);
        } else if ps.len() > 0 && ps[0] == "."@ {
            assert(head =~= seq!["."@]);
        } else {
            assert(head + rest =~= rest);
        }
    }
    out
}

pub fn path_is_within(path: &str, root: &str) -> (r: bool)
    ensures
        r == is_within(path@, root@),
{
    let pv = chars_of(path);
    let rv = chars_of(root);
    let p = components_of(&pv);
    let q = components_of(&rv);
    let ghost ps = components(path@);
    let ghost qs = components(root@);
    proof {
        assert(ps.len() == p@.len());
        assert(qs.len() == q@.len());
    }
    if q.len() > p.len() {
        return false;
    }
    let mut i: usize = 0;
    while i < q.len()
        invariant
            i <= q@.len() <= p@.len(),
            ps == texts(p@),
            qs == texts(q@),
            ps == components(path@),
            qs == components(root@),
            forall|k: int| 0 <= k < i ==> ps[k] == qs[k],
        decreases q@.len() - i,
    {
        proof {
            assert(ps[i as int] == p@[i as int]@);
            assert(qs[i as int] == q@[i as int]@);
        }
        if !same(&p[i], &q[i]) {
            proof {
                assert(ps.take(qs.len() as int)[i as int] != qs[i as int]);
            }
            return false;
        }
        i += 1;
    }
    proof {
        assert(ps.take(qs.len() as int) =~= qs);
    }
    true
}

/// `Path::join`: an absolute name stands for itself.
pub open spec fn join_path(base: Seq<char>, name: Seq<char>) -> Seq<char> {
    if starts_with(name, "/"@) {
        name
    } else if base.len() == 0 || base.last() == '/' {
        base + name
    } else {
        base + "/"@ + name
    }
}

pub fn path_join(base: &str, name: &str) -> (r: String)
    ensures
        r@ == join_path(base@, name@),
{
    let b = chars_of(base);
    let n = chars_of(name);
    if starts_with_str(&n, "/") {
        return string_of(&n);
    }
    if b.len() == 0 || b[b.len() - 1] == '/' {
        let mut out = b;
        append(&mut out, &n);
        string_of(&out)
    } else {
        cat3(base, "/", name)
    }
}

// ---------------------------------------------------------------------------
// Paths of artifacts inside a snapshot

/// A path that could leave the directory it is meant to stay in, or that names
/// nothing in it.
pub open spec fn is_unsafe_relative(path: Seq<char>) -> bool {
    path.len() == 0 || path[0] == '/' || exists|i: int|
        0 <= i < components(path).len() && (#[trigger] components(path)[i] == "."@
            || components(path)[i] == ".."@)
}

/// The path itself where it is unsafe as a path inside a snapshot.
pub fn unsafe_relative(path: &str) -> (r: bool)
    ensures
        r == is_unsafe_relative(path@),
{
    let v = chars_of(path);
    if v.len() == 0 || v[0] == '/' {
        return true;
    }
    let parts = components_of(&v);
    let ghost ps = components(path@);
    let mut i: usize = 0;
    while i < parts.len()
        invariant
            i <= parts@.len(),
            ps == texts(parts@),
            ps == components(path@),
            forall|k: int| 0 <= k < i ==> #[trigger] ps[k] != "."@ && ps[k] != ".."@,
        decreases parts@.len() - i,
    {
        proof {
            assert(ps[i as int] == parts@[i as int]@);
        }
        if is_text(&parts[i], ".") || is_text(&parts[i], "..") {
            return true;
        }
        i += 1;
    }
    proof {
        assert(ps.len() == parts@.len());
    }
    false
}

pub fn validate_relative_path(path: &str) -> (r: Result<(), String>)
    ensures
        r is Err <==> is_unsafe_relative(path@),
        r is Err ==> r->Err_0@ == "unsafe artifact path "@ + path@,
{
    if unsafe_relative(path) {
        Err(crate::text::cat2("unsafe artifact path ", path))
    } else {
        Ok(())
    }
}

// ---------------------------------------------------------------------------
// Paths of verification artifacts

pub const GOAL_CLASSIFIER_DETAILS_PATH_TEMPLATE: &'static str =
    "goal-classifier-{verifier_id}-{attempt}.md";

pub const GOAL_CLASSIFIER_CHANGES_PATH_TEMPLATE: &'static str =
    "goal-classifier-{verifier_id}-{attempt}.patch";

pub const GOAL_VERIFIER_VERDICT_PATH_TEMPLATE: &'static str =
    "goal-verdict-{verifier_id}-{attempt}-{skeptic_idx}.json";

pub const GOAL_VERIFIER_DETAILS_PATH_TEMPLATE: &'static str =
    "goal-classifier-{verifier_id}-{attempt}-skeptic-{skeptic_idx}.md";

/// A template with the verifier and the attempt filled in.
pub open spec fn fill_attempt(template: Seq<char>, verifier_id: Seq<char>, attempt: nat) -> Seq<
    char,
> {
    replace(replace(template, "{verifier_id}"@, verifier_id), "{attempt}"@, decimal(attempt))
}

/// A template with the skeptic's index filled in as well.
pub open spec fn fill_skeptic(
    template: Seq<char>,
    verifier_id: Seq<char>,
    attempt: nat,
    skeptic_idx: nat,
) -> Seq<char> {
    replace(
        fill_attempt(template, verifier_id, attempt),
        "{skeptic_idx}"@,
        decimal(skeptic_idx),
    )
}

fn fill_attempt_of(template: &str, verifier_id: &str, attempt: u32) -> (r: Vec<char>)
    ensures
        r@ == fill_attempt(template@, verifier_id@, attempt as nat),
{
    proof {
        reveal_strlit("{verifier_id}");
        reveal_strlit("{attempt}");
    }
    let v = chars_of(template);
    let one = replace_of(&v, "{verifier_id}", verifier_id);
    let n = decimal_string(attempt as u128);
    replace_of(&one, "{attempt}", n.as_str())
}

fn fill_skeptic_of(template: &str, verifier_id: &str, attempt: u32, skeptic_idx: u32) -> (r: String)
    ensures
        r@ == fill_skeptic(template@, verifier_id@, attempt as nat, skeptic_idx as nat),
{
    proof {
        reveal_strlit("{skeptic_idx}");
    }
    let v = fill_attempt_of(template, verifier_id, attempt);
    let n = decimal_string(skeptic_idx as u128);
    let out = replace_of(&v, "{skeptic_idx}", n.as_str());
    string_of(&out)
}

/// Roots a file name under the private scratch directory of a goal.
pub fn scratch_rooted(scratch_root: &str, file_name: &str) -> (r: String)
    ensures
        r@ == join_path(scratch_root@, file_name@),
{
    path_join(scratch_root, file_name)
}

/// The details file of one attempt, under the goal's scratch root.
pub fn format_details_path(scratch_root: &str, verifier_id: &str, attempt: u32) -> (r: String)
    ensures
        r@ == join_path(
            scratch_root@,
            fill_attempt(GOAL_CLASSIFIER_DETAILS_PATH_TEMPLATE@, verifier_id@, attempt as nat),
        ),
{
    let name = string_of(
        &fill_attempt_of(GOAL_CLASSIFIER_DETAILS_PATH_TEMPLATE, verifier_id, attempt),
    );
    scratch_rooted(scratch_root, name.as_str())
}

/// The patch file of one attempt, under the goal's scratch root.
pub fn format_changes_path(scratch_root: &str, verifier_id: &str, attempt: u32) -> (r: String)
    ensures
        r@ == join_path(
            scratch_root@,
            fill_attempt(GOAL_CLASSIFIER_CHANGES_PATH_TEMPLATE@, verifier_id@, attempt as nat),
        ),
{
    let name = string_of(
        &fill_attempt_of(GOAL_CLASSIFIER_CHANGES_PATH_TEMPLATE, verifier_id, attempt),
    );
    scratch_rooted(scratch_root, name.as_str())
}

/// The verdict file of one skeptic in one attempt.
pub fn format_verdict_path(
    scratch_root: &str,
    verifier_id: &str,
    attempt: u32,
    skeptic_idx: u32,
) -> (r: String)
    ensures
        r@ == join_path(
            scratch_root@,
            fill_skeptic(
                GOAL_VERIFIER_VERDICT_PATH_TEMPLATE@,
                verifier_id@,
                attempt as nat,
                skeptic_idx as nat,
            ),
        ),
{
    let name = fill_skeptic_of(
        GOAL_VERIFIER_VERDICT_PATH_TEMPLATE,
        verifier_id,
        attempt,
        skeptic_idx,
    );
    scratch_rooted(scratch_root, name.as_str())
}

/// The details file of one skeptic in one attempt.
pub fn format_verifier_details_path(
    scratch_root: &str,
    verifier_id: &str,
    attempt: u32,
    skeptic_idx: u32,
) -> (r: String)
    ensures
        r@ == join_path(
            scratch_root@,
            fill_skeptic(
                GOAL_VERIFIER_DETAILS_PATH_TEMPLATE@,
                verifier_id@,
                attempt as nat,
                skeptic_idx as nat,
            ),
        ),
{
    let name = fill_skeptic_of(
        GOAL_VERIFIER_DETAILS_PATH_TEMPLATE,
        verifier_id,
        attempt,
        skeptic_idx,
    );
    scratch_rooted(scratch_root, name.as_str())
}

/// The aggregate details file of one verification round. Attempt counters
/// start again on resume, so the round identifies the file.
pub fn format_round_panel_details_path(scratch_root: &str, verifier_id: &str, round_id: &str) -> (r:
    String)
    ensures
        r@ == join_path(
            scratch_root@,
            "goal-classifier-"@ + verifier_id@ + "-"@ + round_id@ + ".md"@,
        ),
{
    let name = cat5("goal-classifier-", verifier_id, "-", round_id, ".md");
    scratch_rooted(scratch_root, name.as_str())
}

/// The directory of one critic in one round.
pub open spec fn critic_dir(scratch_root: Seq<char>, round_id: Seq<char>, skeptic_idx: nat) -> Seq<
    char,
> {
    join_path(
        join_path(join_path(scratch_root, "verification-rounds"@), round_id),
        "critic-"@ + decimal(skeptic_idx),
    )
}

pub fn round_critic_dir(scratch_root: &str, round_id: &str, skeptic_idx: u32) -> (r: String)
    ensures
        r@ == critic_dir(scratch_root@, round_id@, skeptic_idx as nat),
{
    let rounds = path_join(scratch_root, "verification-rounds");
    let round = path_join(rounds.as_str(), round_id);
    let n = decimal_string(skeptic_idx as u128);
    let name = crate::text::cat2("critic-", n.as_str());
    path_join(round.as_str(), name.as_str())
}

/// No two critics of a round share a directory, and none has that of the review.
pub proof fn law_critics_write_apart(
    scratch_root: Seq<char>,
    round_id: Seq<char>,
    first: nat,
    second: nat,
)
    requires
        first != second,
    ensures
        critic_dir(scratch_root, round_id, first) != critic_dir(scratch_root, round_id, second),
        critic_dir(scratch_root, round_id, first) != review_dir(scratch_root, round_id),
{
    reveal_strlit("/");
    reveal_strlit("critic-");
    reveal_strlit("review");
    let round = join_path(join_path(scratch_root, "verification-rounds"@), round_id);
    let a = "critic-"@ + decimal(first);
    let b = "critic-"@ + decimal(second);
    let c = "review"@;
    assert(a[0] == 'c' && b[0] == 'c' && c[0] == 'r');
    assert(a.subrange(0, 1)[0] == 'c');
    assert(b.subrange(0, 1)[0] == 'c');
    assert(c.subrange(0, 1)[0] == 'r');
    let head = if round.len() == 0 || round.last() == '/' {
        round
    } else {
        round + "/"@
    };
    assert(join_path(round, a) == head + a);
    assert(join_path(round, b) == head + b);
    assert(join_path(round, c) == head + c);
    if head + a == head + b {
        assert(decimal(first) =~= decimal(second)) by {
            assert forall|i: int| 0 <= i < decimal(first).len() implies decimal(first)[i]
                == decimal(second)[i] by {
                assert((head + a)[head.len() + 7 + i] == decimal(first)[i]);
                assert((head + b)[head.len() + 7 + i] == decimal(second)[i]);
            }
        }
        lemma_decimal_injective(first, second);
    }
    if head + a == head + c {
        assert((head + a)[head.len() as int] == 'c');
        assert((head + c)[head.len() as int] == 'r');
    }
}

/// The directory that a round is reviewed in.
pub open spec fn review_dir(scratch_root: Seq<char>, round_id: Seq<char>) -> Seq<char> {
    join_path(join_path(join_path(scratch_root, "verification-rounds"@), round_id), "review"@)
}

pub fn round_review_dir(scratch_root: &str, round_id: &str) -> (r: String)
    ensures
        r@ == review_dir(scratch_root@, round_id@),
{
    let rounds = path_join(scratch_root, "verification-rounds");
    let round = path_join(rounds.as_str(), round_id);
    path_join(round.as_str(), "review")
}

/// No two rounds are reviewed in one directory.
pub proof fn law_rounds_are_reviewed_apart(
    scratch_root: Seq<char>,
    first: Seq<char>,
    second: Seq<char>,
)
    requires
        first.len() > 0 && !has_char(first, '/'),
        second.len() > 0 && !has_char(second, '/'),
        first != second,
    ensures
        review_dir(scratch_root, first) != review_dir(scratch_root, second),
{
    reveal_strlit("/");
    reveal_strlit("verification-rounds");
    reveal_strlit("review");
    let rounds = join_path(scratch_root, "verification-rounds"@);
    assert(rounds.last() == 's');
    assert(first[0] != '/' && first.last() != '/');
    assert(second[0] != '/' && second.last() != '/');
    assert(first.subrange(0, 1)[0] == first[0]);
    assert(second.subrange(0, 1)[0] == second[0]);
    assert(join_path(rounds, first) == rounds + "/"@ + first);
    assert(join_path(rounds, second) == rounds + "/"@ + second);
    assert("review"@.subrange(0, 1)[0] == 'r');
    let a = review_dir(scratch_root, first);
    let b = review_dir(scratch_root, second);
    assert(a == rounds + "/"@ + first + "/"@ + "review"@);
    assert(b == rounds + "/"@ + second + "/"@ + "review"@);
    if a == b {
        assert(first.len() == second.len());
        assert forall|i: int| 0 <= i < first.len() implies first[i] == second[i] by {
            assert(a[rounds.len() + 1 + i] == first[i]);
            assert(b[rounds.len() + 1 + i] == second[i]);
        }
        assert(first =~= second);
    }
}

pub fn format_round_verdict_path(scratch_root: &str, round_id: &str, skeptic_idx: u32) -> (r:
    String)
    ensures
        r@ == join_path(critic_dir(scratch_root@, round_id@, skeptic_idx as nat), "verdict.json"@),
{
    let dir = round_critic_dir(scratch_root, round_id, skeptic_idx);
    path_join(dir.as_str(), "verdict.json")
}

pub fn format_round_details_path(scratch_root: &str, round_id: &str, skeptic_idx: u32) -> (r:
    String)
    ensures
        r@ == join_path(critic_dir(scratch_root@, round_id@, skeptic_idx as nat), "details.md"@),
{
    let dir = round_critic_dir(scratch_root, round_id, skeptic_idx);
    path_join(dir.as_str(), "details.md")
}

// ---------------------------------------------------------------------------
// Validation

/// Why a path is not accepted for a details file.
#[derive(Clone, Copy, Debug, PartialEq, Eq, Structural)]
pub enum PathValidationError {
    /// Contains `..` or NUL, or begins in a forbidden place.
    UnsafeComponent,
    /// Contains a substitution marker that nothing has filled in.
    UnresolvedSubstitution,
    /// Lies outside the temporary directory.
    OutsideAllowedPrefix,
}

impl PathValidationError {
    pub open spec fn text(self) -> &'static str {
        match self {
            PathValidationError::UnsafeComponent => "path contains an unsafe component",
            PathValidationError::UnresolvedSubstitution => "path contains unresolved substitution",
            PathValidationError::OutsideAllowedPrefix => "path is outside the allowed temp root",
        }
    }

    /// The message to show.
    pub fn message(self) -> (r: &'static str)
        ensures
            r == self.text(),
    {
        match self {
            PathValidationError::UnsafeComponent => "path contains an unsafe component",
            PathValidationError::UnresolvedSubstitution => "path contains unresolved substitution",
            PathValidationError::OutsideAllowedPrefix => "path is outside the allowed temp root",
        }
    }
}

pub open spec fn has_unsafe_component(path: Seq<char>) -> bool {
    contains(path, ".."@) || has_char(path, '\0') || starts_with(path, "/etc"@) || starts_with(
        path,
        "/proc"@,
    ) || starts_with(path, "/sys"@) || starts_with(path, "/dev"@) || starts_with(path, "~"@)
}

pub open spec fn path_fault(path: Seq<char>, temp_root: Seq<char>) -> Option<PathValidationError> {
    if has_unsafe_component(path) {
        Some(PathValidationError::UnsafeComponent)
    } else if has_char(path, '{') || has_char(path, '}') {
        Some(PathValidationError::UnresolvedSubstitution)
    } else if !is_within(path, temp_root) {
        Some(PathValidationError::OutsideAllowedPrefix)
    } else {
        None
    }
}

/// Accepts a details file only where it lies below the temporary directory,
/// with nothing in its path that could lead elsewhere.
pub fn validate_details_path_in_root(path: &str, temp_root: &str) -> (r: Result<
    (),
    PathValidationError,
>)
    ensures
        match path_fault(path@, temp_root@) {
            Some(fault) => r == Err::<(), PathValidationError>(fault),
            None => r == Ok::<(), PathValidationError>(()),
        },
{
    let s = chars_of(path);
    if contains_str(&s, "..") || has_char_of(&s, '\0') {
        return Err(PathValidationError::UnsafeComponent);
    }
    if starts_with_str(&s, "/etc") || starts_with_str(&s, "/proc") || starts_with_str(&s, "/sys")
        || starts_with_str(&s, "/dev") || starts_with_str(&s, "~") {
        return Err(PathValidationError::UnsafeComponent);
    }
    if has_char_of(&s, '{') || has_char_of(&s, '}') {
        return Err(PathValidationError::UnresolvedSubstitution);
    }
    if !path_is_within(path, temp_root) {
        return Err(PathValidationError::OutsideAllowedPrefix);
    }
    Ok(())
}

// ---------------------------------------------------------------------------
// Paths that are safe by construction

proof fn lemma_split_shift(head: Seq<char>, s: Seq<char>, class: CharClass, start: int, i: int)
    requires
        0 <= start <= i <= s.len(),
    ensures
        split_from(head + s, class, head.len() + start, head.len() + i) == split_from(
            s,
            class,
            start,
            i,
        ),
    decreases s.len() - i,
{
    let t = head + s;
    if i >= s.len() {
        assert(t.subrange(head.len() + start, t.len() as int) =~= s.subrange(
            start,
            s.len() as int,
        ));
    } else if class.has(s[i]) {
        assert(t.subrange(head.len() + start, head.len() + i) =~= s.subrange(start, i));
        lemma_split_shift(head, s, class, i + 1, i + 1);
    } else {
        lemma_split_shift(head, s, class, start, i + 1);
    }
}

/// The pieces of two texts with a slash between them are the pieces of both.
proof fn lemma_split_at_slash(a: Seq<char>, b: Seq<char>, start: int, i: int)
    requires
        0 <= start <= i <= a.len(),
    ensures
        split_from(a + seq!['/'] + b, CharClass::Only('/'), start, i) == split_from(
            a,
            CharClass::Only('/'),
            start,
            i,
        ) + split(b, CharClass::Only('/')),
    decreases a.len() - i,
{
    let class = CharClass::Only('/');
    let head = a + seq!['/'];
    let s = head + b;
    let tail = split(b, class);
    if i >= a.len() {
        lemma_split_shift(head, b, class, 0, 0);
        assert(s[i] == '/');
        assert(s.subrange(start, i) =~= a.subrange(start, a.len() as int));
        assert(split_from(s, class, start, i) =~= seq![a.subrange(start, a.len() as int)] + tail);
    } else if class.has(a[i]) {
        lemma_split_at_slash(a, b, i + 1, i + 1);
        assert(s.subrange(start, i) =~= a.subrange(start, i));
        assert(seq![a.subrange(start, i)] + (split_from(a, class, i + 1, i + 1) + tail) =~= seq![
            a.subrange(start, i),
        ] + split_from(a, class, i + 1, i + 1) + tail);
    } else {
        lemma_split_at_slash(a, b, start, i + 1);
    }
}

proof fn lemma_busy_parts_append(a: Seq<Seq<char>>, b: Seq<Seq<char>>, n: int)
    requires
        0 <= n <= b.len(),
    ensures
        busy_parts(a + b, a.len() + n) == busy_parts(a, a.len() as int) + busy_parts(b, n),
    decreases n,
{
    if n == 0 {
        lemma_busy_parts_prefix(a, b, a.len() as int);
        assert(busy_parts(a, a.len() as int) + seq![] =~= busy_parts(a, a.len() as int));
    } else {
        lemma_busy_parts_append(a, b, n - 1);
        assert((a + b)[a.len() + n - 1] == b[n - 1]);
        assert(busy_parts(a, a.len() as int) + busy_parts(b, n - 1).push(b[n - 1]) =~= (busy_parts(
            a,
            a.len() as int,
        ) + busy_parts(b, n - 1)).push(b[n - 1]));
    }
}

proof fn lemma_busy_parts_prefix(a: Seq<Seq<char>>, b: Seq<Seq<char>>, n: int)
    requires
        0 <= n <= a.len(),
    ensures
        busy_parts(a + b, n) == busy_parts(a, n),
    decreases n,
{
    if n > 0 {
        lemma_busy_parts_prefix(a, b, n - 1);
        assert((a + b)[n - 1] == a[n - 1]);
    }
}

/// A file whose name can stand in a directory without leading out of it.
pub open spec fn is_plain_name(name: Seq<char>) -> bool {
    !contains(name, ".."@) && forall|i: int|
        0 <= i < name.len() ==> {
            let c = #[trigger] name[i];
            c != '/' && c != '\0' && c != '{' && c != '}'
        }
}

/// A directory that is accepted itself, and that is neither the root of the file
/// system nor written with a slash at its end.
pub open spec fn is_safe_dir(dir: Seq<char>, temp_root: Seq<char>) -> bool {
    path_fault(dir, temp_root) is None && dir.len() > 0 && dir.last() != '/'
}

proof fn lemma_join_components(dir: Seq<char>, name: Seq<char>)
    requires
        dir.len() > 0,
    ensures
        is_within(dir + seq!['/'] + name, dir),
        components(dir).len() <= components(dir + seq!['/'] + name).len(),
        components(dir + seq!['/'] + name).take(components(dir).len() as int) == components(dir),
{
    let class = CharClass::Only('/');
    let a = split(dir, class);
    let b = split(name, class);
    let path = dir + seq!['/'] + name;
    lemma_split_at_slash(dir, name, 0, 0);
    lemma_split_some(dir, class, 0, 0);
    assert(split(path, class) == a + b);
    lemma_busy_parts_append(a, b, b.len() as int);
    assert((a + b).len() == a.len() + b.len());
    assert((a + b)[0] == a[0]);
    assert(path[0] == dir[0]);
    let da = busy_parts(a, a.len() as int);
    let db = busy_parts(b, b.len() as int);
    if dir[0] == '/' {
        assert(seq!["/"@] + (da + db) =~= seq!["/"@] + da + db);
    } else if a[0] == "."@ {
        assert(seq!["."@] + (da + db) =~= seq!["."@] + da + db);
    }
    assert(components(path) =~= components(dir) + db);
    assert(components(path).take(components(dir).len() as int) =~= components(dir));
}

proof fn lemma_no_new_prefix(dir: Seq<char>, name: Seq<char>, p: Seq<char>)
    requires
        !starts_with(dir, p),
        dir.len() > 0,
        dir.last() != '/',
        forall|i: int| 1 <= i < p.len() ==> p[i] != '/',
    ensures
        !starts_with(dir + seq!['/'] + name, p),
{
    let path = dir + seq!['/'] + name;
    if starts_with(path, p) {
        assert(path.subrange(0, p.len() as int) == p);
        if p.len() <= dir.len() {
            assert(dir.subrange(0, p.len() as int) =~= path.subrange(0, p.len() as int));
        } else {
            let i = dir.len() as int;
            assert(path[i] == '/');
            assert(p[i] == path.subrange(0, p.len() as int)[i]);
        }
    }
}

proof fn lemma_no_new_dots(dir: Seq<char>, name: Seq<char>)
    requires
        !contains(dir, ".."@),
        !contains(name, ".."@),
    ensures
        !contains(dir + seq!['/'] + name, ".."@),
{
    reveal_strlit("..");
    let path = dir + seq!['/'] + name;
    let p = ".."@;
    if contains(path, p) {
        let i = choose|i: int| matches_at(path, p, i);
        assert(path.subrange(i, i + 2)[0] == '.' && path.subrange(i, i + 2)[1] == '.');
        assert(path[i] == '.' && path[i + 1] == '.');
        if i + 2 <= dir.len() {
            assert(dir.subrange(i, i + 2) =~= p);
            assert(matches_at(dir, p, i));
        } else {
            assert(i > dir.len());
            let j = i - dir.len() - 1;
            assert(name.subrange(j, j + 2) =~= p);
            assert(matches_at(name, p, j));
        }
    }
}

/// A plain name in a safe directory is itself a safe path, and a directory of
/// that name is a safe directory.
pub proof fn law_plain_name_in_safe_dir_is_safe(
    dir: Seq<char>,
    name: Seq<char>,
    temp_root: Seq<char>,
)
    requires
        is_safe_dir(dir, temp_root),
        is_plain_name(name),
        name.len() > 0,
    ensures
        path_fault(join_path(dir, name), temp_root) is None,
        is_safe_dir(join_path(dir, name), temp_root),
{
    reveal_strlit("/");
    reveal_strlit("/etc");
    reveal_strlit("/proc");
    reveal_strlit("/sys");
    reveal_strlit("/dev");
    reveal_strlit("~");
    let path = dir + seq!['/'] + name;
    assert("/"@ =~= seq!['/']);
    if starts_with(name, "/"@) {
        assert(name.subrange(0, 1)[0] == '/');
        assert(name[0] == '/');
    }
    assert(join_path(dir, name) == path);
    lemma_no_new_dots(dir, name);
    lemma_no_new_prefix(dir, name, "/etc"@);
    lemma_no_new_prefix(dir, name, "/proc"@);
    lemma_no_new_prefix(dir, name, "/sys"@);
    lemma_no_new_prefix(dir, name, "/dev"@);
    lemma_no_new_prefix(dir, name, "~"@);
    assert forall|c: char|
        #![trigger has_char(path, c)]
        has_char(path, c) && c != '/' implies has_char(dir, c) || has_char(name, c) by {
        let i = choose|i: int| 0 <= i < path.len() && path[i] == c;
        if i < dir.len() {
            assert(dir[i] == c);
        } else {
            assert(name[i - dir.len() - 1] == c);
        }
    }
    lemma_join_components(dir, name);
    let root = components(temp_root);
    let n = root.len() as int;
    assert(components(path).take(n) =~= components(path).take(components(dir).len() as int).take(n));
    assert(path.last() == name.last());
    assert(name[name.len() - 1] != '/');
}

/// An identity that a file can be named by.
pub open spec fn is_plain_id(id: Seq<char>) -> bool {
    id.len() > 0 && forall|i: int|
        0 <= i < id.len() ==> {
            let c = #[trigger] id[i];
            ('0' <= c <= '9') || ('a' <= c <= 'z') || ('A' <= c <= 'Z') || c == '-'
        }
}

proof fn lemma_dotless_is_plain(name: Seq<char>)
    requires
        forall|i: int|
            0 <= i < name.len() ==> {
                let c = #[trigger] name[i];
                c != '/' && c != '\0' && c != '{' && c != '}'
            },
        forall|i: int| 0 <= i < name.len() - 1 ==> #[trigger] name[i] != '.' || name[i + 1] != '.',
    ensures
        is_plain_name(name),
{
    reveal_strlit("..");
    if contains(name, ".."@) {
        let i = choose|i: int| matches_at(name, ".."@, i);
        assert(name.subrange(i, i + 2)[0] == '.' && name.subrange(i, i + 2)[1] == '.');
        assert(name[i] == '.' && name[i + 1] == '.');
    }
}

proof fn lemma_decimal_is_plain(n: nat)
    ensures
        is_plain_id(decimal(n)),
    decreases n,
{
    if n >= 10 {
        lemma_decimal_is_plain(n / 10);
    }
}

proof fn lemma_panel_name_is_plain(verifier_id: Seq<char>, round_id: Seq<char>)
    requires
        is_plain_id(verifier_id),
        is_plain_id(round_id),
    ensures
        is_plain_name("goal-classifier-"@ + verifier_id + "-"@ + round_id + ".md"@),
        ("goal-classifier-"@ + verifier_id + "-"@ + round_id + ".md"@).len() > 0,
{
    reveal_strlit("goal-classifier-");
    reveal_strlit("-");
    reveal_strlit(".md");
    let a = "goal-classifier-"@;
    let name = a + verifier_id + "-"@ + round_id;
    assert forall|i: int| 0 <= i < name.len() implies {
        let c = #[trigger] name[i];
        c != '/' && c != '\0' && c != '{' && c != '}' && c != '.'
    } by {
        if i < a.len() {
            assert(name[i] == a[i]);
        } else if i < a.len() + verifier_id.len() {
            assert(name[i] == verifier_id[i - a.len()]);
        } else if i == a.len() + verifier_id.len() {
            assert(name[i] == '-');
        } else {
            assert(name[i] == round_id[i - a.len() - verifier_id.len() - 1]);
        }
    }
    let whole = name + ".md"@;
    assert forall|i: int| 0 <= i < whole.len() implies {
        let c = #[trigger] whole[i];
        c != '/' && c != '\0' && c != '{' && c != '}'
    } by {
        if i < name.len() {
            assert(whole[i] == name[i]);
        }
    }
    assert forall|i: int| 0 <= i < whole.len() - 1 implies #[trigger] whole[i] != '.' || whole[i + 1]
        != '.' by {
        if i < name.len() {
            assert(whole[i] == name[i]);
        }
    }
    lemma_dotless_is_plain(whole);
}

proof fn lemma_round_names_are_plain(round_id: Seq<char>, skeptic_idx: nat)
    requires
        is_plain_id(round_id),
    ensures
        is_plain_name(round_id) && round_id.len() > 0,
        is_plain_name("verification-rounds"@) && "verification-rounds"@.len() > 0,
        is_plain_name("details.md"@) && "details.md"@.len() > 0,
        is_plain_name("verdict.json"@) && "verdict.json"@.len() > 0,
        is_plain_name("critic-"@ + decimal(skeptic_idx)),
        ("critic-"@ + decimal(skeptic_idx)).len() > 0,
{
    reveal_strlit("verification-rounds");
    reveal_strlit("critic-");
    reveal_strlit("details.md");
    reveal_strlit("verdict.json");
    lemma_dotless_is_plain(round_id);
    lemma_dotless_is_plain("verification-rounds"@);
    lemma_dotless_is_plain("details.md"@);
    lemma_dotless_is_plain("verdict.json"@);
    lemma_decimal_is_plain(skeptic_idx);
    let a = "critic-"@;
    let digits = decimal(skeptic_idx);
    let name = a + digits;
    assert forall|i: int| 0 <= i < name.len() implies {
        let c = #[trigger] name[i];
        c != '/' && c != '\0' && c != '{' && c != '}' && c != '.'
    } by {
        if i < a.len() {
            assert(name[i] == a[i]);
        } else {
            assert(name[i] == digits[i - a.len()]);
        }
    }
    lemma_dotless_is_plain(name);
}

/// The files of a round lie where they are accepted: below a safe scratch root,
/// and with identities that files can be named by, neither the details of the
/// panel nor the files of a critic are refused.
pub proof fn law_files_of_a_round_are_safe(
    scratch_root: Seq<char>,
    temp_root: Seq<char>,
    verifier_id: Seq<char>,
    round_id: Seq<char>,
    skeptic_idx: nat,
)
    requires
        is_safe_dir(scratch_root, temp_root),
        is_plain_id(verifier_id),
        is_plain_id(round_id),
    ensures
        path_fault(
            join_path(
                scratch_root,
                "goal-classifier-"@ + verifier_id + "-"@ + round_id + ".md"@,
            ),
            temp_root,
        ) is None,
        path_fault(
            join_path(critic_dir(scratch_root, round_id, skeptic_idx), "details.md"@),
            temp_root,
        ) is None,
        path_fault(
            join_path(critic_dir(scratch_root, round_id, skeptic_idx), "verdict.json"@),
            temp_root,
        ) is None,
{
    let panel = "goal-classifier-"@ + verifier_id + "-"@ + round_id + ".md"@;
    lemma_panel_name_is_plain(verifier_id, round_id);
    law_plain_name_in_safe_dir_is_safe(scratch_root, panel, temp_root);
    lemma_round_names_are_plain(round_id, skeptic_idx);
    let rounds = join_path(scratch_root, "verification-rounds"@);
    law_plain_name_in_safe_dir_is_safe(scratch_root, "verification-rounds"@, temp_root);
    law_plain_name_in_safe_dir_is_safe(rounds, round_id, temp_root);
    let round = join_path(rounds, round_id);
    law_plain_name_in_safe_dir_is_safe(round, "critic-"@ + decimal(skeptic_idx), temp_root);
    let dir = critic_dir(scratch_root, round_id, skeptic_idx);
    law_plain_name_in_safe_dir_is_safe(dir, "details.md"@, temp_root);
    law_plain_name_in_safe_dir_is_safe(dir, "verdict.json"@, temp_root);
}

// ---------------------------------------------------------------------------
// What is accepted

/// A path for details is accepted exactly where it has no `..` and no NUL in it,
/// begins in no forbidden place, has every marker filled in, and lies below the
/// temporary directory; the first of these that fails is told.
pub proof fn law_details_path_is_accepted_below_the_temporary_directory(
    path: Seq<char>,
    temp_root: Seq<char>,
)
    ensures
        ({
            let unsafe_part = contains(path, ".."@) || path.contains('\0') || starts_with(
                path,
                "/etc"@,
            ) || starts_with(path, "/proc"@) || starts_with(path, "/sys"@) || starts_with(
                path,
                "/dev"@,
            ) || starts_with(path, "~"@);
            let open_marker = path.contains('{') || path.contains('}');
            &&& path_fault(path, temp_root) == Some(PathValidationError::UnsafeComponent)
                <==> unsafe_part
            &&& path_fault(path, temp_root) == Some(PathValidationError::UnresolvedSubstitution)
                <==> !unsafe_part && open_marker
            &&& path_fault(path, temp_root) == Some(PathValidationError::OutsideAllowedPrefix)
                <==> !unsafe_part && !open_marker && !is_within(path, temp_root)
        }),
{
}

/// A path lies within itself, and within whatever something that it lies within
/// lies within; of two paths that lie within each other, the components are the
/// same.
pub proof fn law_lying_within_is_an_order(a: Seq<char>, b: Seq<char>, c: Seq<char>)
    ensures
        is_within(a, a),
        is_within(a, b) && is_within(b, c) ==> is_within(a, c),
        is_within(a, b) && is_within(b, a) ==> components(a) == components(b),
{
    let x = components(a);
    let y = components(b);
    let z = components(c);
    assert(x.take(x.len() as int) =~= x);
    if is_within(a, b) && is_within(b, c) {
        assert(x.take(z.len() as int) =~= x.take(y.len() as int).take(z.len() as int));
    }
    if is_within(a, b) && is_within(b, a) {
        assert(x.take(y.len() as int) =~= x);
    }
}

proof fn lemma_busy_members(parts: Seq<Seq<char>>, n: int, part: Seq<char>)
    requires
        0 <= n <= parts.len(),
    ensures
        busy_parts(parts, n).contains(part) <==> part.len() > 0 && part != "."@ && exists|k: int|
            0 <= k < n && #[trigger] parts[k] == part,
    decreases n,
{
    if n > 0 {
        lemma_busy_members(parts, n - 1, part);
        let before = busy_parts(parts, n - 1);
        let now = busy_parts(parts, n);
        if before.contains(part) {
            let k = choose|k: int| 0 <= k < before.len() && before[k] == part;
            assert(now[k] == part);
        }
        if now.contains(part) && !before.contains(part) {
            let k = choose|k: int| 0 <= k < now.len() && now[k] == part;
            if k < before.len() {
                assert(before[k] == part);
            }
            assert(parts[n - 1] == part);
        }
        if parts[n - 1] == part && !is_idle_component(part) {
            assert(now[before.len() as int] == part);
        }
    }
}

/// A path is safe inside a snapshot exactly where it is not empty, does not begin
/// at the root, has no part `..` and does not begin with the part `.`.
pub proof fn law_safe_relative_path(path: Seq<char>)
    ensures
        is_unsafe_relative(path) <==> {
            ||| path.len() == 0
            ||| path[0] == '/'
            ||| split(path, CharClass::Only('/')).contains(".."@)
            ||| split(path, CharClass::Only('/'))[0] == "."@
        },
{
    let parts = split(path, CharClass::Only('/'));
    lemma_split_some(path, CharClass::Only('/'), 0, 0);
    let n = parts.len() as int;
    let rest = busy_parts(parts, n);
    let all = components(path);
    reveal_strlit("..");
    reveal_strlit(".");
    reveal_strlit("/");
    assert(".."@.len() == 2 && "."@.len() == 1);
    assert("."@[0] == '.' && "/"@[0] == '/');
    lemma_busy_members(parts, n, ".."@);
    lemma_busy_members(parts, n, "."@);
    if path.len() > 0 && path[0] != '/' {
        if exists|i: int|
            0 <= i < all.len() && (#[trigger] all[i] == "."@ || all[i] == ".."@) {
            let i = choose|i: int|
                0 <= i < all.len() && (#[trigger] all[i] == "."@ || all[i] == ".."@);
            if parts[0] == "."@ {
            } else {
                assert(rest.contains(all[i]));
                let k = choose|k: int| 0 <= k < n && #[trigger] parts[k] == ".."@;
                assert(parts.contains(".."@));
            }
        }
        if parts.contains(".."@) {
            let k = choose|k: int| 0 <= k < parts.len() && parts[k] == ".."@;
            assert(parts[k] == ".."@);
            assert(rest.contains(".."@));
            let j = choose|j: int| 0 <= j < rest.len() && rest[j] == ".."@;
            if parts[0] == "."@ {
                assert(all[j + 1] == ".."@);
            } else {
                assert(all[j] == ".."@);
            }
        }
        if parts[0] == "."@ {
            assert(all[0] == "."@);
        }
    }
}

proof fn lemma_after_last_dot(name: Seq<char>, i: int, dot: int)
    requires
        0 < dot <= i <= name.len(),
        name[dot - 1] == '.',
        forall|k: int| dot <= k < i ==> #[trigger] name[k] != '.',
    ensures
        after_last_dot(name, i) == dot,
    decreases i - dot,
{
    if i > dot {
        assert(name[i - 1] != '.');
        lemma_after_last_dot(name, i - 1, dot);
    }
}

proof fn lemma_no_dot(name: Seq<char>, i: int)
    requires
        0 <= i <= name.len(),
        forall|k: int| 0 <= k < i ==> #[trigger] name[k] != '.',
    ensures
        after_last_dot(name, i) == 0,
    decreases i,
{
    if i > 0 {
        lemma_no_dot(name, i - 1);
    }
}

/// The extension of a path is what follows the last point of its file name; a name
/// without a point, or with one at its beginning alone, has none.
pub proof fn law_extension_follows_the_last_point(path: Seq<char>, dot: int)
    requires
        file_name(path) is Some,
        0 < dot <= file_name(path)->0.len(),
        file_name(path)->0[dot - 1] == '.',
        forall|k: int| dot <= k < file_name(path)->0.len() ==> #[trigger] file_name(path)->0[k]
            != '.',
    ensures
        dot > 1 ==> extension(path) == Some(file_name(path)->0.skip(dot)),
        dot == 1 ==> extension(path) is None,
{
    let name = file_name(path)->0;
    lemma_after_last_dot(name, name.len() as int, dot);
}

pub proof fn law_name_without_a_point_has_no_extension(path: Seq<char>)
    requires
        file_name(path) is Some ==> !file_name(path)->0.contains('.'),
    ensures
        extension(path) is None,
{
    if file_name(path) is Some {
        let name = file_name(path)->0;
        assert forall|k: int| 0 <= k < name.len() implies #[trigger] name[k] != '.' by {
            if name[k] == '.' {
                assert(name.contains('.'));
            }
        }
        lemma_no_dot(name, name.len() as int);
    }
}

proof fn lemma_last_component(parts: Seq<Seq<char>>, n: int, k: int)
    requires
        0 <= k < n <= parts.len(),
        parts[k].len() > 0,
        parts[k] != "."@,
        forall|m: int| k < m < n ==> (#[trigger] parts[m]).len() == 0 || parts[m] == "."@,
    ensures
        last_component(parts, n) == Some(parts[k]),
    decreases n,
{
    if n - 1 > k {
        assert(parts[n - 1].len() == 0 || parts[n - 1] == "."@);
        lemma_last_component(parts, n - 1, k);
    }
}

/// The file name of a path is its last part that is not empty and not `.`, unless
/// that part is `..`.
pub proof fn law_file_name_is_the_last_part(path: Seq<char>, k: int)
    requires
        0 <= k < split(path, CharClass::Only('/')).len(),
        split(path, CharClass::Only('/'))[k].len() > 0,
        split(path, CharClass::Only('/'))[k] != "."@,
        forall|m: int|
            k < m < split(path, CharClass::Only('/')).len() ==> (#[trigger] split(
                path,
                CharClass::Only('/'),
            )[m]).len() == 0 || split(path, CharClass::Only('/'))[m] == "."@,
    ensures
        split(path, CharClass::Only('/'))[k] == ".."@ ==> file_name(path) is None,
        split(path, CharClass::Only('/'))[k] != ".."@ ==> file_name(path) == Some(
            split(path, CharClass::Only('/'))[k],
        ),
{
    let parts = split(path, CharClass::Only('/'));
    lemma_last_component(parts, parts.len() as int, k);
}

/// A path lies within a directory exactly where the components of the directory
/// are the first ones of the path, each of them.
pub proof fn law_path_lies_within_where_its_first_components_agree(
    path: Seq<char>,
    root: Seq<char>,
    k: int,
)
    ensures
        is_within(path, root) ==> components(root).len() <= components(path).len(),
        is_within(path, root) && 0 <= k < components(root).len() ==> components(path)[k]
            == components(root)[k],
        components(root).len() <= components(path).len() && (forall|i: int|
            0 <= i < components(root).len() ==> #[trigger] components(path)[i] == components(
                root,
            )[i]) ==> is_within(path, root),
{
    let n = components(root).len() as int;
    if is_within(path, root) && 0 <= k < n {
        assert(components(path).take(n)[k] == components(path)[k]);
    }
    if n <= components(path).len() && (forall|i: int|
        0 <= i < n ==> #[trigger] components(path)[i] == components(root)[i]) {
        assert(components(path).take(n) =~= components(root));
    }
}

/// The components of a path are its parts that are neither empty nor `.`, behind
/// the root where it begins there; so `..` is one, and no part is passed over.
pub proof fn law_components_are_the_parts_of_a_path(path: Seq<char>, part: Seq<char>)
    requires
        part.len() > 0,
        part != "."@,
        part != "/"@,
    ensures
        components(path).contains(part) <==> split(path, CharClass::Only('/')).contains(part),
        path.len() > 0 && path[0] == '/' ==> components(path).len() > 0 && components(path)[0]
            == "/"@,
{
    let parts = split(path, CharClass::Only('/'));
    let rest = busy_parts(parts, parts.len() as int);
    let all = components(path);
    lemma_busy_members(parts, parts.len() as int, part);
    if all.contains(part) {
        let i = choose|i: int| 0 <= i < all.len() && all[i] == part;
        if all.len() == rest.len() {
            assert(rest[i] == part);
        } else {
            assert(i > 0);
            assert(rest[i - 1] == part);
        }
        assert(rest.contains(part));
        let k = choose|k: int| 0 <= k < parts.len() && #[trigger] parts[k] == part;
        assert(parts.contains(part));
    }
    if parts.contains(part) {
        let k = choose|k: int| 0 <= k < parts.len() && parts[k] == part;
        assert(parts[k] == part);
        let i = choose|i: int| 0 <= i < rest.len() && rest[i] == part;
        if all.len() == rest.len() {
            assert(all[i] == part);
        } else {
            assert(all[i + 1] == part);
        }
    }
}

/// A relative name is put below its base with one slash between them; an absolute
/// one stands for itself.
pub proof fn law_name_is_joined_below_its_base(base: Seq<char>, name: Seq<char>)
    ensures
        name.len() > 0 && name[0] == '/' ==> join_path(base, name) == name,
        name.len() > 0 && name[0] != '/' && base.len() > 0 && base.last() != '/' ==> join_path(
            base,
            name,
        ) == base + seq!['/'] + name,
        name.len() > 0 && name[0] != '/' && (base.len() == 0 || base.last() == '/') ==> join_path(
            base,
            name,
        ) == base + name,
{
    reveal_strlit("/");
    assert("/"@ =~= seq!['/']);
    if name.len() > 0 {
        assert(name.subrange(0, 1)[0] == name[0]);
        if name[0] == '/' {
            assert(name.subrange(0, 1) =~= "/"@);
        }
    }
}

} // verus!
