//! The shell boundary of final verifiers and the trace of what they ran.

use vstd::prelude::*;
use vstd::string::*;
use vstd::utf8::encode_utf8;

use crate::digest::{digest_bytes, digest_text};
use crate::paths::{is_within, law_lying_within_is_an_order, path_is_within};
use crate::text::{
    bool_str, bool_text, cat2, cat3, cat4, cat9, chars_of, contains, contains_str, ends_with,
    lemma_contains_itself, matches_at, replace, replace_from, replace_of, same_str, starts_with,
    string_of,
};

verus! {

// ---------------------------------------------------------------------------
// Tool events

/// A command that a verifier ran, and what is kept of it.
#[derive(Debug)]
pub struct VerificationToolEvent {
    pub tool_event_id: String,
    pub exact_input_digest: String,
    pub observed_output_digest: String,
    pub success: bool,
    pub exact_input: String,
}

/// What an event says, as values.
pub struct EventView {
    pub tool_event_id: Seq<char>,
    pub exact_input_digest: Seq<char>,
    pub observed_output_digest: Seq<char>,
    pub success: bool,
    pub exact_input: Seq<char>,
}

impl View for VerificationToolEvent {
    type V = EventView;

    open spec fn view(&self) -> EventView {
        EventView {
            tool_event_id: self.tool_event_id@,
            exact_input_digest: self.exact_input_digest@,
            observed_output_digest: self.observed_output_digest@,
            success: self.success,
            exact_input: self.exact_input@,
        }
    }
}

pub open spec fn event_views(s: Seq<VerificationToolEvent>) -> Seq<EventView> {
    Seq::new(s.len(), |i: int| s[i]@)
}

/// Whether an event is the successful run that a receipt cites: the same
/// identity and digests, on an input that names the artifact and the target.
pub open spec fn event_supports(
    event: EventView,
    event_id: Seq<char>,
    input_digest: Seq<char>,
    output_digest: Seq<char>,
    artifact_path: Seq<char>,
    artifact_target: Seq<char>,
) -> bool {
    event.success && event.tool_event_id == event_id && event.exact_input_digest == input_digest
        && event.observed_output_digest == output_digest && contains(
        event.exact_input,
        artifact_path,
    ) && contains(event.exact_input, artifact_target)
}

pub open spec fn trace_supports(
    trace: Seq<EventView>,
    event_id: Seq<char>,
    input_digest: Seq<char>,
    output_digest: Seq<char>,
    artifact_path: Seq<char>,
    artifact_target: Seq<char>,
) -> bool {
    exists|k: int|
        0 <= k < trace.len() && event_supports(
            #[trigger] trace[k],
            event_id,
            input_digest,
            output_digest,
            artifact_path,
            artifact_target,
        )
}

pub fn trace_contains(
    trace: &[VerificationToolEvent],
    event_id: &str,
    input_digest: &str,
    output_digest: &str,
    artifact_path: &str,
    artifact_target: &str,
) -> (r: bool)
    ensures
        r == trace_supports(
            event_views(trace@),
            event_id@,
            input_digest@,
            output_digest@,
            artifact_path@,
            artifact_target@,
        ),
{
    let ghost es = event_views(trace@);
    let mut k: usize = 0;
    while k < trace.len()
        invariant
            k <= trace@.len(),
            es == event_views(trace@),
            forall|m: int|
                0 <= m < k ==> !event_supports(
                    #[trigger] es[m],
                    event_id@,
                    input_digest@,
                    output_digest@,
                    artifact_path@,
                    artifact_target@,
                ),
        decreases trace@.len() - k,
    {
        let event = &trace[k];
        proof {
            assert(es[k as int] == event@);
        }
        let input = chars_of(event.exact_input.as_str());
        if event.success && same_str(event.tool_event_id.as_str(), event_id) && same_str(
            event.exact_input_digest.as_str(),
            input_digest,
        ) && same_str(event.observed_output_digest.as_str(), output_digest) && contains_str(
            &input,
            artifact_path,
        ) && contains_str(&input, artifact_target) {
            return true;
        }
        k += 1;
    }
    false
}

/// The event of one run. `exit_code` is absent where the process left none.
pub fn tool_event(
    tool_event_id: &str,
    command: &str,
    output: &str,
    exit_code: Option<i32>,
    timed_out: bool,
    signalled: bool,
) -> (r: VerificationToolEvent)
    ensures
        r@ == (EventView {
            tool_event_id: tool_event_id@,
            exact_input_digest: digest_text(encode_utf8(command@)),
            observed_output_digest: digest_text(encode_utf8(output@)),
            success: exit_code == Some(0i32) && !timed_out && !signalled,
            exact_input: command@,
        }),
{
    let clean = match exit_code {
        Some(code) => code == 0,
        None => false,
    };
    VerificationToolEvent {
        tool_event_id: tool_event_id.to_owned(),
        exact_input_digest: digest_bytes(command.as_bytes()),
        observed_output_digest: digest_bytes(output.as_bytes()),
        success: clean && !timed_out && !signalled,
        exact_input: command.to_owned(),
    }
}

/// The line that tells a verifier how to cite a run.
pub open spec fn marker(event: EventView) -> Seq<char> {
    "\n[verification-evidence tool_event_id="@ + event.tool_event_id + " exact_input_digest="@
        + event.exact_input_digest + " observed_output_digest="@ + event.observed_output_digest
        + " success="@ + bool_text(event.success) + "]\n"@
}

pub fn evidence_marker(event: &VerificationToolEvent) -> (r: String)
    ensures
        r@ == marker(event@),
{
    cat9(
        "\n[verification-evidence tool_event_id=",
        event.tool_event_id.as_str(),
        " exact_input_digest=",
        event.exact_input_digest.as_str(),
        " observed_output_digest=",
        event.observed_output_digest.as_str(),
        " success=",
        bool_str(event.success),
        "]\n",
    )
}

// ---------------------------------------------------------------------------
// The trace registry

/// The traces of the critics that are running, by critic.
#[derive(Debug)]
pub struct TraceRegistry {
    ids: Vec<String>,
    traces: Vec<Vec<VerificationToolEvent>>,
}

/// The right and duty to close one trace.
#[derive(Debug)]
pub struct TraceGuard {
    critic_id: String,
}

impl View for TraceGuard {
    type V = Seq<char>;

    /// The critic whose trace it is.
    closed spec fn view(&self) -> Seq<char> {
        self.critic_id@
    }
}

impl View for TraceRegistry {
    type V = Map<Seq<char>, Seq<EventView>>;

    closed spec fn view(&self) -> Map<Seq<char>, Seq<EventView>> {
        Map::new(
            |id: Seq<char>| exists|i: int| self.stands_at(id, i),
            |id: Seq<char>| event_views(self.traces@[self.place(id)]@),
        )
    }
}

impl TraceRegistry {
    spec fn stands_at(&self, id: Seq<char>, i: int) -> bool {
        0 <= i < self.ids@.len() && self.ids@[i]@ == id
    }

    spec fn place(&self, id: Seq<char>) -> int {
        choose|i: int| self.stands_at(id, i)
    }

    /// One trace for each critic, and no critic twice.
    pub closed spec fn wf(&self) -> bool {
        &&& self.ids@.len() == self.traces@.len()
        &&& forall|i: int, j: int|
            0 <= i < j < self.ids@.len() ==> (#[trigger] self.ids@[i])@ != (
            #[trigger] self.ids@[j])@
    }

    proof fn lemma_at(&self, i: int)
        requires
            self.wf(),
            0 <= i < self.ids@.len(),
        ensures
            self@.contains_key(self.ids@[i]@),
            self@[self.ids@[i]@] == event_views(self.traces@[i]@),
    {
        let id = self.ids@[i]@;
        assert(self.stands_at(id, i));
        let p = self.place(id);
        assert(self.stands_at(id, p));
        if p < i {
            assert(self.ids@[p]@ != self.ids@[i]@);
        } else if i < p {
            assert(self.ids@[i]@ != self.ids@[p]@);
        }
    }

    pub fn new() -> (r: TraceRegistry)
        ensures
            r.wf(),
            r@ == Map::<Seq<char>, Seq<EventView>>::empty(),
    {
        let r = TraceRegistry { ids: Vec::new(), traces: Vec::new() };
        proof {
            assert forall|id: Seq<char>| !r@.contains_key(id) by {
                if r@.contains_key(id) {
                    let i = choose|i: int| r.stands_at(id, i);
                    assert(false);
                }
            }
            assert(r@ =~= Map::empty());
        }
        r
    }

    fn find(&self, id: &str) -> (r: Option<usize>)
        requires
            self.wf(),
        ensures
            match r {
                Some(i) => i < self.ids@.len() && self.ids@[i as int]@ == id@
                    && self@.contains_key(id@) && self@[id@] == event_views(
                    self.traces@[i as int]@,
                ),
                None => !self@.contains_key(id@) && forall|k: int|
                    0 <= k < self.ids@.len() ==> (#[trigger] self.ids@[k])@ != id@,
            },
    {
        let mut i: usize = 0;
        while i < self.ids.len()
            invariant
                i <= self.ids@.len(),
                self.wf(),
                forall|k: int| 0 <= k < i ==> (#[trigger] self.ids@[k])@ != id@,
            decreases self.ids@.len() - i,
        {
            if same_str(self.ids[i].as_str(), id) {
                proof {
                    self.lemma_at(i as int);
                }
                return Some(i);
            }
            i += 1;
        }
        proof {
            if self@.contains_key(id@) {
                let k = choose|k: int| self.stands_at(id@, k);
                assert(self.ids@[k]@ != id@);
            }
        }
        None
    }

    fn append_trace(&mut self, id: &str)
        requires
            old(self).wf(),
            !old(self)@.contains_key(id@),
        ensures
            final(self).wf(),
            final(self)@ == old(self)@.insert(id@, seq![]),
    {
        let ghost before = *self;
        proof {
            assert forall|k: int| 0 <= k < before.ids@.len() implies (
            #[trigger] before.ids@[k])@ != id@ by {
                if before.ids@[k]@ == id@ {
                    assert(before.stands_at(id@, k));
                }
            }
        }
        self.ids.push(id.to_owned());
        self.traces.push(Vec::new());
        proof {
            let n = before.ids@.len() as int;
            self.lemma_at(n);
            assert(event_views(self.traces@[n]@) =~= seq![]);
            assert forall|x: Seq<char>|
                self@.contains_key(x) <==> #[trigger] before@.insert(id@, seq![]).contains_key(
                    x,
                ) by {
                if self@.contains_key(x) {
                    let i = choose|i: int| self.stands_at(x, i);
                    if i < n {
                        assert(before.stands_at(x, i));
                    }
                }
                if before@.contains_key(x) {
                    let i = choose|i: int| before.stands_at(x, i);
                    assert(self.stands_at(x, i));
                }
            }
            assert forall|x: Seq<char>| #[trigger] self@.contains_key(x) implies self@[x]
                == before@.insert(id@, seq![])[x] by {
                let i = choose|i: int| self.stands_at(x, i);
                self.lemma_at(i);
                if i < n {
                    before.lemma_at(i);
                }
            }
            assert(self@ =~= before@.insert(id@, seq![]));
        }
    }

    fn remove_at(&mut self, i: usize) -> (r: Vec<VerificationToolEvent>)
        requires
            old(self).wf(),
            i < old(self).ids@.len(),
        ensures
            final(self).wf(),
            final(self)@ == old(self)@.remove(old(self).ids@[i as int]@),
            event_views(r@) == old(self)@[old(self).ids@[i as int]@],
    {
        let ghost before = *self;
        let ghost id = self.ids@[i as int]@;
        proof {
            before.lemma_at(i as int);
        }
        self.ids.remove(i);
        let trace = self.traces.remove(i);
        proof {
            let at = |k: int|
                if k < i {
                    k
                } else {
                    k + 1
                };
            assert forall|p: int, q: int| 0 <= p < q < self.ids@.len() implies (
            #[trigger] self.ids@[p])@ != (#[trigger] self.ids@[q])@ by {
                assert(before.ids@[at(p)]@ != before.ids@[at(q)]@);
            }
            assert forall|x: Seq<char>|
                self@.contains_key(x) <==> #[trigger] before@.remove(id).contains_key(x) by {
                if self@.contains_key(x) {
                    let k = choose|k: int| self.stands_at(x, k);
                    assert(before.stands_at(x, at(k)));
                    if at(k) < i {
                        assert(before.ids@[at(k)]@ != before.ids@[i as int]@);
                    } else {
                        assert(before.ids@[i as int]@ != before.ids@[at(k)]@);
                    }
                }
                if before@.remove(id).contains_key(x) {
                    let k = choose|k: int| before.stands_at(x, k);
                    assert(k != i);
                    if k < i {
                        assert(self.stands_at(x, k));
                    } else {
                        assert(self.stands_at(x, k - 1));
                    }
                }
            }
            assert forall|x: Seq<char>| #[trigger] self@.contains_key(x) implies self@[x]
                == before@.remove(id)[x] by {
                let k = choose|k: int| self.stands_at(x, k);
                self.lemma_at(k);
                before.lemma_at(at(k));
                assert(before@.remove(id).contains_key(x));
            }
            assert(self@ =~= before@.remove(id));
        }
        trace
    }

    /// Adds an event to the trace of a critic.
    pub fn record(&mut self, critic_id: &str, event: VerificationToolEvent) -> (r: Result<
        (),
        String,
    >)
        requires
            old(self).wf(),
        ensures
            final(self).wf(),
            r is Err <==> !old(self)@.contains_key(critic_id@),
            r is Err ==> r->Err_0@ == "verification trace was not registered"@ && *final(self)
                == *old(self),
            r is Ok ==> final(self)@ == old(self)@.insert(
                critic_id@,
                old(self)@[critic_id@].push(event@),
            ),
    {
        let i = match self.find(critic_id) {
            Some(i) => i,
            None => {
                return Err("verification trace was not registered".to_owned());
            },
        };
        let ghost before = *self;
        let mut trace: Vec<VerificationToolEvent> = Vec::new();
        std::mem::swap(&mut trace, &mut self.traces[i]);
        let ghost prior = trace@;
        trace.push(event);
        self.traces.set(i, trace);
        proof {
            assert(event_views(self.traces@[i as int]@) =~= event_views(prior).push(event@));
            assert(self.ids@ == before.ids@);
            let want = before@.insert(critic_id@, before@[critic_id@].push(event@));
            assert forall|x: Seq<char>| self@.contains_key(x) <==> #[trigger] want.contains_key(
                x,
            ) by {
                if self@.contains_key(x) {
                    let k = choose|k: int| self.stands_at(x, k);
                    assert(before.stands_at(x, k));
                }
                if before@.contains_key(x) {
                    let k = choose|k: int| before.stands_at(x, k);
                    assert(self.stands_at(x, k));
                }
                if x == critic_id@ {
                    assert(self.stands_at(x, i as int));
                }
            }
            assert forall|x: Seq<char>| #[trigger] self@.contains_key(x) implies self@[x]
                == want[x] by {
                let k = choose|k: int| self.stands_at(x, k);
                self.lemma_at(k);
                before.lemma_at(k);
                if k != i {
                    if k < i {
                        assert(before.ids@[k]@ != before.ids@[i as int]@);
                    } else {
                        assert(before.ids@[i as int]@ != before.ids@[k]@);
                    }
                }
            }
            assert(self@ =~= want);
        }
        Ok(())
    }
}

/// Opens an empty trace for a critic. An identity that is in use already is
/// refused, and what it had recorded is dropped.
pub fn begin_trace(registry: &mut TraceRegistry, critic_id: &str) -> (r: Result<TraceGuard, String>)
    requires
        old(registry).wf(),
    ensures
        final(registry).wf(),
        final(registry)@ == old(registry)@.insert(critic_id@, seq![]),
        r is Err <==> old(registry)@.contains_key(critic_id@),
        r is Err ==> r->Err_0@ == "duplicate verification critic identity"@,
        r is Ok ==> r->Ok_0@ == critic_id@,
{
    match registry.find(critic_id) {
        Some(i) => {
            let ghost before = registry@;
            registry.remove_at(i);
            registry.append_trace(critic_id);
            proof {
                assert(before.remove(critic_id@).insert(critic_id@, seq![]) =~= before.insert(
                    critic_id@,
                    seq![],
                ));
            }
            Err("duplicate verification critic identity".to_owned())
        },
        None => {
            registry.append_trace(critic_id);
            Ok(TraceGuard { critic_id: critic_id.to_owned() })
        },
    }
}

impl TraceGuard {
    /// Closes the trace and hands out what it recorded.
    pub fn finish(self, registry: &mut TraceRegistry) -> (r: Result<
        Vec<VerificationToolEvent>,
        String,
    >)
        requires
            old(registry).wf(),
        ensures
            final(registry).wf(),
            final(registry)@ == old(registry)@.remove(self@),
            r is Err <==> !old(registry)@.contains_key(self@),
            r is Err ==> r->Err_0@ == "verification trace is missing"@,
            r is Ok ==> event_views(r->Ok_0@) == old(registry)@[self@],
    {
        match registry.find(self.critic_id.as_str()) {
            Some(i) => Ok(registry.remove_at(i)),
            None => {
                proof {
                    assert(registry@.remove(self@) =~= registry@);
                }
                Err("verification trace is missing".to_owned())
            },
        }
    }

    /// Closes the trace without reading it.
    pub fn release(self, registry: &mut TraceRegistry)
        requires
            old(registry).wf(),
        ensures
            final(registry).wf(),
            final(registry)@ == old(registry)@.remove(self@),
    {
        match registry.find(self.critic_id.as_str()) {
            Some(i) => {
                registry.remove_at(i);
            },
            None => {
                proof {
                    assert(registry@.remove(self@) =~= registry@);
                }
            },
        }
    }
}

/// A trace is one-shot: between opening and closing it the identity is taken,
/// afterwards it is free, and the traces of other critics are as they were.
pub proof fn law_traces_are_one_shot(
    traces: Map<Seq<char>, Seq<EventView>>,
    id: Seq<char>,
    other: Seq<char>,
)
    requires
        !traces.contains_key(id),
        other != id,
    ensures
        traces.insert(id, seq![]).contains_key(id),
        traces.insert(id, seq![])[id].len() == 0,
        traces.insert(id, seq![]).remove(id) == traces,
        traces.insert(id, seq![]).contains_key(other) == traces.contains_key(other),
        traces.contains_key(other) ==> traces.insert(id, seq![])[other] == traces[other],
{
    assert(traces.insert(id, seq![]).remove(id) =~= traces);
}

// ---------------------------------------------------------------------------
// Shell quoting

/// A text as one word of a POSIX shell.
pub open spec fn quoted(value: Seq<char>) -> Seq<char> {
    "'"@ + replace(value, "'"@, "'\\''"@) + "'"@
}

pub fn shell_quote(value: &str) -> (r: String)
    ensures
        r@ == quoted(value@),
{
    proof {
        reveal_strlit("'");
    }
    let v = chars_of(value);
    let inner = string_of(&replace_of(&v, "'", "'\\''"));
    cat3("'", inner.as_str(), "'")
}

/// The text that a POSIX shell makes of one word written with single quotes and
/// backslashes alone; none where the word holds anything else.
pub open spec fn shell_word(s: Seq<char>, inside: bool) -> Option<Seq<char>>
    decreases s.len(),
{
    if s.len() == 0 {
        if inside {
            None
        } else {
            Some(seq![])
        }
    } else if inside {
        if s[0] == '\'' {
            shell_word(s.drop_first(), false)
        } else {
            match shell_word(s.drop_first(), true) {
                Some(rest) => Some(seq![s[0]] + rest),
                None => None,
            }
        }
    } else if s[0] == '\'' {
        shell_word(s.drop_first(), true)
    } else if s[0] == '\\' && s.len() > 1 {
        match shell_word(s.skip(2), false) {
            Some(rest) => Some(seq![s[1]] + rest),
            None => None,
        }
    } else {
        None
    }
}

proof fn lemma_quoted_tail(value: Seq<char>, i: int)
    requires
        0 <= i <= value.len(),
    ensures
        shell_word(replace_from(value, "'"@, "'\\''"@, i) + "'"@, true) == Some(value.skip(i)),
    decreases value.len() - i,
{
    reveal_strlit("'");
    reveal_strlit("'\\''");
    let q = "'"@;
    let esc = "'\\''"@;
    let s = replace_from(value, q, esc, i) + q;
    if i >= value.len() {
        assert(s =~= q);
        assert(s.drop_first() =~= seq![]);
        assert(shell_word(s.drop_first(), false) == Some(Seq::<char>::empty()));
        assert(value.skip(i) =~= seq![]);
    } else {
        lemma_quoted_tail(value, i + 1);
        let rest = replace_from(value, q, esc, i + 1) + q;
        if value[i] == '\'' {
            assert(value.subrange(i, i + 1) =~= q);
            assert(matches_at(value, q, i));
            assert(s =~= esc + rest);
            let t1 = s.drop_first();
            assert(t1[0] == '\\' && t1[1] == '\'');
            let t2 = t1.skip(2);
            assert(t2 =~= seq!['\''] + rest);
            assert(t2.drop_first() =~= rest);
            assert(shell_word(t2, false) == shell_word(rest, true));
            assert(value.skip(i) =~= seq!['\''] + value.skip(i + 1));
        } else {
            assert(value.subrange(i, i + 1)[0] != q[0]);
            assert(!matches_at(value, q, i));
            assert(s =~= seq![value[i]] + rest);
            assert(s.drop_first() =~= rest);
            assert(value.skip(i) =~= seq![value[i]] + value.skip(i + 1));
        }
    }
}

/// Whatever a value holds, the shell reads its quoted form back as exactly that
/// value: nothing in it can act as syntax.
pub proof fn law_shell_reads_quoted_value_back(value: Seq<char>)
    ensures
        shell_word(quoted(value), false) == Some(value),
{
    reveal_strlit("'");
    lemma_quoted_tail(value, 0);
    let tail = replace(value, "'"@, "'\\''"@) + "'"@;
    assert(quoted(value) =~= seq!['\''] + tail);
    assert(quoted(value).drop_first() =~= tail);
    assert(value.skip(0) =~= value);
}

// ---------------------------------------------------------------------------
// The sandbox

/// The operating systems whose kernels can hold a verifier back.
#[derive(Clone, Copy, Debug, PartialEq, Eq, Structural)]
pub enum Platform {
    MacOs,
    Linux,
    Other,
}

/// A path inside a string literal of a seatbelt profile.
pub open spec fn seatbelt_text(path: Seq<char>) -> Seq<char> {
    replace(replace(path, "\\"@, "\\\\"@), "\""@, "\\\""@)
}

pub fn seatbelt_literal(path: &str) -> (r: String)
    ensures
        r@ == seatbelt_text(path@),
{
    proof {
        reveal_strlit("\\");
        reveal_strlit("\"");
    }
    let v = chars_of(path);
    let one = replace_of(&v, "\\", "\\\\");
    string_of(&replace_of(&one, "\"", "\\\""))
}

/// A seatbelt profile that lets nothing be written but below `scratch`.
pub open spec fn seatbelt_profile(scratch: Seq<char>) -> Seq<char> {
    "(version 1)\n(allow default)\n(deny file-write*\n(require-all\n(require-not (subpath \""@
        + seatbelt_text(scratch)
        + "\"))\n(require-not (literal \"/dev/null\"))\n(require-not (literal \"/dev/tty\"))))"@
}

/// The command that runs `command` where only `scratch` can be written.
pub open spec fn confined_command(
    platform: Platform,
    scratch: Seq<char>,
    cwd: Seq<char>,
    command: Seq<char>,
) -> Seq<char> {
    match platform {
        Platform::MacOs => "/usr/bin/sandbox-exec -p "@ + quoted(seatbelt_profile(scratch))
            + " /bin/zsh -f -c "@ + quoted(command),
        _ => "bwrap --die-with-parent --ro-bind / / --bind "@ + quoted(scratch) + " "@ + quoted(
            scratch,
        ) + " --chdir "@ + quoted(cwd) + " /bin/sh -lc "@ + quoted(command),
    }
}

/// Where a verifier may read and where it may write.
#[derive(Debug)]
pub struct VerifierSandbox {
    pub reviewed_root: String,
    pub scratch_root: String,
    pub critic_id: String,
}

/// Whether one directory is the other or lies in it.
pub open spec fn roots_overlap(a: Seq<char>, b: Seq<char>) -> bool {
    is_within(a, b) || is_within(b, a)
}

impl VerifierSandbox {
    /// The reviewed tree and the scratch directory are apart.
    pub open spec fn wf(&self) -> bool {
        !roots_overlap(self.reviewed_root@, self.scratch_root@)
    }

    /// A sandbox between two directories, given by their canonical paths.
    pub fn new(reviewed_root: &str, scratch_root: &str, critic_id: &str) -> (r: Result<
        VerifierSandbox,
        String,
    >)
        ensures
            r is Err <==> roots_overlap(reviewed_root@, scratch_root@),
            r is Err ==> r->Err_0@ == "reviewed root and critic scratch overlap"@,
            r is Ok ==> r->Ok_0.wf() && r->Ok_0.reviewed_root@ == reviewed_root@
                && r->Ok_0.scratch_root@ == scratch_root@ && r->Ok_0.critic_id@ == critic_id@,
    {
        if path_is_within(reviewed_root, scratch_root) || path_is_within(
            scratch_root,
            reviewed_root,
        ) {
            return Err("reviewed root and critic scratch overlap".to_owned());
        }
        Ok(
            VerifierSandbox {
                reviewed_root: reviewed_root.to_owned(),
                scratch_root: scratch_root.to_owned(),
                critic_id: critic_id.to_owned(),
            },
        )
    }

    /// Whether a verifier may work in a directory.
    pub open spec fn allows_cwd(&self, cwd: Seq<char>) -> bool {
        is_within(cwd, self.reviewed_root@) || is_within(cwd, self.scratch_root@)
    }

    /// Wraps a command so that the kernel keeps it from writing outside the
    /// scratch directory. `cwd` is a canonical path.
    pub fn sandboxed_command(&self, command: &str, cwd: &str, platform: Platform) -> (r: Result<
        String,
        String,
    >)
        ensures
            !self.allows_cwd(cwd@) ==> r is Err && r->Err_0@
                == "final verifier cwd is outside its reviewed tree and scratch"@,
            self.allows_cwd(cwd@) && platform == Platform::Other ==> r is Err && r->Err_0@
                == "kernel-enforced final-verifier shell isolation is unsupported on this platform"@,
            self.allows_cwd(cwd@) && platform != Platform::Other ==> r is Ok && r->Ok_0@
                == confined_command(platform, self.scratch_root@, cwd@, command@),
    {
        if !path_is_within(cwd, self.reviewed_root.as_str()) && !path_is_within(
            cwd,
            self.scratch_root.as_str(),
        ) {
            return Err("final verifier cwd is outside its reviewed tree and scratch".to_owned());
        }
        let scratch = self.scratch_root.as_str();
        let run = shell_quote(command);
        match platform {
            Platform::MacOs => {
                let literal = seatbelt_literal(scratch);
                let profile = cat3(
                    "(version 1)\n(allow default)\n(deny file-write*\n(require-all\n(require-not (subpath \"",
                    literal.as_str(),
                    "\"))\n(require-not (literal \"/dev/null\"))\n(require-not (literal \"/dev/tty\"))))",
                );
                let quoted_profile = shell_quote(profile.as_str());
                Ok(
                    cat4(
                        "/usr/bin/sandbox-exec -p ",
                        quoted_profile.as_str(),
                        " /bin/zsh -f -c ",
                        run.as_str(),
                    ),
                )
            },
            Platform::Linux => {
                let s = shell_quote(scratch);
                let dir = shell_quote(cwd);
                let head = cat4(
                    "bwrap --die-with-parent --ro-bind / / --bind ",
                    s.as_str(),
                    " ",
                    s.as_str(),
                );
                let tail = cat4(" --chdir ", dir.as_str(), " /bin/sh -lc ", run.as_str());
                let out = cat2(head.as_str(), tail.as_str());
                proof {
                    assert(out@ =~= confined_command(platform, scratch@, cwd@, command@));
                }
                Ok(out)
            },
            Platform::Other => Err(
                "kernel-enforced final-verifier shell isolation is unsupported on this platform".to_owned(),
            ),
        }
    }
}

/// The variables that keep what a verifier's tools write inside `scratch`.
pub open spec fn scratch_environment(scratch: Seq<char>) -> Seq<(Seq<char>, Seq<char>)> {
    seq![
        ("TMPDIR"@, scratch),
        ("TMP"@, scratch),
        ("TEMP"@, scratch),
        ("CARGO_TARGET_DIR"@, scratch + "/cargo-target"@),
        ("XDG_CACHE_HOME"@, scratch + "/cache"@),
        ("PYTHONDONTWRITEBYTECODE"@, "1"@),
    ]
}

pub open spec fn pairs(v: Seq<(String, String)>) -> Seq<(Seq<char>, Seq<char>)> {
    Seq::new(v.len(), |i: int| (v[i].0@, v[i].1@))
}

pub fn verifier_environment(scratch: &str) -> (r: Vec<(String, String)>)
    ensures
        pairs(r@) == scratch_environment(scratch@),
{
    let mut out: Vec<(String, String)> = Vec::new();
    out.push(("TMPDIR".to_owned(), scratch.to_owned()));
    out.push(("TMP".to_owned(), scratch.to_owned()));
    out.push(("TEMP".to_owned(), scratch.to_owned()));
    out.push(("CARGO_TARGET_DIR".to_owned(), cat2(scratch, "/cargo-target")));
    out.push(("XDG_CACHE_HOME".to_owned(), cat2(scratch, "/cache")));
    out.push(("PYTHONDONTWRITEBYTECODE".to_owned(), "1".to_owned()));
    proof {
        assert(pairs(out@) =~= scratch_environment(scratch@));
    }
    out
}

// ---------------------------------------------------------------------------
// What a confined command can do

/// A confined command runs the command itself, as one quoted word at its end, and
/// gives it nothing to write to but the scratch directory: everything else is
/// bound for reading alone, or denied.
pub proof fn law_confined_command_writes_to_its_scratch_alone(
    platform: Platform,
    scratch: Seq<char>,
    cwd: Seq<char>,
    command: Seq<char>,
)
    ensures
        ends_with(confined_command(platform, scratch, cwd, command), quoted(command)),
        platform == Platform::Linux ==> starts_with(
            confined_command(platform, scratch, cwd, command),
            "bwrap --die-with-parent --ro-bind / / --bind "@ + quoted(scratch) + " "@ + quoted(
                scratch,
            ) + " --chdir "@ + quoted(cwd),
        ),
        platform == Platform::MacOs ==> starts_with(
            confined_command(platform, scratch, cwd, command),
            "/usr/bin/sandbox-exec -p "@ + quoted(
                "(version 1)\n(allow default)\n(deny file-write*\n(require-all\n(require-not (subpath \""@
                    + seatbelt_text(scratch)
                    + "\"))\n(require-not (literal \"/dev/null\"))\n(require-not (literal \"/dev/tty\"))))"@,
            ),
        ),
{
    let whole = confined_command(platform, scratch, cwd, command);
    let q = quoted(command);
    assert(whole.subrange(whole.len() - q.len(), whole.len() as int) =~= q);
    if platform == Platform::Linux {
        let head = "bwrap --die-with-parent --ro-bind / / --bind "@ + quoted(scratch) + " "@
            + quoted(scratch) + " --chdir "@ + quoted(cwd);
        assert(whole.subrange(0, head.len() as int) =~= head);
    }
    if platform == Platform::MacOs {
        let head = "/usr/bin/sandbox-exec -p "@ + quoted(seatbelt_profile(scratch));
        assert(whole.subrange(0, head.len() as int) =~= head);
    }
}

/// Whether two roots overlap does not depend on their order; a root overlaps with
/// itself and with whatever lies in it. In a sandbox a verifier works in one of its
/// two directories.
pub proof fn law_overlap_is_mutual(a: Seq<char>, b: Seq<char>, sandbox: VerifierSandbox)
    ensures
        roots_overlap(a, b) == roots_overlap(b, a),
        roots_overlap(a, a),
        is_within(a, b) ==> roots_overlap(a, b),
        sandbox.wf() ==> !is_within(sandbox.scratch_root@, sandbox.reviewed_root@) && !is_within(
            sandbox.reviewed_root@,
            sandbox.scratch_root@,
        ),
        sandbox.allows_cwd(sandbox.reviewed_root@),
        sandbox.allows_cwd(sandbox.scratch_root@),
        sandbox.allows_cwd(a) ==> is_within(a, sandbox.reviewed_root@) || is_within(
            a,
            sandbox.scratch_root@,
        ),
        is_within(a, sandbox.reviewed_root@) || is_within(a, sandbox.scratch_root@)
            ==> sandbox.allows_cwd(a),
{
    law_lying_within_is_an_order(a, a, a);
    law_lying_within_is_an_order(
        sandbox.reviewed_root@,
        sandbox.reviewed_root@,
        sandbox.reviewed_root@,
    );
    law_lying_within_is_an_order(
        sandbox.scratch_root@,
        sandbox.scratch_root@,
        sandbox.scratch_root@,
    );
}

/// What the tools of a verifier write as temporary files, build products or caches
/// goes below its scratch directory.
pub proof fn law_environment_points_into_the_scratch(scratch: Seq<char>, k: int)
    requires
        0 <= k < scratch_environment(scratch).len(),
    ensures
        scratch_environment(scratch).contains(("TMPDIR"@, scratch)),
        scratch_environment(scratch).contains(("TMP"@, scratch)),
        scratch_environment(scratch).contains(("TEMP"@, scratch)),
        scratch_environment(scratch).contains(("CARGO_TARGET_DIR"@, scratch + "/cargo-target"@)),
        scratch_environment(scratch).contains(("XDG_CACHE_HOME"@, scratch + "/cache"@)),
        starts_with(scratch_environment(scratch)[k].1, scratch) || scratch_environment(
            scratch,
        )[k].0 == "PYTHONDONTWRITEBYTECODE"@,
{
    let all = scratch_environment(scratch);
    assert(all[0] == ("TMPDIR"@, scratch));
    assert(all[1] == ("TMP"@, scratch));
    assert(all[2] == ("TEMP"@, scratch));
    assert(all[3] == ("CARGO_TARGET_DIR"@, scratch + "/cargo-target"@));
    assert(all[4] == ("XDG_CACHE_HOME"@, scratch + "/cache"@));
    assert(k == 0 || k == 1 || k == 2 || k == 3 || k == 4 || k == 5);
    assert(scratch.subrange(0, scratch.len() as int) =~= scratch);
    assert((scratch + "/cargo-target"@).subrange(0, scratch.len() as int) =~= scratch);
    assert((scratch + "/cache"@).subrange(0, scratch.len() as int) =~= scratch);
}

/// A run supports a receipt exactly where it is in the trace, succeeded, has the
/// identity and the digests that are cited, and was made on an input that names
/// both the artifact and the target.
pub proof fn law_run_supports_what_it_was_made_on(
    trace: Seq<EventView>,
    event_id: Seq<char>,
    input_digest: Seq<char>,
    output_digest: Seq<char>,
    path: Seq<char>,
    target: Seq<char>,
)
    ensures
        trace_supports(trace, event_id, input_digest, output_digest, path, target) <==> exists|
            k: int,
        |
            0 <= k < trace.len() && (#[trigger] trace[k]).success && trace[k].tool_event_id
                == event_id && trace[k].exact_input_digest == input_digest
                && trace[k].observed_output_digest == output_digest && contains(
                trace[k].exact_input,
                path,
            ) && contains(trace[k].exact_input, target),
{
    if trace_supports(trace, event_id, input_digest, output_digest, path, target) {
        let k = choose|k: int|
            0 <= k < trace.len() && event_supports(
                #[trigger] trace[k],
                event_id,
                input_digest,
                output_digest,
                path,
                target,
            );
        assert(trace[k].success);
    }
    if exists|k: int|
        0 <= k < trace.len() && (#[trigger] trace[k]).success && trace[k].tool_event_id == event_id
            && trace[k].exact_input_digest == input_digest && trace[k].observed_output_digest
            == output_digest && contains(trace[k].exact_input, path) && contains(
            trace[k].exact_input,
            target,
        ) {
        let k = choose|k: int|
            0 <= k < trace.len() && (#[trigger] trace[k]).success && trace[k].tool_event_id
                == event_id && trace[k].exact_input_digest == input_digest
                && trace[k].observed_output_digest == output_digest && contains(
                trace[k].exact_input,
                path,
            ) && contains(trace[k].exact_input, target);
        assert(event_supports(trace[k], event_id, input_digest, output_digest, path, target));
    }
}

/// The line that tells a verifier how to cite a run holds all that a citation
/// needs.
pub proof fn law_marker_holds_what_a_citation_needs(event: EventView)
    ensures
        contains(
            marker(event),
            "tool_event_id="@ + event.tool_event_id + " exact_input_digest="@
                + event.exact_input_digest + " observed_output_digest="@
                + event.observed_output_digest + " success="@ + (if event.success {
                "true"@
            } else {
                "false"@
            }),
        ),
{
    let inner = "tool_event_id="@ + event.tool_event_id + " exact_input_digest="@
        + event.exact_input_digest + " observed_output_digest="@ + event.observed_output_digest
        + " success="@ + bool_text(event.success);
    reveal_strlit("\n[verification-evidence tool_event_id=");
    reveal_strlit("\n[verification-evidence ");
    reveal_strlit("tool_event_id=");
    assert("\n[verification-evidence tool_event_id="@ =~= "\n[verification-evidence "@
        + "tool_event_id="@);
    assert(marker(event) =~= "\n[verification-evidence "@ + inner + "]\n"@);
    lemma_contains_itself("\n[verification-evidence "@, inner, "]\n"@);
}

} // verus!
