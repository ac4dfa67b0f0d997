//! Diagnostics for subagents that failed.
//!
//! A coordinator may report a failure without saying why: a session was
//! dropped, the response was empty, a cancellation raced the completion. What
//! is known is put into words here, so that nobody is told `unknown error`.

use vstd::prelude::*;

use crate::text::{
    blank, cat2, cat3, cat5, chars_of, control, ellipsized, ellipsized_of, is_blank, is_control,
    string_of, trim, trim_str,
};

verus! {

/// How long a message may be, in characters.
pub const MAX_MESSAGE_CHARS: usize = 500;

/// A text with control characters replaced by spaces.
pub open spec fn without_controls(text: Seq<char>) -> Seq<char> {
    text.map_values(
        |c: char|
            if is_control(c) {
                ' '
            } else {
                c
            },
    )
}

/// The last `max` characters of an output without control characters, with an
/// ellipsis where something was left out.
pub open spec fn tail_of(output: Seq<char>, max: int) -> Seq<char> {
    let clean = without_controls(output);
    if clean.len() > max {
        seq!['…'] + clean.skip(clean.len() - max)
    } else {
        clean
    }
}

pub fn output_tail(output: &str, max_chars: usize) -> (r: String)
    ensures
        r@ == tail_of(output@, max_chars as int),
{
    let v = chars_of(output);
    let mut out: Vec<char> = Vec::new();
    let mut i: usize = 0;
    if v.len() > max_chars {
        out.push('…');
        i = v.len() - max_chars;
    }
    let ghost lead = out@;
    let ghost clean = without_controls(output@);
    let ghost start = i as int;
    proof {
        assert(lead + clean.subrange(start, start) =~= lead);
    }
    while i < v.len()
        invariant
            start <= i <= v@.len(),
            0 <= start,
            v@ == output@,
            clean == without_controls(output@),
            out@ == lead + clean.subrange(start, i as int),
        decreases v@.len() - i,
    {
        let c = v[i];
        out.push(
            if control(c) {
                ' '
            } else {
                c
            },
        );
        proof {
            assert(lead + clean.subrange(start, i + 1) =~= (lead + clean.subrange(
                start,
                i as int,
            )).push(clean[i as int]));
        }
        i += 1;
    }
    proof {
        assert(clean.subrange(start, clean.len() as int) =~= clean.skip(start));
        assert(out@ =~= tail_of(output@, max_chars as int));
    }
    string_of(&out)
}

pub fn truncate(text: &str, max_chars: usize) -> (r: String)
    ensures
        r@ == ellipsized(text@, max_chars as int),
{
    let v = chars_of(text);
    string_of(&ellipsized_of(&v, max_chars))
}

/// Who failed.
pub open spec fn failed_party(subagent_id: Seq<char>, role: Seq<char>) -> Seq<char> {
    if is_blank(subagent_id) {
        "the "@ + role + " subagent"@
    } else {
        "the "@ + role + " subagent `"@ + subagent_id + "`"@
    }
}

/// How it failed, as far as is known.
pub open spec fn failure_body(cancelled: bool, output: Seq<char>) -> Seq<char> {
    if cancelled {
        "was cancelled before it produced a verdict"@
    } else if is_blank(output) {
        "terminated without any output or error message"@
    } else {
        "reported failure without an error message; final output tail: "@ + tail_of(output, 200)
    }
}

/// The message for a failed subagent: the error that was reported, or else what
/// else is known.
pub open spec fn failure_message(
    cancelled: bool,
    error: Option<Seq<char>>,
    output: Seq<char>,
    subagent_id: Seq<char>,
    role: Seq<char>,
) -> Seq<char> {
    if error is Some && !is_blank(error->0) {
        ellipsized(trim(error->0), MAX_MESSAGE_CHARS as int)
    } else {
        ellipsized(
            failed_party(subagent_id, role) + " "@ + failure_body(cancelled, output),
            MAX_MESSAGE_CHARS as int,
        )
    }
}

/// The view of an optional string slice.
pub open spec fn opt_slice(o: Option<&str>) -> Option<Seq<char>> {
    match o {
        Some(s) => Some(s@),
        None => None,
    }
}

pub fn describe_subagent_failure(
    cancelled: bool,
    error: Option<&str>,
    output: &str,
    subagent_id: &str,
    role: &str,
) -> (r: String)
    ensures
        r@ == failure_message(cancelled, opt_slice(error), output@, subagent_id@, role@),
        r@.len() <= MAX_MESSAGE_CHARS,
{
    if let Some(message) = error {
        let trimmed = trim_str(message);
        if !trimmed.as_str().is_empty() {
            return truncate(trimmed.as_str(), MAX_MESSAGE_CHARS);
        }
    }
    let who = if blank(subagent_id) {
        cat3("the ", role, " subagent")
    } else {
        cat5("the ", role, " subagent `", subagent_id, "`")
    };
    let body = if cancelled {
        "was cancelled before it produced a verdict".to_owned()
    } else if blank(output) {
        "terminated without any output or error message".to_owned()
    } else {
        let tail = output_tail(output, 200);
        cat2(
            "reported failure without an error message; final output tail: ",
            tail.as_str(),
        )
    };
    let whole = cat3(who.as_str(), " ", body.as_str());
    truncate(whole.as_str(), MAX_MESSAGE_CHARS)
}

/// A subagent that says why it failed is quoted; of one that does not, it is told
/// who failed and how: that it was cancelled, that it said nothing, or how its
/// output ended.
pub proof fn law_failure_is_told_as_it_was(
    cancelled: bool,
    error: Option<Seq<char>>,
    output: Seq<char>,
    subagent_id: Seq<char>,
    role: Seq<char>,
)
    ensures
        ({
            let message = failure_message(cancelled, error, output, subagent_id, role);
            let said = error is Some && trim(error->0).len() > 0;
            let who = if trim(subagent_id).len() == 0 {
                "the "@ + role + " subagent"@
            } else {
                "the "@ + role + " subagent `"@ + subagent_id + "`"@
            };
            let how = if cancelled {
                "was cancelled before it produced a verdict"@
            } else if trim(output).len() == 0 {
                "terminated without any output or error message"@
            } else {
                "reported failure without an error message; final output tail: "@ + tail_of(
                    output,
                    200,
                )
            };
            &&& said ==> message == ellipsized(trim(error->0), 500)
            &&& !said ==> message == ellipsized(who + " "@ + how, 500)
        }),
{
}

/// The tail of an output is its end, with blanks for control characters, and with
/// an ellipsis before it where there is more.
pub proof fn law_tail_is_the_end_of_the_output(output: Seq<char>, max: int, i: int)
    requires
        0 <= max,
    ensures
        output.len() <= max ==> tail_of(output, max).len() == output.len(),
        output.len() > max ==> tail_of(output, max).len() == max + 1 && tail_of(output, max)[0]
            == '…',
        0 <= i < output.len() && i < max && !is_control(output[output.len() - 1 - i]) ==> tail_of(
            output,
            max,
        )[tail_of(output, max).len() - 1 - i] == output[output.len() - 1 - i],
        0 <= i < output.len() && i < max && is_control(output[output.len() - 1 - i]) ==> tail_of(
            output,
            max,
        )[tail_of(output, max).len() - 1 - i] == ' ',
{
    let clean = without_controls(output);
    if output.len() > max {
        let tail = clean.skip(clean.len() - max);
        assert(tail_of(output, max) == seq!['…'] + tail);
    }
}

} // verus!
