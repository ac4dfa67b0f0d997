//! The fingerprint of the gaps of a round, by which a stall is recognized.

use vstd::prelude::*;

use crate::panel::SkepticResult;
use crate::text::{
    append, append_str, blank, chars_of, contains, contains_str, copy_of, digit, has_char,
    has_char_of, is_blank, is_digit, join, join_of, lemma_join_holds_its_parts, lemma_sorted_set,
    lemma_sorted_set_by_members, lemma_texts_push, lower, lower_of, slice_of, sorted_set,
    sorted_set_of, split, split_of, string_of, strings, strings_of, texts, trim, trim_by,
    trim_by_of, trim_of, words, words_of, CharClass,
};

verus! {

// ---------------------------------------------------------------------------
// Scratch paths

/// Whether a text holds the path of a scratch file.
pub open spec fn names_scratch(text: Seq<char>) -> bool {
    contains(text, "/tmp/"@) || contains(text, "/var/folders/"@) || contains(text, "/private/tmp/"@)
}

fn names_scratch_of(text: &Vec<char>) -> (r: bool)
    ensures
        r == names_scratch(text@),
{
    contains_str(text, "/tmp/") || contains_str(text, "/var/folders/") || contains_str(
        text,
        "/private/tmp/",
    )
}

pub open spec fn masked_word(word: Seq<char>) -> Seq<char> {
    if names_scratch(word) {
        "<scratch>"@
    } else {
        word
    }
}

pub open spec fn masked_words(all: Seq<Seq<char>>) -> Seq<Seq<char>> {
    Seq::new(all.len(), |i: int| masked_word(all[i]))
}

/// A text in which the words with scratch paths are masked, since such paths
/// differ from attempt to attempt.
pub open spec fn without_scratch(text: Seq<char>) -> Seq<char> {
    if names_scratch(text) {
        join(masked_words(words(text)), " "@)
    } else {
        text
    }
}

fn without_scratch_of(text: &Vec<char>) -> (r: Vec<char>)
    ensures
        r@ == without_scratch(text@),
{
    if !names_scratch_of(text) {
        return copy_of(text);
    }
    let all = words_of(text);
    let ghost ws = words(text@);
    let mut out: Vec<Vec<char>> = Vec::new();
    let mut i: usize = 0;
    while i < all.len()
        invariant
            i <= all@.len(),
            ws == texts(all@),
            out@.len() == i,
            forall|k: int| 0 <= k < i ==> (#[trigger] out@[k])@ == masked_words(ws)[k],
        decreases all@.len() - i,
    {
        proof {
            assert(ws[i as int] == all@[i as int]@);
        }
        let word = if names_scratch_of(&all[i]) {
            chars_of("<scratch>")
        } else {
            copy_of(&all[i])
        };
        out.push(word);
        i += 1;
    }
    proof {
        assert(texts(out@) =~= masked_words(ws));
    }
    join_of(&out, " ")
}

pub fn normalize_scratch_paths(text: &str) -> (r: String)
    ensures
        r@ == without_scratch(text@),
{
    let v = chars_of(text);
    string_of(&without_scratch_of(&v))
}

// ---------------------------------------------------------------------------
// Citations

/// The number of characters before the first `c`.
pub open spec fn reach(s: Seq<char>, c: char) -> nat
    decreases s.len(),
{
    if s.len() == 0 || s[0] == c {
        0
    } else {
        1 + reach(s.drop_first(), c)
    }
}

fn reach_of(s: &Vec<char>, c: char) -> (r: usize)
    ensures
        r == reach(s@, c),
        r <= s@.len(),
{
    let mut i: usize = 0;
    proof {
        assert(s@.skip(0) =~= s@);
    }
    while i < s.len() && s[i] != c
        invariant
            i <= s@.len(),
            reach(s@, c) == i + reach(s@.skip(i as int), c),
        decreases s@.len() - i,
    {
        proof {
            assert(s@.skip(i as int).drop_first() =~= s@.skip(i as int + 1));
        }
        i += 1;
    }
    i
}

pub open spec fn all_digits(s: Seq<char>) -> bool {
    forall|i: int| 0 <= i < s.len() ==> is_digit(#[trigger] s[i])
}

fn all_digits_of(s: &Vec<char>) -> (r: bool)
    ensures
        r == all_digits(s@),
{
    let mut i: usize = 0;
    while i < s.len()
        invariant
            i <= s@.len(),
            forall|k: int| 0 <= k < i ==> is_digit(#[trigger] s@[k]),
        decreases s@.len() - i,
    {
        if !digit(s[i]) {
            return false;
        }
        i += 1;
    }
    true
}

/// What a word cites: a path with a line number, whatever follows it.
pub open spec fn citation(raw: Seq<char>) -> Option<Seq<char>> {
    let word = trim_by(raw, CharClass::NotCitation);
    let n = reach(word, ':') as int;
    if n >= word.len() {
        None
    } else {
        let path = word.take(n);
        let rest = word.skip(n + 1);
        let line = rest.take(reach(rest, ':') as int);
        if path.len() > 0 && (has_char(path, '/') || has_char(path, '.')) && line.len() > 0
            && all_digits(line) {
            Some(lower(path) + ":"@ + line)
        } else {
            None
        }
    }
}

fn citation_of(raw: &Vec<char>) -> (r: Option<Vec<char>>)
    ensures
        match citation(raw@) {
            Some(token) => r is Some && r->0@ == token,
            None => r is None,
        },
{
    let word = trim_by_of(raw, CharClass::NotCitation);
    let n = reach_of(&word, ':');
    if n >= word.len() {
        return None;
    }
    let path = slice_of(&word, 0, n);
    let rest = slice_of(&word, n + 1, word.len());
    let m = reach_of(&rest, ':');
    let line = slice_of(&rest, 0, m);
    proof {
        assert(path@ =~= word@.take(n as int));
        assert(rest@ =~= word@.skip(n + 1));
        assert(line@ =~= rest@.take(m as int));
    }
    if path.len() > 0 && (has_char_of(&path, '/') || has_char_of(&path, '.')) && line.len() > 0
        && all_digits_of(&line) {
        let mut out = lower_of(&path);
        append_str(&mut out, ":");
        append(&mut out, &line);
        Some(out)
    } else {
        None
    }
}

/// The citations in the first `n` pieces.
pub open spec fn citations_in(pieces: Seq<Seq<char>>, n: int) -> Seq<Seq<char>>
    decreases n,
{
    if n <= 0 {
        seq![]
    } else {
        match citation(pieces[n - 1]) {
            Some(token) => citations_in(pieces, n - 1).push(token),
            None => citations_in(pieces, n - 1),
        }
    }
}

/// The citations of a text, in order.
pub open spec fn citations(text: Seq<char>) -> Seq<Seq<char>> {
    let pieces = split(text, CharClass::White);
    citations_in(pieces, pieces.len() as int)
}

fn citations_of(text: &Vec<char>) -> (r: Vec<Vec<char>>)
    ensures
        texts(r@) == citations(text@),
{
    let pieces = split_of(text, CharClass::White);
    let ghost ps = split(text@, CharClass::White);
    let mut out: Vec<Vec<char>> = Vec::new();
    let mut n: usize = 0;
    proof {
        assert(texts(out@) =~= citations_in(ps, 0));
    }
    while n < pieces.len()
        invariant
            n <= pieces@.len(),
            ps == texts(pieces@),
            texts(out@) == citations_in(ps, n as int),
        decreases pieces@.len() - n,
    {
        proof {
            assert(ps[n as int] == pieces@[n as int]@);
        }
        if let Some(token) = citation_of(&pieces[n]) {
            proof {
                lemma_texts_push(out@, token);
            }
            out.push(token);
        }
        n += 1;
    }
    out
}

pub fn extract_path_line_tokens(text: &str) -> (r: Vec<String>)
    ensures
        strings(r@) == citations(text@),
{
    let v = chars_of(text);
    let list = citations_of(&v);
    strings_of(&list)
}

// ---------------------------------------------------------------------------
// The fingerprint

/// The citations in the first `n` pieces of evidence.
pub open spec fn cited(evidence: Seq<Seq<char>>, n: int) -> Seq<Seq<char>>
    decreases n,
{
    if n <= 0 {
        seq![]
    } else {
        cited(evidence, n - 1) + citations(without_scratch(evidence[n - 1]))
    }
}

/// The first `n` pieces of evidence themselves, where they say something.
pub open spec fn stated(evidence: Seq<Seq<char>>, n: int) -> Seq<Seq<char>>
    decreases n,
{
    if n <= 0 {
        seq![]
    } else {
        let text = lower(trim(without_scratch(evidence[n - 1])));
        if text.len() == 0 {
            stated(evidence, n - 1)
        } else {
            stated(evidence, n - 1).push(text)
        }
    }
}

/// What identifies the gaps: the places that the evidence cites, or the
/// evidence itself where it cites none; sorted, and each once.
pub open spec fn fingerprint(evidence: Seq<Seq<char>>) -> Seq<char> {
    let n = evidence.len() as int;
    let tokens = if cited(evidence, n).len() > 0 {
        cited(evidence, n)
    } else {
        stated(evidence, n)
    };
    join(sorted_set(tokens), "\n"@)
}

/// The views of a list of string slices.
pub open spec fn slices(v: Seq<&str>) -> Seq<Seq<char>> {
    Seq::new(v.len(), |i: int| v[i]@)
}

fn extend(out: &mut Vec<Vec<char>>, more: &Vec<Vec<char>>)
    ensures
        texts(final(out)@) == texts(old(out)@) + texts(more@),
{
    let mut i: usize = 0;
    let ghost ms = texts(more@);
    proof {
        assert(texts(old(out)@) + ms.take(0) =~= texts(old(out)@));
    }
    while i < more.len()
        invariant
            i <= more@.len(),
            ms == texts(more@),
            texts(out@) == texts(old(out)@) + ms.take(i as int),
        decreases more@.len() - i,
    {
        let x = copy_of(&more[i]);
        proof {
            lemma_texts_push(out@, x);
            assert((texts(old(out)@) + ms.take(i as int)).push(x@) =~= texts(old(out)@) + ms.take(
                i + 1,
            ));
        }
        out.push(x);
        i += 1;
    }
    proof {
        assert(ms.take(more@.len() as int) =~= ms);
    }
}

pub fn gap_fingerprint(raw_evidence: &[&str]) -> (r: String)
    ensures
        r@ == fingerprint(slices(raw_evidence@)),
{
    let ghost es = slices(raw_evidence@);
    let mut tokens: Vec<Vec<char>> = Vec::new();
    let mut texts_said: Vec<Vec<char>> = Vec::new();
    let mut n: usize = 0;
    proof {
        assert(texts(tokens@) =~= cited(es, 0));
        assert(texts(texts_said@) =~= stated(es, 0));
    }
    while n < raw_evidence.len()
        invariant
            n <= raw_evidence@.len(),
            es == slices(raw_evidence@),
            texts(tokens@) == cited(es, n as int),
            texts(texts_said@) == stated(es, n as int),
        decreases raw_evidence@.len() - n,
    {
        let v = chars_of(raw_evidence[n]);
        proof {
            assert(es[n as int] == v@);
        }
        let masked = without_scratch_of(&v);
        extend(&mut tokens, &citations_of(&masked));
        let said = lower_of(&trim_of(&masked));
        if said.len() > 0 {
            proof {
                lemma_texts_push(texts_said@, said);
            }
            texts_said.push(said);
        }
        n += 1;
    }
    proof {
        assert(texts(tokens@).len() == tokens@.len());
    }
    let sorted = if tokens.len() > 0 {
        sorted_set_of(&tokens)
    } else {
        sorted_set_of(&texts_said)
    };
    string_of(&join_of(&sorted, "\n"))
}

/// What of a refuting skeptic goes into the fingerprint.
pub open spec fn fingerprint_source(r: SkepticResult) -> Seq<char> {
    if is_blank(r.evidence@) {
        match r.fallback_note {
            Some(note) => note@,
            None => seq![],
        }
    } else {
        r.evidence@
    }
}

pub fn refuter_fingerprint_source(r: &SkepticResult) -> (out: &str)
    ensures
        out@ == fingerprint_source(*r),
{
    if blank(r.evidence.as_str()) {
        match &r.fallback_note {
            Some(note) => note.as_str(),
            None => {
                proof {
                    reveal_strlit("");
                    assert(""@ =~= seq![]);
                }
                ""
            },
        }
    } else {
        r.evidence.as_str()
    }
}

// ---------------------------------------------------------------------------
// Stability

proof fn lemma_cited_members(evidence: Seq<Seq<char>>, n: int)
    requires
        0 <= n <= evidence.len(),
    ensures
        forall|y: Seq<char>| #[trigger]
            cited(evidence, n).contains(y) <==> exists|k: int|
                0 <= k < n && citations(without_scratch(#[trigger] evidence[k])).contains(y),
    decreases n,
{
    if n > 0 {
        lemma_cited_members(evidence, n - 1);
        let before = cited(evidence, n - 1);
        let more = citations(without_scratch(evidence[n - 1]));
        let all = cited(evidence, n);
        assert(all == before + more);
        assert forall|y: Seq<char>| #[trigger]
            all.contains(y) <==> exists|k: int|
                0 <= k < n && citations(without_scratch(#[trigger] evidence[k])).contains(y) by {
            if all.contains(y) {
                let m = choose|m: int| 0 <= m < all.len() && all[m] == y;
                if m < before.len() {
                    assert(before[m] == y);
                    assert(before.contains(y));
                } else {
                    assert(more[m - before.len()] == y);
                    assert(citations(without_scratch(evidence[n - 1])).contains(y));
                }
            }
            if exists|k: int|
                0 <= k < n && citations(without_scratch(#[trigger] evidence[k])).contains(y) {
                let k = choose|k: int|
                    0 <= k < n && citations(without_scratch(#[trigger] evidence[k])).contains(y);
                if k < n - 1 {
                    assert(before.contains(y));
                    let m = choose|m: int| 0 <= m < before.len() && before[m] == y;
                    assert(all[m] == y);
                } else {
                    let m = choose|m: int| 0 <= m < more.len() && more[m] == y;
                    assert(all[before.len() + m] == y);
                }
            }
        }
    }
}

proof fn lemma_stated_members(evidence: Seq<Seq<char>>, n: int)
    requires
        0 <= n <= evidence.len(),
    ensures
        forall|y: Seq<char>| #[trigger]
            stated(evidence, n).contains(y) <==> exists|k: int|
                0 <= k < n && y.len() > 0 && lower(
                    trim(without_scratch(#[trigger] evidence[k])),
                ) == y,
    decreases n,
{
    if n > 0 {
        lemma_stated_members(evidence, n - 1);
        let before = stated(evidence, n - 1);
        let text = lower(trim(without_scratch(evidence[n - 1])));
        let all = stated(evidence, n);
        assert forall|y: Seq<char>| #[trigger]
            all.contains(y) <==> exists|k: int|
                0 <= k < n && y.len() > 0 && lower(
                    trim(without_scratch(#[trigger] evidence[k])),
                ) == y by {
            if all.contains(y) {
                let m = choose|m: int| 0 <= m < all.len() && all[m] == y;
                if m < before.len() {
                    assert(before[m] == y);
                    assert(before.contains(y));
                } else {
                    assert(y == text);
                    assert(lower(trim(without_scratch(evidence[n - 1]))) == y);
                }
            }
            if exists|k: int|
                0 <= k < n && y.len() > 0 && lower(trim(without_scratch(#[trigger] evidence[k])))
                    == y {
                let k = choose|k: int|
                    0 <= k < n && y.len() > 0 && lower(
                        trim(without_scratch(#[trigger] evidence[k])),
                    ) == y;
                if k < n - 1 {
                    assert(before.contains(y));
                    let m = choose|m: int| 0 <= m < before.len() && before[m] == y;
                    assert(all[m] == y);
                } else {
                    assert(all[before.len() as int] == y);
                }
            }
        }
    }
}

proof fn lemma_member_index(a: Seq<Seq<char>>, b: Seq<Seq<char>>, k: int) -> (m: int)
    requires
        0 <= k < a.len(),
        forall|y: Seq<char>| a.contains(y) ==> #[trigger] b.contains(y),
    ensures
        0 <= m < b.len(),
        b[m] == a[k],
{
    assert(a.contains(a[k]));
    assert(b.contains(a[k]));
    choose|m: int| 0 <= m < b.len() && b[m] == a[k]
}

/// The order in which the panel reports, and evidence that is given twice, make
/// no difference to the fingerprint.
pub proof fn law_fingerprint_depends_on_the_set_of_evidence(
    a: Seq<Seq<char>>,
    b: Seq<Seq<char>>,
)
    requires
        forall|y: Seq<char>| #[trigger] a.contains(y) <==> b.contains(y),
    ensures
        fingerprint(a) == fingerprint(b),
{
    let n = a.len() as int;
    let m = b.len() as int;
    lemma_cited_members(a, n);
    lemma_cited_members(b, m);
    lemma_stated_members(a, n);
    lemma_stated_members(b, m);
    assert forall|y: Seq<char>| b.contains(y) implies #[trigger] a.contains(y) by {}
    assert forall|y: Seq<char>| a.contains(y) implies #[trigger] b.contains(y) by {}
    let ca = cited(a, n);
    let cb = cited(b, m);
    assert forall|y: Seq<char>|
        #![trigger ca.contains(y)]
        #![trigger cb.contains(y)]
        ca.contains(y) <==> cb.contains(y) by {
        if ca.contains(y) {
            let k = choose|k: int|
                0 <= k < n && citations(without_scratch(#[trigger] a[k])).contains(y);
            let j = lemma_member_index(a, b, k);
            assert(citations(without_scratch(b[j])).contains(y));
        }
        if cb.contains(y) {
            let k = choose|k: int|
                0 <= k < m && citations(without_scratch(#[trigger] b[k])).contains(y);
            let j = lemma_member_index(b, a, k);
            assert(citations(without_scratch(a[j])).contains(y));
        }
    }
    lemma_sorted_set_by_members(ca, cb);
    let sa = stated(a, n);
    let sb = stated(b, m);
    assert forall|y: Seq<char>|
        #![trigger sa.contains(y)]
        #![trigger sb.contains(y)]
        sa.contains(y) <==> sb.contains(y) by {
        if sa.contains(y) {
            let k = choose|k: int|
                0 <= k < n && y.len() > 0 && lower(trim(without_scratch(#[trigger] a[k]))) == y;
            let j = lemma_member_index(a, b, k);
            assert(lower(trim(without_scratch(b[j]))) == y);
        }
        if sb.contains(y) {
            let k = choose|k: int|
                0 <= k < m && y.len() > 0 && lower(trim(without_scratch(#[trigger] b[k]))) == y;
            let j = lemma_member_index(b, a, k);
            assert(lower(trim(without_scratch(a[j]))) == y);
        }
    }
    lemma_sorted_set_by_members(sa, sb);
    if ca.len() > 0 {
        assert(ca.contains(ca[0]));
        assert(cb.contains(ca[0]));
    }
    if cb.len() > 0 {
        assert(cb.contains(cb[0]));
        assert(ca.contains(cb[0]));
    }
}

/// Evidence in which nothing but scratch paths differs has one fingerprint.
pub proof fn law_fingerprint_ignores_scratch_paths(a: Seq<Seq<char>>, b: Seq<Seq<char>>)
    requires
        a.len() == b.len(),
        forall|k: int|
            0 <= k < a.len() ==> without_scratch(#[trigger] a[k]) == without_scratch(b[k]),
    ensures
        fingerprint(a) == fingerprint(b),
{
    lemma_same_prefix(a, b, a.len() as int);
}

proof fn lemma_same_prefix(a: Seq<Seq<char>>, b: Seq<Seq<char>>, n: int)
    requires
        0 <= n <= a.len() == b.len(),
        forall|k: int|
            0 <= k < a.len() ==> without_scratch(#[trigger] a[k]) == without_scratch(b[k]),
    ensures
        cited(a, n) == cited(b, n),
        stated(a, n) == stated(b, n),
    decreases n,
{
    if n > 0 {
        lemma_same_prefix(a, b, n - 1);
        assert(without_scratch(a[n - 1]) == without_scratch(b[n - 1]));
    }
}

// ---------------------------------------------------------------------------
// What a fingerprint tells

/// A fingerprint names every place that one of the pieces of evidence cites; where
/// none cites a place, it holds every piece that says something, in lower case.
pub proof fn law_fingerprint_tells_every_gap(evidence: Seq<Seq<char>>, k: int, token: Seq<char>)
    requires
        0 <= k < evidence.len(),
    ensures
        citations(without_scratch(evidence[k])).contains(token) ==> contains(
            fingerprint(evidence),
            token,
        ),
        (forall|m: int|
            0 <= m < evidence.len() ==> citations(
                without_scratch(#[trigger] evidence[m]),
            ).len() == 0) && trim(without_scratch(evidence[k])).len() > 0 ==> contains(
            fingerprint(evidence),
            lower(trim(without_scratch(evidence[k]))),
        ),
{
    let n = evidence.len() as int;
    lemma_cited_members(evidence, n);
    lemma_stated_members(evidence, n);
    let places = cited(evidence, n);
    let said = stated(evidence, n);
    lemma_sorted_set(places);
    lemma_sorted_set(said);
    if citations(without_scratch(evidence[k])).contains(token) {
        assert(places.contains(token));
        assert(sorted_set(places).contains(token));
        let i = choose|i: int|
            0 <= i < sorted_set(places).len() && sorted_set(places)[i] == token;
        lemma_join_holds_its_parts(sorted_set(places), "\n"@, i);
    }
    if (forall|m: int|
        0 <= m < evidence.len() ==> citations(without_scratch(#[trigger] evidence[m])).len() == 0)
        && trim(without_scratch(evidence[k])).len() > 0 {
        let text = lower(trim(without_scratch(evidence[k])));
        assert(text.len() == trim(without_scratch(evidence[k])).len());
        if places.len() > 0 {
            assert(places.contains(places[0]));
            let m = choose|m: int|
                0 <= m < n && citations(without_scratch(#[trigger] evidence[m])).contains(
                    places[0],
                );
            assert(citations(without_scratch(evidence[m])).len() == 0);
        }
        assert(said.contains(text));
        assert(sorted_set(said).contains(text));
        let i = choose|i: int| 0 <= i < sorted_set(said).len() && sorted_set(said)[i] == text;
        lemma_join_holds_its_parts(sorted_set(said), "\n"@, i);
    }
}

proof fn lemma_reach(s: Seq<char>, c: char, n: int)
    requires
        0 <= n <= s.len(),
        forall|k: int| 0 <= k < n ==> #[trigger] s[k] != c,
        n < s.len() ==> s[n] == c,
    ensures
        reach(s, c) == n,
    decreases s.len(),
{
    if n > 0 {
        let t = s.drop_first();
        assert forall|k: int| 0 <= k < n - 1 implies #[trigger] t[k] != c by {
            assert(t[k] == s[k + 1]);
        }
        lemma_reach(t, c, n - 1);
    }
}

/// A word cites a place exactly where it is a path, which has a slash or a point
/// in it, a colon, and a number up to its end or to another colon; the place is
/// the path in lower case with that number.
pub proof fn law_place_is_a_path_with_a_line(
    raw: Seq<char>,
    path: Seq<char>,
    line: Seq<char>,
    rest: Seq<char>,
)
    requires
        trim_by(raw, CharClass::NotCitation) == path + ":"@ + line + rest,
        !path.contains(':'),
        !line.contains(':'),
        rest.len() == 0 || rest[0] == ':',
    ensures
        path.len() > 0 && (path.contains('/') || path.contains('.')) && line.len() > 0 && (forall|
            i: int,
        |
            0 <= i < line.len() ==> 48 <= #[trigger] line[i] as u32 <= 57) ==> citation(raw) == Some(
            lower(path) + ":"@ + line,
        ),
        !(path.len() > 0 && (path.contains('/') || path.contains('.')) && line.len() > 0 && (
        forall|i: int| 0 <= i < line.len() ==> 48 <= #[trigger] line[i] as u32 <= 57)) ==> citation(
            raw,
        ) is None,
{
    let word = path + ":"@ + line + rest;
    reveal_strlit(":");
    assert(":"@.len() == 1 && ":"@[0] == ':');
    assert forall|k: int| 0 <= k < path.len() implies #[trigger] word[k] != ':' by {
        assert(word[k] == path[k]);
        if path[k] == ':' {
            assert(path.contains(':'));
        }
    }
    assert(word[path.len() as int] == ':');
    lemma_reach(word, ':', path.len() as int);
    assert(word.take(path.len() as int) =~= path);
    let tail = word.skip(path.len() as int + 1);
    assert(tail =~= line + rest);
    assert forall|k: int| 0 <= k < line.len() implies #[trigger] tail[k] != ':' by {
        assert(tail[k] == line[k]);
        if line[k] == ':' {
            assert(line.contains(':'));
        }
    }
    lemma_reach(tail, ':', line.len() as int);
    assert(tail.take(line.len() as int) =~= line);
    assert(all_digits(line) <==> forall|i: int|
        0 <= i < line.len() ==> 48 <= #[trigger] line[i] as u32 <= 57) by {
        if all_digits(line) {
            assert forall|i: int| 0 <= i < line.len() implies 48 <= #[trigger] line[i] as u32
                <= 57 by {
                assert(is_digit(line[i]));
            }
        }
    }
}

proof fn lemma_citations_members(pieces: Seq<Seq<char>>, n: int, token: Seq<char>)
    requires
        0 <= n <= pieces.len(),
    ensures
        citations_in(pieces, n).contains(token) <==> exists|k: int|
            0 <= k < n && citation(#[trigger] pieces[k]) == Some(token),
    decreases n,
{
    if n > 0 {
        lemma_citations_members(pieces, n - 1, token);
        let before = citations_in(pieces, n - 1);
        let now = citations_in(pieces, n);
        if before.contains(token) {
            let k = choose|k: int| 0 <= k < before.len() && before[k] == token;
            assert(now[k] == token);
        }
        if now.contains(token) && !before.contains(token) {
            let k = choose|k: int| 0 <= k < now.len() && now[k] == token;
            if k < before.len() {
                assert(before[k] == token);
            }
            assert(citation(pieces[n - 1]) == Some(token));
        }
        if citation(pieces[n - 1]) == Some(token) {
            assert(now[before.len() as int] == token);
        }
    }
}

/// The places that a text cites are those that its words cite.
pub proof fn law_text_cites_what_its_words_cite(text: Seq<char>, token: Seq<char>)
    ensures
        citations(text).contains(token) <==> exists|k: int|
            0 <= k < split(text, CharClass::White).len() && citation(
                #[trigger] split(text, CharClass::White)[k],
            ) == Some(token),
{
    let pieces = split(text, CharClass::White);
    lemma_citations_members(pieces, pieces.len() as int, token);
}

/// A refuter is told apart by its evidence, and where it has none by why it has no
/// verdict.
pub proof fn law_refuter_is_told_apart_by_its_evidence(r: SkepticResult)
    ensures
        trim(r.evidence@).len() > 0 ==> fingerprint_source(r) == r.evidence@,
        trim(r.evidence@).len() == 0 && r.fallback_note is Some ==> fingerprint_source(r)
            == r.fallback_note->0@,
{
}

/// A text without scratch paths is taken as it is; of one with scratch paths each
/// word that holds one is masked and no other.
pub proof fn law_scratch_paths_are_masked(text: Seq<char>, k: int)
    ensures
        !contains(text, "/tmp/"@) && !contains(text, "/var/folders/"@) && !contains(
            text,
            "/private/tmp/"@,
        ) ==> without_scratch(text) == text,
        0 <= k < words(text).len() ==> masked_words(words(text))[k] == (if contains(
            words(text)[k],
            "/tmp/"@,
        ) || contains(words(text)[k], "/var/folders/"@) || contains(
            words(text)[k],
            "/private/tmp/"@,
        ) {
            "<scratch>"@
        } else {
            words(text)[k]
        }),
        contains(text, "/tmp/"@) || contains(text, "/var/folders/"@) || contains(
            text,
            "/private/tmp/"@,
        ) ==> without_scratch(text) == join(masked_words(words(text)), " "@),
{
}

} // verus!
