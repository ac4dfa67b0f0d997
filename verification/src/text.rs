//! Text operations on sequences of characters.
//!
//! A text is modelled as `Seq<char>`, the view that `str` and `String` share.
//! The executable functions work on `Vec<char>`, so that every position is a
//! character and no byte boundary can be missed.

use vstd::prelude::*;

verus! {

/// White space as Unicode defines the `White_Space` property.
pub open spec fn is_white(c: char) -> bool {
    let n = c as u32;
    (9 <= n <= 13) || n == 32 || n == 0x85 || n == 0xa0 || n == 0x1680 || (0x2000 <= n <= 0x200a)
        || n == 0x2028 || n == 0x2029 || n == 0x202f || n == 0x205f || n == 0x3000
}

/// Control characters as Unicode defines the general category `Cc`.
pub open spec fn is_control(c: char) -> bool {
    let n = c as u32;
    n < 32 || (127 <= n < 160)
}

pub open spec fn is_digit(c: char) -> bool {
    48 <= c as u32 <= 57
}

pub open spec fn is_upper(c: char) -> bool {
    65 <= c as u32 <= 90
}

pub open spec fn is_lower(c: char) -> bool {
    97 <= c as u32 <= 122
}

pub open spec fn is_alnum(c: char) -> bool {
    is_digit(c) || is_upper(c) || is_lower(c)
}

pub open spec fn is_hex(c: char) -> bool {
    is_digit(c) || (65 <= c as u32 <= 70) || (97 <= c as u32 <= 102)
}

/// A set of characters that a trim, a split or a replacement looks for.
#[derive(Clone, Copy)]
pub enum CharClass {
    /// White space.
    White,
    /// One character.
    Only(char),
    /// Either of two characters.
    Two(char, char),
    /// Any of three characters.
    Three(char, char, char),
    /// Any of four characters.
    Four(char, char, char, char),
    /// Everything but ASCII letters, ASCII digits and `-`.
    NotWord,
    /// Everything but ASCII letters, ASCII digits and `.`, `/`, `_`, `-`, `:`.
    NotCitation,
    /// Everything but ASCII letters, ASCII digits and `_`, `-`, `.`, `/`.
    NotFile,
}

impl CharClass {
    pub open spec fn has(self, c: char) -> bool {
        match self {
            CharClass::White => is_white(c),
            CharClass::Only(a) => c == a,
            CharClass::Two(a, b) => c == a || c == b,
            CharClass::Three(a, b, d) => c == a || c == b || c == d,
            CharClass::Four(a, b, d, e) => c == a || c == b || c == d || c == e,
            CharClass::NotWord => !is_alnum(c) && c != '-',
            CharClass::NotCitation => !is_alnum(c) && c != '.' && c != '/' && c != '_' && c != '-'
                && c != ':',
            CharClass::NotFile => !is_alnum(c) && c != '_' && c != '-' && c != '.' && c != '/',
        }
    }

    pub fn test(&self, c: char) -> (r: bool)
        ensures
            r == self.has(c),
    {
        match *self {
            CharClass::White => white(c),
            CharClass::Only(a) => c == a,
            CharClass::Two(a, b) => c == a || c == b,
            CharClass::Three(a, b, d) => c == a || c == b || c == d,
            CharClass::Four(a, b, d, e) => c == a || c == b || c == d || c == e,
            CharClass::NotWord => !alnum(c) && c != '-',
            CharClass::NotCitation => !alnum(c) && c != '.' && c != '/' && c != '_' && c != '-'
                && c != ':',
            CharClass::NotFile => !alnum(c) && c != '_' && c != '-' && c != '.' && c != '/',
        }
    }
}

pub fn white(c: char) -> (r: bool)
    ensures
        r == is_white(c),
{
    let n: u32 = c as u32;
    (9 <= n && n <= 13) || n == 32 || n == 0x85 || n == 0xa0 || n == 0x1680 || (0x2000 <= n && n
        <= 0x200a) || n == 0x2028 || n == 0x2029 || n == 0x202f || n == 0x205f || n == 0x3000
}

pub fn control(c: char) -> (r: bool)
    ensures
        r == is_control(c),
{
    let n: u32 = c as u32;
    n < 32 || (127 <= n && n < 160)
}

pub fn digit(c: char) -> (r: bool)
    ensures
        r == is_digit(c),
{
    let n: u32 = c as u32;
    48 <= n && n <= 57
}

pub fn alnum(c: char) -> (r: bool)
    ensures
        r == is_alnum(c),
{
    let n: u32 = c as u32;
    (48 <= n && n <= 57) || (65 <= n && n <= 90) || (97 <= n && n <= 122)
}

pub fn hex(c: char) -> (r: bool)
    ensures
        r == is_hex(c),
{
    let n: u32 = c as u32;
    (48 <= n && n <= 57) || (65 <= n && n <= 70) || (97 <= n && n <= 102)
}

/// `char::to_ascii_lowercase`.
pub open spec fn lower_char(c: char) -> char {
    if is_upper(c) {
        (c as u32 + 32) as char
    } else {
        c
    }
}

/// `char::to_ascii_uppercase`.
pub open spec fn upper_char(c: char) -> char {
    if is_lower(c) {
        (c as u32 - 32) as char
    } else {
        c
    }
}

pub open spec fn lower(s: Seq<char>) -> Seq<char> {
    s.map_values(|c: char| lower_char(c))
}

pub open spec fn upper(s: Seq<char>) -> Seq<char> {
    s.map_values(|c: char| upper_char(c))
}

pub fn upper_one(c: char) -> (r: char)
    ensures
        r == upper_char(c),
{
    let n: u32 = c as u32;
    if 97 <= n && n <= 122 {
        (n as u8 - 32) as char
    } else {
        c
    }
}

pub fn lower_one(c: char) -> (r: char)
    ensures
        r == lower_char(c),
{
    let n: u32 = c as u32;
    if 65 <= n && n <= 90 {
        (n as u8 + 32) as char
    } else {
        c
    }
}

// ---------------------------------------------------------------------------
// Conversions

/// `String::from_iter`: the string that holds exactly these characters in
/// this order.
#[verifier::external_body]
pub(crate) fn string_of(v: &Vec<char>) -> (r: String)
    ensures
        r@ == v@,
{
    String::from_iter(v.iter())
}

pub fn chars_of(s: &str) -> (r: Vec<char>)
    ensures
        r@ == s@,
{
    let mut out: Vec<char> = Vec::new();
    for c in it: s.chars()
        invariant
            it.seq() == s@,
            out@ == s@.take(it.index() as int),
    {
        out.push(c);
        proof {
            assert(s@.take(it.index() as int + 1) =~= s@.take(it.index() as int).push(c));
        }
    }
    proof {
        assert(s@.take(s@.len() as int) =~= s@);
    }
    out
}

pub fn same(a: &Vec<char>, b: &Vec<char>) -> (r: bool)
    ensures
        r == (a@ == b@),
{
    if a.len() != b.len() {
        return false;
    }
    let mut i: usize = 0;
    while i < a.len()
        invariant
            i <= a@.len() == b@.len(),
            forall|k: int| 0 <= k < i ==> a@[k] == b@[k],
        decreases a@.len() - i,
    {
        if a[i] != b[i] {
            return false;
        }
        i += 1;
    }
    proof {
        assert(a@ =~= b@);
    }
    true
}

/// The views of a list of character vectors.
pub open spec fn texts(v: Seq<Vec<char>>) -> Seq<Seq<char>> {
    Seq::new(v.len(), |i: int| v[i]@)
}

/// The views of a list of strings.
pub open spec fn strings(v: Seq<String>) -> Seq<Seq<char>> {
    Seq::new(v.len(), |i: int| v[i]@)
}

pub broadcast proof fn lemma_texts_push(v: Seq<Vec<char>>, x: Vec<char>)
    ensures
        #[trigger] texts(v.push(x)) == texts(v).push(x@),
{
    assert(texts(v.push(x)) =~= texts(v).push(x@));
}

pub broadcast proof fn lemma_strings_push(v: Seq<String>, x: String)
    ensures
        #[trigger] strings(v.push(x)) == strings(v).push(x@),
{
    assert(strings(v.push(x)) =~= strings(v).push(x@));
}

pub fn copy_of(s: &Vec<char>) -> (r: Vec<char>)
    ensures
        r@ == s@,
{
    slice_of(s, 0, s.len())
}

pub fn slice_of(s: &Vec<char>, from: usize, to: usize) -> (r: Vec<char>)
    requires
        from <= to <= s@.len(),
    ensures
        r@ == s@.subrange(from as int, to as int),
{
    let mut out: Vec<char> = Vec::new();
    let mut i: usize = from;
    while i < to
        invariant
            from <= i <= to <= s@.len(),
            out@ == s@.subrange(from as int, i as int),
        decreases to - i,
    {
        out.push(s[i]);
        proof {
            assert(s@.subrange(from as int, i as int + 1) =~= s@.subrange(
                from as int,
                i as int,
            ).push(s@[i as int]));
        }
        i += 1;
    }
    out
}

pub fn append(out: &mut Vec<char>, s: &Vec<char>)
    ensures
        final(out)@ == old(out)@ + s@,
{
    let mut i: usize = 0;
    proof {
        assert(old(out)@ + s@.take(0) =~= old(out)@);
    }
    while i < s.len()
        invariant
            i <= s@.len(),
            out@ == old(out)@ + s@.take(i as int),
        decreases s@.len() - i,
    {
        out.push(s[i]);
        proof {
            assert((old(out)@ + s@.take(i as int)).push(s@[i as int]) =~= old(out)@ + s@.take(
                i as int + 1,
            ));
        }
        i += 1;
    }
    proof {
        assert(s@.take(s@.len() as int) =~= s@);
    }
}

pub fn append_str(out: &mut Vec<char>, s: &str)
    ensures
        final(out)@ == old(out)@ + s@,
{
    let v = chars_of(s);
    append(out, &v);
}

pub fn lower_of(s: &Vec<char>) -> (r: Vec<char>)
    ensures
        r@ == lower(s@),
{
    let mut out: Vec<char> = Vec::new();
    let mut i: usize = 0;
    while i < s.len()
        invariant
            i <= s@.len(),
            out@.len() == i,
            forall|k: int| 0 <= k < i ==> out@[k] == lower_char(s@[k]),
        decreases s@.len() - i,
    {
        out.push(lower_one(s[i]));
        i += 1;
    }
    proof {
        assert(out@ =~= lower(s@));
    }
    out
}

pub fn upper_of(s: &Vec<char>) -> (r: Vec<char>)
    ensures
        r@ == upper(s@),
{
    let mut out: Vec<char> = Vec::new();
    let mut i: usize = 0;
    while i < s.len()
        invariant
            i <= s@.len(),
            out@.len() == i,
            forall|k: int| 0 <= k < i ==> out@[k] == upper_char(s@[k]),
        decreases s@.len() - i,
    {
        out.push(upper_one(s[i]));
        i += 1;
    }
    proof {
        assert(out@ =~= upper(s@));
    }
    out
}

// ---------------------------------------------------------------------------
// Equality with a string

pub fn is_text(a: &Vec<char>, b: &str) -> (r: bool)
    ensures
        r == (a@ == b@),
{
    let v = chars_of(b);
    same(a, &v)
}

pub fn same_str(a: &str, b: &str) -> (r: bool)
    ensures
        r == (a@ == b@),
{
    let v = chars_of(a);
    is_text(&v, b)
}

/// `str::eq_ignore_ascii_case` on whole texts.
pub open spec fn same_ignoring_case(a: Seq<char>, b: Seq<char>) -> bool {
    lower(a) == lower(b)
}

pub fn is_text_ignoring_case(a: &Vec<char>, b: &str) -> (r: bool)
    ensures
        r == same_ignoring_case(a@, b@),
{
    let v = chars_of(b);
    let x = lower_of(a);
    let y = lower_of(&v);
    same(&x, &y)
}

// ---------------------------------------------------------------------------
// Trimming

/// `s` without the longest prefix of characters in `class`.
pub open spec fn trim_start_by(s: Seq<char>, class: CharClass) -> Seq<char>
    decreases s.len(),
{
    if s.len() > 0 && class.has(s[0]) {
        trim_start_by(s.drop_first(), class)
    } else {
        s
    }
}

/// `s` without the longest suffix of characters in `class`.
pub open spec fn trim_end_by(s: Seq<char>, class: CharClass) -> Seq<char>
    decreases s.len(),
{
    if s.len() > 0 && class.has(s.last()) {
        trim_end_by(s.drop_last(), class)
    } else {
        s
    }
}

/// `str::trim_matches`.
pub open spec fn trim_by(s: Seq<char>, class: CharClass) -> Seq<char> {
    trim_end_by(trim_start_by(s, class), class)
}

/// `str::trim`.
pub open spec fn trim(s: Seq<char>) -> Seq<char> {
    trim_by(s, CharClass::White)
}

pub fn trim_start_by_of(s: &Vec<char>, class: CharClass) -> (r: Vec<char>)
    ensures
        r@ == trim_start_by(s@, class),
{
    let mut i: usize = 0;
    proof {
        assert(s@.skip(0) =~= s@);
    }
    while i < s.len() && class.test(s[i])
        invariant
            i <= s@.len(),
            trim_start_by(s@, class) == trim_start_by(s@.skip(i as int), class),
        decreases s@.len() - i,
    {
        proof {
            assert(s@.skip(i as int).drop_first() =~= s@.skip(i as int + 1));
        }
        i += 1;
    }
    proof {
        assert(s@.subrange(i as int, s@.len() as int) =~= s@.skip(i as int));
    }
    slice_of(s, i, s.len())
}

pub fn trim_end_by_of(s: &Vec<char>, class: CharClass) -> (r: Vec<char>)
    ensures
        r@ == trim_end_by(s@, class),
{
    let mut n: usize = s.len();
    proof {
        assert(s@.take(s@.len() as int) =~= s@);
    }
    while n > 0 && class.test(s[n - 1])
        invariant
            n <= s@.len(),
            trim_end_by(s@, class) == trim_end_by(s@.take(n as int), class),
        decreases n,
    {
        proof {
            assert(s@.take(n as int).drop_last() =~= s@.take(n as int - 1));
        }
        n -= 1;
    }
    proof {
        assert(s@.subrange(0, n as int) =~= s@.take(n as int));
    }
    slice_of(s, 0, n)
}

pub fn trim_by_of(s: &Vec<char>, class: CharClass) -> (r: Vec<char>)
    ensures
        r@ == trim_by(s@, class),
{
    let v = trim_start_by_of(s, class);
    trim_end_by_of(&v, class)
}

pub fn trim_of(s: &Vec<char>) -> (r: Vec<char>)
    ensures
        r@ == trim(s@),
{
    trim_by_of(s, CharClass::White)
}

/// Whether nothing is left of `s` once it is trimmed.
pub open spec fn is_blank(s: Seq<char>) -> bool {
    trim(s).len() == 0
}

pub fn blank(s: &str) -> (r: bool)
    ensures
        r == is_blank(s@),
{
    let v = chars_of(s);
    trim_of(&v).len() == 0
}

pub fn trim_str(s: &str) -> (r: String)
    ensures
        r@ == trim(s@),
{
    let v = chars_of(s);
    string_of(&trim_of(&v))
}

/// Trimming leaves a piece of the text whose ends are outside the class.
pub proof fn lemma_trim_by_shape(s: Seq<char>, class: CharClass)
    ensures
        trim_by(s, class).len() > 0 ==> !class.has(trim_by(s, class)[0]) && !class.has(
            trim_by(s, class).last(),
        ),
        exists|i: int, j: int|
            0 <= i <= j <= s.len() && trim_by(s, class) == #[trigger] s.subrange(i, j),
{
    lemma_trim_start_shape(s, class);
    let m = trim_start_by(s, class);
    lemma_trim_end_shape(m, class);
    let i = choose|i: int| 0 <= i <= s.len() && m == #[trigger] s.subrange(i, s.len() as int);
    let j = choose|j: int|
        0 <= j <= m.len() && trim_end_by(m, class) == #[trigger] m.subrange(0, j);
    assert(m.subrange(0, j) =~= s.subrange(i, i + j));
    if trim_by(s, class).len() > 0 {
        assert(trim_by(s, class)[0] == m[0]);
    }
}

proof fn lemma_trim_start_shape(s: Seq<char>, class: CharClass)
    ensures
        trim_start_by(s, class).len() > 0 ==> !class.has(trim_start_by(s, class)[0]),
        exists|i: int|
            0 <= i <= s.len() && trim_start_by(s, class) == #[trigger] s.subrange(
                i,
                s.len() as int,
            ),
    decreases s.len(),
{
    if s.len() > 0 && class.has(s[0]) {
        let t = s.drop_first();
        lemma_trim_start_shape(t, class);
        let i = choose|i: int|
            0 <= i <= t.len() && trim_start_by(t, class) == #[trigger] t.subrange(
                i,
                t.len() as int,
            );
        assert(t.subrange(i, t.len() as int) =~= s.subrange(i + 1, s.len() as int));
    } else {
        assert(s.subrange(0, s.len() as int) =~= s);
    }
}

proof fn lemma_trim_end_shape(s: Seq<char>, class: CharClass)
    ensures
        trim_end_by(s, class).len() > 0 ==> !class.has(trim_end_by(s, class).last()),
        exists|j: int|
            0 <= j <= s.len() && trim_end_by(s, class) == #[trigger] s.subrange(0, j),
    decreases s.len(),
{
    if s.len() > 0 && class.has(s.last()) {
        let t = s.drop_last();
        lemma_trim_end_shape(t, class);
        let j = choose|j: int|
            0 <= j <= t.len() && trim_end_by(t, class) == #[trigger] t.subrange(0, j);
        assert(t.subrange(0, j) =~= s.subrange(0, j));
    } else {
        assert(s.subrange(0, s.len() as int) =~= s);
    }
}

/// A text whose ends are outside the class is left as it is.
pub proof fn lemma_trim_by_fixed(s: Seq<char>, class: CharClass)
    requires
        s.len() > 0 ==> !class.has(s[0]) && !class.has(s.last()),
    ensures
        trim_by(s, class) == s,
{
}

/// Trimming twice is trimming once.
pub proof fn lemma_trim_idempotent(s: Seq<char>)
    ensures
        trim(trim(s)) == trim(s),
{
    lemma_trim_by_shape(s, CharClass::White);
    lemma_trim_by_fixed(trim(s), CharClass::White);
}

// ---------------------------------------------------------------------------
// Searching

pub open spec fn matches_at(s: Seq<char>, p: Seq<char>, i: int) -> bool {
    0 <= i && i + p.len() <= s.len() && s.subrange(i, i + p.len()) == p
}

/// `str::contains` with a string pattern.
pub open spec fn contains(s: Seq<char>, p: Seq<char>) -> bool {
    exists|i: int| matches_at(s, p, i)
}

pub open spec fn starts_with(s: Seq<char>, p: Seq<char>) -> bool {
    matches_at(s, p, 0)
}

pub open spec fn ends_with(s: Seq<char>, p: Seq<char>) -> bool {
    matches_at(s, p, s.len() - p.len())
}

/// `str::strip_prefix`.
pub open spec fn strip_prefix(s: Seq<char>, p: Seq<char>) -> Option<Seq<char>> {
    if starts_with(s, p) {
        Some(s.skip(p.len() as int))
    } else {
        None
    }
}

pub fn matches_at_of(s: &Vec<char>, p: &Vec<char>, i: usize) -> (r: bool)
    ensures
        r == matches_at(s@, p@, i as int),
{
    if i > s.len() || s.len() - i < p.len() {
        return false;
    }
    let n: usize = s.len();
    let mut k: usize = 0;
    while k < p.len()
        invariant
            k <= p@.len(),
            n == s@.len(),
            i + p@.len() <= n,
            forall|m: int| 0 <= m < k ==> s@[i + m] == p@[m],
        decreases p@.len() - k,
    {
        if s[i + k] != p[k] {
            proof {
                assert(s@.subrange(i as int, i + p@.len())[k as int] != p@[k as int]);
            }
            return false;
        }
        k += 1;
    }
    proof {
        assert(s@.subrange(i as int, i + p@.len()) =~= p@);
    }
    true
}

pub fn contains_of(s: &Vec<char>, p: &Vec<char>) -> (r: bool)
    ensures
        r == contains(s@, p@),
{
    let mut i: usize = 0;
    while i < s.len()
        invariant
            i <= s@.len(),
            forall|k: int| 0 <= k < i ==> !matches_at(s@, p@, k),
        decreases s@.len() - i,
    {
        if matches_at_of(s, p, i) {
            return true;
        }
        i += 1;
    }
    matches_at_of(s, p, i)
}

pub fn contains_str(s: &Vec<char>, p: &str) -> (r: bool)
    ensures
        r == contains(s@, p@),
{
    let v = chars_of(p);
    contains_of(s, &v)
}

pub fn starts_with_str(s: &Vec<char>, p: &str) -> (r: bool)
    ensures
        r == starts_with(s@, p@),
{
    let v = chars_of(p);
    matches_at_of(s, &v, 0)
}

pub fn ends_with_str(s: &Vec<char>, p: &str) -> (r: bool)
    ensures
        r == ends_with(s@, p@),
{
    let v = chars_of(p);
    if v.len() > s.len() {
        return false;
    }
    matches_at_of(s, &v, s.len() - v.len())
}

pub fn strip_prefix_str(s: &Vec<char>, p: &str) -> (r: Option<Vec<char>>)
    ensures
        match strip_prefix(s@, p@) {
            Some(t) => r is Some && r->0@ == t,
            None => r is None,
        },
{
    let v = chars_of(p);
    if matches_at_of(s, &v, 0) {
        proof {
            assert(s@.subrange(v@.len() as int, s@.len() as int) =~= s@.skip(v@.len() as int));
        }
        Some(slice_of(s, v.len(), s.len()))
    } else {
        None
    }
}

pub open spec fn has_char(s: Seq<char>, c: char) -> bool {
    exists|i: int| 0 <= i < s.len() && s[i] == c
}

pub fn has_char_of(s: &Vec<char>, c: char) -> (r: bool)
    ensures
        r == has_char(s@, c),
{
    let mut i: usize = 0;
    while i < s.len()
        invariant
            i <= s@.len(),
            forall|k: int| 0 <= k < i ==> s@[k] != c,
        decreases s@.len() - i,
    {
        if s[i] == c {
            return true;
        }
        i += 1;
    }
    false
}

/// Whether `s` contains one of the signals.
pub open spec fn mentions_any(s: Seq<char>, signals: Seq<&str>) -> bool {
    exists|k: int| 0 <= k < signals.len() && contains(s, #[trigger] signals[k]@)
}

pub fn mentions_any_of(s: &Vec<char>, signals: &[&str]) -> (r: bool)
    ensures
        r == mentions_any(s@, signals@),
{
    let mut k: usize = 0;
    while k < signals.len()
        invariant
            k <= signals@.len(),
            forall|m: int| 0 <= m < k ==> !contains(s@, #[trigger] signals@[m]@),
        decreases signals@.len() - k,
    {
        if contains_str(s, signals[k]) {
            return true;
        }
        k += 1;
    }
    false
}

/// Whether `s` is one of the words.
pub open spec fn is_one_of(s: Seq<char>, words: Seq<&str>) -> bool {
    exists|k: int| 0 <= k < words.len() && s == #[trigger] words[k]@
}

pub fn one_of(s: &Vec<char>, words: &[&str]) -> (r: bool)
    ensures
        r == is_one_of(s@, words@),
{
    let mut k: usize = 0;
    while k < words.len()
        invariant
            k <= words@.len(),
            forall|m: int| 0 <= m < k ==> s@ != #[trigger] words@[m]@,
        decreases words@.len() - k,
    {
        if is_text(s, words[k]) {
            return true;
        }
        k += 1;
    }
    false
}

// ---------------------------------------------------------------------------
// Splitting and joining

/// The pieces of `s` from `start` on, where the scan for a separator has
/// reached `i`.
pub open spec fn split_from(s: Seq<char>, class: CharClass, start: int, i: int) -> Seq<Seq<char>>
    decreases s.len() - i,
{
    if i < 0 || i >= s.len() {
        seq![s.subrange(start, s.len() as int)]
    } else if class.has(s[i]) {
        seq![s.subrange(start, i)] + split_from(s, class, i + 1, i + 1)
    } else {
        split_from(s, class, start, i + 1)
    }
}

/// `str::split` at every character of the class.
pub open spec fn split(s: Seq<char>, class: CharClass) -> Seq<Seq<char>> {
    split_from(s, class, 0, 0)
}

/// There is always a piece, be it an empty one.
pub proof fn lemma_split_some(s: Seq<char>, class: CharClass, start: int, i: int)
    requires
        0 <= start <= i <= s.len(),
    ensures
        split_from(s, class, start, i).len() > 0,
    decreases s.len() - i,
{
    if i < s.len() && !class.has(s[i]) {
        lemma_split_some(s, class, start, i + 1);
    }
}

pub fn split_of(s: &Vec<char>, class: CharClass) -> (r: Vec<Vec<char>>)
    ensures
        texts(r@) == split(s@, class),
{
    broadcast use lemma_texts_push;

    let mut out: Vec<Vec<char>> = Vec::new();
    let mut start: usize = 0;
    let mut i: usize = 0;
    proof {
        assert(texts(out@) + split(s@, class) =~= split(s@, class));
    }
    while i < s.len()
        invariant
            start <= i <= s@.len(),
            texts(out@) + split_from(s@, class, start as int, i as int) == split(s@, class),
        decreases s@.len() - i,
    {
        if class.test(s[i]) {
            let piece = slice_of(s, start, i);
            proof {
                let rest = split_from(s@, class, i + 1, i + 1);
                assert(texts(out@) + (seq![piece@] + rest) =~= texts(out@).push(piece@) + rest);
            }
            out.push(piece);
            start = i + 1;
        }
        i += 1;
    }
    let piece = slice_of(s, start, s.len());
    proof {
        assert(texts(out@) + seq![piece@] =~= texts(out@).push(piece@));
    }
    out.push(piece);
    out
}

/// `line` without one carriage return at its end.
pub open spec fn strip_carriage_return(line: Seq<char>) -> Seq<char> {
    if line.len() > 0 && line.last() == '\r' {
        line.drop_last()
    } else {
        line
    }
}

pub open spec fn lines_from(s: Seq<char>, start: int, i: int) -> Seq<Seq<char>>
    decreases s.len() - i,
{
    if i < 0 || i >= s.len() {
        if start < s.len() {
            seq![s.subrange(start, s.len() as int)]
        } else {
            seq![]
        }
    } else if s[i] == '\n' {
        seq![strip_carriage_return(s.subrange(start, i))] + lines_from(s, i + 1, i + 1)
    } else {
        lines_from(s, start, i + 1)
    }
}

/// `str::lines`: the pieces that end in a line feed, without it and without a
/// carriage return before it, and what follows the last line feed.
pub open spec fn lines(s: Seq<char>) -> Seq<Seq<char>> {
    lines_from(s, 0, 0)
}

pub fn lines_of(s: &Vec<char>) -> (r: Vec<Vec<char>>)
    ensures
        texts(r@) == lines(s@),
{
    broadcast use lemma_texts_push;

    let mut out: Vec<Vec<char>> = Vec::new();
    let mut start: usize = 0;
    let mut i: usize = 0;
    proof {
        assert(texts(out@) + lines(s@) =~= lines(s@));
    }
    while i < s.len()
        invariant
            start <= i <= s@.len(),
            texts(out@) + lines_from(s@, start as int, i as int) == lines(s@),
        decreases s@.len() - i,
    {
        if s[i] == '\n' {
            let mut piece = slice_of(s, start, i);
            if piece.len() > 0 && piece[piece.len() - 1] == '\r' {
                piece = slice_of(&piece, 0, piece.len() - 1);
            }
            proof {
                assert(piece@ =~= strip_carriage_return(s@.subrange(start as int, i as int)));
                let rest = lines_from(s@, i + 1, i + 1);
                assert(texts(out@) + (seq![piece@] + rest) =~= texts(out@).push(piece@) + rest);
            }
            out.push(piece);
            start = i + 1;
        }
        i += 1;
    }
    if start < s.len() {
        let piece = slice_of(s, start, s.len());
        proof {
            assert(texts(out@) + seq![piece@] =~= texts(out@).push(piece@));
        }
        out.push(piece);
    } else {
        proof {
            assert(texts(out@) + seq![] =~= texts(out@));
        }
    }
    out
}

pub open spec fn words_from(s: Seq<char>, start: int, i: int) -> Seq<Seq<char>>
    decreases s.len() - i,
{
    if i < 0 || i >= s.len() {
        if start < s.len() {
            seq![s.subrange(start, s.len() as int)]
        } else {
            seq![]
        }
    } else if is_white(s[i]) {
        if start < i {
            seq![s.subrange(start, i)] + words_from(s, i + 1, i + 1)
        } else {
            words_from(s, i + 1, i + 1)
        }
    } else {
        words_from(s, start, i + 1)
    }
}

/// `str::split_whitespace`: the longest pieces without white space.
pub open spec fn words(s: Seq<char>) -> Seq<Seq<char>> {
    words_from(s, 0, 0)
}

pub fn words_of(s: &Vec<char>) -> (r: Vec<Vec<char>>)
    ensures
        texts(r@) == words(s@),
{
    broadcast use lemma_texts_push;

    let mut out: Vec<Vec<char>> = Vec::new();
    let mut start: usize = 0;
    let mut i: usize = 0;
    proof {
        assert(texts(out@) + words(s@) =~= words(s@));
    }
    while i < s.len()
        invariant
            start <= i <= s@.len(),
            texts(out@) + words_from(s@, start as int, i as int) == words(s@),
        decreases s@.len() - i,
    {
        if white(s[i]) {
            if start < i {
                let piece = slice_of(s, start, i);
                proof {
                    let rest = words_from(s@, i + 1, i + 1);
                    assert(texts(out@) + (seq![piece@] + rest) =~= texts(out@).push(piece@) + rest);
                }
                out.push(piece);
            }
            start = i + 1;
        }
        i += 1;
    }
    if start < s.len() {
        let piece = slice_of(s, start, s.len());
        proof {
            assert(texts(out@) + seq![piece@] =~= texts(out@).push(piece@));
        }
        out.push(piece);
    } else {
        proof {
            assert(texts(out@) + seq![] =~= texts(out@));
        }
    }
    out
}

/// `slice::join`: the parts with the separator between them.
pub open spec fn join(parts: Seq<Seq<char>>, sep: Seq<char>) -> Seq<char>
    decreases parts.len(),
{
    if parts.len() == 0 {
        seq![]
    } else if parts.len() == 1 {
        parts[0]
    } else {
        join(parts.drop_last(), sep) + sep + parts.last()
    }
}

pub fn join_of(parts: &Vec<Vec<char>>, sep: &str) -> (r: Vec<char>)
    ensures
        r@ == join(texts(parts@), sep@),
{
    let mut out: Vec<char> = Vec::new();
    let mut i: usize = 0;
    while i < parts.len()
        invariant
            i <= parts@.len(),
            out@ == join(texts(parts@).take(i as int), sep@),
        decreases parts@.len() - i,
    {
        if i > 0 {
            append_str(&mut out, sep);
        }
        append(&mut out, &parts[i]);
        proof {
            let all = texts(parts@);
            assert(all.take(i as int + 1).drop_last() =~= all.take(i as int));
            if i == 0 {
                assert(out@ =~= all[0]);
            }
        }
        i += 1;
    }
    proof {
        assert(texts(parts@).take(parts@.len() as int) =~= texts(parts@));
    }
    out
}

// ---------------------------------------------------------------------------
// Replacing

/// `str::replace` from position `i` on: the leftmost occurrences of `p` that
/// do not overlap give way to `t`.
pub open spec fn replace_from(s: Seq<char>, p: Seq<char>, t: Seq<char>, i: int) -> Seq<char>
    decreases s.len() - i,
{
    if i < 0 || i >= s.len() {
        seq![]
    } else if p.len() > 0 && matches_at(s, p, i) {
        t + replace_from(s, p, t, i + p.len())
    } else {
        seq![s[i]] + replace_from(s, p, t, i + 1)
    }
}

pub open spec fn replace(s: Seq<char>, p: Seq<char>, t: Seq<char>) -> Seq<char> {
    replace_from(s, p, t, 0)
}

pub fn replace_of(s: &Vec<char>, p: &str, t: &str) -> (r: Vec<char>)
    requires
        p@.len() > 0,
    ensures
        r@ == replace(s@, p@, t@),
{
    let pv = chars_of(p);
    let tv = chars_of(t);
    let mut out: Vec<char> = Vec::new();
    let mut i: usize = 0;
    proof {
        assert(out@ + replace(s@, p@, t@) =~= replace(s@, p@, t@));
    }
    while i < s.len()
        invariant
            i <= s@.len(),
            pv@ == p@,
            tv@ == t@,
            p@.len() > 0,
            out@ + replace_from(s@, p@, t@, i as int) == replace(s@, p@, t@),
        decreases s@.len() - i,
    {
        let ghost before = out@;
        if matches_at_of(s, &pv, i) {
            append(&mut out, &tv);
            proof {
                let rest = replace_from(s@, p@, t@, i + p@.len());
                assert(before + (t@ + rest) =~= (before + t@) + rest);
            }
            i += pv.len();
        } else {
            out.push(s[i]);
            proof {
                let rest = replace_from(s@, p@, t@, i + 1);
                assert(before + (seq![s@[i as int]] + rest) =~= before.push(s@[i as int]) + rest);
            }
            i += 1;
        }
    }
    proof {
        assert(out@ + seq![] =~= out@);
    }
    out
}

/// `s` with every character of the class replaced by `t`.
pub open spec fn replace_chars(s: Seq<char>, class: CharClass, t: char) -> Seq<char> {
    s.map_values(
        |c: char|
            if class.has(c) {
                t
            } else {
                c
            },
    )
}

pub fn replace_chars_of(s: &Vec<char>, class: CharClass, t: char) -> (r: Vec<char>)
    ensures
        r@ == replace_chars(s@, class, t),
{
    let mut out: Vec<char> = Vec::new();
    let mut i: usize = 0;
    while i < s.len()
        invariant
            i <= s@.len(),
            out@.len() == i,
            forall|k: int| 0 <= k < i ==> out@[k] == replace_chars(s@, class, t)[k],
        decreases s@.len() - i,
    {
        let c = s[i];
        out.push(
            if class.test(c) {
                t
            } else {
                c
            },
        );
        i += 1;
    }
    proof {
        assert(out@ =~= replace_chars(s@, class, t));
    }
    out
}

// ---------------------------------------------------------------------------
// Numbers

pub open spec fn digit_char(d: nat) -> char {
    (48 + d) as char
}

/// The decimal digits of `n`.
pub open spec fn decimal(n: nat) -> Seq<char>
    decreases n,
{
    if n < 10 {
        seq![digit_char(n)]
    } else {
        decimal(n / 10).push(digit_char(n % 10))
    }
}

/// Different numbers have different digits.
pub proof fn lemma_decimal_injective(a: nat, b: nat)
    requires
        decimal(a) == decimal(b),
    ensures
        a == b,
    decreases a,
{
    let s = decimal(a);
    let t = decimal(b);
    assert(s.last() == digit_char(a % 10));
    assert(t.last() == digit_char(b % 10));
    assert(a % 10 == b % 10) by {
        assert(digit_char(a % 10) as u32 == 48 + a % 10);
        assert(digit_char(b % 10) as u32 == 48 + b % 10);
    }
    if a >= 10 && b >= 10 {
        assert(s.drop_last() =~= decimal(a / 10));
        assert(t.drop_last() =~= decimal(b / 10));
        lemma_decimal_injective(a / 10, b / 10);
    } else if a >= 10 {
        lemma_decimal_has_digits(a / 10);
        assert(s.len() > 1 && t.len() == 1);
    } else if b >= 10 {
        lemma_decimal_has_digits(b / 10);
        assert(s.len() == 1 && t.len() > 1);
    }
}

proof fn lemma_decimal_has_digits(n: nat)
    ensures
        decimal(n).len() > 0,
{
}

pub fn decimal_of(n: u128) -> (r: Vec<char>)
    ensures
        r@ == decimal(n as nat),
    decreases n,
{
    let d: u8 = (n % 10) as u8;
    if n < 10 {
        let mut out: Vec<char> = Vec::new();
        out.push((48 + d) as char);
        proof {
            assert(out@ =~= decimal(n as nat));
        }
        out
    } else {
        let mut out = decimal_of(n / 10);
        out.push((48 + d) as char);
        out
    }
}

/// The number of bytes that UTF-8 takes for `c`.
pub open spec fn char_width(c: char) -> nat {
    let n = c as u32;
    if n < 0x80 {
        1
    } else if n < 0x800 {
        2
    } else if n < 0x10000 {
        3
    } else {
        4
    }
}

/// The number of bytes that UTF-8 takes for `s`: what `str::len` counts.
pub open spec fn byte_len(s: Seq<char>) -> nat
    decreases s.len(),
{
    if s.len() == 0 {
        0
    } else {
        byte_len(s.drop_last()) + char_width(s.last())
    }
}

pub fn char_width_of(c: char) -> (r: usize)
    ensures
        r == char_width(c),
        1 <= r <= 4,
{
    let n: u32 = c as u32;
    if n < 0x80 {
        1
    } else if n < 0x800 {
        2
    } else if n < 0x10000 {
        3
    } else {
        4
    }
}

pub proof fn lemma_byte_len_take(s: Seq<char>, i: int)
    requires
        0 <= i < s.len(),
    ensures
        byte_len(s.take(i + 1)) == byte_len(s.take(i)) + char_width(s[i]),
{
    assert(s.take(i + 1).drop_last() =~= s.take(i));
}

pub fn byte_len_of(s: &Vec<char>) -> (r: u128)
    ensures
        r == byte_len(s@),
{
    let mut n: u128 = 0;
    let mut i: usize = 0;
    while i < s.len()
        invariant
            i <= s@.len(),
            n == byte_len(s@.take(i as int)),
            n <= 4 * i,
        decreases s@.len() - i,
    {
        n += char_width_of(s[i]) as u128;
        proof {
            lemma_byte_len_take(s@, i as int);
        }
        i += 1;
    }
    proof {
        assert(s@.take(s@.len() as int) =~= s@);
    }
    n
}

// ---------------------------------------------------------------------------
// Order

/// The order of `str`: by the first character in which two texts differ, a
/// prefix before what it is a prefix of.
pub open spec fn precedes(a: Seq<char>, b: Seq<char>) -> bool
    decreases a.len(),
{
    if b.len() == 0 {
        false
    } else if a.len() == 0 {
        true
    } else if a[0] != b[0] {
        (a[0] as u32) < (b[0] as u32)
    } else {
        precedes(a.drop_first(), b.drop_first())
    }
}

pub fn precedes_of(a: &Vec<char>, b: &Vec<char>) -> (r: bool)
    ensures
        r == precedes(a@, b@),
{
    let mut i: usize = 0;
    proof {
        assert(a@.skip(0) =~= a@);
        assert(b@.skip(0) =~= b@);
    }
    while i < a.len() && i < b.len()
        invariant
            i <= a@.len(),
            i <= b@.len(),
            precedes(a@, b@) == precedes(a@.skip(i as int), b@.skip(i as int)),
        decreases a@.len() - i,
    {
        if a[i] != b[i] {
            let x: u32 = a[i] as u32;
            let y: u32 = b[i] as u32;
            return x < y;
        }
        proof {
            assert(a@.skip(i as int).drop_first() =~= a@.skip(i as int + 1));
            assert(b@.skip(i as int).drop_first() =~= b@.skip(i as int + 1));
        }
        i += 1;
    }
    i < b.len()
}

pub proof fn lemma_precedes_irreflexive(a: Seq<char>)
    ensures
        !precedes(a, a),
    decreases a.len(),
{
    if a.len() > 0 {
        lemma_precedes_irreflexive(a.drop_first());
    }
}

pub proof fn lemma_precedes_transitive(a: Seq<char>, b: Seq<char>, c: Seq<char>)
    requires
        precedes(a, b),
        precedes(b, c),
    ensures
        precedes(a, c),
    decreases a.len(),
{
    if a.len() > 0 && a[0] == b[0] && b[0] == c[0] {
        lemma_precedes_transitive(a.drop_first(), b.drop_first(), c.drop_first());
    }
}

pub proof fn lemma_precedes_total(a: Seq<char>, b: Seq<char>)
    ensures
        a == b || precedes(a, b) || precedes(b, a),
    decreases a.len(),
{
    if a.len() == 0 || b.len() == 0 {
        if a.len() == b.len() {
            assert(a =~= b);
        }
    } else if a[0] == b[0] {
        lemma_precedes_total(a.drop_first(), b.drop_first());
        if a.drop_first() == b.drop_first() {
            assert(a =~= seq![a[0]] + a.drop_first());
            assert(b =~= seq![b[0]] + b.drop_first());
        }
    } else {
        vstd::utf8::char_u32_cast(a[0], a[0] as u32);
        vstd::utf8::char_u32_cast(b[0], b[0] as u32);
        assert((a[0] as u32) != (b[0] as u32));
        assert(precedes(a, b) || precedes(b, a));
    }
}

/// Strictly increasing, so that nothing occurs twice.
pub open spec fn is_sorted_set(s: Seq<Seq<char>>) -> bool {
    forall|i: int, j: int| 0 <= i < j < s.len() ==> #[trigger] precedes(s[i], s[j])
}

pub open spec fn insert_sorted(s: Seq<Seq<char>>, x: Seq<char>) -> Seq<Seq<char>>
    decreases s.len(),
{
    if s.len() == 0 {
        seq![x]
    } else if s[0] == x {
        s
    } else if precedes(x, s[0]) {
        seq![x] + s
    } else {
        seq![s[0]] + insert_sorted(s.drop_first(), x)
    }
}

/// The texts sorted, each kept once: what `sort` and then `dedup` leave.
pub open spec fn sorted_set(s: Seq<Seq<char>>) -> Seq<Seq<char>>
    decreases s.len(),
{
    if s.len() == 0 {
        seq![]
    } else {
        insert_sorted(sorted_set(s.drop_last()), s.last())
    }
}

proof fn lemma_insert_sorted(s: Seq<Seq<char>>, x: Seq<char>)
    requires
        is_sorted_set(s),
    ensures
        is_sorted_set(insert_sorted(s, x)),
        forall|y: Seq<char>|
            #![trigger insert_sorted(s, x).contains(y)]
            #![trigger s.contains(y)]
            insert_sorted(s, x).contains(y) <==> (s.contains(y) || y == x),
        insert_sorted(s, x).contains(x),
    decreases s.len(),
{
    let r = insert_sorted(s, x);
    if s.len() == 0 {
        assert(r[0] == x);
    } else if s[0] == x {
        assert(s.contains(x));
    } else if precedes(x, s[0]) {
        assert(r =~= seq![x] + s);
        assert forall|i: int, j: int| 0 <= i < j < r.len() implies #[trigger] precedes(
            r[i],
            r[j],
        ) by {
            if i == 0 && j > 1 {
                assert(precedes(s[0], s[j - 1]));
                lemma_precedes_transitive(x, s[0], s[j - 1]);
            } else if i > 0 {
                assert(precedes(s[i - 1], s[j - 1]));
            }
        }
        assert forall|y: Seq<char>| r.contains(y) <==> (s.contains(y) || y == x) by {
            assert(r[0] == x);
            if s.contains(y) {
                let k = choose|k: int| 0 <= k < s.len() && s[k] == y;
                assert(r[k + 1] == y);
            }
            if r.contains(y) {
                let k = choose|k: int| 0 <= k < r.len() && r[k] == y;
                if k > 0 {
                    assert(s[k - 1] == y);
                }
            }
        }
    } else {
        let t = s.drop_first();
        assert(is_sorted_set(t)) by {
            assert forall|i: int, j: int| 0 <= i < j < t.len() implies #[trigger] precedes(
                t[i],
                t[j],
            ) by {
                assert(precedes(s[i + 1], s[j + 1]));
            }
        }
        lemma_insert_sorted(t, x);
        let u = insert_sorted(t, x);
        lemma_precedes_total(x, s[0]);
        assert(r =~= seq![s[0]] + u);
        assert forall|i: int, j: int| 0 <= i < j < r.len() implies #[trigger] precedes(
            r[i],
            r[j],
        ) by {
            if i == 0 {
                let y = u[j - 1];
                assert(u.contains(y));
                if y != x {
                    let k = choose|k: int| 0 <= k < t.len() && t[k] == y;
                    assert(precedes(s[0], s[k + 1]));
                }
            } else {
                assert(precedes(u[i - 1], u[j - 1]));
            }
        }
        assert forall|y: Seq<char>| r.contains(y) <==> (s.contains(y) || y == x) by {
            assert(r[0] == s[0]);
            if s.contains(y) {
                let k = choose|k: int| 0 <= k < s.len() && s[k] == y;
                if k > 0 {
                    assert(t[k - 1] == y);
                    assert(u.contains(y));
                }
            }
            if u.contains(y) {
                let k = choose|k: int| 0 <= k < u.len() && u[k] == y;
                assert(r[k + 1] == y);
            }
            if r.contains(y) {
                let k = choose|k: int| 0 <= k < r.len() && r[k] == y;
                if k > 0 {
                    assert(u[k - 1] == y);
                    assert(u.contains(y));
                    if t.contains(y) {
                        let m = choose|m: int| 0 <= m < t.len() && t[m] == y;
                        assert(s[m + 1] == y);
                    }
                }
            }
            if y == x {
                assert(u.contains(y));
            }
        }
    }
}

/// `sorted_set` is strictly increasing and holds exactly the given texts.
pub proof fn lemma_sorted_set(s: Seq<Seq<char>>)
    ensures
        is_sorted_set(sorted_set(s)),
        forall|y: Seq<char>|
            #![trigger sorted_set(s).contains(y)]
            #![trigger s.contains(y)]
            sorted_set(s).contains(y) <==> s.contains(y),
    decreases s.len(),
{
    if s.len() > 0 {
        let t = s.drop_last();
        lemma_sorted_set(t);
        lemma_insert_sorted(sorted_set(t), s.last());
        assert forall|y: Seq<char>| sorted_set(s).contains(y) <==> s.contains(y) by {
            if s.contains(y) {
                let k = choose|k: int| 0 <= k < s.len() && s[k] == y;
                if k < s.len() - 1 {
                    assert(t[k] == y);
                    assert(t.contains(y));
                }
            }
            if t.contains(y) {
                let k = choose|k: int| 0 <= k < t.len() && t[k] == y;
                assert(s[k] == y);
            }
            assert(s[s.len() - 1] == s.last());
        }
    }
}

/// Two strictly increasing lists with the same members are the same list.
pub proof fn lemma_sorted_set_unique(a: Seq<Seq<char>>, b: Seq<Seq<char>>)
    requires
        is_sorted_set(a),
        is_sorted_set(b),
        forall|y: Seq<char>|
            #![trigger a.contains(y)]
            #![trigger b.contains(y)]
            a.contains(y) <==> b.contains(y),
    ensures
        a == b,
    decreases a.len(),
{
    if a.len() == 0 {
        if b.len() > 0 {
            assert(b.contains(b[0]));
            assert(a.contains(b[0]));
        }
        assert(a =~= b);
    } else {
        assert(a.contains(a[0]));
        assert(b.contains(a[0]));
        let j = choose|j: int| 0 <= j < b.len() && b[j] == a[0];
        assert(b.contains(b[0]));
        let i = choose|i: int| 0 <= i < a.len() && a[i] == b[0];
        if j > 0 {
            assert(precedes(b[0], b[j]));
            if i > 0 {
                assert(precedes(a[0], a[i]));
                lemma_precedes_transitive(a[0], b[0], a[0]);
            }
            lemma_precedes_irreflexive(a[0]);
        }
        assert(a[0] == b[0]);
        let ta = a.drop_first();
        let tb = b.drop_first();
        assert forall|p: int, q: int| 0 <= p < q < ta.len() implies #[trigger] precedes(
            ta[p],
            ta[q],
        ) by {
            assert(precedes(a[p + 1], a[q + 1]));
        }
        assert forall|p: int, q: int| 0 <= p < q < tb.len() implies #[trigger] precedes(
            tb[p],
            tb[q],
        ) by {
            assert(precedes(b[p + 1], b[q + 1]));
        }
        assert forall|y: Seq<char>|
            #![trigger ta.contains(y)]
            #![trigger tb.contains(y)]
            ta.contains(y) <==> tb.contains(y) by {
            lemma_precedes_irreflexive(a[0]);
            if ta.contains(y) {
                let k = choose|k: int| 0 <= k < ta.len() && ta[k] == y;
                assert(precedes(a[0], a[k + 1]));
                assert(a.contains(y));
                let m = choose|m: int| 0 <= m < b.len() && b[m] == y;
                assert(m > 0);
                assert(tb[m - 1] == y);
            }
            if tb.contains(y) {
                let k = choose|k: int| 0 <= k < tb.len() && tb[k] == y;
                assert(precedes(b[0], b[k + 1]));
                assert(b.contains(y));
                let m = choose|m: int| 0 <= m < a.len() && a[m] == y;
                assert(m > 0);
                assert(ta[m - 1] == y);
            }
        }
        lemma_sorted_set_unique(ta, tb);
        assert(a =~= seq![a[0]] + ta);
        assert(b =~= seq![b[0]] + tb);
    }
}

/// Order and repetition of the input do not matter to `sorted_set`.
pub proof fn lemma_sorted_set_by_members(a: Seq<Seq<char>>, b: Seq<Seq<char>>)
    requires
        forall|y: Seq<char>|
            #![trigger a.contains(y)]
            #![trigger b.contains(y)]
            a.contains(y) <==> b.contains(y),
    ensures
        sorted_set(a) == sorted_set(b),
{
    lemma_sorted_set(a);
    lemma_sorted_set(b);
    assert forall|y: Seq<char>| sorted_set(a).contains(y) <==> sorted_set(b).contains(y) by {
        assert(a.contains(y) <==> b.contains(y));
    }
    lemma_sorted_set_unique(sorted_set(a), sorted_set(b));
}

pub open spec fn insert_at(s: Seq<Seq<char>>, x: Seq<char>, i: int) -> Seq<Seq<char>> {
    s.take(i) + insert_sorted(s.skip(i), x)
}

/// Inserts `x` where it belongs, unless it is there already.
pub fn insert_sorted_of(list: &mut Vec<Vec<char>>, x: Vec<char>)
    ensures
        texts(final(list)@) == insert_sorted(texts(old(list)@), x@),
{
    let mut i: usize = 0;
    let ghost all = texts(list@);
    proof {
        assert(insert_at(all, x@, 0) =~= insert_sorted(all, x@)) by {
            assert(all.skip(0) =~= all);
            assert(all.take(0) =~= seq![]);
        }
    }
    while i < list.len()
        invariant
            i <= list@.len(),
            list@ == old(list)@,
            all == texts(list@),
            insert_at(all, x@, i as int) == insert_sorted(all, x@),
        decreases list@.len() - i,
    {
        proof {
            assert(all.skip(i as int)[0] == list@[i as int]@);
            assert(all.take(i as int) + all.skip(i as int) =~= all);
        }
        if same(&list[i], &x) {
            return ;
        }
        if precedes_of(&x, &list[i]) {
            list.insert(i, x);
            proof {
                assert(texts(list@) =~= all.take(i as int) + (seq![x@] + all.skip(i as int)));
            }
            return ;
        }
        proof {
            assert(all.skip(i as int).drop_first() =~= all.skip(i + 1));
            let rest = insert_sorted(all.skip(i + 1), x@);
            assert(all.take(i as int) + (seq![all[i as int]] + rest) =~= all.take(i + 1) + rest);
        }
        i += 1;
    }
    proof {
        assert(all.skip(i as int) =~= seq![]);
        assert(all.take(i as int) =~= all);
        assert(texts(list@.push(x)) =~= all + seq![x@]);
    }
    list.push(x);
}

pub fn sorted_set_of(list: &Vec<Vec<char>>) -> (r: Vec<Vec<char>>)
    ensures
        texts(r@) == sorted_set(texts(list@)),
{
    let mut out: Vec<Vec<char>> = Vec::new();
    let mut i: usize = 0;
    proof {
        assert(texts(out@) =~= seq![]);
    }
    while i < list.len()
        invariant
            i <= list@.len(),
            texts(out@) == sorted_set(texts(list@).take(i as int)),
        decreases list@.len() - i,
    {
        let x = copy_of(&list[i]);
        insert_sorted_of(&mut out, x);
        proof {
            let all = texts(list@);
            assert(all.take(i as int + 1).drop_last() =~= all.take(i as int));
        }
        i += 1;
    }
    proof {
        assert(texts(list@).take(list@.len() as int) =~= texts(list@));
    }
    out
}

// ---------------------------------------------------------------------------
// Building strings

pub fn cat2(a: &str, b: &str) -> (r: String)
    ensures
        r@ == a@ + b@,
{
    let mut out: Vec<char> = Vec::new();
    append_str(&mut out, a);
    append_str(&mut out, b);
    proof {
        assert(out@ =~= a@ + b@);
    }
    string_of(&out)
}

pub fn cat3(a: &str, b: &str, c: &str) -> (r: String)
    ensures
        r@ == a@ + b@ + c@,
{
    let mut out: Vec<char> = Vec::new();
    append_str(&mut out, a);
    append_str(&mut out, b);
    append_str(&mut out, c);
    proof {
        assert(out@ =~= a@ + b@ + c@);
    }
    string_of(&out)
}

pub fn cat4(a: &str, b: &str, c: &str, d: &str) -> (r: String)
    ensures
        r@ == a@ + b@ + c@ + d@,
{
    let mut out: Vec<char> = Vec::new();
    append_str(&mut out, a);
    append_str(&mut out, b);
    append_str(&mut out, c);
    append_str(&mut out, d);
    proof {
        assert(out@ =~= a@ + b@ + c@ + d@);
    }
    string_of(&out)
}

pub fn cat5(a: &str, b: &str, c: &str, d: &str, e: &str) -> (r: String)
    ensures
        r@ == a@ + b@ + c@ + d@ + e@,
{
    let mut out: Vec<char> = Vec::new();
    append_str(&mut out, a);
    append_str(&mut out, b);
    append_str(&mut out, c);
    append_str(&mut out, d);
    append_str(&mut out, e);
    proof {
        assert(out@ =~= a@ + b@ + c@ + d@ + e@);
    }
    string_of(&out)
}

pub fn cat6(a: &str, b: &str, c: &str, d: &str, e: &str, f: &str) -> (r: String)
    ensures
        r@ == a@ + b@ + c@ + d@ + e@ + f@,
{
    let mut out: Vec<char> = Vec::new();
    append_str(&mut out, a);
    append_str(&mut out, b);
    append_str(&mut out, c);
    append_str(&mut out, d);
    append_str(&mut out, e);
    append_str(&mut out, f);
    proof {
        assert(out@ =~= a@ + b@ + c@ + d@ + e@ + f@);
    }
    string_of(&out)
}

pub fn cat7(a: &str, b: &str, c: &str, d: &str, e: &str, f: &str, g: &str) -> (r: String)
    ensures
        r@ == a@ + b@ + c@ + d@ + e@ + f@ + g@,
{
    let mut out: Vec<char> = Vec::new();
    append_str(&mut out, a);
    append_str(&mut out, b);
    append_str(&mut out, c);
    append_str(&mut out, d);
    append_str(&mut out, e);
    append_str(&mut out, f);
    append_str(&mut out, g);
    proof {
        assert(out@ =~= a@ + b@ + c@ + d@ + e@ + f@ + g@);
    }
    string_of(&out)
}

pub fn cat9(a: &str, b: &str, c: &str, d: &str, e: &str, f: &str, g: &str, h: &str, i: &str) -> (r: String)
    ensures
        r@ == a@ + b@ + c@ + d@ + e@ + f@ + g@ + h@ + i@,
{
    let mut out: Vec<char> = Vec::new();
    append_str(&mut out, a);
    append_str(&mut out, b);
    append_str(&mut out, c);
    append_str(&mut out, d);
    append_str(&mut out, e);
    append_str(&mut out, f);
    append_str(&mut out, g);
    append_str(&mut out, h);
    append_str(&mut out, i);
    proof {
        assert(out@ =~= a@ + b@ + c@ + d@ + e@ + f@ + g@ + h@ + i@);
    }
    string_of(&out)
}

/// The view of an optional string.
pub open spec fn opt(o: Option<String>) -> Option<Seq<char>> {
    match o {
        Some(s) => Some(s@),
        None => None,
    }
}

pub fn same_opt(a: &Option<String>, b: &Option<String>) -> (r: bool)
    ensures
        r == (opt(*a) == opt(*b)),
{
    match (a, b) {
        (Some(x), Some(y)) => same_str(x.as_str(), y.as_str()),
        (None, None) => true,
        _ => false,
    }
}

pub fn clone_opt(a: &Option<String>) -> (r: Option<String>)
    ensures
        opt(r) == opt(*a),
        r is Some == a is Some,
{
    match a {
        Some(x) => Some(x.clone()),
        None => None,
    }
}

pub fn decimal_string(n: u128) -> (r: String)
    ensures
        r@ == decimal(n as nat),
{
    let v = decimal_of(n);
    string_of(&v)
}

/// Whether every character of `s` is a hexadecimal digit.
pub open spec fn all_hex(s: Seq<char>) -> bool {
    forall|i: int| 0 <= i < s.len() ==> is_hex(#[trigger] s[i])
}

pub fn all_hex_of(s: &Vec<char>) -> (r: bool)
    ensures
        r == all_hex(s@),
{
    let mut i: usize = 0;
    while i < s.len()
        invariant
            i <= s@.len(),
            forall|k: int| 0 <= k < i ==> is_hex(#[trigger] s@[k]),
        decreases s@.len() - i,
    {
        if !hex(s[i]) {
            return false;
        }
        i += 1;
    }
    true
}

/// The first `max` characters of a text that is longer, the last of them
/// replaced by an ellipsis.
pub open spec fn ellipsized(text: Seq<char>, max: int) -> Seq<char> {
    if text.len() > max {
        text.take(if max > 0 {
            max - 1
        } else {
            0
        }).push('…')
    } else {
        text
    }
}

pub fn ellipsized_of(text: &Vec<char>, max: usize) -> (r: Vec<char>)
    ensures
        r@ == ellipsized(text@, max as int),
{
    if text.len() > max {
        let keep: usize = if max > 0 {
            max - 1
        } else {
            0
        };
        let mut out = slice_of(text, 0, keep);
        proof {
            assert(out@ =~= text@.take(keep as int));
        }
        out.push('…');
        out
    } else {
        copy_of(text)
    }
}

pub fn strings_of(list: &Vec<Vec<char>>) -> (r: Vec<String>)
    ensures
        strings(r@) == texts(list@),
{
    let mut out: Vec<String> = Vec::new();
    let mut i: usize = 0;
    while i < list.len()
        invariant
            i <= list@.len(),
            out@.len() == i,
            forall|k: int| 0 <= k < i ==> (#[trigger] out@[k])@ == list@[k]@,
        decreases list@.len() - i,
    {
        out.push(string_of(&list[i]));
        i += 1;
    }
    proof {
        assert(strings(out@) =~= texts(list@));
    }
    out
}

// ---------------------------------------------------------------------------
// Truth values

/// A truth value in words, as Rust and JSON both write it.
pub open spec fn bool_text(b: bool) -> Seq<char> {
    if b {
        "true"@
    } else {
        "false"@
    }
}

pub fn bool_str(b: bool) -> (r: &'static str)
    ensures
        r@ == bool_text(b),
{
    if b {
        "true"
    } else {
        "false"
    }
}

// ---------------------------------------------------------------------------
// What a text holds

/// What a part holds, the whole holds.
pub proof fn lemma_contains_in_whole(a: Seq<char>, b: Seq<char>, c: Seq<char>, p: Seq<char>)
    requires
        contains(b, p),
    ensures
        contains(a + b + c, p),
{
    let i = choose|i: int| matches_at(b, p, i);
    let s = a + b + c;
    assert(s.subrange(a.len() + i, a.len() + i + p.len()) =~= b.subrange(i, i + p.len()));
    assert(matches_at(s, p, a.len() + i));
}

pub proof fn lemma_contains_itself(a: Seq<char>, b: Seq<char>, c: Seq<char>)
    ensures
        contains(a + b + c, b),
{
    assert(b.subrange(0, b.len() as int) =~= b);
    assert(matches_at(b, b, 0));
    lemma_contains_in_whole(a, b, c, b);
}

pub proof fn lemma_contains_transitive(a: Seq<char>, b: Seq<char>, c: Seq<char>)
    requires
        contains(a, b),
        contains(b, c),
    ensures
        contains(a, c),
{
    let i = choose|i: int| matches_at(a, b, i);
    let j = choose|j: int| matches_at(b, c, j);
    assert(a.subrange(i, i + b.len()).subrange(j, j + c.len()) =~= a.subrange(
        i + j,
        i + j + c.len(),
    ));
    assert(matches_at(a, c, i + j));
}

/// A text that is joined of parts holds each of them.
pub proof fn lemma_join_holds_its_parts(parts: Seq<Seq<char>>, sep: Seq<char>, k: int)
    requires
        0 <= k < parts.len(),
    ensures
        contains(join(parts, sep), parts[k]),
    decreases parts.len(),
{
    if parts.len() == 1 {
        assert(seq![] + parts[0] + seq![] =~= parts[0]);
        lemma_contains_itself(seq![], parts[0], seq![]);
    } else {
        let head = join(parts.drop_last(), sep);
        if k == parts.len() - 1 {
            assert(head + sep + parts.last() =~= (head + sep) + parts.last() + seq![]);
            lemma_contains_itself(head + sep, parts.last(), seq![]);
        } else {
            lemma_join_holds_its_parts(parts.drop_last(), sep, k);
            assert(parts.drop_last()[k] == parts[k]);
            assert(head + sep + parts.last() =~= seq![] + head + (sep + parts.last()));
            lemma_contains_in_whole(seq![], head, sep + parts.last(), parts[k]);
        }
    }
}

proof fn lemma_replace_absent_from(s: Seq<char>, p: Seq<char>, t: Seq<char>, i: int)
    requires
        0 <= i <= s.len(),
        !contains(s, p),
    ensures
        replace_from(s, p, t, i) == s.skip(i),
    decreases s.len() - i,
{
    if i < s.len() {
        lemma_replace_absent_from(s, p, t, i + 1);
        assert(!matches_at(s, p, i));
        assert(seq![s[i]] + s.skip(i + 1) =~= s.skip(i));
    } else {
        assert(s.skip(i) =~= seq![]);
    }
}

/// Where there is nothing to replace, a text stays as it is.
pub proof fn lemma_replace_absent(s: Seq<char>, p: Seq<char>, t: Seq<char>)
    requires
        !contains(s, p),
    ensures
        replace(s, p, t) == s,
{
    lemma_replace_absent_from(s, p, t, 0);
    assert(s.skip(0) =~= s);
}

/// A text without a character holds nothing that has it.
pub proof fn lemma_lacks(s: Seq<char>, p: Seq<char>, k: int)
    requires
        0 <= k < p.len(),
        !has_char(s, p[k]),
    ensures
        !contains(s, p),
{
    if contains(s, p) {
        let i = choose|i: int| matches_at(s, p, i);
        assert(s.subrange(i, i + p.len())[k] == p[k]);
        assert(s[i + k] == p[k]);
    }
}

proof fn lemma_replace_tail(a: Seq<char>, p: Seq<char>, b: Seq<char>, t: Seq<char>, i: int)
    requires
        p.len() > 0,
        0 <= i <= a.len(),
        forall|k: int|
            0 <= k < (a + p + b).len() && k != a.len() ==> !#[trigger] matches_at(a + p + b, p, k),
    ensures
        replace_from(a + p + b, p, t, i) == a.skip(i) + t + b,
    decreases a.len() - i,
{
    let s = a + p + b;
    if i < a.len() {
        assert(!matches_at(s, p, i));
        lemma_replace_tail(a, p, b, t, i + 1);
        assert(seq![s[i]] + (a.skip(i + 1) + t + b) =~= a.skip(i) + t + b);
    } else {
        assert(s.subrange(i, i + p.len()) =~= p);
        assert(matches_at(s, p, i));
        lemma_replace_rest(s, p, t, i + p.len());
        assert(s.skip(i + p.len()) =~= b);
        assert(t + b =~= a.skip(i) + t + b);
    }
}

proof fn lemma_replace_rest(s: Seq<char>, p: Seq<char>, t: Seq<char>, i: int)
    requires
        p.len() > 0,
        0 <= i <= s.len(),
        forall|k: int| i <= k < s.len() ==> !#[trigger] matches_at(s, p, k),
    ensures
        replace_from(s, p, t, i) == s.skip(i),
    decreases s.len() - i,
{
    if i < s.len() {
        assert(!matches_at(s, p, i));
        lemma_replace_rest(s, p, t, i + 1);
        assert(seq![s[i]] + s.skip(i + 1) =~= s.skip(i));
    } else {
        assert(s.skip(i) =~= seq![]);
    }
}

/// What stands once is replaced once, and what stands around it stays.
pub proof fn lemma_replace_once(a: Seq<char>, p: Seq<char>, b: Seq<char>, t: Seq<char>)
    requires
        p.len() > 0,
        forall|k: int|
            0 <= k < (a + p + b).len() && k != a.len() ==> !#[trigger] matches_at(a + p + b, p, k),
    ensures
        replace(a + p + b, p, t) == a + t + b,
{
    lemma_replace_tail(a, p, b, t, 0);
    assert(a.skip(0) =~= a);
}

// ---------------------------------------------------------------------------
// Pieces, lines, words and numbers

proof fn lemma_joined_pieces(s: Seq<char>, c: char, start: int, i: int)
    requires
        0 <= start <= i <= s.len(),
        forall|k: int| start <= k < i ==> #[trigger] s[k] != c,
    ensures
        split_from(s, CharClass::Only(c), start, i).len() > 0,
        join(split_from(s, CharClass::Only(c), start, i), seq![c]) == s.skip(start),
        forall|k: int|
            0 <= k < split_from(s, CharClass::Only(c), start, i).len() ==> !has_char(
                #[trigger] split_from(s, CharClass::Only(c), start, i)[k],
                c,
            ),
    decreases s.len() - i,
{
    let class = CharClass::Only(c);
    let all = split_from(s, class, start, i);
    if i >= s.len() {
        assert(s.subrange(start, s.len() as int) =~= s.skip(start));
    } else if s[i] == c {
        lemma_joined_pieces(s, c, i + 1, i + 1);
        let rest = split_from(s, class, i + 1, i + 1);
        let first = s.subrange(start, i);
        assert(all == seq![first] + rest);
        lemma_join_first(first, rest, seq![c]);
        assert(first + seq![c] + s.skip(i + 1) =~= s.skip(start));
        assert forall|k: int| 0 <= k < all.len() implies !has_char(#[trigger] all[k], c) by {
            if k > 0 {
                assert(all[k] == rest[k - 1]);
            }
        }
    } else {
        lemma_joined_pieces(s, c, start, i + 1);
    }
}

proof fn lemma_join_first(first: Seq<char>, rest: Seq<Seq<char>>, sep: Seq<char>)
    requires
        rest.len() > 0,
    ensures
        join(seq![first] + rest, sep) == first + sep + join(rest, sep),
    decreases rest.len(),
{
    let all = seq![first] + rest;
    if rest.len() == 1 {
        assert(all.drop_last() =~= seq![first]);
        assert(seq![first][0] == first);
        assert(join(all.drop_last(), sep) == first);
        assert(all.last() == rest[0]);
        assert(join(rest, sep) == rest[0]);
    } else {
        assert(all.drop_last() =~= seq![first] + rest.drop_last());
        assert(all.last() == rest.last());
        lemma_join_first(first, rest.drop_last(), sep);
        assert(first + sep + join(rest.drop_last(), sep) + sep + rest.last() =~= first + sep + (join(
            rest.drop_last(),
            sep,
        ) + sep + rest.last()));
    }
}

/// The pieces that a text is split into hold no separator, and joined by it they
/// are the text again.
pub proof fn law_pieces_joined_are_the_text(s: Seq<char>, c: char, k: int)
    ensures
        split(s, CharClass::Only(c)).len() > 0,
        join(split(s, CharClass::Only(c)), seq![c]) == s,
        0 <= k < split(s, CharClass::Only(c)).len() ==> !has_char(
            split(s, CharClass::Only(c))[k],
            c,
        ),
{
    lemma_joined_pieces(s, c, 0, 0);
    assert(s.skip(0) =~= s);
}

proof fn lemma_line_of(s: Seq<char>, start: int, i: int, a: int, b: int)
    requires
        0 <= start <= i <= s.len(),
        forall|k: int| start <= k < i ==> #[trigger] s[k] != '\n',
        start <= a <= b <= s.len(),
        i <= b,
        a == start || s[a - 1] == '\n',
        a == start || i <= a - 1,
        b < s.len() ==> s[b] == '\n',
        b == s.len() ==> a < b,
        forall|k: int| a <= k < b ==> #[trigger] s[k] != '\n',
    ensures
        lines_from(s, start, i).contains(
            if b < s.len() {
                strip_carriage_return(s.subrange(a, b))
            } else {
                s.subrange(a, b)
            },
        ),
    decreases s.len() - i,
{
    let all = lines_from(s, start, i);
    let line = if b < s.len() {
        strip_carriage_return(s.subrange(a, b))
    } else {
        s.subrange(a, b)
    };
    if i >= s.len() {
        assert(a == start);
        assert(all[0] == line);
    } else if s[i] == '\n' {
        let rest = lines_from(s, i + 1, i + 1);
        if a == start {
            if i < b {
                assert(s[i] != '\n');
            }
            assert(all[0] == line);
        } else {
            assert(a >= i + 1);
            lemma_line_of(s, i + 1, i + 1, a, b);
            let k = choose|k: int| 0 <= k < rest.len() && rest[k] == line;
            assert(all[k + 1] == line);
        }
    } else {
        if a != start && i == a - 1 {
            assert(false);
        }
        if i == b {
            assert(false);
        }
        lemma_line_of(s, start, i + 1, a, b);
    }
}

/// What stands between two line feeds, or between one and an end of the text, is a
/// line of it, without a carriage return at its end; nothing of a text is passed
/// over.
pub proof fn law_text_between_line_feeds_is_a_line(s: Seq<char>, a: int, b: int)
    requires
        0 <= a <= b <= s.len(),
        a == 0 || s[a - 1] == '\n',
        b < s.len() ==> s[b] == '\n',
        b == s.len() ==> a < b,
        !s.subrange(a, b).contains('\n'),
    ensures
        b == s.len() ==> lines(s).contains(s.subrange(a, b)),
        b < s.len() && (a == b || s[b - 1] != '\r') ==> lines(s).contains(s.subrange(a, b)),
        b < s.len() && a < b && s[b - 1] == '\r' ==> lines(s).contains(s.subrange(a, b - 1)),
{
    assert forall|k: int| a <= k < b implies #[trigger] s[k] != '\n' by {
        assert(s.subrange(a, b)[k - a] == s[k]);
    }
    lemma_line_of(s, 0, 0, a, b);
    let line = s.subrange(a, b);
    if a < b {
        assert(line.last() == s[b - 1]);
        assert(line.drop_last() =~= s.subrange(a, b - 1));
    }
}

proof fn lemma_word_of(s: Seq<char>, start: int, i: int, a: int, b: int)
    requires
        0 <= start <= i <= s.len(),
        forall|k: int| start <= k < i ==> !is_white(#[trigger] s[k]),
        start <= a < b <= s.len(),
        i <= b,
        a == start || is_white(s[a - 1]),
        a == start || i <= a - 1,
        b < s.len() ==> is_white(s[b]),
        forall|k: int| a <= k < b ==> !is_white(#[trigger] s[k]),
    ensures
        words_from(s, start, i).contains(s.subrange(a, b)),
    decreases s.len() - i,
{
    let all = words_from(s, start, i);
    let word = s.subrange(a, b);
    if i >= s.len() {
        assert(a == start);
        assert(all[0] == word);
    } else if is_white(s[i]) {
        let rest = words_from(s, i + 1, i + 1);
        if a == start {
            if i < b && a <= i {
                assert(!is_white(s[i]));
            }
            assert(i == b);
            assert(all[0] == word);
        } else {
            lemma_word_of(s, i + 1, i + 1, a, b);
            let k = choose|k: int| 0 <= k < rest.len() && rest[k] == word;
            if start < i {
                assert(all[k + 1] == word);
            } else {
                assert(all[k] == word);
            }
        }
    } else {
        if a != start && i == a - 1 {
            assert(false);
        }
        if i == b {
            assert(false);
        }
        lemma_word_of(s, start, i + 1, a, b);
    }
}

spec fn is_plain_word(word: Seq<char>) -> bool {
    word.len() > 0 && forall|k: int| 0 <= k < word.len() ==> !is_white(#[trigger] word[k])
}

proof fn lemma_words_are_plain(s: Seq<char>, start: int, i: int)
    requires
        0 <= start <= i <= s.len(),
        forall|k: int| start <= k < i ==> !is_white(#[trigger] s[k]),
    ensures
        forall|w: int|
            0 <= w < words_from(s, start, i).len() ==> is_plain_word(
                #[trigger] words_from(s, start, i)[w],
            ),
    decreases s.len() - i,
{
    let all = words_from(s, start, i);
    if i >= s.len() {
        if start < s.len() {
            assert(is_plain_word(s.subrange(start, s.len() as int)));
            assert(all =~= seq![s.subrange(start, s.len() as int)]);
        } else {
            assert(all =~= seq![]);
        }
    } else if is_white(s[i]) {
        lemma_words_are_plain(s, i + 1, i + 1);
        let rest = words_from(s, i + 1, i + 1);
        assert(start < i ==> is_plain_word(s.subrange(start, i)));
        assert forall|w: int| 0 <= w < all.len() implies is_plain_word(#[trigger] all[w]) by {
            if start < i && w > 0 {
                assert(all[w] == rest[w - 1]);
            }
        }
    } else {
        lemma_words_are_plain(s, start, i + 1);
        assert(all == words_from(s, start, i + 1));
    }
}

/// A longest stretch without white space is a word, and no word is empty or holds
/// white space.
pub proof fn law_words_are_the_longest_stretches_without_white_space(
    s: Seq<char>,
    a: int,
    b: int,
    w: int,
    k: int,
)
    ensures
        0 <= a < b <= s.len() && (a == 0 || is_white(s[a - 1])) && (b == s.len() || is_white(s[b]))
            && (forall|m: int| a <= m < b ==> !is_white(#[trigger] s[m])) ==> words(s).contains(
            s.subrange(a, b),
        ),
        0 <= w < words(s).len() ==> words(s)[w].len() > 0,
        0 <= w < words(s).len() && 0 <= k < words(s)[w].len() ==> !is_white(words(s)[w][k]),
{
    lemma_words_are_plain(s, 0, 0);
    if 0 <= w < words(s).len() {
        assert(is_plain_word(words(s)[w]));
    }
    if 0 <= a < b <= s.len() && (a == 0 || is_white(s[a - 1])) && (b == s.len() || is_white(s[b]))
        && (forall|m: int| a <= m < b ==> !is_white(#[trigger] s[m])) {
        lemma_word_of(s, 0, 0, a, b);
    }
}

/// The number that digits stand for, read from the left.
pub open spec fn number_of(s: Seq<char>) -> int
    decreases s.len(),
{
    if s.len() == 0 {
        0
    } else {
        10 * number_of(s.drop_last()) + (s.last() as u32 - 48)
    }
}

/// A number is written in digits that stand for it, without a leading zero.
pub proof fn law_digits_stand_for_the_number(n: nat)
    ensures
        number_of(decimal(n)) == n,
        decimal(n).len() > 0,
        forall|i: int| 0 <= i < decimal(n).len() ==> 48 <= #[trigger] decimal(n)[i] as u32 <= 57,
        n > 0 ==> decimal(n)[0] != '0',
    decreases n,
{
    let s = decimal(n);
    if n < 10 {
        assert(s.drop_last() =~= seq![]);
        assert(s.last() == digit_char(n));
        assert(digit_char(n) as u32 == 48 + n);
        assert(number_of(s.drop_last()) == 0);
    } else {
        law_digits_stand_for_the_number(n / 10);
        assert(s.drop_last() =~= decimal(n / 10));
        assert(digit_char(n % 10) as u32 == 48 + n % 10);
        assert forall|i: int| 0 <= i < s.len() implies 48 <= #[trigger] s[i] as u32 <= 57 by {
            if i < s.len() - 1 {
                assert(s[i] == decimal(n / 10)[i]);
            }
        }
        assert(s[0] == decimal(n / 10)[0]);
    }
}

proof fn lemma_trimmed_ends(s: Seq<char>, class: CharClass)
    ensures
        exists|i: int|
            0 <= i <= s.len() && trim_start_by(s, class) == #[trigger] s.skip(i) && forall|k: int|
                0 <= k < i ==> class.has(#[trigger] s[k]),
    decreases s.len(),
{
    if s.len() > 0 && class.has(s[0]) {
        let t = s.drop_first();
        lemma_trimmed_ends(t, class);
        let i = choose|i: int|
            0 <= i <= t.len() && trim_start_by(t, class) == #[trigger] t.skip(i) && forall|k: int|
                0 <= k < i ==> class.has(#[trigger] t[k]);
        assert(t.skip(i) =~= s.skip(i + 1));
        assert forall|k: int| 0 <= k < i + 1 implies class.has(#[trigger] s[k]) by {
            if k > 0 {
                assert(t[k - 1] == s[k]);
            }
        }
    } else {
        assert(s.skip(0) =~= s);
    }
}

proof fn lemma_trimmed_tail(s: Seq<char>, class: CharClass)
    ensures
        exists|j: int|
            0 <= j <= s.len() && trim_end_by(s, class) == #[trigger] s.take(j) && forall|k: int|
                j <= k < s.len() ==> class.has(#[trigger] s[k]),
    decreases s.len(),
{
    if s.len() > 0 && class.has(s.last()) {
        let t = s.drop_last();
        lemma_trimmed_tail(t, class);
        let j = choose|j: int|
            0 <= j <= t.len() && trim_end_by(t, class) == #[trigger] t.take(j) && forall|k: int|
                j <= k < t.len() ==> class.has(#[trigger] t[k]);
        assert(t.take(j) =~= s.take(j));
        assert forall|k: int| j <= k < s.len() implies class.has(#[trigger] s[k]) by {
            if k < t.len() {
                assert(t[k] == s[k]);
            }
        }
    } else {
        assert(s.take(s.len() as int) =~= s);
    }
}

/// Trimming takes off the ends what belongs to the class, and nothing else; what is
/// left neither begins nor ends with such a character.
pub proof fn law_trimming_takes_off_the_class_alone(s: Seq<char>, class: CharClass)
    ensures
        exists|i: int, j: int|
            0 <= i <= j <= s.len() && trim_by(s, class) == #[trigger] s.subrange(i, j) && (forall|
                k: int,
            |
                0 <= k < i ==> class.has(#[trigger] s[k])) && (forall|k: int|
                j <= k < s.len() ==> class.has(#[trigger] s[k])),
        trim_by(s, class).len() > 0 ==> !class.has(trim_by(s, class)[0]) && !class.has(
            trim_by(s, class).last(),
        ),
{
    lemma_trim_by_shape(s, class);
    lemma_trimmed_ends(s, class);
    let i = choose|i: int|
        0 <= i <= s.len() && trim_start_by(s, class) == #[trigger] s.skip(i) && forall|k: int|
            0 <= k < i ==> class.has(#[trigger] s[k]);
    let t = s.skip(i);
    lemma_trimmed_tail(t, class);
    let j = choose|j: int|
        0 <= j <= t.len() && trim_end_by(t, class) == #[trigger] t.take(j) && forall|k: int|
            j <= k < t.len() ==> class.has(#[trigger] t[k]);
    assert(t.take(j) =~= s.subrange(i, i + j));
    assert forall|k: int| i + j <= k < s.len() implies class.has(#[trigger] s[k]) by {
        assert(t[k - i] == s[k]);
    }
}

/// Lower case changes the letters `A` to `Z` alone, and upper case `a` to `z`.
pub proof fn law_case_changes_letters_alone(s: Seq<char>, i: int)
    requires
        0 <= i < s.len(),
    ensures
        lower(s).len() == s.len() && upper(s).len() == s.len(),
        65 <= s[i] as u32 <= 90 ==> lower(s)[i] as u32 == s[i] as u32 + 32,
        !(65 <= s[i] as u32 <= 90) ==> lower(s)[i] == s[i],
        97 <= s[i] as u32 <= 122 ==> upper(s)[i] as u32 == s[i] as u32 - 32,
        !(97 <= s[i] as u32 <= 122) ==> upper(s)[i] == s[i],
{
}

/// What the classes of characters hold.
pub proof fn law_classes_of_characters(c: char)
    ensures
        ({
            let n = c as u32;
            let plain = (48 <= n <= 57) || (65 <= n <= 90) || (97 <= n <= 122);
            &&& CharClass::NotWord.has(c) <==> !plain && c != '-'
            &&& CharClass::NotCitation.has(c) <==> !plain && c != '.' && c != '/' && c != '_' && c
                != '-' && c != ':'
            &&& CharClass::NotFile.has(c) <==> !plain && c != '_' && c != '-' && c != '.' && c
                != '/'
            &&& is_hex(c) <==> (48 <= n <= 57) || (65 <= n <= 70) || (97 <= n <= 102)
            &&& is_control(c) <==> n <= 31 || (127 <= n <= 159)
            &&& CharClass::White.has(' ') && CharClass::White.has('\n') && CharClass::White.has(
                '\r',
            ) && CharClass::White.has('\t')
            &&& plain ==> !CharClass::White.has(c)
        }),
{
}

/// A text comes before another where it is a beginning of it, or has the smaller
/// character where they first differ.
pub proof fn law_texts_are_ordered_by_their_first_difference(
    a: Seq<char>,
    b: Seq<char>,
    c: Seq<char>,
    x: char,
    y: char,
)
    ensures
        b.len() > 0 ==> precedes(a, a + b),
        (x as u32) < (y as u32) ==> precedes(c + seq![x] + a, c + seq![y] + b),
    decreases a.len() + c.len(),
{
    if b.len() > 0 {
        if a.len() > 0 {
            law_texts_are_ordered_by_their_first_difference(
                a.drop_first(),
                b,
                Seq::empty(),
                x,
                y,
            );
            assert((a + b).drop_first() =~= a.drop_first() + b);
        }
    }
    if (x as u32) < (y as u32) {
        let s = c + seq![x] + a;
        let t = c + seq![y] + b;
        if c.len() > 0 {
            law_texts_are_ordered_by_their_first_difference(a, b, c.drop_first(), x, y);
            assert(s.drop_first() =~= c.drop_first() + seq![x] + a);
            assert(t.drop_first() =~= c.drop_first() + seq![y] + b);
        } else {
            assert(s[0] == x && t[0] == y);
        }
    }
}

pub proof fn lemma_contains_grows(a: Seq<char>, b: Seq<char>, c: Seq<char>, p: Seq<char>)
    requires
        contains(a, p),
    ensures
        contains(a + b + c, p),
{
    assert(a + b + c =~= seq![] + a + (b + c));
    lemma_contains_in_whole(seq![], a, b + c, p);
}

} // verus!
