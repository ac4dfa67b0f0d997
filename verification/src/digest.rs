//! SHA-256 digests and the JSON texts that they are taken of.

use sha2::Digest;
use vstd::prelude::*;

use crate::text::{
    all_hex, all_hex_of, append, cat2, chars_of, is_hex, lower, lower_of, slice_of, starts_with,
    starts_with_str, string_of, strip_prefix_str, trim, trim_of,
};

verus! {

/// The 32 bytes that SHA-256 gives for `bytes`.
pub uninterp spec fn sha256_of(bytes: Seq<u8>) -> Seq<u8>;

/// `sha2::Sha256::digest`: the SHA-256 digest of the bytes, 32 bytes long. The
/// digest is named by `sha256_of`; the algorithm itself is not spelled out.
#[verifier::external_body]
pub(crate) fn sha256(bytes: &[u8]) -> (r: Vec<u8>)
    ensures
        r@ == sha256_of(bytes@),
        r@.len() == 32,
{
    sha2::Sha256::digest(bytes).to_vec()
}

/// A text as a JSON string, with its quotation marks.
pub uninterp spec fn json_string_of(text: Seq<char>) -> Seq<char>;

/// `Display` of a `serde_json::Value` that holds a string: the string as JSON
/// writes it, in quotation marks and escaped. The result is named by
/// `json_string_of`; which characters are escaped is not spelled out.
#[verifier::external_body]
pub(crate) fn json_string(text: &str) -> (r: String)
    ensures
        r@ == json_string_of(text@),
{
    serde_json::Value::String(text.to_owned()).to_string()
}

pub open spec fn hex_digit(n: int) -> char {
    if n < 10 {
        (48 + n) as char
    } else {
        (87 + n) as char
    }
}

/// Two lower-case hexadecimal digits for each byte.
pub open spec fn hex_text(bytes: Seq<u8>) -> Seq<char> {
    Seq::new(
        2 * bytes.len(),
        |i: int|
            if i % 2 == 0 {
                hex_digit(bytes[i / 2] as int / 16)
            } else {
                hex_digit(bytes[i / 2] as int % 16)
            },
    )
}

fn hex_digit_of(n: u8) -> (r: char)
    requires
        n < 16,
    ensures
        r == hex_digit(n as int),
{
    if n < 10 {
        (48 + n) as char
    } else {
        (87 + n) as char
    }
}

fn hex_of(bytes: &Vec<u8>) -> (r: Vec<char>)
    ensures
        r@ == hex_text(bytes@),
{
    let mut out: Vec<char> = Vec::new();
    let mut i: usize = 0;
    while i < bytes.len()
        invariant
            i <= bytes@.len(),
            out@.len() == 2 * i,
            forall|k: int| 0 <= k < 2 * i ==> out@[k] == #[trigger] hex_text(bytes@)[k],
        decreases bytes@.len() - i,
    {
        let b = bytes[i];
        out.push(hex_digit_of(b / 16));
        out.push(hex_digit_of(b % 16));
        i += 1;
    }
    proof {
        assert(out@ =~= hex_text(bytes@));
    }
    out
}

/// The canonical text of a digest.
pub open spec fn digest_text(bytes: Seq<u8>) -> Seq<char> {
    "sha256:"@ + hex_text(sha256_of(bytes))
}

/// A digest in the form in which manifests record it.
pub open spec fn is_digest(value: Seq<char>) -> bool {
    value.len() == 71 && starts_with(value, "sha256:"@) && all_hex(value.skip(7))
}

/// The digest of some bytes, as `sha256:` and 64 hexadecimal digits.
pub fn digest_bytes(bytes: &[u8]) -> (r: String)
    ensures
        r@ == digest_text(bytes@),
        is_digest(r@),
{
    let raw = sha256(bytes);
    let digits = hex_of(&raw);
    let mut out = chars_of("sha256:");
    append(&mut out, &digits);
    proof {
        reveal_strlit("sha256:");
        assert(out@.subrange(0, 7) =~= "sha256:"@);
        assert(out@.skip(7) =~= hex_text(raw@));
        assert forall|i: int| 0 <= i < 64 implies is_hex(#[trigger] hex_text(raw@)[i]) by {
            let b = raw@[i / 2] as int;
            assert(0 <= b / 16 < 16);
            assert(0 <= b % 16 < 16);
        }
    }
    string_of(&out)
}

pub fn valid_digest(value: &str) -> (r: bool)
    ensures
        r == is_digest(value@),
{
    proof {
        reveal_strlit("sha256:");
    }
    let v = chars_of(value);
    if v.len() != 71 {
        return false;
    }
    match strip_prefix_str(&v, "sha256:") {
        Some(digits) => all_hex_of(&digits),
        None => false,
    }
}

/// The hexadecimal digits of a cited digest, whose prefix may be left out.
pub open spec fn cited_digits(raw: Seq<char>) -> Seq<char> {
    let t = trim(raw);
    if starts_with(t, "sha256:"@) || starts_with(t, "SHA256:"@) {
        t.skip(7)
    } else {
        t
    }
}

/// The canonical form of a cited digest, where it is one.
pub open spec fn canonical_digest(raw: Seq<char>) -> Option<Seq<char>> {
    let digits = cited_digits(raw);
    if digits.len() == 64 && all_hex(digits) {
        Some("sha256:"@ + lower(digits))
    } else {
        None
    }
}

/// Brings a cited digest to the form `sha256:` and 64 lower-case digits. The
/// bare 64 digits are accepted too, since critics tend to drop the prefix.
pub fn normalize_sha256(raw: &str) -> (r: Option<String>)
    ensures
        match canonical_digest(raw@) {
            Some(digest) => r is Some && r->0@ == digest,
            None => r is None,
        },
{
    proof {
        reveal_strlit("sha256:");
        reveal_strlit("SHA256:");
    }
    let v = chars_of(raw);
    let t = trim_of(&v);
    let digits = if starts_with_str(&t, "sha256:") || starts_with_str(&t, "SHA256:") {
        proof {
            assert(t@.subrange(7, t@.len() as int) =~= t@.skip(7));
        }
        slice_of(&t, 7, t.len())
    } else {
        t
    };
    if digits.len() == 64 && all_hex_of(&digits) {
        let low = string_of(&lower_of(&digits));
        Some(cat2("sha256:", low.as_str()))
    } else {
        None
    }
}

/// A canonical digest is a digest, and normalizing it again changes nothing.
pub proof fn law_normalizing_twice_is_normalizing_once(raw: Seq<char>)
    ensures
        canonical_digest(raw) is Some ==> is_digest(canonical_digest(raw)->0) && canonical_digest(
            canonical_digest(raw)->0,
        ) == canonical_digest(raw),
{
    if canonical_digest(raw) is Some {
        reveal_strlit("sha256:");
        let digits = cited_digits(raw);
        let low = lower(digits);
        let out = "sha256:"@ + low;
        assert(out.subrange(0, 7) =~= "sha256:"@);
        assert(out.skip(7) =~= low);
        assert forall|i: int| 0 <= i < low.len() implies is_hex(#[trigger] low[i]) by {
            assert(is_hex(digits[i]));
        }
        assert(out[0] == 's');
        assert(is_hex(low[63]));
        assert(out.last() == low[63]);
        crate::text::lemma_trim_by_fixed(out, crate::text::CharClass::White);
        assert(trim(out) == out);
        assert(lower(low) =~= low) by {
            assert forall|i: int| 0 <= i < low.len() implies lower(low)[i] == low[i] by {
                assert(is_hex(digits[i]));
            }
        }
    }
}

/// A digest may be cited as 64 hexadecimal digits, in any case, with the name of
/// the algorithm before them or without; it is the same digest. Anything else is
/// none.
pub proof fn law_cited_digest_is_known_in_each_form(raw: Seq<char>, digits: Seq<char>)
    ensures
        digits.len() == 64 && all_hex(digits) ==> {
            &&& canonical_digest(digits) == Some("sha256:"@ + lower(digits))
            &&& canonical_digest("sha256:"@ + digits) == Some("sha256:"@ + lower(digits))
            &&& canonical_digest("SHA256:"@ + digits) == Some("sha256:"@ + lower(digits))
        },
        canonical_digest(raw) is Some ==> exists|d: Seq<char>|
            d.len() == 64 && #[trigger] all_hex(d) && (trim(raw) == d || trim(raw) == "sha256:"@ + d
                || trim(raw) == "SHA256:"@ + d) && canonical_digest(raw) == Some(
                "sha256:"@ + lower(d),
            ),
{
    reveal_strlit("sha256:");
    reveal_strlit("SHA256:");
    assert("sha256:"@.len() == 7 && "SHA256:"@.len() == 7);
    if digits.len() == 64 && all_hex(digits) {
        assert(is_hex(digits[0]) && is_hex(digits[63]));
        crate::text::lemma_trim_by_fixed(digits, crate::text::CharClass::White);
        assert(!starts_with(digits, "sha256:"@)) by {
            if starts_with(digits, "sha256:"@) {
                assert(digits.subrange(0, 7)[0] == 's');
            }
        }
        assert(!starts_with(digits, "SHA256:"@)) by {
            if starts_with(digits, "SHA256:"@) {
                assert(digits.subrange(0, 7)[0] == 'S');
            }
        }
        let a = "sha256:"@ + digits;
        let b = "SHA256:"@ + digits;
        assert(a[0] == 's' && a.last() == digits[63]);
        assert(b[0] == 'S' && b.last() == digits[63]);
        crate::text::lemma_trim_by_fixed(a, crate::text::CharClass::White);
        crate::text::lemma_trim_by_fixed(b, crate::text::CharClass::White);
        assert(a.subrange(0, 7) =~= "sha256:"@);
        assert(b.subrange(0, 7) =~= "SHA256:"@);
        assert(a.skip(7) =~= digits);
        assert(b.skip(7) =~= digits);
    }
    if canonical_digest(raw) is Some {
        let t = trim(raw);
        let d = cited_digits(raw);
        if starts_with(t, "sha256:"@) {
            assert(t =~= "sha256:"@ + d) by {
                assert(t =~= t.subrange(0, 7) + t.skip(7));
            }
        } else if starts_with(t, "SHA256:"@) {
            assert(t =~= "SHA256:"@ + d) by {
                assert(t =~= t.subrange(0, 7) + t.skip(7));
            }
        }
        assert(all_hex(d));
    }
}

/// No two byte strings of one length are written with the same digits.
pub proof fn law_digits_tell_bytes_apart(a: Seq<u8>, b: Seq<u8>)
    requires
        hex_text(a) == hex_text(b),
    ensures
        a == b,
{
    assert(hex_text(a).len() == 2 * a.len());
    assert(hex_text(b).len() == 2 * b.len());
    assert forall|i: int| 0 <= i < a.len() implies a[i] == b[i] by {
        let x = a[i] as int;
        let y = b[i] as int;
        assert(hex_text(a)[2 * i] == hex_digit(x / 16));
        assert(hex_text(a)[2 * i + 1] == hex_digit(x % 16)) by {
            assert((2 * i + 1) / 2 == i);
            assert((2 * i + 1) % 2 == 1);
        }
        assert(hex_text(b)[2 * i] == hex_digit(y / 16));
        assert(hex_text(b)[2 * i + 1] == hex_digit(y % 16)) by {
            assert((2 * i + 1) / 2 == i);
            assert((2 * i + 1) % 2 == 1);
        }
        lemma_hex_digit_injective(x / 16, y / 16);
        lemma_hex_digit_injective(x % 16, y % 16);
    }
    assert(a =~= b);
}

proof fn lemma_hex_digit_injective(m: int, n: int)
    requires
        0 <= m < 16,
        0 <= n < 16,
        hex_digit(m) == hex_digit(n),
    ensures
        m == n,
{
    assert(hex_digit(m) as u32 == if m < 10 {
        48 + m
    } else {
        87 + m
    });
    assert(hex_digit(n) as u32 == if n < 10 {
        48 + n
    } else {
        87 + n
    });
}

} // verus!
