use ds_verify::text::{
    blank, byte_len_of, chars_of, decimal_string, join_of, lines_of, replace_of, sorted_set_of,
    split_of, trim_str, words_of, CharClass,
};

fn samples() -> Vec<String> {
    let pieces = [
        "", " ", "\t", "\n", "\r\n", "\r", "a", "bc", ".", "..", "/", "é", "中", "🦀", "\u{a0}",
        "\u{2003}", "\u{200b}", "\u{3000}", "ab", "aba",
    ];
    let mut out = Vec::new();
    for x in pieces {
        for y in pieces {
            for z in pieces {
                out.push(format!("{x}{y}{z}"));
                out.push(format!("{x} {y}{z}{x}"));
            }
        }
    }
    out
}

fn owned(parts: &[Vec<char>]) -> Vec<String> {
    parts.iter().map(|p| p.iter().collect()).collect()
}

#[test]
fn trimming_agrees_with_str() {
    for s in samples() {
        assert_eq!(trim_str(&s), s.trim(), "{s:?}");
        assert_eq!(blank(&s), s.trim().is_empty(), "{s:?}");
    }
    for n in 0..0x3200_u32 {
        if let Some(c) = char::from_u32(n) {
            assert_eq!(blank(&c.to_string()), c.is_whitespace(), "{n:x}");
        }
    }
}

#[test]
fn lines_and_words_agree_with_str() {
    for s in samples() {
        let v = chars_of(&s);
        assert_eq!(owned(&lines_of(&v)), s.lines().collect::<Vec<_>>(), "{s:?}");
        assert_eq!(
            owned(&words_of(&v)),
            s.split_whitespace().collect::<Vec<_>>(),
            "{s:?}"
        );
        assert_eq!(
            owned(&split_of(&v, CharClass::Only('/'))),
            s.split('/').collect::<Vec<_>>(),
            "{s:?}"
        );
        assert_eq!(byte_len_of(&v), s.len() as u128);
    }
}

#[test]
fn replacing_agrees_with_str() {
    for s in samples() {
        let v = chars_of(&s);
        for pattern in ["a", "ab", "..", "aba", "\r\n", "é"] {
            let got: String = replace_of(&v, pattern, "<x>").iter().collect();
            assert_eq!(got, s.replace(pattern, "<x>"), "{s:?} {pattern:?}");
        }
    }
}

#[test]
fn numbers_joins_and_sets() {
    for n in [0_u128, 9, 10, 4096, u64::MAX as u128, u128::MAX] {
        assert_eq!(decimal_string(n), n.to_string());
    }
    let parts: Vec<Vec<char>> = ["b", "a", "é", "b", ""].iter().map(|p| chars_of(p)).collect();
    let joined: String = join_of(&parts, ", ").iter().collect();
    assert_eq!(joined, "b, a, é, b, ");
    assert_eq!(owned(&sorted_set_of(&parts)), vec!["", "a", "b", "é"]);
}
