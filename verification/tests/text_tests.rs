use omado::text::{
    chars_of, contains, is_whitespace, less_than, push_decimal, string_of, string_of_range,
    trim_bounds, trimmed, find,
};

#[test]
fn whitespace_agrees_with_std_on_every_char() {
    for u in 0u32..=0x10FFFF {
        if let Some(c) = char::from_u32(u) {
            assert_eq!(is_whitespace(c), c.is_whitespace(), "U+{:04X}", u);
        }
    }
}

#[test]
fn trimmed_agrees_with_std() {
    let samples = [
        "", "   ", "abc", "  abc  ", "\t a b \n", "\u{3000}x\u{2028}", "\u{85}y\u{a0}", "a\r",
        "\u{200b}z\u{200b}", " \u{1680} mid dle \u{205f}",
    ];
    for s in samples {
        assert_eq!(trimmed(s), s.trim(), "{:?}", s);
    }
}

#[test]
fn trim_bounds_gives_inner_part() {
    let cs = chars_of("  hi there \n");
    let (lo, hi) = trim_bounds(&cs);
    assert_eq!((lo, hi), (2, 10));
    let all_space = chars_of(" \t ");
    let (lo, hi) = trim_bounds(&all_space);
    assert_eq!(lo, hi);
}

#[test]
fn chars_round_trip() {
    let s = "héllo ● wörld 󰄲";
    let cs = chars_of(s);
    assert_eq!(cs.len(), s.chars().count());
    assert_eq!(string_of(&cs), s);
    assert_eq!(string_of_range(&cs, 1, 5), "éllo");
}

#[test]
fn contains_finds_substrings() {
    let hay = chars_of("fix the bug");
    assert!(contains(&hay, &chars_of("the")));
    assert!(contains(&hay, &chars_of("")));
    assert!(contains(&hay, &chars_of("bug")));
    assert!(contains(&hay, &chars_of("fix the bug")));
    assert!(!contains(&hay, &chars_of("bugs")));
    assert!(!contains(&hay, &chars_of("xfix")));
    assert!(!contains(&chars_of(""), &chars_of("a")));
}

#[test]
fn find_gives_first_position() {
    assert_eq!(find(&chars_of("a:b:c"), ':'), Some(1));
    assert_eq!(find(&chars_of("abc"), ':'), None);
    assert_eq!(find(&chars_of(":"), ':'), Some(0));
}

#[test]
fn less_than_agrees_with_string_order() {
    let words = ["", "a", "ab", "b", "B", "Zeta", "alpha", "é", "z", "ä", "aa", "a b", "中", "😀"];
    for x in words {
        for y in words {
            assert_eq!(
                less_than(&chars_of(x), &chars_of(y)),
                x.to_string() < y.to_string(),
                "{:?} < {:?}",
                x,
                y
            );
        }
    }
}

#[test]
fn decimal_digits() {
    for n in [0usize, 7, 10, 42, 1000, 65535, usize::MAX] {
        let mut s = String::from("n=");
        push_decimal(&mut s, n);
        assert_eq!(s, format!("n={}", n));
    }
}

#[test]
fn trimming_twice_is_trimming_once() {
    for s in ["  a b  ", "\u{3000}\tx", "", "   ", "y\u{85}"] {
        let once = trimmed(s);
        assert_eq!(trimmed(&once), once);
    }
}
