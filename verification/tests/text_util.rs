use tbox::strutil::{str_lt, str_eq, replace_str, trim_str, trim_start_str, repeat_str,
    lines_vec, usize_to_string, concat_str};

#[test]
fn replace_matches_the_standard_library() {
    let cases = [
        ("aaa", "a", "bb"),
        ("banana", "an", "x"),
        ("aaaa", "aa", "a"),
        ("no hit", "zz", "y"),
        ("", "a", "b"),
        ("överlappöö", "ö", "oe"),
        ("\\n\\n", "\\n", "\n"),
    ];
    for (s, from, to) in cases.iter() {
        assert_eq!(replace_str(s, from, to), s.replace(from, to));
    }
}

#[test]
fn trim_matches_the_standard_library() {
    let cases = ["  abc  ", "\t x\r\n", "no trim", "", "   ", "\u{3000}wide\u{00A0}"];
    for s in cases.iter() {
        assert_eq!(trim_str(s), s.trim());
        assert_eq!(trim_start_str(s), s.trim_start());
    }
}

#[test]
fn lines_match_the_standard_library() {
    let cases = ["a\nb", "a\nb\n", "\n\n", "", "one", "cr\r\nlf\n", "x\r"];
    for s in cases.iter() {
        let got = lines_vec(s);
        let want: Vec<String> = s.lines().map(String::from).collect();
        assert_eq!(got, want);
    }
}

#[test]
fn ordering_matches_the_standard_library() {
    let words = ["", "a", "ab", "b", "ba", "Z", "z", "中", "文"];
    for x in words.iter() {
        for y in words.iter() {
            assert_eq!(str_lt(x, y), x < y);
            assert_eq!(str_eq(x, y), x == y);
        }
    }
}

#[test]
fn decimal_rendering_matches_the_standard_library() {
    for n in [0usize, 1, 9, 10, 99, 100, 12345, usize::MAX] {
        assert_eq!(usize_to_string(n), n.to_string());
    }
}

#[test]
fn repeat_and_concat_match_the_standard_library() {
    assert_eq!(repeat_str("ab", 3), "ab".repeat(3));
    assert_eq!(repeat_str("x", 0), "");
    assert_eq!(concat_str("foo", "bar"), "foobar");
}
