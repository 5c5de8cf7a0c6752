use spring_init::text::{
    chars_of, find, includes, insert_at, join, less, lines, pad, rule, same, split, trim,
};

fn strings(items: &[&str]) -> Vec<String> {
    items.iter().map(|s| s.to_string()).collect()
}

fn chars(s: &str) -> Vec<char> {
    s.chars().collect()
}

#[test]
fn chars_of_decodes_every_character() {
    assert_eq!(chars_of(""), Vec::<char>::new());
    assert_eq!(chars_of("a-b"), vec!['a', '-', 'b']);
    assert_eq!(chars_of("h\u{e9}llo \u{4e16}"), vec!['h', '\u{e9}', 'l', 'l', 'o', ' ', '\u{4e16}']);
}

#[test]
fn trim_removes_white_space_at_both_ends_only() {
    assert_eq!(trim(" web "), "web");
    assert_eq!(trim("\t data jpa \r\n"), "data jpa");
    assert_eq!(trim("web"), "web");
    assert_eq!(trim(""), "");
    assert_eq!(trim("   "), "");
    assert_eq!(trim("\u{a0}x\u{3000}"), "x");
    assert_eq!(trim(" \u{e9} "), "\u{e9}");
}

#[test]
fn trim_agrees_with_the_standard_library() {
    for s in ["", " ", "a", " a", "a ", "  a b  ", "\n\ta\u{2003}", "\u{feff}a", "x\u{85}"] {
        assert_eq!(trim(s), s.trim());
    }
}

#[test]
fn less_is_the_order_of_strings() {
    let samples = ["", "a", "A", "ab", "b", "data-jpa", "security", "web", "\u{e9}", "z", "web2"];
    for a in samples {
        for b in samples {
            assert_eq!(less(a, b), a < b);
        }
    }
    assert!(less("data-jpa", "security"));
    assert!(!less("web", "web"));
    assert!(less("z", "\u{e9}"));
}

#[test]
fn same_compares_texts() {
    assert!(same("web", "web"));
    assert!(same("", ""));
    assert!(!same("web", "Web"));
    assert!(!same("web", "web "));
    assert!(!same("ab", "a"));
}

#[test]
fn find_gives_the_first_occurrence() {
    assert_eq!(find(&chars("a</x>b</x>"), &chars("</x>")), Some(1));
    assert_eq!(find(&chars("abc"), &chars("abc")), Some(0));
    assert_eq!(find(&chars("abc"), &chars("")), Some(0));
    assert_eq!(find(&chars(""), &chars("")), Some(0));
    assert_eq!(find(&chars("abc"), &chars("abcd")), None);
    assert_eq!(find(&chars("aab"), &chars("ab")), Some(1));
    assert_eq!(find(&chars("abc"), &chars("x")), None);
}

#[test]
fn find_counts_characters_not_bytes() {
    assert_eq!(find(&chars("\u{e9}\u{e9}<b>"), &chars("<b>")), Some(2));
}

#[test]
fn includes_says_whether_a_text_occurs() {
    assert!(includes(&chars("<project><build>"), &chars("<build>")));
    assert!(!includes(&chars("<project><build"), &chars("<build>")));
    assert!(includes(&chars("x"), &chars("")));
}

#[test]
fn insert_at_puts_the_piece_before_the_position() {
    assert_eq!(insert_at("abcd", 2, "XY"), "abXYcd");
    assert_eq!(insert_at("abcd", 0, "XY"), "XYabcd");
    assert_eq!(insert_at("abcd", 4, "XY"), "abcdXY");
    assert_eq!(insert_at("", 0, "XY"), "XY");
    assert_eq!(insert_at("h\u{e9}llo", 2, "-"), "h\u{e9}-llo");
}

#[test]
fn split_keeps_empty_pieces() {
    assert_eq!(split("a,b,,c", ','), strings(&["a", "b", "", "c"]));
    assert_eq!(split("", ','), strings(&[""]));
    assert_eq!(split(",", ','), strings(&["", ""]));
    assert_eq!(split("abc", ','), strings(&["abc"]));
    assert_eq!(split("g:a:v", ':'), strings(&["g", "a", "v"]));
}

#[test]
fn split_agrees_with_the_standard_library() {
    for s in ["", ",", "a", "a,", ",a", "web, data-jpa", ",,", "\u{e9},x"] {
        let expected: Vec<String> = s.split(',').map(|p| p.to_string()).collect();
        assert_eq!(split(s, ','), expected);
    }
}

#[test]
fn join_puts_the_separator_between_neighbours() {
    assert_eq!(join(&strings(&[]), ","), "");
    assert_eq!(join(&strings(&["a"]), ","), "a");
    assert_eq!(join(&strings(&["a", "b", "c"]), ","), "a,b,c");
    assert_eq!(join(&strings(&["a", "", "c"]), ", "), "a, , c");
}

#[test]
fn join_undoes_split() {
    for s in ["", ",", "a", "a,b", ",a,,b,"] {
        assert_eq!(join(&split(s, ','), ","), s);
    }
}

#[test]
fn lines_agree_with_the_standard_library() {
    for s in [
        "",
        "\n",
        "a",
        "a\n",
        "a\nb",
        "a\n\nb",
        "a\r\nb\r\n",
        "foo\nbar\n\r\nbaz\r",
        "\r",
        "\r\n",
        "a\r\r\nb",
        "\n\n",
    ] {
        let expected: Vec<String> = s.lines().map(|l| l.to_string()).collect();
        assert_eq!(lines(s), expected);
    }
}

#[test]
fn lines_leave_out_the_line_endings() {
    assert_eq!(lines("one\ntwo\r\nthree"), strings(&["one", "two", "three"]));
    assert_eq!(lines("one\n"), strings(&["one"]));
    assert_eq!(lines(""), Vec::<String>::new());
}

#[test]
fn pad_fills_up_to_the_width() {
    assert_eq!(pad("ab", 5), "ab   ");
    assert_eq!(pad("", 3), "   ");
    assert_eq!(pad("abcde", 5), "abcde");
    assert_eq!(pad("abcdef", 5), "abcdef");
    assert_eq!(pad("\u{e9}", 3), "\u{e9}  ");
    assert_eq!(pad("web", 40), format!("{:<40}", "web"));
}

#[test]
fn rule_is_made_of_dashes() {
    assert_eq!(rule(0), "");
    assert_eq!(rule(3), "---");
    assert_eq!(rule(120), format!("{:-<120}", ""));
}
