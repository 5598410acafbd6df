use bashellit::text::{
    char_is_whitespace, find_line_end, leading_word_end, range_contains, range_spells,
    range_starts_with, skip_leading_whitespace, skip_trailing_whitespace, str_equals, to_chars,
    trailing_word_start,
};
use bashellit::formatter::classify_line;

#[test]
fn whitespace_is_what_the_standard_library_calls_whitespace() {
    let mut code: u32 = 0;
    while code <= 0x10FFFF {
        if let Some(c) = char::from_u32(code) {
            assert_eq!(char_is_whitespace(c), c.is_whitespace(), "U+{:04X}", code);
        }
        code += 1;
    }
}

#[test]
fn line_end_is_the_next_line_feed_or_the_end() {
    let chars = to_chars("ab\ncd\n\nef");
    assert_eq!(find_line_end(&chars, 0), 2);
    assert_eq!(find_line_end(&chars, 2), 2);
    assert_eq!(find_line_end(&chars, 3), 5);
    assert_eq!(find_line_end(&chars, 6), 6);
    assert_eq!(find_line_end(&chars, 7), 9);
    assert_eq!(find_line_end(&chars, 9), 9);
}

#[test]
fn trimming_finds_the_first_and_last_character_that_is_no_whitespace() {
    let chars = to_chars(" \t ab c \u{a0}");
    let n = chars.len();
    assert_eq!(skip_leading_whitespace(&chars, 0, n), 3);
    assert_eq!(skip_trailing_whitespace(&chars, 3, n), 7);
    let blank = to_chars("  \t");
    assert_eq!(skip_leading_whitespace(&blank, 0, 3), 3);
    assert_eq!(skip_trailing_whitespace(&blank, 0, 3), 0);
    assert_eq!(skip_trailing_whitespace(&blank, 3, 3), 3);
}

#[test]
fn words_end_at_whitespace() {
    let chars = to_chars("for i in x; do");
    let n = chars.len();
    assert_eq!(leading_word_end(&chars, 0, n), 3);
    assert_eq!(trailing_word_start(&chars, 0, n), 12);
    let one = to_chars("done");
    assert_eq!(leading_word_end(&one, 0, 4), 4);
    assert_eq!(trailing_word_start(&one, 0, 4), 0);
}

#[test]
fn ranges_compare_with_words() {
    let chars = to_chars("xx esac yy");
    assert!(range_spells(&chars, 3, 7, "esac"));
    assert!(!range_spells(&chars, 3, 6, "esac"));
    assert!(!range_spells(&chars, 3, 8, "esac"));
    assert!(!range_spells(&chars, 2, 6, "esac"));
    assert!(range_spells(&chars, 4, 4, ""));
    assert!(range_starts_with(&chars, 3, 10, "esac"));
    assert!(range_starts_with(&chars, 3, 7, "esac"));
    assert!(!range_starts_with(&chars, 3, 6, "esac"));
    assert!(range_contains(&chars, 0, 10, "esac"));
    assert!(range_contains(&chars, 3, 7, "esac"));
    assert!(!range_contains(&chars, 4, 10, "esac"));
    assert!(!range_contains(&chars, 0, 6, "esac"));
    assert!(range_contains(&chars, 0, 10, ""));
    assert!(range_contains(&chars, 10, 10, ""));
    assert!(!range_contains(&chars, 0, 10, "esacs"));
}

#[test]
fn strings_compare_by_their_characters() {
    assert!(str_equals("files", "files"));
    assert!(!str_equals("files", "file"));
    assert!(!str_equals("file", "files"));
    assert!(str_equals("", ""));
    assert!(!str_equals("é", "e"));
}

#[test]
fn line_shapes() {
    let shape = |s: &str| {
        let chars = to_chars(s);
        let shape = classify_line(&chars, 0, chars.len());
        (shape.dedent_before, shape.indent_after)
    };
    assert_eq!(shape("echo hi"), (false, false));
    assert_eq!(shape("if x; then"), (false, true));
    assert_eq!(shape("done"), (true, false));
    assert_eq!(shape("fi;"), (true, false));
    assert_eq!(shape("}"), (true, false));
    assert_eq!(shape("esac"), (true, false));
    assert_eq!(shape("else"), (true, true));
    assert_eq!(shape("elif x"), (true, true));
    assert_eq!(shape("} else {"), (true, true));
    assert_eq!(shape("case x in"), (false, true));
    assert_eq!(shape("case x in esac"), (false, false));
    assert_eq!(shape("x {"), (false, true));
    assert_eq!(shape("x; do;"), (false, true));
    assert_eq!(shape("x; do;;"), (false, false));
    assert_eq!(shape("x else"), (false, true));
}
