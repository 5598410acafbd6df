use bashellit::formatter::{format_bash, format_chars, INDENT_SIZE};
use bashellit::text::{from_chars, to_chars};

#[test]
fn then_on_its_own_line_opens_a_block() {
    assert_eq!(
        format_bash("if true\nthen\necho hi\nfi"),
        "if true\nthen\n    echo hi\nfi"
    );
}

#[test]
fn for_loop_body_is_indented() {
    assert_eq!(
        format_bash("for i in 1 2 3; do\necho $i\ndone"),
        "for i in 1 2 3; do\n    echo $i\ndone"
    );
}

#[test]
fn else_is_written_at_the_level_of_its_if() {
    assert_eq!(
        format_bash("if x; then\necho a\nelse\necho b\nfi"),
        "if x; then\n    echo a\nelse\n    echo b\nfi"
    );
}

#[test]
fn unmatched_leading_fi_keeps_depth_at_zero() {
    assert_eq!(format_bash("fi\necho done"), "fi\necho done");
}

#[test]
fn many_unmatched_closers_keep_depth_at_zero() {
    assert_eq!(
        format_bash("done\nfi\n}\nesac\nif x; then\ny\nfi\n"),
        "done\nfi\n}\nesac\nif x; then\n    y\nfi\n"
    );
}

#[test]
fn nested_blocks_indent_by_four_spaces_per_level() {
    assert_eq!(INDENT_SIZE, 4);
    assert_eq!(
        format_bash("if a; then\nif b; then\necho x\nfi\nfi\n"),
        "if a; then\n    if b; then\n        echo x\n    fi\nfi\n"
    );
}

#[test]
fn elif_closes_and_reopens() {
    assert_eq!(
        format_bash("if a; then\nx\nelif b; then\ny\nfi"),
        "if a; then\n    x\nelif b; then\n    y\nfi"
    );
}

#[test]
fn else_with_a_command_after_it_still_reopens() {
    assert_eq!(
        format_bash("if a; then\nx\nelse echo hi\ny\nfi"),
        "if a; then\n    x\nelse echo hi\n    y\nfi"
    );
}

#[test]
fn elif_without_then_still_reopens() {
    assert_eq!(
        format_bash("if a; then\nx\nelif b\ny\nfi"),
        "if a; then\n    x\nelif b\n    y\nfi"
    );
}

#[test]
fn braces_open_and_close() {
    assert_eq!(
        format_bash("foo() {\necho hi\n}"),
        "foo() {\n    echo hi\n}"
    );
    assert_eq!(
        format_bash("if x {\na\n} else {\nb\n}"),
        "if x {\n    a\n} else {\n    b\n}"
    );
}

#[test]
fn case_opens_until_esac() {
    assert_eq!(
        format_bash("case $x in\na)\necho 1\n;;\nesac"),
        "case $x in\n    a)\n    echo 1\n    ;;\nesac"
    );
}

#[test]
fn case_with_esac_on_the_same_line_does_not_open() {
    assert_eq!(
        format_bash("case $x in a) echo 1;; esac\necho after"),
        "case $x in a) echo 1;; esac\necho after"
    );
}

#[test]
fn case_counts_esac_anywhere_in_the_line() {
    assert_eq!(
        format_bash("case $x in # no esac here\necho after"),
        "case $x in # no esac here\necho after"
    );
}

#[test]
fn one_trailing_semicolon_is_not_part_of_the_word() {
    assert_eq!(
        format_bash("while x; do\ny\ndone;"),
        "while x; do\n    y\ndone;"
    );
    assert_eq!(format_bash("x; then;\ny"), "x; then;\n    y");
}

#[test]
fn only_one_trailing_semicolon_is_taken_off() {
    assert_eq!(
        format_bash("while x; do\ny\ndone;;"),
        "while x; do\n    y\n    done;;"
    );
}

#[test]
fn keywords_are_case_sensitive_and_whole_words() {
    assert_eq!(format_bash("x; DO\ny"), "x; DO\ny");
    assert_eq!(format_bash("x; doing\ny"), "x; doing\ny");
    assert_eq!(format_bash("x; do\nfinal\ny"), "x; do\n    final\n    y");
}

#[test]
fn a_single_word_is_first_and_last_word() {
    assert_eq!(format_bash("do\nx\ndone\n"), "do\n    x\ndone\n");
    assert_eq!(format_bash("{\nx\n}\n"), "{\n    x\n}\n");
    assert_eq!(format_bash("else\nx"), "else\n    x");
}

#[test]
fn empty_lines_stay_bare_and_keep_the_depth() {
    assert_eq!(format_bash("a\n\n  \nb\n"), "a\n\n\nb\n");
    assert_eq!(
        format_bash("x; do\n\n   \ny\ndone\n"),
        "x; do\n\n\n    y\ndone\n"
    );
}

#[test]
fn whitespace_around_a_line_is_replaced() {
    assert_eq!(format_bash("  x  "), "x");
    assert_eq!(format_bash("\t{\n\t\t\tx\t\n }\n"), "{\n    x\n}\n");
    assert_eq!(format_bash("\u{3000}echo\u{a0}\u{2003}"), "echo");
    assert_eq!(format_bash("a  b\tc"), "a  b\tc");
}

#[test]
fn carriage_returns_at_line_ends_are_whitespace() {
    assert_eq!(format_bash("x; do\r\ny\r\ndone\r\n"), "x; do\n    y\ndone\n");
}

#[test]
fn empty_and_blank_documents() {
    assert_eq!(format_bash(""), "");
    assert_eq!(format_bash("\n"), "\n");
    assert_eq!(format_bash("\n\n"), "\n\n");
    assert_eq!(format_bash(" "), "");
    assert_eq!(format_bash("  \n"), "\n");
}

#[test]
fn final_line_feed_is_kept() {
    assert_eq!(format_bash("a\n"), "a\n");
    assert_eq!(format_bash("a\nb\n"), "a\nb\n");
    assert_eq!(format_bash("a\n\n"), "a\n\n");
    assert!(format_bash("if x; then\ny\nfi\n").ends_with('\n'));
}

#[test]
fn no_final_line_feed_is_added() {
    assert_eq!(format_bash("a"), "a");
    assert_eq!(format_bash("a\nb"), "a\nb");
    assert!(!format_bash("if x; then\ny\nfi").ends_with('\n'));
}

#[test]
fn whitespace_after_the_last_line_feed_leaves_the_line_feed() {
    assert_eq!(format_bash("a\n  "), "a\n");
    assert_eq!(format_bash("a\n\t"), "a\n");
}

fn samples() -> Vec<&'static str> {
    vec![
        "",
        " ",
        "\n",
        "a",
        "a\n",
        "a\n  ",
        "  a  \n\n\n",
        "if true\nthen\necho hi\nfi",
        "for i in 1 2 3; do\necho $i\ndone",
        "if x; then\necho a\nelse\necho b\nfi\n",
        "fi\necho done",
        "case $x in\na)\necho 1\n;;\nesac\n",
        "f() {\nwhile read l; do\nif [ -z \"$l\" ]; then\ncontinue\nelif x\ny\nfi\ndone\n}\n",
        "\t\t}\n\t{\r\n  done;;\n   \u{2028}x\u{85}\n ",
        "x; do\n\n\ny\n   ",
    ]
}

#[test]
fn reformatting_twice_is_reformatting_once() {
    for d in samples() {
        let once = format_bash(d);
        assert_eq!(format_bash(&once), once, "document {:?}", d);
    }
}

#[test]
fn rows_are_kept_in_number_and_content() {
    for d in samples() {
        let out = format_bash(d);
        let before: Vec<&str> = d.split('\n').collect();
        let after: Vec<&str> = out.split('\n').collect();
        assert_eq!(before.len(), after.len(), "document {:?}", d);
        for (b, a) in before.iter().zip(after.iter()) {
            assert_eq!(b.trim(), a.trim_start(), "document {:?}", d);
        }
    }
}

#[test]
fn lines_are_kept_unless_the_document_ends_in_a_blank_row() {
    for d in samples() {
        let last = d.split('\n').last().unwrap_or("");
        if !last.is_empty() && last.trim().is_empty() {
            continue;
        }
        let out = format_bash(d);
        let before: Vec<&str> = d.lines().map(|l| l.trim()).collect();
        let after: Vec<&str> = out.lines().map(|l| l.trim_start()).collect();
        assert_eq!(before, after, "document {:?}", d);
    }
    assert_eq!("a\n  ".lines().count(), 2);
    assert_eq!(format_bash("a\n  ").lines().count(), 1);
}

#[test]
fn a_final_line_feed_stays_a_final_line_feed() {
    for d in samples() {
        let out = format_bash(d);
        if d.ends_with('\n') {
            assert!(out.ends_with('\n'), "document {:?}", d);
        }
        let last = d.split('\n').last().unwrap_or("");
        let blank_tail = d.contains('\n') && !last.is_empty() && last.trim().is_empty();
        if !blank_tail {
            assert_eq!(out.ends_with('\n'), d.ends_with('\n'), "document {:?}", d);
        }
    }
}

#[test]
fn characters_round_trip_through_the_buffer() {
    let s = "héllo ☃\n\twörld";
    let chars = to_chars(s);
    assert_eq!(chars.len(), 14);
    assert_eq!(from_chars(&chars), s);
    assert_eq!(from_chars(&format_chars(&chars)), "héllo ☃\nwörld");
}
