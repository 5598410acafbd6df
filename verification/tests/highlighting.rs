use bashellit::highlight::{
    events_well_placed, highlight_bash, highlight_events, HighlightedRegion, ScopeEvent,
    ShellGrammar,
};
use bashellit::scope::ScopeOp;

const KEYWORD: &str = "text-(--primary) font-bold";
const SUPPORT: &str = "text-(--secondary) font-semibold";
const LITERAL: &str = "text-(--tertiary)";
const COMMENT: &str = "text-(--on-surface-variant) opacity-50 italic";
const VARIABLE: &str = "text-blue-400 dark:text-blue-300";
const PLAIN: &str = "text-(--on-surface)";

fn joined(regions: &[HighlightedRegion]) -> String {
    let mut text = String::new();
    for region in regions {
        text.push_str(&region.text);
    }
    text
}

fn pairs(regions: &[HighlightedRegion]) -> Vec<(&str, &str)> {
    regions
        .iter()
        .map(|r| (r.text.as_str(), r.class.as_str()))
        .collect()
}

fn push(offset: usize, name: &str) -> ScopeEvent {
    ScopeEvent {
        offset,
        op: ScopeOp::Push(name.to_string()),
    }
}

fn pop(offset: usize, count: usize) -> ScopeEvent {
    ScopeEvent {
        offset,
        op: ScopeOp::Pop(count),
    }
}

#[test]
fn comment_line_is_shown_as_a_comment() {
    let regions = highlight_bash("# a comment".to_string());
    assert_eq!(joined(&regions), "# a comment");
    assert_eq!(
        pairs(&regions),
        vec![("#", COMMENT), (" a comment", COMMENT)]
    );
}

#[test]
fn empty_line_has_no_regions() {
    let regions = highlight_bash(String::new());
    assert!(regions.is_empty());
}

#[test]
fn shell_line_is_cut_along_its_scopes() {
    let grammar = ShellGrammar::load();
    let regions = grammar.highlight_line("echo \"$HOME\"");
    assert_eq!(
        pairs(&regions),
        vec![
            ("echo", SUPPORT),
            (" ", PLAIN),
            ("\"", LITERAL),
            ("$", VARIABLE),
            ("HOME", VARIABLE),
            ("\"", LITERAL),
        ]
    );
}

#[test]
fn keywords_of_a_loop_are_bold() {
    let grammar = ShellGrammar::load();
    let regions = grammar.highlight_line("while read -r line; do echo \"$line\"; done < file");
    let bold: Vec<&str> = regions
        .iter()
        .filter(|r| r.class == KEYWORD)
        .map(|r| r.text.as_str())
        .collect();
    assert_eq!(bold, vec!["while", ";", "do", ";", "done", "<"]);
}

#[test]
fn every_line_is_spelled_by_its_regions() {
    let grammar = ShellGrammar::load();
    for line in [
        "# a comment",
        "",
        " ",
        "if [ -f \"$x\" ]; then",
        "echo $HOME # hi",
        "x=$(ls | wc -l)",
        "héllo='wörld' && echo ☃",
        "function foo() {",
        "cat <<EOF",
        "case $x in",
        "  a) echo 1;;",
        "echo \"unterminated",
        "[[ $a =~ ^[0-9]+$ ]] && exit 1",
        "x=${y:-default}",
        "echo 'a' \\",
        "`ls`",
        "\t\tindented",
        "}}}} ))) ]] fi done esac",
        "\u{1F600} \u{0301}e\u{200B}",
    ] {
        let regions = grammar.highlight_line(line);
        assert_eq!(joined(&regions), line);
        assert!(regions.iter().all(|r| !r.text.is_empty()));
        assert_eq!(highlight_bash(line.to_string()), regions);
    }
}

#[test]
fn each_line_is_tokenized_on_its_own() {
    let grammar = ShellGrammar::load();
    let first = grammar.highlight_line("echo \"open");
    let again = grammar.highlight_line("echo hi");
    let fresh = ShellGrammar::load().highlight_line("echo hi");
    assert_eq!(joined(&first), "echo \"open");
    assert_eq!(again, fresh);
    assert_eq!(pairs(&again), vec![("echo", SUPPORT), (" hi", PLAIN)]);
}

#[test]
fn text_before_an_event_has_the_style_of_the_stack_before_it() {
    let events = vec![
        push(0, "source.shell"),
        push(0, "support.function.echo.shell"),
        pop(4, 1),
        push(5, "string.quoted.double.shell"),
        push(6, "variable.other.shell"),
        pop(8, 1),
        pop(9, 1),
    ];
    let regions = highlight_events("echo \"$x\" z", Some(events));
    assert_eq!(
        pairs(&regions),
        vec![
            ("echo", SUPPORT),
            (" ", PLAIN),
            ("\"", LITERAL),
            ("$x", VARIABLE),
            ("\"", LITERAL),
            (" z", PLAIN),
        ]
    );
}

#[test]
fn events_at_one_offset_give_no_empty_region() {
    let events = vec![
        push(0, "comment.line"),
        pop(0, 1),
        push(0, "keyword.control"),
        pop(2, 1),
        push(2, "string"),
        pop(2, 1),
    ];
    let regions = highlight_events("if x", Some(events));
    assert_eq!(pairs(&regions), vec![("if", KEYWORD), (" x", PLAIN)]);
}

#[test]
fn tail_has_the_style_of_the_final_stack() {
    let regions = highlight_events("a # b", Some(vec![push(2, "comment.line.shell")]));
    assert_eq!(pairs(&regions), vec![("a ", PLAIN), ("# b", COMMENT)]);
    let regions = highlight_events("abc", Some(vec![push(3, "comment.line.shell")]));
    assert_eq!(pairs(&regions), vec![("abc", PLAIN)]);
}

#[test]
fn no_events_give_one_plain_region() {
    assert_eq!(
        pairs(&highlight_events("abc", Some(Vec::new()))),
        vec![("abc", PLAIN)]
    );
    assert!(highlight_events("", Some(Vec::new())).is_empty());
}

#[test]
fn failed_tokenizer_gives_the_whole_line_plain() {
    assert_eq!(
        pairs(&highlight_events("echo hi", None)),
        vec![("echo hi", PLAIN)]
    );
    assert_eq!(pairs(&highlight_events("", None)), vec![("", PLAIN)]);
}

#[test]
fn offsets_are_byte_offsets() {
    let line = "é=☃ x";
    let events = vec![
        push(0, "variable.other"),
        pop(2, 1),
        push(3, "string.unquoted"),
        pop(6, 1),
    ];
    assert!(events_well_placed(line, &events));
    let regions = highlight_events(line, Some(events));
    assert_eq!(
        pairs(&regions),
        vec![("é", VARIABLE), ("=", PLAIN), ("☃", LITERAL), (" x", PLAIN)]
    );
}

#[test]
fn events_that_cannot_cut_the_line_give_the_whole_line_plain() {
    let backwards = vec![push(4, "keyword"), pop(2, 1)];
    assert!(!events_well_placed("echo hi", &backwards));
    assert_eq!(
        pairs(&highlight_events("echo hi", Some(backwards))),
        vec![("echo hi", PLAIN)]
    );
    let beyond = vec![push(0, "keyword"), pop(8, 1)];
    assert!(!events_well_placed("echo hi", &beyond));
    assert_eq!(
        pairs(&highlight_events("echo hi", Some(beyond))),
        vec![("echo hi", PLAIN)]
    );
    let inside_a_character = vec![push(1, "keyword")];
    assert!(!events_well_placed("é", &inside_a_character));
    assert_eq!(
        pairs(&highlight_events("é", Some(inside_a_character))),
        vec![("é", PLAIN)]
    );
    let at_the_end = vec![push(0, "keyword"), pop(7, 1)];
    assert!(events_well_placed("echo hi", &at_the_end));
    assert!(events_well_placed("", &Vec::new()));
    assert!(events_well_placed("", &vec![push(0, "keyword"), pop(0, 1)]));
    assert!(!events_well_placed("", &vec![push(1, "keyword")]));
}

#[test]
fn unapplicable_restore_is_passed_over() {
    let events = vec![
        push(0, "keyword"),
        ScopeEvent {
            offset: 1,
            op: ScopeOp::Restore,
        },
        ScopeEvent {
            offset: 2,
            op: ScopeOp::Noop,
        },
        pop(3, 1),
    ];
    let regions = highlight_events("abcd", Some(events));
    assert_eq!(
        pairs(&regions),
        vec![("a", KEYWORD), ("b", KEYWORD), ("c", KEYWORD), ("d", PLAIN)]
    );
}
