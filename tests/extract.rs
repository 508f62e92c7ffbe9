use fixme::classify::{classify, IssueKind};
use fixme::extract::{extract_issues, IssueList};
use fixme::scanner::{scan, CommentForm};

fn texts(list: &IssueList) -> Vec<String> {
    (0..list.len())
        .map(|i| String::from_utf8(list.text(i)).unwrap())
        .collect()
}

fn lines(list: &IssueList) -> Vec<(usize, usize)> {
    (0..list.len())
        .map(|i| (list.line_begin(i), list.line_end(i)))
        .collect()
}

#[test]
fn six_byte_body_is_no_issue() {
    assert_eq!(classify(b"FIXME:"), None);
    assert_eq!(classify(b"TODO!!"), None);
    assert_eq!(classify(b"  TODO: "), None);
}

#[test]
fn seven_byte_body_is_classified() {
    assert_eq!(classify(b"FIXME:!"), Some(IssueKind::FIXME));
    assert_eq!(classify(b"TODO: b"), Some(IssueKind::TODO));
    assert_eq!(classify(b"fixme: lower"), Some(IssueKind::FIXME));
    assert_eq!(classify(b"ToDo: mixed"), Some(IssueKind::TODO));
}

#[test]
fn classifier_strips_one_marker() {
    assert_eq!(classify(b"//TODO: y"), Some(IssueKind::TODO));
    assert_eq!(classify(b"// TODO: y"), None);
    assert_eq!(classify(b"*FIXME x"), Some(IssueKind::FIXME));
    assert_eq!(classify(b"/*FIXME x"), Some(IssueKind::FIXME));
    assert_eq!(classify(b"////FIXME x"), None);
    assert_eq!(classify(b"NOTE: nothing"), None);
    assert_eq!(classify(b""), None);
}

#[test]
fn scanner_finds_comments_in_order() {
    let cs = scan(b"a // x\nb /* y\nz */ c\n// w\n");
    assert_eq!(cs.len(), 3);
    assert_eq!(cs[0].form, CommentForm::Line);
    assert_eq!(cs[0].line, 0);
    assert_eq!((cs[0].start, cs[0].end), (5, 6));
    assert_eq!(cs[1].form, CommentForm::Block);
    assert_eq!(cs[1].line, 1);
    assert_eq!((cs[1].start, cs[1].end), (12, 15));
    assert_eq!(cs[2].form, CommentForm::Line);
    assert_eq!(cs[2].line, 3);
}

#[test]
fn scanner_drops_unterminated_comments() {
    assert_eq!(scan(b"x /* FIXME: never closed\n").len(), 0);
    assert_eq!(scan(b"// FIXME: no newline").len(), 0);
    assert_eq!(scan(b"a /").len(), 0);
    assert_eq!(scan(b"").len(), 0);
}

#[test]
fn slash_before_newline_counts_the_line() {
    let cs = scan(b"a /\n// x\n");
    assert_eq!(cs.len(), 1);
    assert_eq!(cs[0].line, 1);
}

#[test]
fn line_merge_stops_at_gap() {
    let input = "\n// FIXME: a\n// continued\n// more\n\n// orphan\n";
    let list = extract_issues(input, "src/lib.rs");
    assert_eq!(list.len(), 1);
    assert_eq!(list.kind(0), IssueKind::FIXME);
    assert_eq!(texts(&list), vec!["FIXME: a\ncontinued\nmore".to_string()]);
    assert_eq!(lines(&list), vec![(1, 3)]);
    assert_eq!(list.file_name(0), "src/lib.rs");
}

#[test]
fn retagging_starts_new_issue() {
    let list = extract_issues("\n// FIXME: a\n// TODO: b\n", "f.rs");
    assert_eq!(list.len(), 2);
    assert_eq!(list.kind(0), IssueKind::FIXME);
    assert_eq!(list.kind(1), IssueKind::TODO);
    assert_eq!(texts(&list), vec!["FIXME: a".to_string(), "TODO: b".to_string()]);
    assert_eq!(lines(&list), vec![(1, 1), (2, 2)]);
}

#[test]
fn block_comment_never_merges() {
    let list = extract_issues("/* FIXME: block */\n// more text\n", "f.rs");
    assert_eq!(list.len(), 1);
    assert_eq!(texts(&list), vec!["FIXME: block".to_string()]);
    assert_eq!(lines(&list), vec![(0, 0)]);

    let list = extract_issues("// TODO: line one\n/* more text */\n", "f.rs");
    assert_eq!(list.len(), 1);
    assert_eq!(texts(&list), vec!["TODO: line one".to_string()]);
    assert_eq!(lines(&list), vec![(0, 0)]);
}

#[test]
fn block_line_count() {
    let input = format!("{}/* TODO: x\n y\n z */\n", "\n".repeat(10));
    let list = extract_issues(&input, "f.rs");
    assert_eq!(list.len(), 1);
    assert_eq!(list.kind(0), IssueKind::TODO);
    assert_eq!(lines(&list), vec![(10, 12)]);
    assert_eq!(texts(&list), vec!["TODO: x\n y\n z".to_string()]);
}

#[test]
fn extraction_is_repeatable() {
    let input = "fn f() {}\n// FIXME: one\n//   two\nlet x = 1; /* todo: three\n */\n";
    let a = extract_issues(input, "a.rs");
    let b = extract_issues(input, "a.rs");
    assert_eq!(a.len(), 2);
    assert_eq!(a.len(), b.len());
    assert_eq!(texts(&a), texts(&b));
    assert_eq!(lines(&a), lines(&b));
    for i in 0..a.len() {
        assert_eq!(a.kind(i), b.kind(i));
        assert_eq!(a.file_name(i), b.file_name(i));
    }
    assert_eq!(texts(&a), vec!["FIXME: one\ntwo".to_string(), "todo: three".to_string()]);
    assert_eq!(lines(&a), vec![(1, 2), (3, 3)]);
}

#[test]
fn issue_text_is_trimmed() {
    let list = extract_issues("//   FIXME: spaced   \n//   \n//\n", "f.rs");
    assert_eq!(list.len(), 1);
    assert_eq!(texts(&list), vec!["FIXME: spaced".to_string()]);
    assert_eq!(lines(&list), vec![(0, 2)]);
}

#[test]
fn empty_input_has_no_issues() {
    assert_eq!(extract_issues("", "f.rs").len(), 0);
    assert_eq!(extract_issues("no comments here\n", "f.rs").len(), 0);
}

#[test]
fn untagged_comments_are_dropped() {
    let list = extract_issues("// just a note\n// FIXME: real\n", "f.rs");
    assert_eq!(list.len(), 1);
    assert_eq!(lines(&list), vec![(1, 1)]);
}
