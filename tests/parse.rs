use changelog::parser::{parse_task_entries, parse_task_entry};
use changelog::text::text_chars;
use changelog::{parse_changelog, ChangeLog, ParseErrorKind, Task};

fn first_task(log: &ChangeLog) -> &Task {
    &log.versions[0].task_groups[0].entries[0]
}

fn error_kind(text: &str) -> ParseErrorKind {
    match parse_changelog(text) {
        Ok(_) => panic!("expected a parse error for {:?}", text),
        Err(e) => e.kind,
    }
}

#[test]
fn header_only_document() {
    let log = parse_changelog("# Changelog\n\n").unwrap();
    assert_eq!(log.header, "Changelog");
    assert!(log.versions.is_empty());
}

#[test]
fn header_with_spaces_and_unicode() {
    let log = parse_changelog("# Änderungen  v2 \n\n").unwrap();
    assert_eq!(log.header, "Änderungen  v2 ");
    assert!(log.versions.is_empty());
}

#[test]
fn end_to_end_document() {
    let text = "# Changelog\n\n## 1.0.0\n### Fixed\n- [AB-12] Fix crash\n  - detail one\n  - detail two\n";
    let log = parse_changelog(text).unwrap();
    assert_eq!(log.header, "Changelog");
    assert_eq!(log.versions.len(), 1);
    let version = &log.versions[0];
    assert_eq!(version.version, "1.0.0");
    assert_eq!(version.task_groups.len(), 1);
    let group = &version.task_groups[0];
    assert_eq!(group.header, "Fixed");
    assert_eq!(group.entries.len(), 1);
    let task = &group.entries[0];
    assert_eq!(task.id.project, "AB");
    assert_eq!(task.id.number, 12);
    assert_eq!(task.description, "Fix crash");
    assert_eq!(
        task.sub_list,
        Some(vec![String::from("detail one"), String::from("detail two")])
    );
}

#[test]
fn two_versions_and_groups() {
    let text = "# Log\n\n## 2.0\n### Added\n- [X-1] a\n- [X-2] b\n### Fixed\n- [Y-3] c\n\n## 1.0\n### Removed\n- [Z-4] d\n";
    let log = parse_changelog(text).unwrap();
    assert_eq!(log.versions.len(), 2);
    assert_eq!(log.versions[0].version, "2.0");
    assert_eq!(log.versions[0].task_groups.len(), 2);
    assert_eq!(log.versions[0].task_groups[0].header, "Added");
    assert_eq!(log.versions[0].task_groups[0].entries.len(), 2);
    assert_eq!(log.versions[0].task_groups[0].entries[1].id.number, 2);
    assert_eq!(log.versions[0].task_groups[1].header, "Fixed");
    assert_eq!(log.versions[0].task_groups[1].entries[0].id.project, "Y");
    assert_eq!(log.versions[1].version, "1.0");
    assert_eq!(log.versions[1].task_groups[0].entries[0].description, "d");
}

#[test]
fn task_without_trailing_newline() {
    let log = parse_changelog("# H\n\n## v1\n### G\n- [AB-7] last").unwrap();
    assert_eq!(first_task(&log).description, "last");
    assert_eq!(first_task(&log).sub_list, None);
}

#[test]
fn task_id_fidelity() {
    let log = parse_changelog("# H\n\n## v1\n### G\n- [ABCDEFGHIJ-4294967295] desc\n").unwrap();
    assert_eq!(first_task(&log).id.project, "ABCDEFGHIJ");
    assert_eq!(first_task(&log).id.number, u32::MAX);
    let log = parse_changelog("# H\n\n## v1\n### G\n- [P-0] desc\n").unwrap();
    assert_eq!(first_task(&log).id.project, "P");
    assert_eq!(first_task(&log).id.number, 0);
}

#[test]
fn leading_zeros_read_in_decimal() {
    let log = parse_changelog("# H\n\n## v1\n### G\n- [AB-007] desc\n").unwrap();
    assert_eq!(first_task(&log).id.number, 7);
}

#[test]
fn sub_items_attach_in_order() {
    let text = "# H\n\n## v1\n### G\n- [A-1] one\n  - x\n  - y\n  - z\n- [A-2] two\n";
    let log = parse_changelog(text).unwrap();
    let entries = &log.versions[0].task_groups[0].entries;
    assert_eq!(
        entries[0].sub_list,
        Some(vec![String::from("x"), String::from("y"), String::from("z")])
    );
    assert_eq!(entries[1].sub_list, None);
}

#[test]
fn no_sub_items_before_next_group() {
    let text = "# H\n\n## v1\n### G\n- [A-1] one\n### K\n- [A-2] two\n  - s\n";
    let log = parse_changelog(text).unwrap();
    let groups = &log.versions[0].task_groups;
    assert_eq!(groups[0].entries[0].sub_list, None);
    assert_eq!(groups[1].entries[0].sub_list, Some(vec![String::from("s")]));
}

#[test]
fn no_sub_items_before_blank_line() {
    let text = "# H\n\n## v1\n### G\n- [A-1] one\n\n## v2\n### K\n- [A-2] two\n";
    let log = parse_changelog(text).unwrap();
    assert_eq!(first_task(&log).sub_list, None);
    assert_eq!(log.versions.len(), 2);
}

#[test]
fn trailing_garbage_after_header() {
    let e = parse_changelog("# H\n\ngarbage").unwrap_err();
    assert_eq!(e.kind, ParseErrorKind::TrailingContent);
    assert_eq!(e.offset, 5);
    assert_eq!(e.line, 3);
    assert_eq!(e.column, 1);
}

#[test]
fn trailing_garbage_after_versions() {
    let valid = "# H\n\n## v1\n### G\n- [A-1] one\n\n";
    let text = format!("{}garbage", valid);
    let e = parse_changelog(&text).unwrap_err();
    assert_eq!(e.kind, ParseErrorKind::TrailingContent);
    assert_eq!(e.offset, valid.len());
}

#[test]
fn trailing_whitespace_is_accepted() {
    let log = parse_changelog("# H\n\n## v1\n### G\n- [A-1] one\n\n\n  \n").unwrap();
    assert_eq!(log.versions.len(), 1);
}

#[test]
fn extra_blank_line_between_versions_is_rejected() {
    let text = "# H\n\n## v1\n### G\n- [A-1] one\n\n\n## v2\n### G\n- [A-2] two\n";
    assert_eq!(error_kind(text), ParseErrorKind::TrailingContent);
}

#[test]
fn empty_task_group() {
    let e = parse_changelog("# H\n\n## v1\n### Group\n").unwrap_err();
    assert_eq!(e.kind, ParseErrorKind::EmptyTaskGroup);
    assert_eq!(e.offset, 21);
    let e = parse_changelog("# H\n\n## v1\n### A\n### B\n- [A-1] x\n").unwrap_err();
    assert_eq!(e.kind, ParseErrorKind::EmptyTaskGroup);
    assert_eq!(e.line, 5);
}

#[test]
fn missing_header() {
    let e = parse_changelog("Changelog\n\n").unwrap_err();
    assert_eq!(e.kind, ParseErrorKind::MissingHeader);
    assert_eq!((e.offset, e.line, e.column), (0, 1, 1));
    assert_eq!(error_kind(""), ParseErrorKind::MissingHeader);
    assert_eq!(error_kind("## v1\n"), ParseErrorKind::MissingHeader);
}

#[test]
fn missing_blank_line_after_header() {
    let e = parse_changelog("# H\n## v1\n").unwrap_err();
    assert_eq!(e.kind, ParseErrorKind::MissingBlankLineAfterHeader);
    assert_eq!((e.offset, e.line, e.column), (4, 2, 1));
    assert_eq!(error_kind("# H"), ParseErrorKind::MissingBlankLineAfterHeader);
}

#[test]
fn empty_version_group() {
    let e = parse_changelog("# H\n\n## v1\n\n").unwrap_err();
    assert_eq!(e.kind, ParseErrorKind::EmptyVersionGroup);
    assert_eq!(e.offset, 11);
    assert_eq!(error_kind("# H\n\n## v1\n- [A-1] x\n"), ParseErrorKind::EmptyVersionGroup);
}

#[test]
fn unexpected_end_of_input() {
    assert_eq!(error_kind("# H\n\n## v1"), ParseErrorKind::UnexpectedEndOfInput);
    assert_eq!(error_kind("# H\n\n## v1\n"), ParseErrorKind::UnexpectedEndOfInput);
}

#[test]
fn malformed_task_ids() {
    let e = parse_changelog("# H\n\n## v1\n### G\n- [ab-1] x\n").unwrap_err();
    assert_eq!(e.kind, ParseErrorKind::MalformedTaskId);
    assert_eq!((e.line, e.column), (5, 4));
    assert_eq!(error_kind("# H\n\n## v1\n### G\n- [AB1] x\n"), ParseErrorKind::MalformedTaskId);
    assert_eq!(error_kind("# H\n\n## v1\n### G\n- [AB-] x\n"), ParseErrorKind::MalformedTaskId);
    assert_eq!(error_kind("# H\n\n## v1\n### G\n- [AB-1]x\n"), ParseErrorKind::MalformedTaskId);
    assert_eq!(error_kind("# H\n\n## v1\n### G\n- [AB-1"), ParseErrorKind::MalformedTaskId);
}

#[test]
fn malformed_task_entry() {
    let e = parse_changelog("# H\n\n## v1\n### G\n- [A-1] x\nnot a task\n").unwrap_err();
    assert_eq!(e.kind, ParseErrorKind::MalformedTaskEntry);
    assert_eq!((e.line, e.column), (6, 1));
    assert_eq!(error_kind("# H\n\n## v1\n### G\n  - orphan\n"), ParseErrorKind::MalformedTaskEntry);
}

#[test]
fn task_number_overflow() {
    let e = parse_changelog("# H\n\n## v1\n### G\n- [AB-4294967296] x\n").unwrap_err();
    assert_eq!(e.kind, ParseErrorKind::IntegerOverflow);
    assert_eq!((e.line, e.column), (5, 7));
}

#[test]
fn error_offset_counts_bytes() {
    let e = parse_changelog("# Ü\n\nzz").unwrap_err();
    assert_eq!(e.kind, ParseErrorKind::TrailingContent);
    assert_eq!(e.offset, 6);
    assert_eq!((e.line, e.column), (3, 1));
}

#[test]
fn error_messages_differ_by_kind() {
    let a = parse_changelog("x").unwrap_err().message();
    let b = parse_changelog("# H\n\nzz").unwrap_err().message();
    assert!(!a.is_empty());
    assert_ne!(a, b);
}

#[test]
fn parsed_sections_hold_entries() {
    let text = "# Log\n\n## 2.0\n### Added\n- [X-1] a\n### Fixed\n- [Y-3] c\n  - s\n\n## 1.0\n### Removed\n- [Z-4] d\n";
    let log = parse_changelog(text).unwrap();
    for version in &log.versions {
        assert!(!version.task_groups.is_empty());
        for group in &version.task_groups {
            assert!(!group.entries.is_empty());
        }
    }
}

#[test]
fn two_blank_lines_after_header() {
    let e = parse_changelog("# H\n\n\n## v1\n### G\n- [A-1] x\n").unwrap_err();
    assert_eq!(e.kind, ParseErrorKind::MissingBlankLineAfterHeader);
    assert_eq!((e.offset, e.line, e.column), (5, 3, 1));
}

#[test]
fn error_names_offending_text() {
    let e = parse_changelog("# H\n\n## v1\n### G\n- [ab-1] fix\n").unwrap_err();
    assert_eq!(e.kind, ParseErrorKind::MalformedTaskId);
    assert_eq!(e.found, "ab-1] fix");
    let e = parse_changelog("# H\n\nzz\nyy").unwrap_err();
    assert_eq!(e.found, "zz");
}

#[test]
fn error_message_text() {
    let e = parse_changelog("# H\n\n## v1\n### Group\n").unwrap_err();
    assert_eq!(e.message(), "expected a task entry in the task group");
    let e = parse_changelog("x").unwrap_err();
    assert_eq!(e.message(), "expected the document header `# `");
}

#[test]
fn task_entry_on_its_own() {
    let s = text_chars("- [QA-4294967295] desc\n  - one\n  - two\n### Next\n");
    let (task, next) = parse_task_entry(&s, 0, 39).unwrap();
    assert_eq!(task.id.project, "QA");
    assert_eq!(task.id.number, 4294967295);
    assert_eq!(task.description, "desc");
    assert_eq!(task.sub_list, Some(vec![String::from("one"), String::from("two")]));
    assert_eq!(next, 39);
    let entries = parse_task_entries(&s, 0, 39).unwrap();
    assert_eq!(entries.len(), 1);
}
