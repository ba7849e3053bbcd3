use lined::command::ParseError;
use lined::editor::{plural_s, Diagnostic, Editor, Flow, Report, Step};
use ropey::Rope;

fn run(e: &mut Editor, line: &str) -> Step {
    e.read_and_run_command(Some(line))
}

fn opened(text: &str) -> Editor {
    let mut e = Editor::new();
    e.open("notes.txt".to_string(), Some(Rope::from_str(text)));
    e
}

#[test]
fn append_then_print() {
    let mut e = Editor::new();
    for line in ["a", "hello", "."] {
        let s = run(&mut e, line);
        assert_eq!(s.flow, Flow::Continue);
        assert_eq!(s.report, None);
    }
    let s = run(&mut e, "p");
    assert_eq!(s.output, "hello\n");
    assert_eq!(s.flow, Flow::Continue);
    assert!(e.has_unsaved_changes());
}

#[test]
fn write_without_path_keeps_buffer_dirty() {
    let mut e = Editor::new();
    for line in ["a", "hello", "."] {
        run(&mut e, line);
    }
    let s = run(&mut e, "w");
    assert_eq!(s.report, Some(Report::Error(Diagnostic::NoPath)));
    assert_eq!(Diagnostic::NoPath.message(), "no path provided");
    assert!(s.write.is_none());
    assert_eq!(s.flow, Flow::Continue);
    assert!(e.has_unsaved_changes());
}

#[test]
fn forced_quit_discards_changes() {
    let mut e = Editor::new();
    for line in ["a", "x", "."] {
        run(&mut e, line);
    }
    let s = run(&mut e, "Q");
    assert_eq!(s.report, Some(Report::Warning(Diagnostic::DiscardingChanges)));
    assert_eq!(Diagnostic::DiscardingChanges.message(), "discarding unsaved changes");
    assert_eq!(s.flow, Flow::Stop);
}

#[test]
fn quit_refused_with_unsaved_changes() {
    let mut e = Editor::new();
    for line in ["a", "x", "."] {
        run(&mut e, line);
    }
    let s = run(&mut e, "q");
    assert_eq!(s.report, Some(Report::Error(Diagnostic::UnsavedChanges)));
    assert_eq!(Diagnostic::UnsavedChanges.message(), "current file has unsaved changes");
    assert_eq!(s.flow, Flow::Continue);
    let s = run(&mut e, "p");
    assert_eq!(s.output, "x\n");
}

#[test]
fn quit_when_clean() {
    let mut e = Editor::new();
    let s = run(&mut e, "q");
    assert_eq!(s.flow, Flow::Stop);
    assert_eq!(s.report, None);
}

#[test]
fn end_of_input_stops() {
    let mut e = Editor::new();
    let s = e.read_and_run_command(None);
    assert_eq!(s.flow, Flow::Stop);
}

#[test]
fn empty_and_blank_lines_do_nothing() {
    let mut e = opened("a\n");
    for line in ["", "   ", "\t"] {
        let s = run(&mut e, line);
        assert_eq!(s.flow, Flow::Continue);
        assert_eq!(s.report, None);
        assert_eq!(s.output, "");
    }
}

#[test]
fn input_is_trimmed() {
    let mut e = opened("a\nb\n");
    let s = run(&mut e, "  2p \n");
    assert_eq!(s.report, None);
    assert_eq!(s.output, "b\n");
}

#[test]
fn parse_errors_are_reported() {
    let mut e = Editor::new();
    let s = run(&mut e, "x");
    assert_eq!(s.report, Some(Report::Error(Diagnostic::Parse(ParseError::UnexpectedCharacter))));
    assert_eq!(Diagnostic::Parse(ParseError::UnexpectedCharacter).message(), "unexpected character");
    let s = run(&mut e, "/re/p");
    assert_eq!(s.report, Some(Report::Error(Diagnostic::Parse(ParseError::RegexNotSupportedYet))));
    assert_eq!(s.flow, Flow::Continue);
}

#[test]
fn open_adds_missing_newline_and_write_keeps_it() {
    let mut e = Editor::new();
    let r = e.open("notes.txt".to_string(), Some(Rope::from_str("abc")));
    assert_eq!(r, Some(Report::Warning(Diagnostic::NoTrailingNewline)));
    assert_eq!(Diagnostic::NoTrailingNewline.message(), "file had no trailing new line");
    assert_eq!(e.contents(), "abc\n");
    assert!(!e.has_unsaved_changes());
    let s = run(&mut e, "w");
    let w = s.write.expect("a write request");
    assert_eq!(w.path, "notes.txt");
    assert_eq!(w.text, "abc\n");
    assert!(!w.quit);
}

#[test]
fn open_keeps_terminated_text() {
    let mut e = Editor::new();
    let r = e.open("f".to_string(), Some(Rope::from_str("a\nb\n")));
    assert_eq!(r, None);
    assert_eq!(e.contents(), "a\nb\n");
    assert_eq!(e.path(), Some("f"));
    assert_eq!(e.current_line(), 2);
}

#[test]
fn open_refused_with_unsaved_changes() {
    let mut e = Editor::new();
    for line in ["a", "x", "."] {
        run(&mut e, line);
    }
    let r = e.open("f".to_string(), Some(Rope::from_str("other\n")));
    assert_eq!(r, Some(Report::Error(Diagnostic::UnsavedChanges)));
    assert_eq!(e.contents(), "x\n");
    assert_eq!(e.path(), None);
}

#[test]
fn open_failure_is_reported() {
    let mut e = Editor::new();
    let r = e.open("missing".to_string(), None);
    assert_eq!(r, Some(Report::Error(Diagnostic::OpenFailed)));
    assert_eq!(Diagnostic::OpenFailed.message(), "failed to open file");
    assert_eq!(e.path(), None);
}

#[test]
fn info_twice_reports_the_same() {
    let mut e = opened("héllo\nworld\n");
    let first = run(&mut e, "?");
    let second = run(&mut e, "?");
    assert_eq!(first.report, second.report);
    assert_eq!(
        first.report,
        Some(Report::Info { lines: 2, code_points: 12, bytes: 13, all_ascii: false })
    );
}

#[test]
fn info_on_ascii_and_empty_buffers() {
    let mut e = opened("ab\n");
    let s = run(&mut e, "?");
    assert_eq!(s.report, Some(Report::Info { lines: 1, code_points: 3, bytes: 3, all_ascii: true }));
    let mut e = Editor::new();
    let s = run(&mut e, "?");
    assert_eq!(s.report, Some(Report::Info { lines: 0, code_points: 0, bytes: 0, all_ascii: true }));
}

#[test]
fn numbered_print() {
    let mut e = opened("a\nb\n");
    let s = run(&mut e, "n");
    assert_eq!(s.output, "1\ta\n2\tb\n");
}

#[test]
fn numbered_print_of_a_high_line() {
    let text: String = (1..=12).map(|i| format!("l{}\n", i)).collect();
    let mut e = opened(&text);
    let s = run(&mut e, "10,12n");
    assert_eq!(s.output, "10\tl10\n11\tl11\n12\tl12\n");
}

#[test]
fn print_by_address_keeps_current_line() {
    let mut e = opened("a\nb\nc\n");
    assert_eq!(e.current_line(), 3);
    assert_eq!(run(&mut e, "2p").output, "b\n");
    assert_eq!(e.current_line(), 3);
    assert_eq!(run(&mut e, "-p").output, "b\n");
    assert_eq!(run(&mut e, "-2p").output, "a\n");
    assert_eq!(run(&mut e, ".p").output, "c\n");
    assert_eq!(run(&mut e, "1,.p").output, "a\nb\nc\n");
    assert_eq!(run(&mut e, "2;p").output, "b\nc\n");
    assert_eq!(
        run(&mut e, "+p").report,
        Some(Report::Error(Diagnostic::Parse(ParseError::AddressOutOfBounds)))
    );
    assert_eq!(e.current_line(), 3);
}

#[test]
fn print_out_of_bounds() {
    let mut e = opened("a\nb\n");
    for line in ["0p", "3p", "2,1p", "-5p", "+p"] {
        let s = run(&mut e, line);
        assert_eq!(
            s.report,
            Some(Report::Error(Diagnostic::Parse(ParseError::AddressOutOfBounds))),
            "{}",
            line
        );
        assert_eq!(s.output, "");
    }
}

#[test]
fn print_of_empty_buffer_is_empty() {
    let mut e = Editor::new();
    let s = run(&mut e, "p");
    assert_eq!(s.output, "");
    assert_eq!(s.report, None);
}

#[test]
fn append_after_a_line() {
    let mut e = opened("a\nb\n");
    run(&mut e, "1a");
    assert!(e.is_inserting());
    run(&mut e, "x");
    run(&mut e, "y");
    let s = run(&mut e, ".");
    assert_eq!(s.flow, Flow::Continue);
    assert!(!e.is_inserting());
    assert_eq!(e.contents(), "a\nx\ny\nb\n");
    assert_eq!(e.current_line(), 3);
    assert!(e.has_unsaved_changes());
}

#[test]
fn appended_lines_are_not_trimmed_or_parsed() {
    let mut e = Editor::new();
    for line in ["a", "  q  ", " . ", "."] {
        run(&mut e, line);
    }
    assert_eq!(e.contents(), "  q  \n . \n");
}

#[test]
fn append_out_of_bounds() {
    let mut e = opened("a\n");
    let s = run(&mut e, "5a");
    assert_eq!(s.report, Some(Report::Error(Diagnostic::Parse(ParseError::AddressOutOfBounds))));
    assert!(!e.is_inserting());
}

#[test]
fn end_of_input_while_appending() {
    let mut e = opened("a\n");
    run(&mut e, "a");
    run(&mut e, "tail");
    let s = e.read_and_run_command(None);
    assert_eq!(s.flow, Flow::Stop);
    assert_eq!(e.contents(), "a\ntail\n");
}

#[test]
fn write_a_range() {
    let mut e = opened("a\nb\nc\n");
    let s = run(&mut e, "2,3wq");
    let w = s.write.expect("a write request");
    assert_eq!(w.text, "b\nc\n");
    assert!(w.quit);
    let s = run(&mut e, "9w");
    assert_eq!(s.report, Some(Report::Error(Diagnostic::Parse(ParseError::AddressOutOfBounds))));
}

#[test]
fn finishing_writes() {
    let mut e = opened("a\n");
    run(&mut e, "a");
    run(&mut e, "b");
    run(&mut e, ".");
    let s = e.finish_write(false, true);
    assert_eq!(s.report, Some(Report::Error(Diagnostic::WriteFailed)));
    assert_eq!(Diagnostic::WriteFailed.message(), "failed to write file");
    assert_eq!(s.flow, Flow::Continue);
    assert!(e.has_unsaved_changes());
    let s = e.finish_write(true, false);
    assert_eq!(s.flow, Flow::Continue);
    assert!(!e.has_unsaved_changes());
    let s = e.finish_write(true, true);
    assert_eq!(s.flow, Flow::Stop);
}

#[test]
fn read_failure_message() {
    assert_eq!(Diagnostic::ReadFailed.message(), "failed to read input");
}

#[test]
fn plural_suffix() {
    assert_eq!(plural_s(0), "s");
    assert_eq!(plural_s(1), "");
    assert_eq!(plural_s(2), "s");
}
