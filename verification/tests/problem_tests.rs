use waveguide::ast::structure::syntax_error_message;
use waveguide::ast::Rule;
use waveguide::problem::objects::{grab_text, FilePosition, InputLocation, ProblemType};
use waveguide::problem::text::wrap_text;
use waveguide::problem::bad_syntax;

#[test]
fn wrapping_text() {
    assert_eq!(wrap_text("aaa bbb ccc", 7, 0), "aaa bbb \nccc");
    assert_eq!(wrap_text("aaa bbb", 100, 0), "aaa bbb");
    assert_eq!(wrap_text("one\ntwo", 100, 0), "one\ntwo");
    // The first line already holds 10 bytes.
    assert_eq!(wrap_text("ab cd", 12, 10), "ab \ncd");
    // A word longer than a line stays whole.
    assert_eq!(wrap_text("abcdefgh", 3, 0), "\nabcdefgh");
    assert_eq!(wrap_text("", 10, 0), "");
}

#[test]
fn wrapping_keeps_the_text() {
    let input = "the quick brown fox jumps over the lazy dog";
    let wrapped = wrap_text(input, 10, 4);
    assert_eq!(wrapped.replace('\n', ""), input);
}

#[test]
fn grabbing_text() {
    let source = "first line\nsecond line\nthird";
    let grabbed = grab_text(source, &FilePosition::from_span(18, 22));
    assert_eq!(grabbed.prefix, "second ");
    assert_eq!(grabbed.highlighted, "line");
    assert_eq!(grabbed.suffix, "");
    assert_eq!(grabbed.line_number, 2);
    assert_eq!(grabbed.column_number, 8);
    let start = grab_text(source, &FilePosition::from_span(0, 5));
    assert_eq!(start.prefix, "");
    assert_eq!(start.highlighted, "first");
    assert_eq!(start.suffix, " line");
    assert_eq!(start.line_number, 1);
    assert_eq!(start.column_number, 1);
}

#[test]
fn positions() {
    assert_eq!(
        FilePosition::from_input_location(InputLocation::Pos(4)),
        FilePosition { start_pos: 4, end_pos: 5, file: 1 }
    );
    assert_eq!(
        FilePosition::from_input_location(InputLocation::Span(2, 9)),
        FilePosition { start_pos: 2, end_pos: 9, file: 1 }
    );
    let mut p = FilePosition::from_span(5, 8);
    p.include_span(3, 6);
    assert_eq!((p.start_pos, p.end_pos), (3, 8));
    p.include_span(4, 12);
    assert_eq!((p.start_pos, p.end_pos), (3, 12));
    assert_eq!(FilePosition::for_builtin(1, 2).file, 0);
    assert_eq!(FilePosition::placeholder(), FilePosition { start_pos: 0, end_pos: 0, file: 0 });
}

#[test]
fn syntax_errors() {
    let problem = bad_syntax(FilePosition::from_span(1, 2), "oops".to_owned());
    let descriptors = problem.borrow_descriptors();
    assert_eq!(descriptors.len(), 1);
    assert_eq!(descriptors[0].caption(), "Bad Syntax\noops");
    assert_eq!(descriptors[0].ptype(), ProblemType::Error);
    assert_eq!(
        syntax_error_message(&[Rule::dec_int, Rule::identifier], &[]),
        "Expected integer literal, identifier... but found unknown syntax."
    );
    assert_eq!(
        syntax_error_message(&[Rule::operator], &[Rule::EOI]),
        "Expected binary operator... but found end of file."
    );
}

fn report_sources() -> waveguide::SourceSet {
    let mut sources = waveguide::SourceSet::new();
    sources.add_item("test.wg".to_owned(), "let a = 1;\nbad line\n".to_owned());
    sources
}

#[test]
fn formatting_a_report() {
    colored::control::set_override(false);
    let sources = report_sources();
    let problem = bad_syntax(FilePosition::from_span(11, 14), "expected thing".to_owned());
    let rule = "-".repeat(40);
    let expected = format!(
        "ERROR: Bad Syntax\nexpected thing\n{rule}\n|   | test.wg:2:1\n{rule}\n| 2 | bad line\n{rule}\n\n"
    );
    assert_eq!(problem.format(Some(40), &sources), expected);
}

#[test]
fn formatting_a_narrow_report() {
    colored::control::set_override(false);
    let sources = report_sources();
    let problem = bad_syntax(FilePosition::from_span(11, 14), "expected thing".to_owned());
    let expected = "ERROR: \nBad Syntax\nexpected \nthing\n----------\n|   | test.wg:2:1\n----------\n| 2 | bad \n|   | line\n|   | \n----------\n\n";
    assert_eq!(problem.format(Some(10), &sources), expected);
}

#[test]
fn formatting_uses_the_fallback_width() {
    colored::control::set_override(false);
    let sources = report_sources();
    let problem = bad_syntax(FilePosition::from_span(11, 14), "x".to_owned());
    let report = problem.format(None, &sources);
    let rule = "-".repeat(60);
    assert!(report.starts_with(&format!("ERROR: Bad Syntax\nx\n{rule}\n")));
}

#[test]
fn formatting_colours_the_report() {
    colored::control::set_override(true);
    let sources = report_sources();
    let problem = bad_syntax(FilePosition::from_span(11, 14), "x".to_owned());
    let report = problem.format(Some(40), &sources);
    assert!(report.starts_with("\x1b[91mERROR: \x1b[0mBad Syntax\nx\n\x1b[34m----"));
    // The highlighted span is painted character by character.
    assert!(report.contains("\x1b[91mb\x1b[0m\x1b[91ma\x1b[0m\x1b[91md\x1b[0m line"));
}

#[test]
fn formatting_nothing() {
    let sources = report_sources();
    let problem = waveguide::problem::CompileProblem::new();
    assert_eq!(problem.format(Some(40), &sources), "");
}

#[test]
fn adding_a_remark_appends_its_report() {
    colored::control::set_override(false);
    let sources = report_sources();
    let mut problem = bad_syntax(FilePosition::from_span(11, 14), "x".to_owned());
    let before = problem.format(Some(40), &sources);
    problem.add_descriptor(waveguide::problem::ProblemDescriptor::new(
        FilePosition::from_span(0, 3),
        ProblemType::Hint,
        "here",
    ));
    let after = problem.format(Some(40), &sources);
    let rule = "-".repeat(40);
    assert_eq!(after, format!("{before}HINT: here\n{rule}\n|   | test.wg:1:1\n{rule}\n| 1 | let a = 1;\n{rule}\n\n"));
}
