//! The source scan.

use token_snapshot::patch::Form;
use token_snapshot::patch::Placeholder;
use token_snapshot::scan::find_brace_end;
use token_snapshot::scan::find_marker;
use token_snapshot::scan::find_placeholder;
use token_snapshot::scan::find_quote_end;
use token_snapshot::text::chars_of;

fn span(source: &str, from: usize) -> Option<(usize, usize)> {
    find_placeholder(source, from).map(|place| (place.start, place.end))
}

#[test]
fn the_first_literal_after_a_position_is_found() {
    let source = "a(x, @{}); b(y, @{ z }); c(@\"s\");";
    assert_eq!(span(source, 0), Some((6, 8)));
    assert_eq!(span(source, 5), Some((6, 8)));
    assert_eq!(span(source, 6), Some((17, 22)));
    assert_eq!(span(source, 17), Some((28, 31)));
    assert_eq!(span(source, 28), None);
    assert_eq!(span(source, 1000), None);
    assert_eq!(span("", 0), None);
    assert_eq!(span("@", 0), None);
    assert_eq!(span("a @ {}", 0), None);
    assert_eq!(
        find_placeholder("  f(@{ x })", 0),
        Some(Placeholder { start: 5, end: 10, form: Form::CompactBrace, indent: 2 })
    );
}

#[test]
fn braces_inside_the_literal_are_matched() {
    assert_eq!(span("a(@{ fn f() { g({}) } }, b)", 0), Some((3, 23)));
    assert_eq!(span("a(@{ { }", 0), None);
    assert_eq!(span("a(@{", 0), None);
}

#[test]
fn braces_in_strings_and_characters_do_not_count() {
    assert_eq!(span("a(@{ f(\"}\") });", 0), Some((3, 13)));
    assert_eq!(span("a(@{ f(\"\\\"}\") });", 0), Some((3, 15)));
    assert_eq!(span("a(@{ f('}') });", 0), Some((3, 13)));
    assert_eq!(span("a(@{ f('\\'', '{') });", 0), Some((3, 19)));
    assert_eq!(span("a(@{ &'a T });", 0), Some((3, 12)));
    assert_eq!(span("a(@{ \"unclosed string });\n}", 0), None);
}

#[test]
fn a_quoted_literal_ends_at_its_quote() {
    assert_eq!(span("a(@\"\")", 0), Some((3, 5)));
    assert_eq!(span("a(@\"x \\\" y\" )", 0), Some((3, 11)));
    assert_eq!(span("a(@\"x \\\\\" )", 0), Some((3, 9)));
    assert_eq!(span("a(@\"x", 0), None);
    assert_eq!(span("a(@\"x\\", 0), None);
}

#[test]
fn the_parts_of_the_scan_agree() {
    let text = chars_of("ab@c @{ \"}\" } @\"q\"");
    assert_eq!(find_marker(&text, 0), Some(5));
    assert_eq!(find_marker(&text, 6), Some(14));
    assert_eq!(find_marker(&text, 15), None);
    assert_eq!(find_brace_end(&text, 7), Some(13));
    assert_eq!(find_brace_end(&text, 13), None);
    assert_eq!(find_quote_end(&text, 9), Some(11));
    assert_eq!(find_quote_end(&text, 16), Some(18));
    assert_eq!(find_quote_end(&text, 18), None);
}
