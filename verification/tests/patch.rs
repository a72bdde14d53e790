//! The source patch engine.

use token_snapshot::diff::edit_script;
use token_snapshot::diff::file_diff;
use token_snapshot::diff::split_lines;
use token_snapshot::diff::Edit;
use token_snapshot::patch::apply_updates;
use token_snapshot::patch::arrange_updates;
use token_snapshot::patch::stands_in_order;
use token_snapshot::patch::choose_form;
use token_snapshot::patch::indentation;
use token_snapshot::patch::lay_out;
use token_snapshot::patch::lay_out_compact;
use token_snapshot::patch::lay_out_expanded;
use token_snapshot::patch::patch_at;
use token_snapshot::patch::patch_source;
use token_snapshot::patch::patch_text;
use token_snapshot::patch::plan_update;
use token_snapshot::patch::read_placeholder;
use token_snapshot::patch::reconcile;
use token_snapshot::patch::splice;
use token_snapshot::patch::Form;
use token_snapshot::patch::Kind;
use token_snapshot::patch::Mode;
use token_snapshot::patch::PatchError;
use token_snapshot::patch::PendingUpdate;
use token_snapshot::patch::Placeholder;
use token_snapshot::patch::Reconciled;
use token_snapshot::scan::find_placeholder;
use token_snapshot::settings::Frame;
use token_snapshot::settings::Settings;
use token_snapshot::text::chars_of;
use token_snapshot::tokenstream::tokenize;

fn text(chars: &[char]) -> String {
    chars.iter().collect()
}

fn span_of(source: &str) -> (usize, usize) {
    let place = find_placeholder(source, 0).unwrap();
    (place.start, place.end)
}

fn patched(source: &str, value: &str) -> Result<Option<String>, PatchError> {
    let (start, end) = span_of(source);
    patch_source(&Settings::new(), source, start, end, &tokenize(value).unwrap())
}

#[test]
fn an_empty_placeholder_takes_content_of_one_line() {
    assert_eq!(
        patched("    check!(tokens, @{});\n", "struct Foo;"),
        Ok(Some("    check!(tokens, @{ struct Foo; });\n".to_string()))
    );
}

#[test]
fn equal_tokens_leave_the_file_as_it_is() {
    assert_eq!(patched("check!(tokens, @{ struct Foo { x: i32 } });", "struct  Foo{x:i32}"), Ok(None));
    assert_eq!(patched("check!(tokens, @{struct Foo;});", "struct Foo ;"), Ok(None));
    assert_eq!(patched("check!(tokens, @{\n    struct Foo;\n});", "struct Foo ;"), Ok(None));
    assert_eq!(patched("check!(tokens, @{});", ""), Ok(None));
    assert_eq!(patched("check!(tokens, @{ Vec < u8 > });", "Vec<u8>"), Ok(None));
    assert_eq!(patched("check!(tokens, @{ /** doc */ struct Foo; });", "struct Foo;"), Ok(None));
}

#[test]
fn documentation_in_the_literal_counts_when_asked() {
    let source = "check!(tokens, @{ /** doc */ struct Foo; });";
    let (start, end) = span_of(source);
    let mut settings = Settings::new();
    settings.enter(Frame::new().ignore_docs_for_tokens(false));
    assert_eq!(
        patch_source(&settings, source, start, end, &tokenize("struct Foo;").unwrap()),
        Ok(Some("check!(tokens, @{ struct Foo; });".to_string()))
    );
}

#[test]
fn content_of_several_lines_is_indented_from_the_line_of_the_delimiter() {
    let source = "fn t() {\n    check!(\n        tokens,\n        @{}\n    );\n}\n";
    assert_eq!(
        patched(source, "pub struct Foo; pub struct Bar;"),
        Ok(Some(
            "fn t() {\n    check!(\n        tokens,\n        @{\n            pub struct Foo;\n            pub struct Bar;\n        }\n    );\n}\n"
                .to_string()
        ))
    );
}

#[test]
fn a_patch_made_twice_changes_nothing_more() {
    let source = "    check!(tokens, @{ struct Old; });\n";
    let once = patched(source, "pub struct Foo; pub struct Bar;").unwrap().unwrap();
    assert_eq!(patched(&once, "pub struct Foo; pub struct Bar;"), Ok(None));
    assert_eq!(file_diff("src/lib.rs", &once, &once), "");
}

#[test]
fn a_patch_changes_the_span_and_nothing_else() {
    let source = "line one\n  check!(a, @{ old }); // rest\nline three\nline four\n";
    let (start, end) = span_of(source);
    let new_text = patched(source, "new + 1").unwrap().unwrap();
    assert_eq!(new_text, "line one\n  check!(a, @{ new + 1 }); // rest\nline three\nline four\n");
    assert_eq!(&new_text[..start], &source[..start]);
    assert_eq!(&new_text[new_text.len() - (source.len() - end)..], &source[end..]);
    assert_eq!(
        file_diff("f.rs", source, &new_text),
        "--- Original: f.rs\n+++ Updated: f.rs\n@@ -1,4 +1,4 @@\n line one\n-  check!(a, @{ old }); // rest\n+  check!(a, @{ new + 1 }); // rest\n line three\n line four\n"
    );
}

#[test]
fn a_span_that_is_no_literal_is_refused() {
    let value = tokenize("struct Foo;").unwrap();
    let settings = Settings::new();
    let source = "check!(tokens, @{});";
    assert_eq!(patch_source(&settings, source, 16, 18, &value), Ok(Some("check!(tokens, @{ struct Foo; });".to_string())));
    assert_eq!(patch_source(&settings, source, 15, 18, &value), Err(PatchError::NoPlaceholder));
    assert_eq!(patch_source(&settings, source, 16, 17, &value), Err(PatchError::NoPlaceholder));
    assert_eq!(patch_source(&settings, source, 16, 19, &value), Err(PatchError::NoPlaceholder));
    assert_eq!(patch_source(&settings, source, 16, 40, &value), Err(PatchError::NoPlaceholder));
    assert_eq!(patch_source(&settings, source, 0, 2, &value), Err(PatchError::NoPlaceholder));
    assert_eq!(patch_source(&settings, "{}", 0, 2, &value), Err(PatchError::NoPlaceholder));
    assert_eq!(patch_source(&settings, "", 0, 0, &value), Err(PatchError::NoPlaceholder));
    assert_eq!(patch_source(&settings, "@{\"", 1, 3, &value), Err(PatchError::NoPlaceholder));
}

#[test]
fn content_that_does_not_tokenize_is_refused() {
    let value = tokenize("struct Foo;").unwrap();
    let settings = Settings::new();
    let unclosed_string = "check!(tokens, @{ \"unclosed string });\n}";
    let start = unclosed_string.find('{').unwrap();
    let end = unclosed_string.find('}').unwrap() + 1;
    assert_eq!(
        patch_source(&settings, unclosed_string, start, end, &value),
        Err(PatchError::Malformed)
    );
    assert!(find_placeholder(unclosed_string, 0).is_none());
    let unclosed_delimiter = "check!(tokens, @{ fn foo( });";
    let (start, end) = span_of(unclosed_delimiter);
    assert_eq!(
        patch_source(&settings, unclosed_delimiter, start, end, &value),
        Err(PatchError::Malformed)
    );
    assert!(matches!(
        plan_update(&settings, unclosed_delimiter, start, end, &value),
        Err(PatchError::Malformed)
    ));
    assert!(matches!(
        reconcile(&settings, Mode::Accept, "f.rs", unclosed_delimiter, start, end, &value),
        Err(PatchError::Malformed)
    ));
}

#[test]
fn a_placeholder_is_read_with_its_form_and_indentation() {
    let read = |source: &str, start: usize, end: usize| {
        read_placeholder(&chars_of(source), start, end)
    };
    assert_eq!(
        read("  a(@{});", 5, 7),
        Some(Placeholder { start: 5, end: 7, form: Form::Empty, indent: 2 })
    );
    assert_eq!(
        read("a(@{ \n\t });", 3, 9),
        Some(Placeholder { start: 3, end: 9, form: Form::Empty, indent: 0 })
    );
    assert_eq!(
        read("\n\t a(@{ x });", 6, 11),
        Some(Placeholder { start: 6, end: 11, form: Form::CompactBrace, indent: 2 })
    );
    assert_eq!(
        read("a(\n    @{\n  x\n}\n);", 8, 15),
        Some(Placeholder { start: 8, end: 15, form: Form::ExpandedBrace, indent: 4 })
    );
    assert_eq!(
        read("a(@\"x\");", 3, 6),
        Some(Placeholder { start: 3, end: 6, form: Form::StringLiteral, indent: 0 })
    );
    assert_eq!(
        read("a(@\"\");", 3, 5),
        Some(Placeholder { start: 3, end: 5, form: Form::StringLiteral, indent: 0 })
    );
    assert_eq!(read("a(@{ x });", 3, 7), None);
    assert_eq!(read("a(@{ x \");", 3, 9), None);
    assert_eq!(read("a( { x });", 3, 8), None);
}

#[test]
fn the_indentation_is_that_of_the_line() {
    let column = |source: &str, at: usize| indentation(&chars_of(source), at);
    assert_eq!(column("", 0), 0);
    assert_eq!(column("abc", 2), 0);
    assert_eq!(column("    abc", 6), 4);
    assert_eq!(column("    abc", 2), 2);
    assert_eq!(column("a\n\t\t b", 5), 3);
    assert_eq!(column("a\n  b\nc", 6), 0);
    assert_eq!(column("  a  b", 5), 2);
    assert_eq!(column("a\n", 2), 0);
}

#[test]
fn a_literal_of_one_line_is_compact() {
    let compact = |kind: Kind, content: &str| text(&lay_out_compact(kind, &chars_of(content)));
    assert_eq!(compact(Kind::Tokens, "struct Foo;"), "{ struct Foo; }");
    assert_eq!(compact(Kind::Tokens, "  a b \t"), "{ a b }");
    assert_eq!(compact(Kind::Tokens, ""), "{}");
    assert_eq!(compact(Kind::Tokens, "  \t "), "{}");
    assert_eq!(compact(Kind::Text, "Just a string"), "\"Just a string\"");
    assert_eq!(compact(Kind::Text, " a \"b\" \\ "), "\" a \\\"b\\\" \\\\ \"");
    assert_eq!(compact(Kind::Text, ""), "\"\"");
    assert_eq!(text(&lay_out(Kind::Tokens, 8, &chars_of("a"))), "{ a }");
}

#[test]
fn a_literal_of_several_lines_is_expanded() {
    let expanded = |kind: Kind, indent: usize, content: &str| {
        text(&lay_out_expanded(kind, indent, &chars_of(content)))
    };
    assert_eq!(
        expanded(Kind::Tokens, 8, "\npub struct Foo;\npub struct Bar;\n"),
        "{\n            pub struct Foo;\n            pub struct Bar;\n        }"
    );
    assert_eq!(
        expanded(Kind::Tokens, 0, "\nfn f() {\n    1\n}\n"),
        "{\n    fn f() {\n        1\n    }\n}"
    );
    assert_eq!(expanded(Kind::Tokens, 2, "\na\n\nb\n"), "{\n      a\n\n      b\n  }");
    assert_eq!(expanded(Kind::Tokens, 1, "\n\r\na\n \n"), "{\n     a\n }");
    assert_eq!(expanded(Kind::Text, 0, "\na \"b\"\nc\n"), "\"\n    a \\\"b\\\"\n    c\n\"");
    assert_eq!(
        text(&lay_out(Kind::Tokens, 4, &chars_of("\na\nb\n"))),
        "{\n        a\n        b\n    }"
    );
}

#[test]
fn the_form_follows_the_content() {
    let form = |kind: Kind, content: &str| choose_form(kind, &chars_of(content));
    assert_eq!(form(Kind::Tokens, ""), Form::Empty);
    assert_eq!(form(Kind::Tokens, " \t"), Form::Empty);
    assert_eq!(form(Kind::Tokens, "struct Foo;"), Form::CompactBrace);
    assert_eq!(form(Kind::Tokens, "\na\nb\n"), Form::ExpandedBrace);
    assert_eq!(form(Kind::Tokens, "\n"), Form::ExpandedBrace);
    assert_eq!(form(Kind::Text, ""), Form::StringLiteral);
    assert_eq!(form(Kind::Text, "a\nb"), Form::StringLiteral);
    let settings = Settings::new();
    let source = "check!(tokens, @{ old });";
    let (start, end) = span_of(source);
    let several = tokenize("pub struct Foo; pub struct Bar;").unwrap();
    match plan_update(&settings, source, start, end, &several) {
        Ok(Some(update)) => {
            assert_eq!(update.form, Form::ExpandedBrace);
            assert_eq!(text(&update.text), "{\n    pub struct Foo;\n    pub struct Bar;\n}");
        }
        _ => panic!("an update was due"),
    }
}

#[test]
fn a_replacement_leaves_the_rest_in_place() {
    let replaced = |source: &str, start: usize, end: usize, piece: &str| {
        text(&splice(&chars_of(source), start, end, &chars_of(piece)))
    };
    assert_eq!(replaced("abcdef", 2, 4, "XYZ"), "abXYZef");
    assert_eq!(replaced("abcdef", 0, 0, "X"), "Xabcdef");
    assert_eq!(replaced("abcdef", 6, 6, "X"), "abcdefX");
    assert_eq!(replaced("abcdef", 0, 6, ""), "");
    assert_eq!(replaced("abcdef", 2, 4, "cd"), "abcdef");
}

#[test]
fn a_patch_is_made_unless_the_content_is_recorded() {
    let source = chars_of("  a(@{});");
    let place = Placeholder { start: 5, end: 7, form: Form::Empty, indent: 2 };
    let content = chars_of("\nx\ny\n");
    assert_eq!(patch_at(&source, &place, Kind::Tokens, &content, true), None);
    assert_eq!(
        patch_at(&source, &place, Kind::Tokens, &content, false).map(|new_text| text(&new_text)),
        Some("  a(@{\n      x\n      y\n  });".to_string())
    );
}

#[test]
fn plain_text_is_recorded_in_quotes() {
    let source = "check(value, @\"\");";
    assert_eq!(
        patch_text(source, 14, 16, "Just a string"),
        Ok(Some("check(value, @\"Just a string\");".to_string()))
    );
    assert_eq!(patch_text("check(value, @\"Just a string\");", 14, 29, "Just a string"), Ok(None));
    assert_eq!(
        patch_text("  check(value, @\"old\");", 16, 21, "a\nb"),
        Ok(Some("  check(value, @\"\n      a\n      b\n  \");".to_string()))
    );
    assert_eq!(patch_text(source, 13, 16, "x"), Err(PatchError::NoPlaceholder));
}

#[test]
fn several_updates_are_made_in_one_pass() {
    let source = chars_of("a(@{}); b(@{ old }); c(@{});");
    let update = |start: usize, end: usize, piece: &str| PendingUpdate {
        start,
        end,
        text: chars_of(piece),
        form: Form::CompactBrace,
    };
    let updates = vec![update(3, 5, "{ first }"), update(11, 18, "{ second }"), update(24, 26, "{}")];
    assert_eq!(
        apply_updates(&source, &updates).map(|new_text| text(&new_text)),
        Some("a(@{ first }); b(@{ second }); c(@{});".to_string())
    );
    // One after the other, the last span first, they come to the same.
    let mut stepwise = source.clone();
    for update in updates.iter().rev() {
        stepwise = splice(&stepwise, update.start, update.end, &update.text);
    }
    assert_eq!(apply_updates(&source, &updates), Some(stepwise));
    assert_eq!(apply_updates(&source, &Vec::new()), Some(source.clone()));
    // Touching spans are in order; overlapping, reversed or outlying ones are not.
    assert!(apply_updates(&source, &vec![update(3, 5, "x"), update(5, 6, "y")]).is_some());
    assert_eq!(apply_updates(&source, &vec![update(3, 6, "x"), update(5, 7, "y")]), None);
    assert_eq!(apply_updates(&source, &vec![update(11, 18, "x"), update(3, 5, "y")]), None);
    assert_eq!(apply_updates(&source, &vec![update(5, 3, "x")]), None);
    assert_eq!(apply_updates(&source, &vec![update(3, 99, "x")]), None);
}

#[test]
fn an_assertion_is_settled_by_the_mode() {
    let settings = Settings::new();
    let source = "fn t() {\n    check!(tokens, @{});\n}\n";
    let (start, end) = span_of(source);
    let value = tokenize("struct Foo;").unwrap();
    match reconcile(&settings, Mode::Accept, "src/lib.rs", source, start, end, &value) {
        Ok(Reconciled::Update(update)) => {
            assert_eq!(update.start, start);
            assert_eq!(update.end, end);
            assert_eq!(text(&update.text), "{ struct Foo; }");
            assert_eq!(update.form, Form::CompactBrace);
            assert_eq!(
                apply_updates(&chars_of(source), &vec![update]).map(|new_text| text(&new_text)),
                Some("fn t() {\n    check!(tokens, @{ struct Foo; });\n}\n".to_string())
            );
        }
        _ => panic!("an update was due"),
    }
    match reconcile(&settings, Mode::ReportOnly, "src/lib.rs", source, start, end, &value) {
        Ok(Reconciled::Differs(mismatch)) => {
            assert_eq!(mismatch.path, "src/lib.rs");
            assert_eq!(mismatch.proposed, "{ struct Foo; }");
            assert_eq!(
                mismatch.diff,
                "--- Original: src/lib.rs\n+++ Updated: src/lib.rs\n@@ -1,3 +1,3 @@\n fn t() {\n-    check!(tokens, @{});\n+    check!(tokens, @{ struct Foo; });\n }\n"
            );
        }
        _ => panic!("a mismatch was due"),
    }
    let empty = tokenize("").unwrap();
    for mode in [Mode::Accept, Mode::ReportOnly] {
        assert!(matches!(
            reconcile(&settings, mode, "src/lib.rs", source, start, end, &empty),
            Ok(Reconciled::Matches)
        ));
        assert!(matches!(
            reconcile(&settings, mode, "src/lib.rs", source, start + 1, end, &empty),
            Err(PatchError::NoPlaceholder)
        ));
    }
    assert!(matches!(plan_update(&settings, source, start, end, &empty), Ok(None)));
}

#[test]
fn updates_are_arranged_by_their_spans() {
    let update = |start: usize, end: usize, piece: &str| PendingUpdate {
        start,
        end,
        text: chars_of(piece),
        form: Form::CompactBrace,
    };
    let spans = |updates: &Vec<PendingUpdate>| -> Vec<(usize, usize, String)> {
        updates.iter().map(|update| (update.start, update.end, text(&update.text))).collect()
    };
    let source = chars_of("a(@{}); b(@{ old }); c(@{});");
    let given = vec![update(24, 26, "{ c }"), update(3, 5, "{ a }"), update(11, 18, "{ b }")];
    assert!(!stands_in_order(&given, source.len()));
    let sorted = arrange_updates(&given, source.len()).unwrap();
    assert_eq!(
        spans(&sorted),
        vec![
            (3, 5, "{ a }".to_string()),
            (11, 18, "{ b }".to_string()),
            (24, 26, "{ c }".to_string())
        ]
    );
    assert!(stands_in_order(&sorted, source.len()));
    assert_eq!(
        apply_updates(&source, &sorted).map(|new_text| text(&new_text)),
        Some("a(@{ a }); b(@{ b }); c(@{ c });".to_string())
    );
    // An empty span comes before a span that starts at the same place.
    let touching = arrange_updates(&vec![update(5, 8, "x"), update(5, 5, "y"), update(2, 5, "z")], 10);
    assert_eq!(
        touching.as_ref().map(spans),
        Some(vec![(2, 5, "z".to_string()), (5, 5, "y".to_string()), (5, 8, "x".to_string())])
    );
    // Updates with the same span stay as they came.
    let same = arrange_updates(&vec![update(5, 5, "first"), update(5, 5, "second")], 10);
    assert_eq!(
        same.as_ref().map(spans),
        Some(vec![(5, 5, "first".to_string()), (5, 5, "second".to_string())])
    );
    assert_eq!(arrange_updates(&Vec::new(), 0).as_ref().map(spans), Some(vec![]));
    // Overlapping, reversed and outlying spans are refused.
    assert!(arrange_updates(&vec![update(5, 8, "x"), update(3, 6, "y")], 10).is_none());
    assert!(arrange_updates(&vec![update(5, 8, "x"), update(5, 8, "y")], 10).is_none());
    assert!(arrange_updates(&vec![update(6, 5, "x")], 10).is_none());
    assert!(arrange_updates(&vec![update(3, 11, "x")], 10).is_none());
    assert!(arrange_updates(&vec![update(3, 10, "x")], 10).is_some());
}

#[test]
fn a_plain_text_patch_succeeds_on_every_literal() {
    assert_eq!(
        patch_text("check(value, @{ x });", 14, 19, "new"),
        Ok(Some("check(value, @\"new\");".to_string()))
    );
    assert_eq!(
        patch_text("check(value, @\"a\");", 14, 17, "a\\b \"c\""),
        Ok(Some("check(value, @\"a\\\\b \\\"c\\\"\");".to_string()))
    );
}

#[test]
fn a_literal_written_anew_changes_no_line_after_it() {
    let settings = Settings::new();
    let values = [
        "",
        "struct A;",
        "pub struct A; pub struct B;",
        "pub struct A; pub struct A; pub struct A;",
        "fn f() { g(); g(); }",
        "impl A { fn f() {} fn f() {} }",
        "mod m { mod m { } }",
    ];
    for old in values {
        for new in values {
            let first = patched("fn t() {\n    check!(v, @{});\n}\n}\n}\n    }\n", old)
                .unwrap()
                .unwrap_or("fn t() {\n    check!(v, @{});\n}\n}\n}\n    }\n".to_string());
            let (start, end) = span_of(&first);
            let value = tokenize(new).unwrap();
            let second = match patch_source(&settings, &first, start, end, &value).unwrap() {
                Some(text) => text,
                None => first.clone(),
            };
            let before = split_lines(&chars_of(&first));
            let after = split_lines(&chars_of(&second));
            let steps = edit_script(&before, &after);
            // One line stands before the literal, four after it.
            assert_eq!(steps[0], Edit::Keep, "{} -> {}", old, new);
            for step in &steps[steps.len() - 4..] {
                assert_eq!(*step, Edit::Keep, "{} -> {}", old, new);
            }
        }
    }
}

#[test]
fn a_literal_that_was_not_written_so_may_lend_its_lines() {
    // The old literal runs over lines that read like the line on which the
    // new one closes; the diff then counts the line after the literal among
    // those shared at the start and takes the last line for the one removed.
    let source = "f(@{\n    a\n});\n});\n});\n";
    let end = source.rfind("});\n});").unwrap() + 1;
    let text = chars_of(source);
    let piece = lay_out(Kind::Tokens, 0, &chars_of("\na\n"));
    let new_text = splice(&text, 3, end, &piece);
    assert_eq!(new_text.iter().collect::<String>(), "f(@{\n    a\n});\n});\n");
    let steps = edit_script(&split_lines(&text), &split_lines(&new_text));
    assert_eq!(steps, vec![Edit::Keep, Edit::Keep, Edit::Keep, Edit::Keep, Edit::Delete]);
}
