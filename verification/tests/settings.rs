//! The settings context.

use token_snapshot::settings::Frame;
use token_snapshot::settings::Settings;

#[test]
fn both_switches_default_to_on() {
    let settings = Settings::new();
    assert_eq!(settings.depth(), 0);
    assert!(settings.format_tokens());
    assert!(settings.ignore_docs_for_tokens());
}

#[test]
fn the_innermost_override_wins() {
    let mut settings = Settings::new();
    settings.enter(Frame::new().format_tokens(false));
    assert!(!settings.format_tokens());
    assert!(settings.ignore_docs_for_tokens());
    settings.enter(Frame::new().ignore_docs_for_tokens(false));
    assert!(!settings.format_tokens());
    assert!(!settings.ignore_docs_for_tokens());
    settings.enter(Frame::new().format_tokens(true));
    assert!(settings.format_tokens());
    assert!(!settings.ignore_docs_for_tokens());
    settings.enter(Frame::new());
    assert!(settings.format_tokens());
    assert!(!settings.ignore_docs_for_tokens());
    assert_eq!(settings.depth(), 4);
}

#[test]
fn leaving_a_scope_restores_what_was_visible() {
    let mut settings = Settings::new();
    settings.enter(Frame::new().format_tokens(false));
    let frame = Frame::new().format_tokens(true).ignore_docs_for_tokens(false);
    settings.enter(frame);
    assert!(settings.format_tokens());
    assert_eq!(settings.exit(), Some(frame));
    assert!(!settings.format_tokens());
    assert!(settings.ignore_docs_for_tokens());
    assert_eq!(settings.exit(), Some(Frame::new().format_tokens(false)));
    assert!(settings.format_tokens());
    assert_eq!(settings.exit(), None);
    assert_eq!(settings.depth(), 0);
    assert!(settings.format_tokens());
}

#[test]
fn a_scope_leaves_the_outer_settings_untouched() {
    let mut outer = Settings::new();
    outer.enter(Frame::new().ignore_docs_for_tokens(false));
    let inner = outer.scoped(Frame::new().ignore_docs_for_tokens(true).format_tokens(false));
    assert!(inner.ignore_docs_for_tokens());
    assert!(!inner.format_tokens());
    assert_eq!(inner.depth(), 2);
    assert!(!outer.ignore_docs_for_tokens());
    assert!(outer.format_tokens());
    assert_eq!(outer.depth(), 1);
}

#[test]
fn a_frame_remembers_what_it_sets() {
    let frame = Frame::new();
    assert_eq!(frame.format_tokens, None);
    assert_eq!(frame.ignore_docs_for_tokens, None);
    let frame = frame.format_tokens(false);
    assert_eq!(frame.format_tokens, Some(false));
    assert_eq!(frame.ignore_docs_for_tokens, None);
    let frame = frame.ignore_docs_for_tokens(true);
    assert_eq!(frame.format_tokens, Some(false));
    assert_eq!(frame.ignore_docs_for_tokens, Some(true));
}

#[test]
fn a_scope_is_closed_with_all_inside_it() {
    let mut settings = Settings::new();
    settings.enter(Frame::new().format_tokens(false));
    settings.enter(Frame::new().ignore_docs_for_tokens(false));
    settings.enter(Frame::new().format_tokens(true));
    settings.leave(4);
    assert_eq!(settings.depth(), 3);
    settings.leave(0);
    assert_eq!(settings.depth(), 3);
    settings.leave(3);
    assert_eq!(settings.depth(), 2);
    assert!(!settings.format_tokens());
    assert!(!settings.ignore_docs_for_tokens());
    settings.enter(Frame::new());
    settings.enter(Frame::new());
    settings.leave(2);
    assert_eq!(settings.depth(), 1);
    assert!(settings.ignore_docs_for_tokens());
    settings.leave(1);
    assert_eq!(settings.depth(), 0);
    settings.leave(1);
    assert_eq!(settings.depth(), 0);
    assert!(settings.format_tokens());
}
