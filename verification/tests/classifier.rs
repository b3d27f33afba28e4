//! Tests of the line matchers, the line splitter, and the event
//! classifier.

use scala_wrapper::events::{Action, Event};
use scala_wrapper::filter::{apply_filter, plan, step_event, State};
use scala_wrapper::lines::split_lines;
use scala_wrapper::{wrapper_close, wrapper_open};

fn start(lang: &str) -> Event {
    Event::CodeBlockStart { lang: lang.as_bytes().to_vec() }
}

fn text(content: &str) -> Event {
    Event::Text { content: content.as_bytes().to_vec() }
}

#[test]
fn open_matches_wrapper_declaration() {
    assert!(wrapper_open(b"object wrapper extends App {"));
    assert!(wrapper_open(b"object wrapper {"));
    assert!(wrapper_open(b"object wrapper extends App {\n"));
    assert!(wrapper_open(b"  object wrapper spaced   {  "));
}

#[test]
fn open_rejects_other_lines() {
    assert!(!wrapper_open(b"val x = 1"));
    assert!(!wrapper_open(b""));
    assert!(!wrapper_open(b"object wrapper"));
    assert!(!wrapper_open(b"object wrapper extends App"));
    assert!(!wrapper_open(b"object wrap {"));
    assert!(!wrapper_open(b"{ object wrapper"));
}

#[test]
fn open_requires_brace_on_same_line() {
    assert!(!wrapper_open(b"object wrapper\n{"));
    assert!(wrapper_open(b"object wrapper\nobject wrapper {"));
}

#[test]
fn close_matches_leading_brace_only() {
    assert!(wrapper_close(b"}"));
    assert!(wrapper_close(b"}\n"));
    assert!(wrapper_close(b"} // end"));
    assert!(!wrapper_close(b" }"));
    assert!(!wrapper_close(b""));
    assert!(!wrapper_close(b"val x = 1"));
}

#[test]
fn split_keeps_terminators() {
    let ls = split_lines(b"a\nb\n");
    assert_eq!(ls, vec![b"a\n".to_vec(), b"b\n".to_vec()]);
}

#[test]
fn split_handles_unterminated_last_line() {
    let ls = split_lines(b"a\nb");
    assert_eq!(ls, vec![b"a\n".to_vec(), b"b".to_vec()]);
}

#[test]
fn split_of_empty_is_empty() {
    assert_eq!(split_lines(b""), Vec::<Vec<u8>>::new());
    assert_eq!(split_lines(b"\n"), vec![b"\n".to_vec()]);
}

#[test]
fn non_target_blocks_pass_through() {
    let evs = vec![
        start("java"),
        text("object wrapper extends App {\n"),
        text("val x = 1\n"),
        text("}\n"),
        Event::CodeBlockEnd,
    ];
    let p = plan(&evs);
    assert_eq!(p.len(), 5);
    assert!(p.iter().all(|a| matches!(a, Action::Retain)));
}

#[test]
fn prose_passes_through() {
    let evs = vec![Event::Other, text("object wrapper {\n"), Event::Other];
    let p = plan(&evs);
    assert!(p.iter().all(|a| matches!(a, Action::Retain)));
}

#[test]
fn wrapped_block_loses_both_wrapper_lines() {
    let evs = vec![
        start("scala"),
        text("object wrapper extends App {\n"),
        text("val x = 1\n"),
        text("}\n"),
        Event::CodeBlockEnd,
    ];
    let p = plan(&evs);
    assert!(matches!(p[0], Action::Retain));
    assert!(matches!(p[1], Action::Omit));
    assert!(matches!(p[2], Action::Retain));
    assert!(matches!(p[3], Action::Omit));
    assert!(matches!(p[4], Action::Retain));
}

#[test]
fn unwrapped_block_is_untouched() {
    let evs = vec![start("scala"), text("val x = 1\n"), Event::CodeBlockEnd];
    let p = plan(&evs);
    assert!(p.iter().all(|a| matches!(a, Action::Retain)));
}

#[test]
fn empty_first_text_means_unwrapped() {
    let evs = vec![start("scala"), text(""), text("}\n"), Event::CodeBlockEnd];
    let p = plan(&evs);
    assert!(p.iter().all(|a| matches!(a, Action::Retain)));
}

#[test]
fn unterminated_wrapper_keeps_inner_lines() {
    let evs = vec![
        start("scala"),
        text("object wrapper {\n"),
        text("val x = 1\n"),
        Event::CodeBlockEnd,
    ];
    let p = plan(&evs);
    assert!(matches!(p[1], Action::Omit));
    assert!(matches!(p[2], Action::Retain));
    assert!(matches!(p[3], Action::Retain));
}

#[test]
fn every_close_line_is_dropped_until_block_end() {
    let evs = vec![
        start("scala"),
        text("object wrapper {\n"),
        text("val a = 1\n"),
        text("}\n"),
        text("val b = 2\n"),
        text("}\n"),
        Event::CodeBlockEnd,
    ];
    let p = plan(&evs);
    assert!(matches!(p[1], Action::Omit));
    assert!(matches!(p[2], Action::Retain));
    assert!(matches!(p[3], Action::Omit));
    assert!(matches!(p[4], Action::Retain));
    assert!(matches!(p[5], Action::Omit));
    assert!(matches!(p[6], Action::Retain));
}

#[test]
fn state_does_not_leak_between_blocks() {
    let evs = vec![
        start("scala"),
        text("val a = 1\n"),
        Event::CodeBlockEnd,
        start("scala"),
        text("object wrapper {\n"),
        text("val b = 2\n"),
        text("}\n"),
        Event::CodeBlockEnd,
    ];
    let p = plan(&evs);
    assert!(matches!(p[0], Action::Retain));
    assert!(matches!(p[1], Action::Retain));
    assert!(matches!(p[2], Action::Retain));
    assert!(matches!(p[3], Action::Retain));
    assert!(matches!(p[4], Action::Omit));
    assert!(matches!(p[5], Action::Retain));
    assert!(matches!(p[6], Action::Omit));
    assert!(matches!(p[7], Action::Retain));
}

#[test]
fn whole_block_as_one_text_event_is_trimmed() {
    let ev = text("object wrapper extends App {\nval x = 1\n}\n");
    let (st, act) = step_event(State::FirstLine, &ev);
    assert!(st == State::InsideWrapped);
    match act {
        Action::Rewrite { content } => assert_eq!(content, b"val x = 1\n".to_vec()),
        _ => panic!("expected a rewrite"),
    }
}

#[test]
fn whole_block_without_wrapper_stays_whole() {
    let ev = text("val x = 1\nval y = 2\n");
    let (st, act) = step_event(State::FirstLine, &ev);
    assert!(st == State::InsideUnwrapped);
    assert!(matches!(act, Action::Retain));
}

#[test]
fn wrapper_line_alone_is_omitted() {
    let ev = text("object wrapper extends App {\n");
    let (st, act) = step_event(State::FirstLine, &ev);
    assert!(st == State::InsideWrapped);
    assert!(matches!(act, Action::Omit));
}

#[test]
fn block_end_resets_any_state() {
    for st in [State::Outside, State::FirstLine, State::InsideWrapped, State::InsideUnwrapped] {
        let (ns, act) = step_event(st, &Event::CodeBlockEnd);
        assert!(ns == State::Outside);
        assert!(matches!(act, Action::Retain));
    }
}

#[test]
fn filtered_block_holds_only_the_inner_line() {
    let evs = vec![
        start("scala"),
        text("object wrapper extends App {\n"),
        text("val x = 1\n"),
        text("}\n"),
        Event::CodeBlockEnd,
    ];
    let out = apply_filter(&evs);
    assert_eq!(out, vec![start("scala"), text("val x = 1\n"), Event::CodeBlockEnd]);
}

#[test]
fn filter_keeps_everything_without_a_target_block() {
    let evs = vec![
        Event::Other,
        text("prose\n"),
        start("java"),
        text("object wrapper {\n"),
        text("}\n"),
        Event::CodeBlockEnd,
        Event::Other,
    ];
    let out = apply_filter(&evs);
    assert_eq!(out, evs);
}

#[test]
fn filter_of_unterminated_wrapper_keeps_inner_code() {
    let evs = vec![
        start("scala"),
        text("object wrapper {\n"),
        text("val x = 1\n"),
        Event::CodeBlockEnd,
    ];
    let out = apply_filter(&evs);
    assert_eq!(out, vec![start("scala"), text("val x = 1\n"), Event::CodeBlockEnd]);
}
