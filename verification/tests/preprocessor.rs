//! End-to-end tests of the preprocessor over real CommonMark text.

use scala_wrapper::{Book, BookItem, Chapter, Error, ScalaWrapperPreprocessor};

fn chapter(name: &str, content: &str) -> Chapter {
    Chapter { name: name.to_string(), content: content.to_string() }
}

fn events_of(text: &str) -> Vec<pulldown_cmark::Event<'_>> {
    pulldown_cmark::Parser::new(text).collect()
}

#[test]
fn preprocessor_has_its_name() {
    let pre = ScalaWrapperPreprocessor::new();
    assert_eq!(pre.name(), "scala-wrapper-preprocessor");
}

#[test]
fn error_message_names_preprocessor_and_cause() {
    let err = Error { preprocessor: "p".to_string(), cause: "c".to_string() };
    assert_eq!(err.message(), "Markdown serialization failed within p: c");
}

#[test]
fn wrapped_scala_block_is_stripped() {
    let pre = ScalaWrapperPreprocessor::new();
    let ch = chapter(
        "one",
        "# Title\n\nSome prose.\n\n```scala\nobject wrapper extends App {\nval x = 1\n}\n```\n",
    );
    let out = pre.remove_wrappers(&ch).unwrap();
    assert!(out.contains("val x = 1"));
    assert!(!out.contains("object wrapper"));
    assert!(!out.lines().any(|l| l.starts_with('}')));
    assert!(out.contains("Some prose."));
    assert!(out.contains("Title"));
}

#[test]
fn plain_scala_block_is_untouched() {
    let pre = ScalaWrapperPreprocessor::new();
    let ch = chapter("one", "```scala\nval x = 1\n```\n");
    let out = pre.remove_wrappers(&ch).unwrap();
    assert!(out.contains("val x = 1"));
}

#[test]
fn other_language_keeps_wrapper_shape() {
    let pre = ScalaWrapperPreprocessor::new();
    let ch = chapter("one", "```java\nobject wrapper extends App {\nval x = 1\n}\n```\n");
    let out = pre.remove_wrappers(&ch).unwrap();
    assert!(out.contains("object wrapper extends App {"));
    assert!(out.contains("val x = 1"));
    assert!(out.lines().any(|l| l.starts_with('}')));
}

#[test]
fn document_without_scala_keeps_its_events() {
    let pre = ScalaWrapperPreprocessor::new();
    let content =
        "# Heading\n\nA paragraph with *emphasis* and a [link](https://example.org).\n\n```rust\nfn main() {}\n```\n\n> A quote.\n";
    let ch = chapter("one", content);
    let out = pre.remove_wrappers(&ch).unwrap();
    assert_eq!(events_of(content), events_of(&out));
}

#[test]
fn filtering_twice_is_filtering_once() {
    let pre = ScalaWrapperPreprocessor::new();
    let ch = chapter(
        "one",
        "# Title\n\n```scala\nval x = 1\n```\n\nProse after.\n",
    );
    let once = pre.remove_wrappers(&ch).unwrap();
    let twice = pre.remove_wrappers(&chapter("one", &once)).unwrap();
    assert_eq!(once, twice);
}

#[test]
fn unterminated_wrapper_degrades_without_error() {
    let pre = ScalaWrapperPreprocessor::new();
    let ch = chapter("one", "```scala\nobject wrapper {\nval x = 1\n```\n");
    let out = pre.remove_wrappers(&ch).unwrap();
    assert!(!out.contains("object wrapper"));
    assert!(out.contains("val x = 1"));
}

#[test]
fn run_processes_chapters_and_keeps_structure() {
    let pre = ScalaWrapperPreprocessor::new();
    let mut book = Book {
        items: vec![
            BookItem::PartTitle("Part".to_string()),
            BookItem::Chapter(chapter(
                "wrapped",
                "```scala\nobject wrapper extends App {\nval x = 1\n}\n```\n",
            )),
            BookItem::Separator,
            BookItem::Chapter(chapter(
                "lookalike",
                "```java\nobject wrapper extends App {\nval x = 1\n}\n```\n",
            )),
        ],
    };
    let result = pre.run(&mut book);
    assert!(result.is_ok());
    assert!(matches!(&book.items[0], BookItem::PartTitle(t) if t == "Part"));
    assert!(matches!(&book.items[2], BookItem::Separator));
    match &book.items[1] {
        BookItem::Chapter(ch) => {
            assert_eq!(ch.name, "wrapped");
            assert!(ch.content.contains("val x = 1"));
            assert!(!ch.content.contains("object wrapper"));
        },
        _ => panic!("expected a chapter"),
    }
    match &book.items[3] {
        BookItem::Chapter(ch) => {
            assert_eq!(ch.name, "lookalike");
            assert!(ch.content.contains("object wrapper extends App {"));
        },
        _ => panic!("expected a chapter"),
    }
}

#[test]
fn run_on_empty_book_is_ok() {
    let pre = ScalaWrapperPreprocessor::new();
    let mut book = Book { items: vec![] };
    assert!(pre.run(&mut book).is_ok());
    assert!(book.items.is_empty());
}
