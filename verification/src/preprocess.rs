//! The preprocessor: filters every chapter of a book, replacing its
//! content with the re-serialized filtered text and stopping at the first
//! serialization failure.
//!
//! Parsing and re-serialization are done by `pulldown_cmark` and
//! `pulldown_cmark_to_cmark`; both are deterministic, so what they yield
//! for a given text is named by uninterpreted functions, and every
//! decision between the two calls — the classification of events and the
//! plan of retained, dropped and rewritten events — is verified.

use vstd::prelude::*;
use vstd::string::StringExecFns;

use pulldown_cmark::{CodeBlockKind, Event as PdEvent, Parser, Tag, TagEnd};

use crate::book::{Book, BookItem, BookItemView, Chapter, ChapterView};
use crate::events::{Action, ActionView, Event, EventView};
use crate::filter::{plan, plan_for};

verus! {

/// Error raised when re-serialization of a chapter's filtered events
/// fails.
#[derive(Debug)]
pub struct Error {
    /// The name of the preprocessor that reports the failure.
    pub preprocessor: String,
    /// What the serializer reported.
    pub cause: String,
}

/// The error's message: the serializer's report, with the preprocessor's
/// name in front.
pub open spec fn spec_message(preprocessor: Seq<char>, cause: Seq<char>) -> Seq<char> {
    "Markdown serialization failed within "@ + preprocessor + ": "@ + cause
}

impl Error {
    /// The error rendered as one line of text.
    pub fn message(&self) -> (m: String)
        ensures
            m@ == spec_message(self.preprocessor@, self.cause@),
    {
        let mut m = "Markdown serialization failed within ".to_owned();
        m.append(self.preprocessor.as_str());
        m.append(": ");
        m.append(self.cause.as_str());
        m
    }
}

/// What parsing a text yields, classified event by event: a code-block
/// start with the language tag of its fence, a code-block end, a text
/// fragment, or some other construct.  Parsing is deterministic, so this
/// is a function of the text alone.
pub uninterp spec fn doc_events(text: Seq<char>) -> Seq<EventView>;

/// What re-serializing a text's parsed events yields after a plan is
/// applied to them: the rendered text, or the serializer's error text.
/// Parsing and serialization are deterministic, so this is a function of
/// the text and the plan alone.
pub uninterp spec fn rendered(text: Seq<char>, plan: Seq<ActionView>) -> Result<
    Seq<char>,
    Seq<char>,
>;

/// A rendering result, seen abstractly.
pub open spec fn render_outcome(r: Result<String, String>) -> Result<Seq<char>, Seq<char>> {
    match r {
        Ok(s) => Ok(s@),
        Err(e) => Err(e@),
    }
}

/// Relies on `pulldown_cmark::Parser`: it parses CommonMark text into a
/// sequence of structural events, deterministically.  Each event is
/// classified here with one match arm per relevant variant; language tags
/// and text fragments are carried over as their bytes.
#[verifier::external_body]
fn parse_events(content: &str) -> (evs: Vec<Event>)
    ensures
        evs.deep_view() == doc_events(content@),
{
    Parser::new(content).map(|ev| match ev {
        PdEvent::Start(Tag::CodeBlock(CodeBlockKind::Fenced(l))) => Event::CodeBlockStart {
            lang: l.into_string().into_bytes(),
        },
        PdEvent::Start(Tag::CodeBlock(CodeBlockKind::Indented)) => Event::CodeBlockStart {
            lang: Vec::new(),
        },
        PdEvent::End(TagEnd::CodeBlock) => Event::CodeBlockEnd,
        PdEvent::Text(t) => Event::Text { content: t.into_string().into_bytes() },
        _ => Event::Other,
    }).collect()
}

/// Relies on `pulldown_cmark::Parser` (the same deterministic parse as
/// above) and on `pulldown_cmark_to_cmark::cmark`: it re-serializes the
/// events the plan retains — rewritten text events carry their trimmed
/// content — and fails only when the serializer reports an event stream
/// it cannot render, or a formatting failure.
#[verifier::external_body]
fn render_with_plan(content: &str, plan: &Vec<Action>) -> (r: Result<String, String>)
    ensures
        render_outcome(r) == rendered(content@, plan.deep_view()),
{
    let mut buf = String::with_capacity(content.len());
    let events = Parser::new(content).zip(plan.iter()).filter_map(|(ev, act)| match act {
        Action::Retain => Some(ev),
        Action::Omit => None,
        Action::Rewrite { content: c } => Some(
            PdEvent::Text(String::from_utf8_lossy(c).into_owned().into()),
        ),
    });
    match pulldown_cmark_to_cmark::cmark(events, &mut buf, pulldown_cmark::Options::empty()) {
        Ok(_) => Ok(buf),
        Err(e) => Err(e.to_string()),
    }
}

/// Outcome of filtering one chapter's content: the re-serialized text
/// after the filter's plan is applied to the parsed events, or the
/// serializer's error text.
pub open spec fn chapter_outcome(content: Seq<char>) -> Result<Seq<char>, Seq<char>> {
    rendered(content, plan_for(doc_events(content)))
}

/// A preprocessor to remove `object wrapper` in Scala code blocks.
pub struct ScalaWrapperPreprocessor;

/// The books' items after a run, with the run's outcome: chapters are
/// replaced by their filtered content, one after the other, until the
/// first serialization failure; from the failing chapter on, every item
/// stays as it was.
pub open spec fn run_spec(items: Seq<BookItemView>) -> (Seq<BookItemView>, Result<(), Seq<char>>)
    decreases items.len(),
{
    if items.len() == 0 {
        (items, Ok(()))
    } else {
        match items[0] {
            BookItemView::Chapter(c) => match chapter_outcome(c.content) {
                Ok(text) => {
                    let rest = run_spec(items.drop_first());
                    (
                        seq![BookItemView::Chapter(ChapterView { name: c.name, content: text })]
                            + rest.0,
                        rest.1,
                    )
                },
                Err(cause) => (items, Err(cause)),
            },
            _ => {
                let rest = run_spec(items.drop_first());
                (seq![items[0]] + rest.0, rest.1)
            },
        }
    }
}

/// A successful run keeps one item per item.
pub proof fn lemma_run_spec_len(items: Seq<BookItemView>)
    ensures
        run_spec(items).1 is Ok ==> run_spec(items).0.len() == items.len(),
    decreases items.len(),
{
    if items.len() > 0 {
        lemma_run_spec_len(items.drop_first());
    }
}

/// Running a concatenation whose first part succeeds processes the parts
/// one after the other.
proof fn lemma_run_spec_append(a: Seq<BookItemView>, b: Seq<BookItemView>)
    requires
        run_spec(a).1 is Ok,
    ensures
        run_spec(a + b) == (run_spec(a).0 + run_spec(b).0, run_spec(b).1),
    decreases a.len(),
{
    if a.len() == 0 {
        assert(a + b =~= b);
        assert(run_spec(a).0 + run_spec(b).0 =~= run_spec(b).0);
    } else {
        assert((a + b)[0] == a[0]);
        assert((a + b).drop_first() =~= a.drop_first() + b);
        lemma_run_spec_append(a.drop_first(), b);
        match a[0] {
            BookItemView::Chapter(c) => {
                assert(run_spec(a + b).0 =~= run_spec(a).0 + run_spec(b).0);
            },
            _ => {
                assert(run_spec(a + b).0 =~= run_spec(a).0 + run_spec(b).0);
            },
        }
    }
}

/// Running the empty sequence.
proof fn lemma_run_spec_empty()
    ensures
        run_spec(Seq::<BookItemView>::empty()) == (
            Seq::<BookItemView>::empty(),
            Result::<(), Seq<char>>::Ok(()),
        ),
{
}

/// Running a single item.
proof fn lemma_run_spec_one(it: BookItemView)
    ensures
        it matches BookItemView::Chapter(c) ==> chapter_outcome(c.content) matches Ok(text)
            ==> {
            &&& run_spec(seq![it]).0 == seq![
                BookItemView::Chapter(ChapterView { name: c.name, content: text }),
            ]
            &&& run_spec(seq![it]).1 == Result::<(), Seq<char>>::Ok(())
        },
        it matches BookItemView::Chapter(c) ==> chapter_outcome(c.content) matches Err(cause)
            ==> {
            &&& run_spec(seq![it]).0 == seq![it]
            &&& run_spec(seq![it]).1 == Result::<(), Seq<char>>::Err(cause)
        },
        !(it matches BookItemView::Chapter(_)) ==> {
            &&& run_spec(seq![it]).0 == seq![it]
            &&& run_spec(seq![it]).1 == Result::<(), Seq<char>>::Ok(())
        },
{
    let e = Seq::<BookItemView>::empty();
    lemma_run_spec_empty();
    assert(seq![it].drop_first() =~= e);
    assert(seq![it][0] == it);
    match it {
        BookItemView::Chapter(c) => {
            match chapter_outcome(c.content) {
                Ok(text) => {
                    assert(run_spec(seq![it]).0 =~= seq![
                        BookItemView::Chapter(ChapterView { name: c.name, content: text }),
                    ]);
                },
                Err(_) => {},
            }
        },
        _ => {
            assert(run_spec(seq![it]).0 =~= seq![it]);
        },
    }
}

impl ScalaWrapperPreprocessor {
    /// Create a new instance of the Scala wrapper preprocessor.
    pub fn new() -> (p: ScalaWrapperPreprocessor) {
        ScalaWrapperPreprocessor
    }

    /// The preprocessor's name.
    pub fn name(&self) -> (n: &'static str)
        ensures
            n@ == "scala-wrapper-preprocessor"@,
    {
        "scala-wrapper-preprocessor"
    }

    /// Filter one chapter's content: parse it into events, drop or trim
    /// the wrapper lines of Scala code blocks, and re-serialize.  The
    /// chapter itself is left untouched; on failure the error carries the
    /// preprocessor's name and the serializer's report.
    pub fn remove_wrappers(&self, chapter: &Chapter) -> (r: Result<String, Error>)
        ensures
            match chapter_outcome(chapter.content@) {
                Ok(text) => r matches Ok(s) && s@ == text,
                Err(cause) => r matches Err(e) && e.preprocessor@
                    == "scala-wrapper-preprocessor"@ && e.cause@ == cause,
            },
    {
        let evs = parse_events(chapter.content.as_str());
        let p = plan(&evs);
        match render_with_plan(chapter.content.as_str(), &p) {
            Ok(buf) => Ok(buf),
            Err(cause) => Err(
                Error { preprocessor: self.name().to_owned(), cause },
            ),
        }
    }

    /// Process every chapter of the book in order, replacing its content
    /// with the filtered text, and stop at the first failure: items from
    /// the failing chapter on stay as they were.
    pub fn run(&self, book: &mut Book) -> (r: Result<(), Error>)
        ensures
            final(book)@ == run_spec(old(book)@).0,
            match run_spec(old(book)@).1 {
                Ok(_) => r is Ok,
                Err(cause) => r matches Err(e) && e.preprocessor@
                    == "scala-wrapper-preprocessor"@ && e.cause@ == cause,
            },
    {
        let ghost orig = book@;
        let mut i: usize = 0;
        proof {
            assert(orig.take(0) =~= Seq::<BookItemView>::empty());
            assert(run_spec(orig.take(0)).0 + orig.skip(0) =~= orig);
        }
        while i < book.items.len()
            invariant
                orig == old(book)@,
                0 <= i <= orig.len(),
                run_spec(orig.take(i as int)).1 is Ok,
                run_spec(orig.take(i as int)).0.len() == i,
                book@ == run_spec(orig.take(i as int)).0 + orig.skip(i as int),
                book.items@.len() == orig.len(),
            decreases orig.len() - i,
        {
            let ghost prefix = orig.take(i as int);
            let ghost cur = orig[i as int];
            let ghost pre_items = book.items@;
            let ghost pre_view = book@;
            proof {
                assert(pre_view[i as int] == cur);
                assert(pre_items[i as int].deep_view() == cur);
                assert(orig.take(i + 1 as int) =~= prefix + seq![cur]);
            }
            let item = book.items.remove(i);
            match item {
                BookItem::Chapter(ch) => {
                    proof {
                        assert(cur == BookItemView::Chapter(ch@));
                    }
                    match self.remove_wrappers(&ch) {
                        Ok(text) => {
                            let replaced = BookItem::Chapter(
                                Chapter { name: ch.name, content: text },
                            );
                            proof {
                                assert(chapter_outcome(ch@.content) matches Ok(t) && text@ == t);
                                lemma_run_spec_one(cur);
                                lemma_run_spec_append(prefix, seq![cur]);
                                lemma_run_spec_len(orig.take(i + 1 as int));
                                assert(replaced.deep_view() == BookItemView::Chapter(
                                    (ChapterView { name: ch@.name, content: text@ }),
                                ));
                                assert(run_spec(seq![cur]).0 == seq![replaced.deep_view()]);
                            }
                            book.items.insert(i, replaced);
                            proof {
                                assert(book.items@ =~= pre_items.update(i as int, replaced));
                                let goal = run_spec(orig.take(i + 1 as int)).0 + orig.skip(
                                    i + 1 as int,
                                );
                                assert(run_spec(orig.take(i + 1 as int)).0 == run_spec(prefix).0
                                    + seq![replaced.deep_view()]);
                                assert(book@.len() == goal.len());
                                assert forall|k: int| 0 <= k < book@.len() implies book@[k]
                                    == goal[k] by {
                                    assert(book@[k] == book.items@[k].deep_view());
                                    if k < i {
                                        assert(book.items@[k] == pre_items[k]);
                                        assert(pre_view[k] == run_spec(prefix).0[k]);
                                    } else if k == i {
                                        assert(book.items@[k] == replaced);
                                    } else {
                                        assert(book.items@[k] == pre_items[k]);
                                        assert(pre_view[k] == orig.skip(i as int)[k - i]);
                                        assert(goal[k] == orig.skip(i + 1 as int)[k - i - 1]);
                                    }
                                }
                                assert(book@ =~= goal);
                            }
                            i += 1;
                        },
                        Err(e) => {
                            proof {
                                assert(chapter_outcome(ch@.content) matches Err(c) && e.cause@
                                    == c);
                            }
                            book.items.insert(i, BookItem::Chapter(ch));
                            proof {
                                assert(book.items@ =~= pre_items);
                                assert(book@ =~= pre_view);
                                let b = orig.skip(i as int);
                                assert(b[0] == cur);
                                assert(b.len() > 0);
                                assert(run_spec(b).0 == b);
                                assert(run_spec(b).1 matches Err(c) && e.cause@ == c);
                                lemma_run_spec_append(prefix, b);
                                assert(prefix + b =~= orig);
                                assert(run_spec(orig).0 == run_spec(prefix).0 + b);
                                assert(book@ =~= run_spec(orig).0);
                            }
                            return Err(e);
                        },
                    }
                },
                other => {
                    proof {
                        assert(!(cur matches BookItemView::Chapter(_)));
                        lemma_run_spec_one(cur);
                        lemma_run_spec_append(prefix, seq![cur]);
                        lemma_run_spec_len(orig.take(i + 1 as int));
                        assert(run_spec(orig.take(i + 1 as int)).0 == run_spec(prefix).0 + seq![
                            cur,
                        ]);
                    }
                    book.items.insert(i, other);
                    proof {
                        assert(book.items@ =~= pre_items);
                        assert(book@ =~= pre_view);
                        let goal = run_spec(orig.take(i + 1 as int)).0 + orig.skip(i + 1 as int);
                        assert(book@.len() == goal.len());
                        assert forall|k: int| 0 <= k < book@.len() implies book@[k] == goal[k] by {
                            if k < i {
                                assert(pre_view[k] == run_spec(prefix).0[k]);
                            } else if k == i {
                                assert(pre_view[k] == orig.skip(i as int)[0]);
                            } else {
                                assert(pre_view[k] == orig.skip(i as int)[k - i]);
                                assert(goal[k] == orig.skip(i + 1 as int)[k - i - 1]);
                            }
                        }
                        assert(book@ =~= goal);
                    }
                    i += 1;
                },
            }
        }
        proof {
            assert(orig.take(orig.len() as int) =~= orig);
            assert(orig.skip(orig.len() as int) =~= Seq::<BookItemView>::empty());
            assert(book@ =~= run_spec(orig).0);
        }
        Ok(())
    }
}

} // verus!
