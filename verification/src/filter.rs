//! The block-scoped classifier and the per-event filter it drives.
//!
//! The classifier holds one of four states, scoped to a single code block.
//! Each event moves the state and yields an [`Action`]; applying the
//! actions to the event sequence gives the filtered sequence.  Text events
//! inside a target-language block are handled line by line, so any
//! line-aligned granularity of text events — one event per line, or one
//! for a whole block — is filtered the same way.

use vstd::prelude::*;

use crate::events::{Action, ActionView, Event, EventView};
use crate::lines::{lines_of, split_lines};
use crate::matcher::{is_wrapper_close, is_wrapper_open, wrapper_close, wrapper_open};

verus! {

/// The classifier state, scoped to the lifetime of one code block.
#[derive(Clone, Copy, PartialEq, Eq, Structural)]
pub enum State {
    /// Not inside a target-language code block.
    Outside,
    /// Inside a target-language block, before its first text event.
    FirstLine,
    /// A wrapper opening was found; lines matching the close pattern are
    /// dropped until the block ends.
    InsideWrapped,
    /// No wrapper was found; the rest of the block passes through.
    InsideUnwrapped,
}

/// The target language tag, as bytes: `scala`.
pub open spec fn target_lang() -> Seq<u8> {
    seq![115u8, 99u8, 97u8, 108u8, 97u8]
}

/// The target language tag as a runtime value.
fn target_lang_vec() -> (v: Vec<u8>)
    ensures
        v@ == target_lang(),
{
    let mut v: Vec<u8> = Vec::new();
    v.push(115);
    v.push(99);
    v.push(97);
    v.push(108);
    v.push(97);
    proof {
        assert(v@ =~= target_lang());
    }
    v
}

/// The event starts a code block tagged with the target language.
pub open spec fn is_target_start(e: EventView) -> bool {
    e matches EventView::CodeBlockStart { lang } && lang == target_lang()
}

/// The lines that survive the wrapped region: every line matching the
/// close pattern drops out.
pub open spec fn lines_kept(ls: Seq<Seq<u8>>) -> Seq<Seq<u8>>
    decreases ls.len(),
{
    if ls.len() == 0 {
        Seq::empty()
    } else {
        lines_kept(ls.drop_last()) + (if is_wrapper_close(ls.last()) {
            Seq::empty()
        } else {
            seq![ls.last()]
        })
    }
}

/// No line of `ls` matches the close pattern.
pub open spec fn no_close_line(ls: Seq<Seq<u8>>) -> bool {
    forall|i: int| 0 <= i < ls.len() ==> !is_wrapper_close(ls[i])
}

/// The lines of `ls` joined back into one text.
pub open spec fn concat_bytes(ls: Seq<Seq<u8>>) -> Seq<u8>
    decreases ls.len(),
{
    if ls.len() == 0 {
        Seq::empty()
    } else {
        concat_bytes(ls.drop_last()) + ls.last()
    }
}

/// Replace an event's text, or drop the event when nothing of it is left.
pub open spec fn rewrite_or_omit(kept: Seq<u8>) -> ActionView {
    if kept.len() == 0 {
        ActionView::Omit
    } else {
        ActionView::Rewrite { content: kept }
    }
}

/// Action for the first text event of a target block whose first line
/// opens a wrapper: the opening line drops, and close-pattern lines drop
/// from the rest.
pub open spec fn first_text_action(content: Seq<u8>) -> ActionView {
    rewrite_or_omit(concat_bytes(lines_kept(lines_of(content).drop_first())))
}

/// Action for a text event in the wrapped region: lines matching the
/// close pattern drop out; an untouched event is retained as it is.
pub open spec fn wrapped_text_action(content: Seq<u8>) -> ActionView {
    let ls = lines_of(content);
    if no_close_line(ls) {
        ActionView::Retain
    } else {
        rewrite_or_omit(concat_bytes(lines_kept(ls)))
    }
}

/// The transition table: one event moves the state and yields an action.
pub open spec fn step(s: State, e: EventView) -> (State, ActionView) {
    match e {
        EventView::CodeBlockStart { lang } => (
            if lang == target_lang() {
                State::FirstLine
            } else {
                s
            },
            ActionView::Retain,
        ),
        EventView::CodeBlockEnd => (State::Outside, ActionView::Retain),
        EventView::Other => (s, ActionView::Retain),
        EventView::Text { content } => match s {
            State::Outside => (s, ActionView::Retain),
            State::InsideUnwrapped => (s, ActionView::Retain),
            State::FirstLine => {
                let ls = lines_of(content);
                if ls.len() > 0 && is_wrapper_open(ls[0]) {
                    (State::InsideWrapped, first_text_action(content))
                } else {
                    (State::InsideUnwrapped, ActionView::Retain)
                }
            },
            State::InsideWrapped => (State::InsideWrapped, wrapped_text_action(content)),
        },
    }
}

/// The state after a sequence of events, read from `s`.
pub open spec fn state_after(s: State, evs: Seq<EventView>) -> State
    decreases evs.len(),
{
    if evs.len() == 0 {
        s
    } else {
        state_after(step(s, evs[0]).0, evs.drop_first())
    }
}

/// The actions for a sequence of events, read from `s`.
pub open spec fn plan_from(s: State, evs: Seq<EventView>) -> Seq<ActionView>
    decreases evs.len(),
{
    if evs.len() == 0 {
        Seq::empty()
    } else {
        seq![step(s, evs[0]).1] + plan_from(step(s, evs[0]).0, evs.drop_first())
    }
}

/// The actions for a document's events, read from the initial state.
pub open spec fn plan_for(evs: Seq<EventView>) -> Seq<ActionView> {
    plan_from(State::Outside, evs)
}

/// Apply actions to events, one to one.
pub open spec fn apply_actions(evs: Seq<EventView>, p: Seq<ActionView>) -> Seq<EventView>
    decreases evs.len(),
{
    if evs.len() == 0 || p.len() == 0 {
        Seq::empty()
    } else {
        (match p[0] {
            ActionView::Retain => seq![evs[0]],
            ActionView::Omit => Seq::empty(),
            ActionView::Rewrite { content } => seq![EventView::Text { content }],
        }) + apply_actions(evs.drop_first(), p.drop_first())
    }
}

/// The filtered event sequence, read from state `s`.
pub open spec fn filter_from(s: State, evs: Seq<EventView>) -> Seq<EventView> {
    apply_actions(evs, plan_from(s, evs))
}

/// The filtered event sequence of a document.
pub open spec fn filter_events(evs: Seq<EventView>) -> Seq<EventView> {
    filter_from(State::Outside, evs)
}

/// A plan has one action per event.
pub proof fn lemma_plan_from_len(s: State, evs: Seq<EventView>)
    ensures
        plan_from(s, evs).len() == evs.len(),
    decreases evs.len(),
{
    if evs.len() > 0 {
        lemma_plan_from_len(step(s, evs[0]).0, evs.drop_first());
    }
}

/// Reading one event.
pub proof fn lemma_fold_one(s: State, e: EventView)
    ensures
        state_after(s, seq![e]) == step(s, e).0,
        plan_from(s, seq![e]) == seq![step(s, e).1],
{
    assert(seq![e].drop_first() =~= Seq::<EventView>::empty());
    assert(state_after(step(s, e).0, Seq::<EventView>::empty()) == step(s, e).0);
    assert(plan_from(step(s, e).0, Seq::<EventView>::empty()) =~= Seq::<ActionView>::empty());
    assert(plan_from(s, seq![e]) =~= seq![step(s, e).1]);
}

/// Reading a concatenation: the state threads through.
pub proof fn lemma_state_after_append(s: State, a: Seq<EventView>, b: Seq<EventView>)
    ensures
        state_after(s, a + b) == state_after(state_after(s, a), b),
    decreases a.len(),
{
    if a.len() == 0 {
        assert(a + b =~= b);
    } else {
        assert((a + b).drop_first() =~= a.drop_first() + b);
        assert((a + b)[0] == a[0]);
        lemma_state_after_append(step(s, a[0]).0, a.drop_first(), b);
    }
}

/// Planning a concatenation: the state threads through.
pub proof fn lemma_plan_from_append(s: State, a: Seq<EventView>, b: Seq<EventView>)
    ensures
        plan_from(s, a + b) == plan_from(s, a) + plan_from(state_after(s, a), b),
    decreases a.len(),
{
    if a.len() == 0 {
        assert(a + b =~= b);
        assert(plan_from(s, a) + plan_from(state_after(s, a), b) =~= plan_from(
            state_after(s, a),
            b,
        ));
    } else {
        assert((a + b).drop_first() =~= a.drop_first() + b);
        assert((a + b)[0] == a[0]);
        lemma_plan_from_append(step(s, a[0]).0, a.drop_first(), b);
        assert(plan_from(s, a + b) =~= plan_from(s, a) + plan_from(state_after(s, a), b));
    }
}

/// Applying actions to a concatenation, splitting at matching lengths.
pub proof fn lemma_apply_actions_append(
    ea: Seq<EventView>,
    eb: Seq<EventView>,
    pa: Seq<ActionView>,
    pb: Seq<ActionView>,
)
    requires
        ea.len() == pa.len(),
    ensures
        apply_actions(ea + eb, pa + pb) == apply_actions(ea, pa) + apply_actions(eb, pb),
    decreases ea.len(),
{
    if ea.len() == 0 {
        assert(ea + eb =~= eb);
        assert(pa + pb =~= pb);
        assert(apply_actions(ea, pa) + apply_actions(eb, pb) =~= apply_actions(eb, pb));
    } else {
        assert((ea + eb).drop_first() =~= ea.drop_first() + eb);
        assert((pa + pb).drop_first() =~= pa.drop_first() + pb);
        assert((ea + eb)[0] == ea[0]);
        assert((pa + pb)[0] == pa[0]);
        lemma_apply_actions_append(ea.drop_first(), eb, pa.drop_first(), pb);
        assert(apply_actions(ea + eb, pa + pb) =~= apply_actions(ea, pa) + apply_actions(
            eb,
            pb,
        ));
    }
}

/// Filtering a concatenation: the state threads through.
pub proof fn lemma_filter_from_append(s: State, a: Seq<EventView>, b: Seq<EventView>)
    ensures
        filter_from(s, a + b) == filter_from(s, a) + filter_from(state_after(s, a), b),
{
    lemma_plan_from_append(s, a, b);
    lemma_plan_from_len(s, a);
    lemma_apply_actions_append(a, b, plan_from(s, a), plan_from(state_after(s, a), b));
}

/// Filtering one event: what its action makes of it.
pub proof fn lemma_filter_one(s: State, e: EventView)
    ensures
        filter_from(s, seq![e]) == (match step(s, e).1 {
            ActionView::Retain => seq![e],
            ActionView::Omit => Seq::<EventView>::empty(),
            ActionView::Rewrite { content } => seq![EventView::Text { content }],
        }),
{
    lemma_fold_one(s, e);
    assert(seq![e].drop_first() =~= Seq::<EventView>::empty());
    assert(seq![step(s, e).1].drop_first() =~= Seq::<ActionView>::empty());
    assert(apply_actions(Seq::<EventView>::empty(), Seq::<ActionView>::empty())
        =~= Seq::<EventView>::empty());
    match step(s, e).1 {
        ActionView::Retain => {
            assert(filter_from(s, seq![e]) =~= seq![e]);
        },
        ActionView::Omit => {
            assert(filter_from(s, seq![e]) =~= Seq::<EventView>::empty());
        },
        ActionView::Rewrite { content } => {
            assert(filter_from(s, seq![e]) =~= seq![EventView::Text { content }]);
        },
    }
}

proof fn lemma_lines_kept_push(ls: Seq<Seq<u8>>, l: Seq<u8>)
    ensures
        lines_kept(ls.push(l)) == lines_kept(ls) + (if is_wrapper_close(l) {
            Seq::<Seq<u8>>::empty()
        } else {
            seq![l]
        }),
        concat_bytes(ls.push(l)) == concat_bytes(ls) + l,
{
    assert(ls.push(l).drop_last() =~= ls);
    assert(ls.push(l).last() == l);
}

proof fn lemma_concat_bytes_kept_push(ls: Seq<Seq<u8>>, l: Seq<u8>)
    ensures
        !is_wrapper_close(l) ==> concat_bytes(lines_kept(ls.push(l))) == concat_bytes(
            lines_kept(ls),
        ) + l,
        is_wrapper_close(l) ==> concat_bytes(lines_kept(ls.push(l))) == concat_bytes(
            lines_kept(ls),
        ),
{
    lemma_lines_kept_push(ls, l);
    if is_wrapper_close(l) {
        assert(lines_kept(ls) + Seq::<Seq<u8>>::empty() =~= lines_kept(ls));
    } else {
        lemma_lines_kept_push(lines_kept(ls), l);
        assert(lines_kept(ls) + seq![l] =~= lines_kept(ls).push(l));
    }
}

/// Are two byte strings equal?
fn bytes_eq(a: &[u8], b: &[u8]) -> (r: bool)
    ensures
        r == (a@ == b@),
{
    let n = a.len();
    if n != b.len() {
        return false;
    }
    let mut k: usize = 0;
    while k < n
        invariant
            0 <= k <= n,
            n == a@.len(),
            n == b@.len(),
            forall|m: int| 0 <= m < k ==> a@[m] == b@[m],
        decreases n - k,
    {
        if a[k] != b[k] {
            return false;
        }
        k += 1;
    }
    proof {
        assert(a@ =~= b@);
    }
    true
}

/// Append all of `src` to `dst`.
fn push_all(dst: &mut Vec<u8>, src: &[u8])
    ensures
        final(dst)@ == old(dst)@ + src@,
{
    let n = src.len();
    let mut k: usize = 0;
    while k < n
        invariant
            0 <= k <= n,
            n == src@.len(),
            dst@ == old(dst)@ + src@.take(k as int),
        decreases n - k,
    {
        let ghost prev = dst@;
        dst.push(src[k]);
        proof {
            assert(src@.take(k + 1 as int) =~= src@.take(k as int).push(src@[k as int]));
            assert(dst@ =~= old(dst)@ + src@.take(k + 1 as int));
        }
        k += 1;
    }
    proof {
        assert(src@.take(n as int) =~= src@);
    }
}

/// Join the lines from `start` on, leaving out every line that matches
/// the close pattern; report whether all lines survived.
fn kept_text(ls: &Vec<Vec<u8>>, start: usize) -> (r: (Vec<u8>, bool))
    requires
        start <= ls@.len(),
    ensures
        r.0@ == concat_bytes(lines_kept(ls.deep_view().skip(start as int))),
        r.1 == no_close_line(ls.deep_view().skip(start as int)),
{
    let n = ls.len();
    let mut out: Vec<u8> = Vec::new();
    let mut all_kept = true;
    let mut k = start;
    proof {
        assert(ls.deep_view().subrange(start as int, start as int) =~= Seq::<Seq<u8>>::empty());
    }
    while k < n
        invariant
            start <= k <= n,
            n == ls@.len(),
            ls@.len() == ls.deep_view().len(),
            out@ == concat_bytes(lines_kept(ls.deep_view().subrange(start as int, k as int))),
            all_kept == no_close_line(ls.deep_view().subrange(start as int, k as int)),
        decreases n - k,
    {
        let ghost sub = ls.deep_view().subrange(start as int, k as int);
        let ghost l = ls.deep_view()[k as int];
        proof {
            assert(ls[k as int].deep_view() =~= ls[k as int]@);
            assert(ls.deep_view().subrange(start as int, k + 1 as int) =~= sub.push(l));
            lemma_concat_bytes_kept_push(sub, l);
        }
        if wrapper_close(ls[k].as_slice()) {
            all_kept = false;
            proof {
                assert(sub.push(l)[sub.len() as int] == l);
                assert(!no_close_line(sub.push(l)));
            }
        } else {
            push_all(&mut out, ls[k].as_slice());
            proof {
                if no_close_line(sub) {
                    assert forall|i: int| 0 <= i < sub.push(l).len() implies !is_wrapper_close(
                        sub.push(l)[i],
                    ) by {
                        if i < sub.len() {
                            assert(sub.push(l)[i] == sub[i]);
                        } else {
                            assert(sub.push(l)[i] == l);
                        }
                    }
                } else {
                    let i = choose|i: int| 0 <= i < sub.len() && is_wrapper_close(sub[i]);
                    assert(sub.push(l)[i] == sub[i]);
                    assert(!no_close_line(sub.push(l)));
                }
            }
        }
        k += 1;
    }
    proof {
        assert(ls.deep_view().subrange(start as int, n as int) =~= ls.deep_view().skip(
            start as int,
        ));
    }
    (out, all_kept)
}

/// Read one event: move the state and yield the event's action.
pub fn step_event(st: State, e: &Event) -> (r: (State, Action))
    ensures
        r.0 == step(st, e@).0,
        r.1@ == step(st, e@).1,
{
    match e {
        Event::CodeBlockStart { lang } => {
            let t = target_lang_vec();
            let ns = if bytes_eq(lang.as_slice(), t.as_slice()) {
                State::FirstLine
            } else {
                st
            };
            (ns, Action::Retain)
        },
        Event::CodeBlockEnd => (State::Outside, Action::Retain),
        Event::Other => (st, Action::Retain),
        Event::Text { content } => match st {
            State::Outside => (st, Action::Retain),
            State::InsideUnwrapped => (st, Action::Retain),
            State::FirstLine => {
                let ls = split_lines(content.as_slice());
                proof {
                    if ls@.len() > 0 {
                        assert(ls[0].deep_view() =~= ls[0]@);
                    }
                }
                if ls.len() > 0 && wrapper_open(ls[0].as_slice()) {
                    let (kept, _) = kept_text(&ls, 1);
                    proof {
                        assert(ls.deep_view().skip(1) =~= lines_of(content@).drop_first());
                    }
                    let act = if kept.is_empty() {
                        Action::Omit
                    } else {
                        Action::Rewrite { content: kept }
                    };
                    (State::InsideWrapped, act)
                } else {
                    (State::InsideUnwrapped, Action::Retain)
                }
            },
            State::InsideWrapped => {
                let ls = split_lines(content.as_slice());
                let (kept, all_kept) = kept_text(&ls, 0);
                proof {
                    assert(ls.deep_view().skip(0) =~= lines_of(content@));
                }
                let act = if all_kept {
                    Action::Retain
                } else if kept.is_empty() {
                    Action::Omit
                } else {
                    Action::Rewrite { content: kept }
                };
                (State::InsideWrapped, act)
            },
        },
    }
}

/// The actions for a document's events, computed in one pass.
pub fn plan(evs: &Vec<Event>) -> (p: Vec<Action>)
    ensures
        p.deep_view() == plan_for(evs.deep_view()),
        p@.len() == evs@.len(),
{
    let n = evs.len();
    let mut p: Vec<Action> = Vec::new();
    let mut st = State::Outside;
    let mut k: usize = 0;
    proof {
        assert(evs.deep_view().take(0) =~= Seq::<EventView>::empty());
        assert(p.deep_view() =~= plan_from(State::Outside, evs.deep_view().take(0)));
    }
    while k < n
        invariant
            0 <= k <= n,
            k == p@.len(),
            n == evs@.len(),
            evs@.len() == evs.deep_view().len(),
            st == state_after(State::Outside, evs.deep_view().take(k as int)),
            p.deep_view() == plan_from(State::Outside, evs.deep_view().take(k as int)),
        decreases n - k,
    {
        let ghost prefix = evs.deep_view().take(k as int);
        let ghost e = evs.deep_view()[k as int];
        let (ns, act) = step_event(st, &evs[k]);
        proof {
            assert(evs[k as int].deep_view() == e);
            assert(evs.deep_view().take(k + 1 as int) =~= prefix + seq![e]);
            lemma_state_after_append(State::Outside, prefix, seq![e]);
            lemma_plan_from_append(State::Outside, prefix, seq![e]);
            lemma_fold_one(st, e);
        }
        st = ns;
        let ghost prev = p.deep_view();
        p.push(act);
        k += 1;
        proof {
            assert(p.deep_view() =~= prev + seq![act@]);
        }
    }
    proof {
        assert(evs.deep_view().take(evs.deep_view().len() as int) =~= evs.deep_view());
    }
    p
}

/// Filter a document's events in one pass: every event is retained,
/// dropped, or replaced by its trimmed text, as the classifier decides.
pub fn apply_filter(evs: &Vec<Event>) -> (out: Vec<Event>)
    ensures
        out.deep_view() == filter_events(evs.deep_view()),
{
    let ghost orig = evs.deep_view();
    let mut out: Vec<Event> = Vec::new();
    let mut st = State::Outside;
    let mut k: usize = 0;
    let n = evs.len();
    proof {
        assert(orig.take(0) =~= Seq::<EventView>::empty());
        assert(out.deep_view() =~= filter_from(State::Outside, orig.take(0)));
    }
    while k < n
        invariant
            0 <= k <= n,
            n == orig.len(),
            orig == evs.deep_view(),
            st == state_after(State::Outside, orig.take(k as int)),
            out.deep_view() == filter_from(State::Outside, orig.take(k as int)),
        decreases n - k,
    {
        let ghost prefix = orig.take(k as int);
        let ghost e = orig[k as int];
        let (ns, act) = step_event(st, &evs[k]);
        proof {
            assert(evs[k as int].deep_view() == e);
            assert(orig.take(k + 1 as int) =~= prefix + seq![e]);
            lemma_state_after_append(State::Outside, prefix, seq![e]);
            lemma_fold_one(st, e);
            lemma_filter_from_append(State::Outside, prefix, seq![e]);
            lemma_filter_one(st, e);
        }
        let ghost pre_out = out.deep_view();
        match act {
            Action::Retain => {
                let kept = copy_event(&evs[k]);
                out.push(kept);
                proof {
                    assert(out.deep_view() =~= pre_out + seq![e]);
                }
            },
            Action::Omit => {
                proof {
                    assert(pre_out + Seq::<EventView>::empty() =~= pre_out);
                }
            },
            Action::Rewrite { content } => {
                out.push(Event::Text { content });
                proof {
                    assert(out.deep_view() =~= pre_out + seq![out@.last().deep_view()]);
                }
            },
        }
        st = ns;
        k += 1;
    }
    proof {
        assert(orig.take(n as int) =~= orig);
    }
    out
}

/// Copy one event, byte for byte.
fn copy_event(e: &Event) -> (c: Event)
    ensures
        c.deep_view() == e.deep_view(),
{
    match e {
        Event::CodeBlockStart { lang } => {
            let mut l: Vec<u8> = Vec::new();
            push_all(&mut l, lang.as_slice());
            proof {
                assert(l@ =~= lang@);
            }
            Event::CodeBlockStart { lang: l }
        },
        Event::CodeBlockEnd => Event::CodeBlockEnd,
        Event::Text { content } => {
            let mut c: Vec<u8> = Vec::new();
            push_all(&mut c, content.as_slice());
            proof {
                assert(c@ =~= content@);
            }
            Event::Text { content: c }
        },
        Event::Other => Event::Other,
    }
}

} // verus!
