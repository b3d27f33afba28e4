//! Laws of the filter, stated over event sequences and proved once and
//! for all.

use vstd::prelude::*;

use crate::events::EventView;
use crate::filter::{
    filter_events, filter_from, is_target_start, lemma_filter_from_append, lemma_fold_one,
    lemma_plan_from_len, lemma_state_after_append, plan_from, state_after, step, State,
};

verus! {

/// A sequence free of target-language code-block starts is left exactly
/// as it is, and reading it leaves the classifier outside any block: for
/// all content outside target-language code blocks — prose, headings,
/// other languages' code blocks — filtering is the identity.
pub proof fn lemma_filter_identity_without_target(evs: Seq<EventView>)
    requires
        forall|i: int| 0 <= i < evs.len() ==> !is_target_start(#[trigger] evs[i]),
    ensures
        filter_from(State::Outside, evs) == evs,
        state_after(State::Outside, evs) == State::Outside,
    decreases evs.len(),
{
    if evs.len() == 0 {
        assert(filter_from(State::Outside, evs) =~= evs);
    } else {
        let e = evs[0];
        let rest = evs.drop_first();
        assert(!is_target_start(e));
        assert(step(State::Outside, e).0 == State::Outside);
        assert(step(State::Outside, e).1 == crate::events::ActionView::Retain);
        assert(forall|i: int| 0 <= i < rest.len() ==> !is_target_start(#[trigger] rest[i]));
        lemma_filter_identity_without_target(rest);
        lemma_plan_from_len(State::Outside, rest);
        assert(plan_from(State::Outside, evs).drop_first() =~= plan_from(State::Outside, rest));
        assert(filter_from(State::Outside, evs) =~= seq![e] + filter_from(State::Outside, rest));
        assert(seq![e] + rest =~= evs);
    }
}

/// A code block of another language, with its text and anything else
/// inside it.
pub open spec fn non_target_block(block: Seq<EventView>) -> bool {
    &&& block.len() >= 2
    &&& block[0] matches EventView::CodeBlockStart { lang } && lang
        != crate::filter::target_lang()
    &&& block.last() == EventView::CodeBlockEnd
    &&& forall|i: int|
        1 <= i < block.len() - 1 ==> (#[trigger] block[i] matches EventView::Text { .. }
            || block[i] == EventView::Other)
}

/// A code block whose language tag differs from the target survives
/// unchanged, wherever it stands in the document: the filter leaves the
/// block's events exactly as they are and filters what precedes and what
/// follows independently.
pub proof fn lemma_non_target_block_unchanged(
    a: Seq<EventView>,
    block: Seq<EventView>,
    b: Seq<EventView>,
)
    requires
        state_after(State::Outside, a) == State::Outside,
        non_target_block(block),
    ensures
        filter_from(State::Outside, a + block + b) == filter_from(State::Outside, a) + block
            + filter_from(State::Outside, b),
{
    assert forall|i: int| 0 <= i < block.len() implies !is_target_start(
        #[trigger] block[i],
    ) by {}
    lemma_filter_identity_without_target(block);
    lemma_filter_from_append(State::Outside, a, block);
    lemma_state_after_append(State::Outside, a, block);
    lemma_filter_from_append(State::Outside, a + block, b);
    assert(state_after(State::Outside, a + block) == State::Outside);
    assert(filter_from(State::Outside, a + block) == filter_from(State::Outside, a) + block);
    assert((a + block) + b =~= a + block + b);
}

/// Ending a code block always puts the classifier back outside.
pub proof fn lemma_end_resets_state(s: State, evs: Seq<EventView>)
    requires
        evs.len() > 0,
        evs.last() == EventView::CodeBlockEnd,
    ensures
        state_after(s, evs) == State::Outside,
{
    lemma_state_after_append(s, evs.drop_last(), seq![evs.last()]);
    lemma_fold_one(state_after(s, evs.drop_last()), evs.last());
    assert(evs.drop_last() + seq![evs.last()] =~= evs);
}

/// No state leaks from one code block into the next: after a sequence
/// that ends with a code-block end, what follows is filtered exactly as a
/// fresh document would be.
pub proof fn lemma_no_state_leak(evs1: Seq<EventView>, evs2: Seq<EventView>)
    requires
        evs1.len() > 0,
        evs1.last() == EventView::CodeBlockEnd,
    ensures
        filter_from(State::Outside, evs1 + evs2) == filter_from(State::Outside, evs1)
            + filter_from(State::Outside, evs2),
{
    lemma_end_resets_state(State::Outside, evs1);
    lemma_filter_from_append(State::Outside, evs1, evs2);
}

/// Filtering is idempotent on a document the filter does not change:
/// running the filter twice on an already-unwrapped event sequence is a
/// no-op.
pub proof fn lemma_idempotent_on_unchanged(evs: Seq<EventView>)
    requires
        filter_events(evs) == evs,
    ensures
        filter_events(filter_events(evs)) == filter_events(evs),
{
}

/// The filter never adds events: the output has the input's event count
/// or fewer, and what survives keeps its relative order by construction.
pub proof fn lemma_filter_never_grows(s: State, evs: Seq<EventView>)
    ensures
        filter_from(s, evs).len() <= evs.len(),
    decreases evs.len(),
{
    lemma_plan_from_len(s, evs);
    if evs.len() > 0 {
        let s1 = step(s, evs[0]).0;
        lemma_filter_never_grows(s1, evs.drop_first());
        assert(plan_from(s, evs).drop_first() =~= plan_from(s1, evs.drop_first()));
    }
}

} // verus!
