//! Splitting text into physical lines.
//!
//! A line is a maximal segment that ends with a newline byte, or runs to
//! the end of the text if no newline follows.  Every line keeps its
//! terminating newline, so the concatenation of the lines is the original
//! text.

use vstd::prelude::*;

use crate::matcher::NEWLINE;

verus! {

/// Length of the first line of `s` (including its newline), or `s.len()`
/// when no newline occurs.
pub open spec fn first_line_len(s: Seq<u8>) -> int
    decreases s.len(),
{
    if s.len() == 0 {
        0
    } else if s[0] == NEWLINE {
        1
    } else {
        1 + first_line_len(s.drop_first())
    }
}

/// The first line of a non-empty text is non-empty and no longer than the
/// text.
pub proof fn lemma_first_line_len_bounds(s: Seq<u8>)
    ensures
        s.len() == 0 ==> first_line_len(s) == 0,
        s.len() > 0 ==> 1 <= first_line_len(s) <= s.len(),
    decreases s.len(),
{
    if s.len() > 0 && s[0] != NEWLINE {
        lemma_first_line_len_bounds(s.drop_first());
    }
}

/// When the first newline of `s` stands at position `j`, the first line is
/// `j + 1` bytes long.
pub proof fn lemma_first_line_len_newline(s: Seq<u8>, j: int)
    requires
        0 <= j < s.len(),
        s[j] == NEWLINE,
        forall|k: int| 0 <= k < j ==> s[k] != NEWLINE,
    ensures
        first_line_len(s) == j + 1,
    decreases s.len(),
{
    if j > 0 {
        lemma_first_line_len_newline(s.drop_first(), j - 1);
    }
}

/// When `s` holds no newline, the whole of it is one line.
pub proof fn lemma_first_line_len_no_newline(s: Seq<u8>)
    requires
        forall|k: int| 0 <= k < s.len() ==> s[k] != NEWLINE,
    ensures
        first_line_len(s) == s.len(),
    decreases s.len(),
{
    if s.len() > 0 {
        lemma_first_line_len_no_newline(s.drop_first());
    }
}

/// The lines of `s`, in order, each keeping its terminating newline.
pub open spec fn lines_of(s: Seq<u8>) -> Seq<Seq<u8>>
    decreases s.len(),
    via lines_of_decreases
{
    if s.len() == 0 {
        Seq::empty()
    } else {
        seq![s.take(first_line_len(s))] + lines_of(s.skip(first_line_len(s)))
    }
}

#[via_fn]
proof fn lines_of_decreases(s: Seq<u8>) {
    lemma_first_line_len_bounds(s);
}

/// Position of the first newline at or after `from`, or the length of `s`
/// when none follows.
fn find_newline(s: &[u8], from: usize) -> (j: usize)
    requires
        from <= s@.len(),
    ensures
        from <= j <= s@.len(),
        j < s@.len() ==> s@[j as int] == NEWLINE,
        forall|k: int| from <= k < j ==> s@[k] != NEWLINE,
{
    let n = s.len();
    let mut j = from;
    while j < n
        invariant
            from <= j <= n,
            n == s@.len(),
            forall|k: int| from <= k < j ==> s@[k] != NEWLINE,
        decreases n - j,
    {
        if s[j] == NEWLINE {
            return j;
        }
        j += 1;
    }
    j
}

/// Split a text into its lines.
pub fn split_lines(s: &[u8]) -> (out: Vec<Vec<u8>>)
    ensures
        out.deep_view() == lines_of(s@),
{
    let n = s.len();
    let mut out: Vec<Vec<u8>> = Vec::new();
    let mut i: usize = 0;
    proof {
        assert(out.deep_view() =~= Seq::<Seq<u8>>::empty());
        assert(s@.skip(0) =~= s@);
    }
    while i < n
        invariant
            0 <= i <= n,
            n == s@.len(),
            lines_of(s@) == out.deep_view() + lines_of(s@.skip(i as int)),
        decreases n - i,
    {
        let j = find_newline(s, i);
        let end = if j < n {
            j + 1
        } else {
            n
        };
        let line = vstd::slice::slice_to_vec(&s[i..end]);
        proof {
            let rest = s@.skip(i as int);
            if j < n {
                lemma_first_line_len_newline(rest, j - i);
            } else {
                lemma_first_line_len_no_newline(rest);
            }
            assert(first_line_len(rest) == end - i);
            assert(rest.take(end - i) =~= line@);
            assert(rest.skip(end - i) =~= s@.skip(end as int));
            assert(lines_of(rest) == seq![line@] + lines_of(s@.skip(end as int)));
        }
        let ghost old_out = out.deep_view();
        out.push(line);
        proof {
            assert(line.deep_view() =~= line@);
            assert(out.deep_view() =~= old_out + seq![line@]);
            assert(out.deep_view() + lines_of(s@.skip(end as int)) =~= lines_of(s@));
        }
        i = end;
    }
    proof {
        assert(lines_of(s@.skip(i as int)) =~= Seq::<Seq<u8>>::empty());
        assert(out.deep_view() =~= lines_of(s@));
    }
    out
}

} // verus!
