//! Line matchers for the wrapper construct.
//!
//! A line opens a wrapper when it contains the container keyword
//! `object wrapper` followed by an opening brace on the same line
//! (no newline in between).  A line closes a wrapper when its very
//! first byte is a closing brace.  Text is handled as UTF-8 bytes;
//! both patterns are pure ASCII, so byte-level matching coincides
//! with character-level matching.

use vstd::prelude::*;

verus! {

/// The byte `{`.
pub const OPEN_BRACE: u8 = 123;

/// The byte `}`.
pub const CLOSE_BRACE: u8 = 125;

/// The byte `\n`.
pub const NEWLINE: u8 = 10;

/// The container keyword, as bytes: `object wrapper`.
pub open spec fn open_keyword() -> Seq<u8> {
    seq![111u8, 98u8, 106u8, 101u8, 99u8, 116u8, 32u8, 119u8, 114u8, 97u8, 112u8, 112u8, 101u8, 114u8]
}

/// The keyword occurs at position `i` and an opening brace follows at
/// position `j` with no newline in between.
pub open spec fn open_match_at(s: Seq<u8>, i: int, j: int) -> bool {
    &&& 0 <= i
    &&& i + open_keyword().len() <= j
    &&& j < s.len()
    &&& s.subrange(i, i + open_keyword().len() as int) == open_keyword()
    &&& s[j] == OPEN_BRACE
    &&& forall|k: int| i + open_keyword().len() <= k < j ==> s[k] != NEWLINE
}

/// A line opens a wrapper: somewhere in it the keyword appears, and an
/// opening brace follows on the same line.
pub open spec fn is_wrapper_open(s: Seq<u8>) -> bool {
    exists|i: int, j: int| open_match_at(s, i, j)
}

/// A line closes a wrapper: its first byte is a closing brace.
pub open spec fn is_wrapper_close(s: Seq<u8>) -> bool {
    s.len() > 0 && s[0] == CLOSE_BRACE
}

/// The container keyword as a runtime value.
fn open_keyword_vec() -> (kw: Vec<u8>)
    ensures
        kw@ == open_keyword(),
{
    let mut kw: Vec<u8> = Vec::new();
    kw.push(111);
    kw.push(98);
    kw.push(106);
    kw.push(101);
    kw.push(99);
    kw.push(116);
    kw.push(32);
    kw.push(119);
    kw.push(114);
    kw.push(97);
    kw.push(112);
    kw.push(112);
    kw.push(101);
    kw.push(114);
    proof {
        assert(kw@ =~= open_keyword());
    }
    kw
}

/// Does `pat` occur in `s` starting at position `at`?
fn occurs_at(s: &[u8], at: usize, pat: &Vec<u8>) -> (r: bool)
    requires
        at + pat@.len() <= s@.len(),
    ensures
        r == (s@.subrange(at as int, at as int + pat@.len() as int) == pat@),
{
    let sn = s.len();
    let n = pat.len();
    let mut k: usize = 0;
    while k < n
        invariant
            0 <= k <= n,
            n == pat@.len(),
            sn == s@.len(),
            at + n <= sn,
            forall|m: int| 0 <= m < k ==> s@[at + m] == pat@[m],
        decreases n - k,
    {
        if s[at + k] != pat[k] {
            proof {
                assert(s@.subrange(at as int, at as int + pat@.len() as int)[k as int]
                    != pat@[k as int]);
            }
            return false;
        }
        k += 1;
    }
    proof {
        assert(s@.subrange(at as int, at as int + pat@.len() as int) =~= pat@);
    }
    true
}

/// An opening brace stands at or after position `from`, with no newline
/// before it.
pub open spec fn brace_on_line(s: Seq<u8>, from: int) -> bool {
    exists|j: int|
        from <= j < s.len() && s[j] == OPEN_BRACE && (forall|k: int|
            from <= k < j ==> s[k] != NEWLINE)
}

/// Scan forward from `from` for an opening brace, stopping at a newline.
fn find_brace_on_line(s: &[u8], from: usize) -> (r: bool)
    requires
        from <= s@.len(),
    ensures
        r == brace_on_line(s@, from as int),
{
    let n = s.len();
    let mut j = from;
    while j < n
        invariant
            from <= j <= n,
            n == s@.len(),
            forall|k: int| from <= k < j ==> s@[k] != OPEN_BRACE,
            forall|k: int| from <= k < j ==> s@[k] != NEWLINE,
        decreases n - j,
    {
        if s[j] == OPEN_BRACE {
            proof {
                assert(from <= j < s@.len() && s@[j as int] == OPEN_BRACE && (forall|k: int|
                    from <= k < j ==> s@[k] != NEWLINE));
            }
            return true;
        }
        if s[j] == NEWLINE {
            proof {
                assert forall|j0: int|
                    !(from <= j0 < s@.len() && s@[j0] == OPEN_BRACE && (forall|k: int|
                        from <= k < j0 ==> s@[k] != NEWLINE)) by {
                    if from <= j0 < s@.len() && s@[j0] == OPEN_BRACE {
                        assert(j0 > j);
                        assert(s@[j as int] == NEWLINE);
                    }
                }
            }
            return false;
        }
        j += 1;
    }
    proof {
        assert forall|j0: int|
            !(from <= j0 < s@.len() && s@[j0] == OPEN_BRACE && (forall|k: int|
                from <= k < j0 ==> s@[k] != NEWLINE)) by {
            if from <= j0 < s@.len() {
                assert(s@[j0] != OPEN_BRACE);
            }
        }
    }
    false
}

/// Decide whether a line opens a wrapper.
pub fn wrapper_open(line: &[u8]) -> (r: bool)
    ensures
        r == is_wrapper_open(line@),
{
    let kw = open_keyword_vec();
    let n = line.len();
    let mut i: usize = 0;
    while i < n
        invariant
            0 <= i <= n,
            n == line@.len(),
            kw@ == open_keyword(),
            forall|i0: int, j: int| 0 <= i0 < i ==> !open_match_at(line@, i0, j),
        decreases n - i,
    {
        if n - i >= kw.len() && occurs_at(line, i, &kw) {
            if find_brace_on_line(line, i + kw.len()) {
                proof {
                    let j = choose|j: int|
                        i + kw@.len() <= j < line@.len() && line@[j] == OPEN_BRACE && (forall|
                            k: int,
                        | i + kw@.len() <= k < j ==> line@[k] != NEWLINE);
                    assert(open_match_at(line@, i as int, j));
                }
                return true;
            }
            proof {
                assert forall|j0: int| !open_match_at(line@, i as int, j0) by {
                    if open_match_at(line@, i as int, j0) {
                        assert(i + kw@.len() <= j0 < line@.len() && line@[j0] == OPEN_BRACE
                            && (forall|k: int|
                            i + kw@.len() <= k < j0 ==> line@[k] != NEWLINE));
                        assert(brace_on_line(line@, i + kw@.len() as int));
                    }
                }
            }
        } else {
            proof {
                assert forall|j0: int| !open_match_at(line@, i as int, j0) by {
                    if open_match_at(line@, i as int, j0) {
                        assert(i + kw@.len() <= j0 < n);
                    }
                }
            }
        }
        i += 1;
    }
    false
}

/// Decide whether a line closes a wrapper.
pub fn wrapper_close(line: &[u8]) -> (r: bool)
    ensures
        r == is_wrapper_close(line@),
{
    line.len() > 0 && line[0] == CLOSE_BRACE
}

} // verus!
