//! Left-to-right substring search over character sequences, the primitive
//! the response extractor is built on.

use vstd::prelude::*;
use vstd::string::StrSliceExecFns;

verus! {

/// The pattern `p` occurs in `h` at position `i`.
pub open spec fn matches_at(h: Seq<char>, p: Seq<char>, i: int) -> bool {
    &&& 0 <= i
    &&& i + p.len() <= h.len()
    &&& h.subrange(i, i + p.len()) == p
}

/// Position of the first occurrence of `p` in `h` at or after `from`,
/// `None` when there is none.
pub open spec fn find_spec(h: Seq<char>, p: Seq<char>, from: int) -> Option<int>
    decreases h.len() - from
    via find_spec_decreases
{
    if from + p.len() > h.len() {
        None
    } else if matches_at(h, p, from) {
        Some(from)
    } else {
        find_spec(h, p, from + 1)
    }
}

#[via_fn]
proof fn find_spec_decreases(h: Seq<char>, p: Seq<char>, from: int) {
    if from + p.len() <= h.len() && !matches_at(h, p, from) {
        if p.len() == 0 && 0 <= from {
            assert(h.subrange(from, from + p.len()) =~= p);
        }
    }
}

/// A found position lies at or after `from`, matches the pattern, and is
/// therefore within bounds.
pub proof fn lemma_find_bounds(h: Seq<char>, p: Seq<char>, from: int)
    ensures
        match find_spec(h, p, from) {
            Some(i) => from <= i && matches_at(h, p, i),
            None => true,
        },
    decreases h.len() - from,
{
    if from + p.len() > h.len() {
    } else if matches_at(h, p, from) {
    } else {
        if p.len() == 0 && 0 <= from {
            assert(h.subrange(from, from + p.len()) =~= p);
        }
        lemma_find_bounds(h, p, from + 1);
    }
}

/// When no occurrence lies in `[from, to)`, the search from `from` and the
/// search from `to` agree.
pub proof fn lemma_find_skip(h: Seq<char>, p: Seq<char>, from: int, to: int)
    requires
        from <= to,
        forall|j: int| from <= j < to ==> !matches_at(h, p, j),
    ensures
        find_spec(h, p, from) == find_spec(h, p, to),
    decreases to - from,
{
    if from < to {
        if from + p.len() > h.len() {
            assert(to + p.len() > h.len());
            lemma_find_skip(h, p, from + 1, to);
        } else {
            assert(!matches_at(h, p, from));
            lemma_find_skip(h, p, from + 1, to);
        }
    }
}

/// First occurrence of `pat` in `h` at or after character position `from`.
pub fn find_from(h: &str, from: usize, pat: &str) -> (r: Option<usize>)
    ensures
        match r {
            Some(i) => find_spec(h@, pat@, from as int) == Some(i as int),
            None => find_spec(h@, pat@, from as int) is None,
        },
{
    let n = h.unicode_len();
    let m = pat.unicode_len();
    if m > n || from > n - m {
        proof {
            assert(from as int + pat@.len() > h@.len());
        }
        return None;
    }
    if m == 0 {
        proof {
            assert(h@.subrange(from as int, from as int) =~= pat@);
        }
        return Some(from);
    }
    let mut i = from;
    while i <= n - m
        invariant
            0 < m <= n,
            n == h@.len(),
            m == pat@.len(),
            from <= i,
            i <= n - m + 1,
            forall|j: int| from <= j < i ==> !matches_at(h@, pat@, j),
        decreases n - m + 1 - i,
    {
        let mut k: usize = 0;
        let mut ok = true;
        while ok && k < m
            invariant
                i + m <= n,
                n == h@.len(),
                m == pat@.len(),
                k <= m,
                ok ==> forall|kk: int| 0 <= kk < k ==> h@[i + kk] == pat@[kk],
                !ok ==> !matches_at(h@, pat@, i as int),
            decreases m - k + (if ok { 1int } else { 0int }),
        {
            if h.get_char(i + k) != pat.get_char(k) {
                proof {
                    if matches_at(h@, pat@, i as int) {
                        assert(h@.subrange(i as int, i + pat@.len())[k as int] == pat@[k as int]);
                    }
                }
                ok = false;
            } else {
                k += 1;
            }
        }
        if ok {
            proof {
                assert(h@.subrange(i as int, i + pat@.len()) =~= pat@);
                lemma_find_skip(h@, pat@, from as int, i as int);
            }
            return Some(i);
        }
        i += 1;
    }
    proof {
        lemma_find_skip(h@, pat@, from as int, i as int);
        assert(i + pat@.len() > h@.len());
    }
    None
}

} // verus!
