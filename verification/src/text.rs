//! Spec-level helpers for line structure: counting line feeds and locating
//! them, both forwards and backwards. All offsets are byte offsets.

use vstd::prelude::*;

verus! {

/// Number of line-feed bytes (0x0a) in `s`.
pub open spec fn count_lf(s: Seq<u8>) -> int
    decreases s.len(),
{
    if s.len() == 0 {
        0
    } else {
        count_lf(s.drop_last()) + if s.last() == 0x0a {
            1int
        } else {
            0int
        }
    }
}

pub proof fn lemma_count_lf_bounds(s: Seq<u8>)
    ensures
        0 <= count_lf(s) <= s.len(),
    decreases s.len(),
{
    if s.len() > 0 {
        lemma_count_lf_bounds(s.drop_last());
    }
}

/// Extending a prefix by one byte adds that byte's contribution to the count.
pub proof fn lemma_count_lf_step(s: Seq<u8>, i: int)
    requires
        0 <= i < s.len(),
    ensures
        count_lf(s.subrange(0, i + 1)) == count_lf(s.subrange(0, i)) + if s[i] == 0x0a {
            1int
        } else {
            0int
        },
{
    let t = s.subrange(0, i + 1);
    assert(t.drop_last() =~= s.subrange(0, i));
}

/// A sequence without any line feed has count zero.
pub proof fn lemma_count_lf_zero(s: Seq<u8>)
    requires
        forall|j: int| 0 <= j < s.len() ==> s[j] != 0x0a,
    ensures
        count_lf(s) == 0,
    decreases s.len(),
{
    if s.len() > 0 {
        lemma_count_lf_zero(s.drop_last());
    }
}

/// The count splits over a cut of the sequence.
pub proof fn lemma_count_lf_split(s: Seq<u8>, i: int)
    requires
        0 <= i <= s.len(),
    ensures
        count_lf(s) == count_lf(s.subrange(0, i)) + count_lf(s.subrange(i, s.len() as int)),
    decreases s.len() - i,
{
    if i == s.len() {
        assert(s.subrange(0, i) =~= s);
        assert(count_lf(s.subrange(i, s.len() as int)) == 0);
    } else {
        lemma_count_lf_split(s, i + 1);
        lemma_count_lf_step(s, i);
        let tail_i = s.subrange(i, s.len() as int);
        let tail_i1 = s.subrange(i + 1, s.len() as int);
        lemma_count_lf_head(tail_i);
        assert(tail_i.subrange(1, tail_i.len() as int) =~= tail_i1);
    }
}

/// Peeling the first byte off a non-empty sequence.
pub proof fn lemma_count_lf_head(s: Seq<u8>)
    requires
        s.len() > 0,
    ensures
        count_lf(s) == count_lf(s.subrange(1, s.len() as int)) + if s[0] == 0x0a {
            1int
        } else {
            0int
        },
    decreases s.len(),
{
    if s.len() == 1 {
        assert(s.drop_last() =~= s.subrange(1, s.len() as int));
    } else {
        lemma_count_lf_head(s.drop_last());
        assert(s.drop_last().subrange(1, s.len() - 1) =~= s.subrange(1, s.len() as int).drop_last());
    }
}

/// Count the line-feed bytes in `v`.
pub fn count_line_feeds(v: &Vec<u8>) -> (r: usize)
    requires
        v@.len() < usize::MAX,
    ensures
        r == count_lf(v@),
{
    let ghost s = v@;
    let mut n: usize = 0;
    let mut j: usize = 0;
    proof {
        assert(s.subrange(0, 0) =~= Seq::<u8>::empty());
    }
    while j < v.len()
        invariant
            v@ == s,
            j <= s.len() < usize::MAX,
            0 <= n <= j,
            n == count_lf(s.subrange(0, j as int)),
        decreases s.len() - j,
    {
        proof {
            lemma_count_lf_step(s, j as int);
        }
        if v[j] == 0x0a {
            n = n + 1;
        }
        j = j + 1;
    }
    proof {
        assert(s.subrange(0, s.len() as int) =~= s);
    }
    n
}

/// Position of the last line feed strictly before `end`, or -1 if there is none.
pub open spec fn last_lf(s: Seq<u8>, end: int) -> int
    decreases end,
{
    if end <= 0 {
        -1
    } else if s[end - 1] == 0x0a {
        end - 1
    } else {
        last_lf(s, end - 1)
    }
}

/// Position of the first line feed at or after `from`, or `s.len()` if there is none.
pub open spec fn next_lf(s: Seq<u8>, from: int) -> int
    recommends
        0 <= from,
    decreases s.len() - from,
{
    if from >= s.len() {
        s.len() as int
    } else if s[from] == 0x0a {
        from
    } else {
        next_lf(s, from + 1)
    }
}

pub proof fn lemma_next_lf_props(s: Seq<u8>, from: int)
    requires
        0 <= from <= s.len(),
    ensures
        from <= next_lf(s, from) <= s.len(),
        next_lf(s, from) < s.len() ==> s[next_lf(s, from)] == 0x0a,
        forall|j: int| from <= j < next_lf(s, from) ==> s[j] != 0x0a,
    decreases s.len() - from,
{
    if from < s.len() && s[from] != 0x0a {
        lemma_next_lf_props(s, from + 1);
    }
}

/// The count of line feeds in a prefix that ends just past its last line feed.
pub proof fn lemma_no_lf_count(s: Seq<u8>, a: int, b: int)
    requires
        0 <= a <= b <= s.len(),
        forall|j: int| a <= j < b ==> s[j] != 0x0a,
    ensures
        count_lf(s.subrange(0, b)) == count_lf(s.subrange(0, a)),
{
    lemma_count_lf_split(s.subrange(0, b), a);
    assert(s.subrange(0, b).subrange(0, a) =~= s.subrange(0, a));
    lemma_count_lf_zero(s.subrange(0, b).subrange(a, b));
}

} // verus!
