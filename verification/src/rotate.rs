//! One-position rotation of a contiguous range of a vector, in place.
//!
//! These are the shared primitives that both the region index engine and the
//! character lines use to move an element to the front (or back) of a range
//! without touching anything outside the range.

use vstd::prelude::*;

verus! {

/// The sequence `s` with the range `[start, end)` rotated right by one
/// position: the element at `end - 1` moves to `start`, and everything in
/// `[start, end - 1)` shifts up by one. Positions outside the range are
/// untouched. An empty or single-element range leaves `s` unchanged.
pub open spec fn rotated_right<T>(s: Seq<T>, start: int, end: int) -> Seq<T> {
    Seq::new(
        s.len(),
        |i: int|
            if i < start || i >= end {
                s[i]
            } else if i == start {
                s[end - 1]
            } else {
                s[i - 1]
            },
    )
}

/// The sequence `s` with the range `[start, end)` rotated left by one
/// position: the element at `start` moves to `end - 1`, and everything in
/// `(start, end)` shifts down by one.
pub open spec fn rotated_left<T>(s: Seq<T>, start: int, end: int) -> Seq<T> {
    Seq::new(
        s.len(),
        |i: int|
            if i < start || i >= end {
                s[i]
            } else if i == end - 1 {
                s[start]
            } else {
                s[i + 1]
            },
    )
}

/// Rotating a range left undoes rotating the same range right.
pub proof fn lemma_rotate_round_trip<T>(s: Seq<T>, start: int, end: int)
    requires
        0 <= start,
        end <= s.len(),
    ensures
        rotated_left(rotated_right(s, start, end), start, end) == s,
{
    assert(rotated_left(rotated_right(s, start, end), start, end) =~= s);
}

/// A right rotation of a range of a duplicate-free sequence is duplicate-free.
pub proof fn lemma_rotated_right_distinct<T>(s: Seq<T>, start: int, end: int)
    requires
        0 <= start,
        end <= s.len(),
        forall|i: int, j: int| 0 <= i < j < s.len() ==> s[i] != s[j],
    ensures
        forall|i: int, j: int|
            0 <= i < j < s.len() ==> rotated_right(s, start, end)[i] != rotated_right(
                s,
                start,
                end,
            )[j],
{
}

/// A left rotation of a range of a duplicate-free sequence is duplicate-free.
pub proof fn lemma_rotated_left_distinct<T>(s: Seq<T>, start: int, end: int)
    requires
        0 <= start,
        end <= s.len(),
        forall|i: int, j: int| 0 <= i < j < s.len() ==> s[i] != s[j],
    ensures
        forall|i: int, j: int|
            0 <= i < j < s.len() ==> rotated_left(s, start, end)[i] != rotated_left(
                s,
                start,
                end,
            )[j],
{
}

/// Rotate `v[start..end]` right by one position, in place.
pub(crate) fn rot_right<T: Copy>(v: &mut Vec<T>, start: usize, end: usize)
    requires
        start <= end,
        end <= old(v)@.len(),
    ensures
        final(v)@ == rotated_right(old(v)@, start as int, end as int),
{
    if end - start <= 1 {
        proof {
            assert(v@ =~= rotated_right(old(v)@, start as int, end as int));
        }
        return ;
    }
    let last: T = v[end - 1];
    let mut j: usize = end - 1;
    while j > start
        invariant
            start < end,
            end <= v@.len(),
            v@.len() == old(v)@.len(),
            start <= j <= end - 1,
            last == old(v)@[end - 1],
            forall|i: int| 0 <= i <= j ==> v@[i] == old(v)@[i],
            forall|i: int| j < i < end ==> v@[i] == old(v)@[i - 1],
            forall|i: int| end <= i < v@.len() ==> v@[i] == old(v)@[i],
        decreases j,
    {
        let x = v[j - 1];
        v.set(j, x);
        j = j - 1;
    }
    v.set(start, last);
    proof {
        assert(v@ =~= rotated_right(old(v)@, start as int, end as int));
    }
}

/// Rotate `v[start..end]` left by one position, in place.
pub(crate) fn rot_left<T: Copy>(v: &mut Vec<T>, start: usize, end: usize)
    requires
        start <= end,
        end <= old(v)@.len(),
    ensures
        final(v)@ == rotated_left(old(v)@, start as int, end as int),
{
    if end - start <= 1 {
        proof {
            assert(v@ =~= rotated_left(old(v)@, start as int, end as int));
        }
        return ;
    }
    let first: T = v[start];
    let mut j: usize = start;
    while j + 1 < end
        invariant
            start < end,
            end <= v@.len(),
            v@.len() == old(v)@.len(),
            start <= j <= end - 1,
            first == old(v)@[start as int],
            forall|i: int| 0 <= i < start ==> v@[i] == old(v)@[i],
            forall|i: int| start <= i < j ==> v@[i] == old(v)@[i + 1],
            forall|i: int| j <= i < v@.len() ==> v@[i] == old(v)@[i],
        decreases end - j,
    {
        let x = v[j + 1];
        v.set(j, x);
        j = j + 1;
    }
    v.set(end - 1, first);
    proof {
        assert(v@ =~= rotated_left(old(v)@, start as int, end as int));
    }
}

} // verus!
