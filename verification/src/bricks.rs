//! The region index engine.
//!
//! [`Bricks`] owns a permutation of the slot indices `0 .. L` and three
//! boundary cursors that partition it into four contiguous zones: lines the
//! local end is editing, lines the remote end is editing, submitted history,
//! and free slots. Entries move between zones by rewriting indices only;
//! payload storage is never touched.

use crate::rotate::{
    lemma_rotate_round_trip, lemma_rotated_left_distinct, lemma_rotated_right_distinct, rot_left,
    rot_right, rotated_left, rotated_right,
};
use vstd::math::min;
use vstd::prelude::*;

verus! {

/// The abstract state of the engine: the index permutation and the three
/// zone boundaries. Zones, in index order: `[0, local_end)` is local
/// editing, `[local_end, remote_end)` remote editing,
/// `[remote_end, history_end)` history, and `[history_end, cap())` free.
/// Within each zone the front (lowest position) is the newest entry.
#[verifier::ext_equal]
pub struct BricksView {
    pub idx: Seq<usize>,
    pub local_end: int,
    pub remote_end: int,
    pub history_end: int,
}

impl BricksView {
    /// Total number of slots.
    pub open spec fn cap(self) -> int {
        self.idx.len() as int
    }

    /// The engine invariant: the boundaries are ordered and within capacity,
    /// and the index array is a permutation of `0 .. cap()` (no duplicate or
    /// out-of-range slot references).
    pub open spec fn inv(self) -> bool {
        &&& 0 <= self.local_end <= self.remote_end <= self.history_end <= self.cap()
        &&& forall|i: int| 0 <= i < self.cap() ==> (#[trigger] self.idx[i]) < self.cap()
        &&& forall|i: int, j: int| 0 <= i < j < self.cap() ==> self.idx[i] != self.idx[j]
    }

    /// The state of a freshly created engine: identity permutation, all
    /// boundaries at zero (everything free).
    pub open spec fn fresh(cap: nat) -> BricksView {
        BricksView {
            idx: Seq::new(cap, |i: int| i as usize),
            local_end: 0,
            remote_end: 0,
            history_end: 0,
        }
    }

    /// The state after inserting a blank entry at the front of the local
    /// editing zone. A failed insertion (the zone already spans every slot)
    /// changes nothing. Otherwise the smallest range holding at least one
    /// free-or-history slot is rotated right by one, and every boundary at
    /// or beyond the local zone grows by one, capped at the capacity.
    pub open spec fn after_insert_local(self) -> BricksView {
        if self.local_end >= self.cap() {
            self
        } else {
            let end = min(self.history_end + 1, self.cap());
            BricksView {
                idx: rotated_right(self.idx, 0, end),
                local_end: self.local_end + 1,
                remote_end: min(self.remote_end + 1, self.cap()),
                history_end: end,
            }
        }
    }

    /// The state after inserting a blank entry at the front of the remote
    /// editing zone; as [`Self::after_insert_local`], but the rotated range
    /// starts at the local boundary, which leaves the local zone untouched.
    pub open spec fn after_insert_remote(self) -> BricksView {
        if self.remote_end >= self.cap() {
            self
        } else {
            let end = min(self.history_end + 1, self.cap());
            BricksView {
                idx: rotated_right(self.idx, self.local_end, end),
                local_end: self.local_end,
                remote_end: self.remote_end + 1,
                history_end: end,
            }
        }
    }

    /// The state after removing the newest local editing entry: the occupied
    /// prefix is rotated left by one, so the freed slot flows to the front
    /// of the free zone, and every boundary shrinks by one. An empty local
    /// zone is left unchanged.
    pub open spec fn after_pop_local(self) -> BricksView {
        if self.local_end <= 0 {
            self
        } else {
            BricksView {
                idx: rotated_left(self.idx, 0, self.history_end),
                local_end: self.local_end - 1,
                remote_end: self.remote_end - 1,
                history_end: self.history_end - 1,
            }
        }
    }

    /// The state after removing the newest remote editing entry; as
    /// [`Self::after_pop_local`], but the rotated range starts at the local
    /// boundary and the local zone keeps its size.
    pub open spec fn after_pop_remote(self) -> BricksView {
        if self.remote_end <= self.local_end {
            self
        } else {
            BricksView {
                idx: rotated_left(self.idx, self.local_end, self.history_end),
                local_end: self.local_end,
                remote_end: self.remote_end - 1,
                history_end: self.history_end - 1,
            }
        }
    }

    /// The state after submitting the local editing zone: its entries become
    /// the newest history entries, ahead of any remote editing entries,
    /// which stay contiguous and in order right where history begins.
    pub open spec fn after_submit_local(self) -> BricksView {
        BricksView {
            idx: self.idx.subrange(self.local_end, self.remote_end) + self.idx.subrange(
                0,
                self.local_end,
            ) + self.idx.subrange(self.remote_end, self.cap()),
            local_end: 0,
            remote_end: self.remote_end - self.local_end,
            history_end: self.history_end,
        }
    }

    /// The state after submitting the remote editing zone: its entries are
    /// already adjacent to where history begins, so only the boundary moves.
    pub open spec fn after_submit_remote(self) -> BricksView {
        BricksView {
            idx: self.idx,
            local_end: self.local_end,
            remote_end: self.local_end,
            history_end: self.history_end,
        }
    }

    /// Inserting a blank local entry preserves the engine invariant.
    pub proof fn lemma_insert_local_inv(self)
        requires
            self.inv(),
        ensures
            self.after_insert_local().inv(),
    {
        if self.local_end < self.cap() {
            lemma_rotated_right_distinct(self.idx, 0, min(self.history_end + 1, self.cap()));
        }
    }

    /// Inserting a blank remote entry preserves the engine invariant.
    pub proof fn lemma_insert_remote_inv(self)
        requires
            self.inv(),
        ensures
            self.after_insert_remote().inv(),
    {
        if self.remote_end < self.cap() {
            lemma_rotated_right_distinct(
                self.idx,
                self.local_end,
                min(self.history_end + 1, self.cap()),
            );
        }
    }

    /// Popping the newest local entry preserves the engine invariant.
    pub proof fn lemma_pop_local_inv(self)
        requires
            self.inv(),
        ensures
            self.after_pop_local().inv(),
    {
        if self.local_end > 0 {
            lemma_rotated_left_distinct(self.idx, 0, self.history_end);
        }
    }

    /// Popping the newest remote entry preserves the engine invariant.
    pub proof fn lemma_pop_remote_inv(self)
        requires
            self.inv(),
        ensures
            self.after_pop_remote().inv(),
    {
        if self.remote_end > self.local_end {
            lemma_rotated_left_distinct(self.idx, self.local_end, self.history_end);
        }
    }

    /// Submitting the local zone preserves the engine invariant.
    pub proof fn lemma_submit_local_inv(self)
        requires
            self.inv(),
        ensures
            self.after_submit_local().inv(),
    {
        let post = self.after_submit_local();
        assert forall|i: int, j: int| 0 <= i < j < post.cap() implies post.idx[i] != post.idx[j] by {
            assert(post.idx[i] == self.idx[submit_local_source(self, i)]);
            assert(post.idx[j] == self.idx[submit_local_source(self, j)]);
        }
    }

    /// Submitting the remote zone preserves the engine invariant.
    pub proof fn lemma_submit_remote_inv(self)
        requires
            self.inv(),
        ensures
            self.after_submit_remote().inv(),
    {
    }
}

/// The state after `n` consecutive local-editing insertions.
pub open spec fn after_local_inserts(v: BricksView, n: int) -> BricksView
    decreases n,
{
    if n <= 0 {
        v
    } else {
        after_local_inserts(v, n - 1).after_insert_local()
    }
}

/// The engine invariant makes the index array a true permutation: being
/// duplicate-free and in range, it is also onto, so every slot `0 .. cap`
/// is referenced exactly once — no duplicate or missing slot references.
pub proof fn lemma_permutation_onto(v: BricksView)
    requires
        v.inv(),
    ensures
        forall|s: usize| s < v.cap() ==> #[trigger] v.idx.contains(s),
{
    broadcast use vstd::seq_lib::seq_to_set_is_finite;

    let cap = v.cap();
    let si = Seq::new(v.idx.len(), |i: int| v.idx[i] as int);
    assert(si.no_duplicates());
    si.unique_seq_to_set();
    vstd::set_lib::lemma_int_range(0, cap);
    assert(si.to_set().subset_of(vstd::set_lib::set_int_range(0, cap)));
    vstd::set_lib::lemma_subset_equality(si.to_set(), vstd::set_lib::set_int_range(0, cap));
    assert forall|s: usize| s < cap implies #[trigger] v.idx.contains(s) by {
        assert(si.to_set().contains(s as int));
        let i = choose|i: int| 0 <= i < si.len() && si[i] == s as int;
        assert(v.idx[i] == s);
    }
}

/// Round trip: inserting a blank local entry and immediately popping it
/// restores the index permutation and all three boundaries exactly,
/// provided a free slot existed. (Without one, the insertion recycles the
/// oldest occupied slot, and the pop releases it to the free zone instead
/// of restoring it.)
pub proof fn lemma_insert_then_pop_local_restores(v: BricksView)
    requires
        v.inv(),
        v.local_end < v.cap(),
        v.history_end < v.cap(),
    ensures
        v.after_insert_local().after_pop_local() == v,
{
    lemma_rotate_round_trip(v.idx, 0, v.history_end + 1);
    assert(v.after_insert_local().after_pop_local() =~= v);
}

/// Monotonic capacity: starting from a fresh engine, each of the first `n`
/// local-editing insertions succeeds and grows the local boundary by
/// exactly one, and the first `n` positions hold the reclaimed slots
/// `n - 1, .., 0`, newest first.
pub proof fn lemma_fill_fresh(cap: nat, n: int)
    requires
        0 <= n <= cap,
    ensures
        ({
            let v = after_local_inserts(BricksView::fresh(cap), n);
            &&& v.cap() == cap
            &&& v.local_end == n
            &&& v.remote_end == n
            &&& v.history_end == n
            &&& v.idx == Seq::new(
                cap,
                |i: int|
                    if i < n {
                        (n - 1 - i) as usize
                    } else {
                        i as usize
                    },
            )
        }),
    decreases n,
{
    let target = Seq::new(
        cap,
        |i: int|
            if i < n {
                (n - 1 - i) as usize
            } else {
                i as usize
            },
    );
    if n == 0 {
        assert(after_local_inserts(BricksView::fresh(cap), 0).idx =~= target);
    } else {
        lemma_fill_fresh(cap, n - 1);
        let prev = after_local_inserts(BricksView::fresh(cap), n - 1);
        assert(prev.after_insert_local().idx =~= target);
    }
}

/// After filling every slot of a fresh engine with local-editing entries,
/// the index array is exactly the reverse of `0, .., cap - 1`, and one more
/// insertion changes nothing (the operation reports exhaustion instead).
pub proof fn lemma_fill_fresh_reverses(cap: nat)
    ensures
        ({
            let v = after_local_inserts(BricksView::fresh(cap), cap as int);
            &&& v.local_end == cap
            &&& v.idx == Seq::new(cap, |i: int| (cap - 1 - i) as usize)
            &&& v.after_insert_local() == v
        }),
{
    lemma_fill_fresh(cap, cap as int);
    let v = after_local_inserts(BricksView::fresh(cap), cap as int);
    assert(v.idx =~= Seq::new(cap, |i: int| (cap - 1 - i) as usize));
}

/// Idempotence: submitting the remote editing zone while it is already
/// empty changes no boundary and no index.
pub proof fn lemma_submit_remote_empty_noop(v: BricksView)
    requires
        v.remote_end == v.local_end,
    ensures
        v.after_submit_remote() == v,
{
    assert(v.after_submit_remote() =~= v);
}

/// Where position `i` of `v.after_submit_local().idx` comes from in `v.idx`.
spec fn submit_local_source(v: BricksView, i: int) -> int {
    if i < v.remote_end - v.local_end {
        v.local_end + i
    } else if i < v.remote_end {
        i - (v.remote_end - v.local_end)
    } else {
        i
    }
}

/// The region index engine over `L` slots.
#[derive(Debug)]
pub struct Bricks<const L: usize> {
    idx_buf: Vec<usize>,
    local_editable_end: usize,
    remote_editable_end: usize,
    history_end: usize,
}

impl<const L: usize> View for Bricks<L> {
    type V = BricksView;

    closed spec fn view(&self) -> BricksView {
        BricksView {
            idx: self.idx_buf@,
            local_end: self.local_editable_end as int,
            remote_end: self.remote_editable_end as int,
            history_end: self.history_end as int,
        }
    }
}

impl<const L: usize> Bricks<L> {
    /// The engine invariant, at full capacity `L`.
    pub open spec fn wf(&self) -> bool {
        self@.inv() && self@.cap() == L
    }

    /// Create a new engine with every slot free.
    pub fn new() -> (r: Self)
        ensures
            r.wf(),
            r@ == BricksView::fresh(L as nat),
    {
        let mut idx_buf: Vec<usize> = Vec::new();
        let mut i: usize = 0;
        while i < L
            invariant
                i <= L,
                idx_buf@.len() == i,
                forall|k: int| 0 <= k < i ==> idx_buf@[k] == k,
            decreases L - i,
        {
            idx_buf.push(i);
            i = i + 1;
        }
        let r = Bricks { idx_buf, local_editable_end: 0, remote_editable_end: 0, history_end: 0 };
        proof {
            assert(r@.idx =~= BricksView::fresh(L as nat).idx);
        }
        r
    }

    /// The slot indices of the local editing zone, newest first.
    pub fn iter_local_editable(&self) -> (r: Vec<usize>)
        requires
            self.wf(),
        ensures
            r@ == self@.idx.subrange(0, self@.local_end),
    {
        self.copy_range(0, self.local_editable_end)
    }

    /// The slot indices of the remote editing zone, newest first.
    pub fn iter_remote_editable(&self) -> (r: Vec<usize>)
        requires
            self.wf(),
        ensures
            r@ == self@.idx.subrange(self@.local_end, self@.remote_end),
    {
        self.copy_range(self.local_editable_end, self.remote_editable_end)
    }

    /// The slot indices of the history zone, newest submission first.
    pub fn iter_history(&self) -> (r: Vec<usize>)
        requires
            self.wf(),
        ensures
            r@ == self@.idx.subrange(self@.remote_end, self@.history_end),
    {
        self.copy_range(self.remote_editable_end, self.history_end)
    }

    /// Copy `idx[from..to]` out as a vector.
    fn copy_range(&self, from: usize, to: usize) -> (r: Vec<usize>)
        requires
            self.wf(),
            from <= to <= L,
        ensures
            r@ == self@.idx.subrange(from as int, to as int),
    {
        let mut r: Vec<usize> = Vec::new();
        let mut i: usize = from;
        while i < to
            invariant
                from <= i <= to <= L,
                self.wf(),
                r@.len() == i - from,
                forall|k: int| 0 <= k < r@.len() ==> r@[k] == self@.idx[from + k],
            decreases to - i,
        {
            r.push(self.idx_buf[i]);
            i = i + 1;
        }
        proof {
            assert(r@ =~= self@.idx.subrange(from as int, to as int));
        }
        r
    }

    /// The whole index permutation, front of the local zone first.
    pub fn indices(&self) -> (r: Vec<usize>)
        requires
            self.wf(),
        ensures
            r@ == self@.idx,
    {
        let r = self.copy_range(0, L);
        proof {
            assert(self@.idx.subrange(0, L as int) =~= self@.idx);
        }
        r
    }

    /// The position of the local editing zone's end boundary.
    pub fn local_editable_end(&self) -> (r: usize)
        ensures
            r == self@.local_end,
    {
        self.local_editable_end
    }

    /// The position of the remote editing zone's end boundary.
    pub fn remote_editable_end(&self) -> (r: usize)
        ensures
            r == self@.remote_end,
    {
        self.remote_editable_end
    }

    /// The position of the history zone's end boundary.
    pub fn history_boundary(&self) -> (r: usize)
        ensures
            r == self@.history_end,
    {
        self.history_end
    }

    /// The slot holding the newest local editing entry, if that zone is
    /// non-empty.
    pub fn local_editable_front(&self) -> (r: Option<usize>)
        requires
            self.wf(),
        ensures
            self@.local_end == 0 ==> r is None,
            self@.local_end > 0 ==> r == Some(self@.idx[0]),
    {
        if self.local_editable_end == 0 {
            None
        } else {
            Some(self.idx_buf[0])
        }
    }

    /// The slot holding the newest remote editing entry, if that zone is
    /// non-empty.
    pub fn remote_editable_front(&self) -> (r: Option<usize>)
        requires
            self.wf(),
        ensures
            self@.remote_end == self@.local_end ==> r is None,
            self@.remote_end > self@.local_end ==> r == Some(self@.idx[self@.local_end]),
    {
        if self.remote_editable_end == self.local_editable_end {
            None
        } else {
            Some(self.idx_buf[self.local_editable_end])
        }
    }

    /// Remove the newest local editing entry; a no-op when that zone is
    /// empty.
    pub fn pop_local_editable_front(&mut self)
        requires
            old(self).wf(),
        ensures
            final(self).wf(),
            final(self)@ == old(self)@.after_pop_local(),
    {
        proof {
            old(self)@.lemma_pop_local_inv();
        }
        if self.local_editable_end == 0 {
            return ;
        }
        rot_left(&mut self.idx_buf, 0, self.history_end);
        self.local_editable_end = self.local_editable_end - 1;
        self.remote_editable_end = self.remote_editable_end - 1;
        self.history_end = self.history_end - 1;
    }

    /// Remove the newest remote editing entry; a no-op when that zone is
    /// empty.
    pub fn pop_remote_editable_front(&mut self)
        requires
            old(self).wf(),
        ensures
            final(self).wf(),
            final(self)@ == old(self)@.after_pop_remote(),
    {
        proof {
            old(self)@.lemma_pop_remote_inv();
        }
        if self.remote_editable_end == self.local_editable_end {
            return ;
        }
        rot_left(&mut self.idx_buf, self.local_editable_end, self.history_end);
        self.remote_editable_end = self.remote_editable_end - 1;
        self.history_end = self.history_end - 1;
    }

    /// Make room for one blank entry at the front of the local editing zone
    /// and return the slot now holding it. The slot reclaimed is a free slot
    /// while any exists, else the oldest history entry; the caller must
    /// clear and re-tag its payload. Fails iff the local zone already spans
    /// all `L` slots.
    pub fn insert_local_editable_front(&mut self) -> (r: Result<usize, ()>)
        requires
            old(self).wf(),
        ensures
            final(self).wf(),
            final(self)@ == old(self)@.after_insert_local(),
            r is Ok <==> old(self)@.local_end < L,
            r is Ok ==> r == Ok::<usize, ()>(final(self)@.idx[0]),
    {
        proof {
            old(self)@.lemma_insert_local_inv();
        }
        if self.local_editable_end == L {
            return Err(());
        }
        let end = if self.history_end < L {
            self.history_end + 1
        } else {
            L
        };
        rot_right(&mut self.idx_buf, 0, end);
        self.local_editable_end = self.local_editable_end + 1;
        self.remote_editable_end = if self.remote_editable_end < L {
            self.remote_editable_end + 1
        } else {
            L
        };
        self.history_end = end;
        Ok(self.idx_buf[0])
    }

    /// Make room for one blank entry at the front of the remote editing
    /// zone and return the slot now holding it; as
    /// [`Self::insert_local_editable_front`], but the local zone is left
    /// untouched, and the call fails iff local and remote editing together
    /// already span all `L` slots.
    pub fn insert_remote_editable_front(&mut self) -> (r: Result<usize, ()>)
        requires
            old(self).wf(),
        ensures
            final(self).wf(),
            final(self)@ == old(self)@.after_insert_remote(),
            r is Ok <==> old(self)@.remote_end < L,
            r is Ok ==> r == Ok::<usize, ()>(final(self)@.idx[final(self)@.local_end]),
    {
        proof {
            old(self)@.lemma_insert_remote_inv();
        }
        if self.remote_editable_end == L {
            return Err(());
        }
        let end = if self.history_end < L {
            self.history_end + 1
        } else {
            L
        };
        rot_right(&mut self.idx_buf, self.local_editable_end, end);
        self.remote_editable_end = self.remote_editable_end + 1;
        self.history_end = end;
        Ok(self.idx_buf[self.local_editable_end])
    }

    /// Relabel the whole local editing zone as the newest history entries,
    /// ahead of any remote editing entries, which stay contiguous and in
    /// order. Implemented as one right rotation of the combined editing
    /// prefix per remote entry.
    pub fn submit_local_editable(&mut self)
        requires
            old(self).wf(),
        ensures
            final(self).wf(),
            final(self)@ == old(self)@.after_submit_local(),
    {
        proof {
            old(self)@.lemma_submit_local_inv();
        }
        let range_end = self.remote_editable_end;
        let count = range_end - self.local_editable_end;
        let mut t: usize = 0;
        while t < count
            invariant
                t <= count,
                count == old(self)@.remote_end - old(self)@.local_end,
                range_end == old(self)@.remote_end,
                old(self).wf(),
                self.local_editable_end == old(self)@.local_end,
                self.remote_editable_end == old(self)@.remote_end,
                self.history_end == old(self)@.history_end,
                self.idx_buf@.len() == old(self)@.idx.len(),
                self.idx_buf@ =~= old(self)@.idx.subrange(range_end - t, range_end as int) + old(
                    self,
                )@.idx.subrange(0, range_end - t) + old(self)@.idx.subrange(
                    range_end as int,
                    old(self)@.cap(),
                ),
            decreases count - t,
        {
            rot_right(&mut self.idx_buf, 0, range_end);
            t = t + 1;
            proof {
                assert(self.idx_buf@ =~= old(self)@.idx.subrange(range_end - t, range_end as int)
                    + old(self)@.idx.subrange(0, range_end - t) + old(self)@.idx.subrange(
                    range_end as int,
                    old(self)@.cap(),
                ));
            }
        }
        self.remote_editable_end = self.remote_editable_end - self.local_editable_end;
        self.local_editable_end = 0;
        proof {
            assert(self@.idx =~= old(self)@.after_submit_local().idx);
        }
    }

    /// Relabel the whole remote editing zone as the newest history entries.
    /// The zone already sits where history begins, so only the boundary
    /// moves.
    pub fn submit_remote_editable(&mut self)
        requires
            old(self).wf(),
        ensures
            final(self).wf(),
            final(self)@ == old(self)@.after_submit_remote(),
    {
        self.remote_editable_end = self.local_editable_end;
    }
}

} // verus!
