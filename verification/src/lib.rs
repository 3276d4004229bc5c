//! # Input Manager
//!
//! A fixed-capacity, allocation-free text buffer that models the history of a
//! two-party conversation, split into four logical regions: lines the local
//! end is still typing, lines the remote end is still typing, submitted
//! history, and unused capacity.
//!
//! Storage never moves: a separate index engine ([`Bricks`]) tracks which
//! physical line belongs to which region by rewriting a small permutation of
//! slot indices, while the payload bytes stay where they are.

use vstd::prelude::*;

mod bricks;
mod lines;
pub mod rotate;

pub use bricks::{
    after_local_inserts, lemma_fill_fresh, lemma_fill_fresh_reverses,
    lemma_insert_then_pop_local_restores, lemma_permutation_onto, lemma_submit_remote_empty_noop,
    Bricks, BricksView,
};
pub use lines::{acceptable_ascii, is_acceptable, Line, LineContent};

verus! {

/// Why a line edit was rejected.
#[derive(Debug, PartialEq, Eq, Structural)]
pub enum LineError {
    /// The line (or the whole buffer) has no room left.
    Full,
    /// The byte is not printable, non-control ASCII.
    InvalidChar,
    /// Reserved for a future frozen-history feature; no operation returns it.
    ReadOnly,
    /// The write targets a position beyond the current fill, which would
    /// leave an undefined gap.
    WriteGap,
}

/// Why a buffer-level edit was rejected.
#[derive(Debug, PartialEq, Eq, Structural)]
pub enum RingLineError {
    Line(LineError),
}

impl From<LineError> for RingLineError {
    fn from(le: LineError) -> (r: Self) {
        RingLineError::Line(le)
    }
}

impl vstd::std_specs::convert::FromSpecImpl<LineError> for RingLineError {
    open spec fn obeys_from_spec() -> bool {
        true
    }

    open spec fn from_spec(le: LineError) -> Self {
        RingLineError::Line(le)
    }
}

/// Which party a line of text came from.
#[derive(Debug, PartialEq, Eq, Structural, Copy, Clone)]
pub enum Source {
    Local,
    Remote,
}

/// The abstract state of a [`RingLine`]: the text of the lines in each of
/// the three occupied zones, each newest first, and the number of slots
/// never used so far. Local and remote editing lines carry their tag
/// implicitly; history entries keep the tag of the party that submitted
/// them.
#[verifier::ext_equal]
pub struct RingView {
    pub local: Seq<Seq<u8>>,
    pub remote: Seq<Seq<u8>>,
    pub history: Seq<LineContent>,
    pub free: int,
}

/// The state after a blank local editing line takes the front of the local
/// zone: the slot comes from the free pool while one exists, else the
/// oldest history entry is recycled, else the oldest remote editing line.
pub open spec fn ring_after_local_insert(v: RingView) -> RingView {
    RingView {
        local: seq![Seq::<u8>::empty()] + v.local,
        remote: if v.free <= 0 && v.history.len() == 0 {
            v.remote.drop_last()
        } else {
            v.remote
        },
        history: if v.free <= 0 && v.history.len() > 0 {
            v.history.drop_last()
        } else {
            v.history
        },
        free: if v.free > 0 {
            v.free - 1
        } else {
            0
        },
    }
}

/// The state after a blank remote editing line takes the front of the
/// remote zone: the slot comes from the free pool while one exists, else
/// the oldest history entry is recycled.
pub open spec fn ring_after_remote_insert(v: RingView) -> RingView {
    RingView {
        local: v.local,
        remote: seq![Seq::<u8>::empty()] + v.remote,
        history: if v.free <= 0 {
            v.history.drop_last()
        } else {
            v.history
        },
        free: if v.free > 0 {
            v.free - 1
        } else {
            0
        },
    }
}

/// The front local editing line replaced by `t`: the cumulative effect of
/// appending the characters of `t` one by one to a fresh front line.
pub open spec fn ring_with_local_front(v: RingView, t: Seq<u8>) -> RingView {
    RingView { local: v.local.update(0, t), ..v }
}

/// Ordering: opening a fresh local editing line for content `a`, then one
/// for `b`, then one for `c` leaves the local zone iterating newest first,
/// `c`, `b`, `a`, ahead of whatever was there before; reversing the front
/// of that iteration yields `a`, `b`, `c` again.
pub proof fn lemma_newest_first_ordering(v: RingView, a: Seq<u8>, b: Seq<u8>, c: Seq<u8>)
    ensures
        ({
            let v1 = ring_with_local_front(ring_after_local_insert(v), a);
            let v2 = ring_with_local_front(ring_after_local_insert(v1), b);
            let v3 = ring_with_local_front(ring_after_local_insert(v2), c);
            v3.local == seq![c, b, a] + v.local && v3.local.take(3).reverse() == seq![a, b, c]
        }),
{
    let v1 = ring_with_local_front(ring_after_local_insert(v), a);
    let v2 = ring_with_local_front(ring_after_local_insert(v1), b);
    let v3 = ring_with_local_front(ring_after_local_insert(v2), c);
    assert(v1.local =~= seq![a] + v.local);
    assert(v2.local =~= seq![b, a] + v.local);
    assert(v3.local =~= seq![c, b, a] + v.local);
    assert(v3.local.take(3).reverse() =~= seq![a, b, c]);
}

/// The textual history of a two-party conversation.
///
/// A `RingLine` stores `L` lines of at most `C` ASCII characters each,
/// partitioned by the region index engine into local editing, remote
/// editing, history, and free zones. Storage is fixed at construction:
/// lines are recycled in place, never reallocated.
#[derive(Debug)]
pub struct RingLine<const L: usize, const C: usize> {
    lines: Vec<Line<C>>,
    brick: Bricks<L>,
}

impl<const L: usize, const C: usize> View for RingLine<L, C> {
    type V = RingView;

    closed spec fn view(&self) -> RingView {
        RingView {
            local: Seq::new(
                self.brick@.local_end as nat,
                |i: int| self.lines@[self.brick@.idx[i] as int]@.text,
            ),
            remote: Seq::new(
                (self.brick@.remote_end - self.brick@.local_end) as nat,
                |i: int| self.lines@[self.brick@.idx[self.brick@.local_end + i] as int]@.text,
            ),
            history: Seq::new(
                (self.brick@.history_end - self.brick@.remote_end) as nat,
                |i: int| self.lines@[self.brick@.idx[self.brick@.remote_end + i] as int]@,
            ),
            free: self.brick@.cap() - self.brick@.history_end,
        }
    }
}

impl<const L: usize, const C: usize> RingLine<L, C> {
    /// The coordinator invariant: the engine invariant holds, there are
    /// exactly `L` well-formed lines, and every line referenced from an
    /// editing zone carries that zone's tag.
    pub closed spec fn wf(&self) -> bool {
        &&& C <= 254
        &&& self.brick.wf()
        &&& self.lines@.len() == L
        &&& forall|i: int| 0 <= i < L ==> (#[trigger] self.lines@[i]).wf()
        &&& forall|i: int|
            0 <= i < self.brick@.local_end ==> self.lines@[#[trigger] self.brick@.idx[i] as int]@.status
                == Source::Local
        &&& forall|i: int|
            self.brick@.local_end <= i < self.brick@.remote_end ==> self.lines@[#[trigger] self.brick@.idx[i] as int]@.status
                == Source::Remote
    }

    /// What the invariant guarantees about the visible state: the three
    /// zones and the free pool exactly share the `L` slots, no line exceeds
    /// the per-line capacity, every stored byte is printable non-control
    /// ASCII, and editing lines carry their zone's tag.
    pub proof fn lemma_wf(&self)
        requires
            self.wf(),
        ensures
            self@.local.len() + self@.remote.len() + self@.history.len() + self@.free == L,
            self@.free >= 0,
            C <= 254,
            forall|i: int|
                0 <= i < self@.local.len() ==> (#[trigger] self@.local[i]).len() <= C,
            forall|i: int|
                0 <= i < self@.remote.len() ==> (#[trigger] self@.remote[i]).len() <= C,
            forall|i: int|
                0 <= i < self@.history.len() ==> (#[trigger] self@.history[i]).text.len() <= C,
            forall|i: int, j: int|
                0 <= i < self@.local.len() && 0 <= j < self@.local[i].len() ==> is_acceptable(
                    #[trigger] self@.local[i][j],
                ),
            forall|i: int, j: int|
                0 <= i < self@.remote.len() && 0 <= j < self@.remote[i].len() ==> is_acceptable(
                    #[trigger] self@.remote[i][j],
                ),
            forall|i: int, j: int|
                0 <= i < self@.history.len() && 0 <= j < self@.history[i].text.len()
                    ==> is_acceptable(#[trigger] self@.history[i].text[j]),
    {
        assert forall|i: int| 0 <= i < self@.local.len() implies (
        #[trigger] self@.local[i]).len() <= C && (forall|j: int|
            0 <= j < self@.local[i].len() ==> is_acceptable(#[trigger] self@.local[i][j])) by {
            self.lines@[self.brick@.idx[i] as int].lemma_wf();
        }
        assert forall|i: int| 0 <= i < self@.remote.len() implies (
        #[trigger] self@.remote[i]).len() <= C && (forall|j: int|
            0 <= j < self@.remote[i].len() ==> is_acceptable(#[trigger] self@.remote[i][j])) by {
            self.lines@[self.brick@.idx[self.brick@.local_end + i] as int].lemma_wf();
        }
        assert forall|i: int| 0 <= i < self@.history.len() implies (
        #[trigger] self@.history[i]).text.len() <= C && (forall|j: int|
            0 <= j < self@.history[i].text.len() ==> is_acceptable(
                #[trigger] self@.history[i].text[j],
            )) by {
            self.lines@[self.brick@.idx[self.brick@.remote_end + i] as int].lemma_wf();
        }
    }

    /// Create a buffer with all `L` lines blank and free.
    ///
    /// A per-line capacity that cannot fit the 8-bit fill counter is a
    /// construction-time error, ruled out before any instance exists.
    pub fn new() -> (r: Self)
        requires
            C <= 254,
        ensures
            r.wf(),
            r@.local == Seq::<Seq<u8>>::empty(),
            r@.remote == Seq::<Seq<u8>>::empty(),
            r@.history == Seq::<LineContent>::empty(),
            r@.free == L,
    {
        let mut lines: Vec<Line<C>> = Vec::new();
        let mut i: usize = 0;
        while i < L
            invariant
                C <= 254,
                i <= L,
                lines@.len() == i,
                forall|k: int| 0 <= k < i ==> (#[trigger] lines@[k]).wf(),
            decreases L - i,
        {
            lines.push(Line::new());
            i = i + 1;
        }
        let r = RingLine { lines, brick: Bricks::new() };
        proof {
            assert(r@.local =~= Seq::<Seq<u8>>::empty());
            assert(r@.remote =~= Seq::<Seq<u8>>::empty());
            assert(r@.history =~= Seq::<LineContent>::empty());
        }
        r
    }

    /// Replacing the payload of the slot at the front of the local zone
    /// (and nothing else) updates `local[0]` in the view and keeps the
    /// invariant, because the index permutation references that slot
    /// nowhere else.
    proof fn lemma_push_front_local_view(pre: Self, post: Self, w: usize)
        requires
            pre.wf(),
            pre.brick@.local_end > 0,
            w == pre.brick@.idx[0],
            post.brick == pre.brick,
            post.lines@.len() == L,
            forall|j: int| 0 <= j < L && j != w as int ==> post.lines@[j] == pre.lines@[j],
            post.lines@[w as int].wf(),
            post.lines@[w as int]@.status == pre.lines@[w as int]@.status,
        ensures
            post.wf(),
            post@.local == pre@.local.update(0, post.lines@[w as int]@.text),
            post@.remote == pre@.remote,
            post@.history == pre@.history,
            post@.free == pre@.free,
    {
        let b = pre.brick@;
        assert forall|i: int| 0 <= i < L && i != 0 implies (#[trigger] b.idx[i]) != w by {}
        assert(post@.local =~= pre@.local.update(0, post.lines@[w as int]@.text));
        assert(post@.remote =~= pre@.remote);
        assert(post@.history =~= pre@.history);
    }

    /// Replacing the payload of the slot at the front of the remote zone
    /// (and nothing else) updates `remote[0]` in the view and keeps the
    /// invariant.
    proof fn lemma_push_front_remote_view(pre: Self, post: Self, w: usize)
        requires
            pre.wf(),
            pre.brick@.remote_end > pre.brick@.local_end,
            w == pre.brick@.idx[pre.brick@.local_end],
            post.brick == pre.brick,
            post.lines@.len() == L,
            forall|j: int| 0 <= j < L && j != w as int ==> post.lines@[j] == pre.lines@[j],
            post.lines@[w as int].wf(),
            post.lines@[w as int]@.status == pre.lines@[w as int]@.status,
        ensures
            post.wf(),
            post@.remote == pre@.remote.update(0, post.lines@[w as int]@.text),
            post@.local == pre@.local,
            post@.history == pre@.history,
            post@.free == pre@.free,
    {
        let b = pre.brick@;
        assert forall|i: int| 0 <= i < L && i != b.local_end implies (#[trigger] b.idx[i]) != w by {}
        assert(post@.remote =~= pre@.remote.update(0, post.lines@[w as int]@.text));
        assert(post@.local =~= pre@.local);
        assert(post@.history =~= pre@.history);
    }

    /// After the engine inserts a blank local entry and the coordinator
    /// clears and tags the reclaimed slot, the view gains an empty line at
    /// the front of the local zone and loses the slot as
    /// [`ring_after_local_insert`] describes, and the invariant holds
    /// again.
    proof fn lemma_local_insert_view(pre: Self, post: Self)
        requires
            pre.wf(),
            pre.brick@.local_end < L,
            post.brick@ == pre.brick@.after_insert_local(),
            post.brick.wf(),
            post.lines@.len() == L,
            forall|j: int|
                0 <= j < L && j != post.brick@.idx[0] as int ==> post.lines@[j] == pre.lines@[j],
            post.lines@[post.brick@.idx[0] as int].wf(),
            post.lines@[post.brick@.idx[0] as int]@.text == Seq::<u8>::empty(),
            post.lines@[post.brick@.idx[0] as int]@.status == Source::Local,
        ensures
            post.wf(),
            post@ == ring_after_local_insert(pre@),
    {
        let b = pre.brick@;
        let b2 = post.brick@;
        let w = b2.idx[0] as int;
        let end = vstd::math::min(b.history_end + 1, b.cap());
        assert(b2.idx == crate::rotate::rotated_right(b.idx, 0, end));
        assert forall|i: int| 0 <= i < L && i != 0 implies (#[trigger] b2.idx[i]) != b2.idx[0] by {}
        assert(post@.local =~= ring_after_local_insert(pre@).local);
        assert(post@.remote =~= ring_after_local_insert(pre@).remote);
        assert(post@.history =~= ring_after_local_insert(pre@).history);
        assert(post@.free == ring_after_local_insert(pre@).free);
        assert(post.wf());
    }

    /// The remote counterpart of [`Self::lemma_local_insert_view`].
    proof fn lemma_remote_insert_view(pre: Self, post: Self)
        requires
            pre.wf(),
            pre.brick@.remote_end < L,
            post.brick@ == pre.brick@.after_insert_remote(),
            post.brick.wf(),
            post.lines@.len() == L,
            forall|j: int|
                0 <= j < L && j != post.brick@.idx[post.brick@.local_end] as int
                    ==> post.lines@[j] == pre.lines@[j],
            post.lines@[post.brick@.idx[post.brick@.local_end] as int].wf(),
            post.lines@[post.brick@.idx[post.brick@.local_end] as int]@.text == Seq::<
                u8,
            >::empty(),
            post.lines@[post.brick@.idx[post.brick@.local_end] as int]@.status == Source::Remote,
        ensures
            post.wf(),
            post@ == ring_after_remote_insert(pre@),
    {
        let b = pre.brick@;
        let b2 = post.brick@;
        let le = b.local_end;
        let end = vstd::math::min(b.history_end + 1, b.cap());
        assert(b2.idx == crate::rotate::rotated_right(b.idx, le, end));
        assert forall|i: int| 0 <= i < L && i != le implies (#[trigger] b2.idx[i]) != b2.idx[le] by {}
        assert(post@.local =~= ring_after_remote_insert(pre@).local);
        assert(post@.remote =~= ring_after_remote_insert(pre@).remote);
        assert(post@.history =~= ring_after_remote_insert(pre@).history);
        assert(post@.free == ring_after_remote_insert(pre@).free);
        assert(post.wf());
    }

    /// The slot the next local character should go to: the front of the
    /// local zone if it has room, else a freshly recycled blank line. Fails
    /// only when the local zone already owns every slot.
    fn get_local_first_writeable(&mut self) -> (r: Option<usize>)
        requires
            old(self).wf(),
        ensures
            final(self).wf(),
            ({
                let pre = *old(self);
                let post = *final(self);
                if pre.brick@.local_end > 0 && pre.lines@[pre.brick@.idx[0] as int]@.text.len()
                    < C {
                    &&& r == Some(pre.brick@.idx[0])
                    &&& post == pre
                } else if pre.brick@.local_end == L {
                    &&& r is None
                    &&& post.brick@ == pre.brick@
                    &&& post.lines == pre.lines
                    &&& post@ == pre@
                } else {
                    &&& post@ == ring_after_local_insert(pre@)
                    &&& post.brick@.local_end > 0
                    &&& r == Some(post.brick@.idx[0])
                    &&& post.brick@.idx[0] < L
                    &&& post.lines@[post.brick@.idx[0] as int]@.text == Seq::<u8>::empty()
                }
            }),
    {
        match self.brick.local_editable_front() {
            Some(wr) => {
                let full = self.lines[wr].is_full();
                if !full {
                    proof {
                        self.lines@[wr as int].lemma_wf();
                    }
                    return Some(wr);
                }
            },
            None => {},
        }
        let ghost pre = *old(self);
        match self.brick.insert_local_editable_front() {
            Ok(w) => {
                lines::clear_at(&mut self.lines, w, Source::Local);
                proof {
                    Self::lemma_local_insert_view(pre, *self);
                }
                Some(w)
            },
            Err(()) => None,
        }
    }

    /// The remote counterpart of [`Self::get_local_first_writeable`]. Fails
    /// only when local and remote editing together own every slot.
    fn get_remote_first_writeable(&mut self) -> (r: Option<usize>)
        requires
            old(self).wf(),
        ensures
            final(self).wf(),
            ({
                let pre = *old(self);
                let post = *final(self);
                if pre.brick@.remote_end > pre.brick@.local_end && pre.lines@[pre.brick@.idx[pre.brick@.local_end] as int]@.text.len()
                    < C {
                    &&& r == Some(pre.brick@.idx[pre.brick@.local_end])
                    &&& post == pre
                } else if pre.brick@.remote_end == L {
                    &&& r is None
                    &&& post.brick@ == pre.brick@
                    &&& post.lines == pre.lines
                    &&& post@ == pre@
                } else {
                    &&& post@ == ring_after_remote_insert(pre@)
                    &&& post.brick@.remote_end > post.brick@.local_end
                    &&& r == Some(post.brick@.idx[post.brick@.local_end])
                    &&& post.brick@.idx[post.brick@.local_end] < L
                    &&& post.lines@[post.brick@.idx[post.brick@.local_end] as int]@.text == Seq::<
                        u8,
                    >::empty()
                }
            }),
    {
        match self.brick.remote_editable_front() {
            Some(wr) => {
                let full = self.lines[wr].is_full();
                if !full {
                    proof {
                        self.lines@[wr as int].lemma_wf();
                    }
                    return Some(wr);
                }
            },
            None => {},
        }
        let ghost pre = *old(self);
        match self.brick.insert_remote_editable_front() {
            Ok(w) => {
                lines::clear_at(&mut self.lines, w, Source::Remote);
                proof {
                    Self::lemma_remote_insert_view(pre, *self);
                }
                Some(w)
            },
            Err(()) => None,
        }
    }

    /// Append one character to the local editing region, recycling a line
    /// for it if the current front line is full or absent.
    ///
    /// Control characters such as `\n` are rejected with `InvalidChar`;
    /// `Full` is reported only when the local editing zone already owns
    /// every slot, since history and free lines are always recyclable.
    /// When a fresh line had to be recycled but the character itself is
    /// rejected, the blank line remains at the front of the zone.
    pub fn append_local_char(&mut self, c: u8) -> (r: Result<(), RingLineError>)
        requires
            old(self).wf(),
        ensures
            final(self).wf(),
            ({
                let pre = old(self)@;
                let post = final(self)@;
                if pre.local.len() > 0 && pre.local[0].len() < C {
                    if is_acceptable(c) {
                        r is Ok && post == (RingView {
                            local: pre.local.update(0, pre.local[0].push(c)),
                            ..pre
                        })
                    } else {
                        r == Result::<(), RingLineError>::Err(
                            RingLineError::Line(LineError::InvalidChar),
                        ) && post == pre
                    }
                } else if pre.local.len() == L {
                    r == Result::<(), RingLineError>::Err(RingLineError::Line(LineError::Full))
                        && post == pre
                } else {
                    let mid = ring_after_local_insert(pre);
                    if C == 0 {
                        r == Result::<(), RingLineError>::Err(
                            RingLineError::Line(LineError::Full),
                        ) && post == mid
                    } else if !is_acceptable(c) {
                        r == Result::<(), RingLineError>::Err(
                            RingLineError::Line(LineError::InvalidChar),
                        ) && post == mid
                    } else {
                        r is Ok && post == (RingView { local: mid.local.update(0, seq![c]), ..mid })
                    }
                }
            }),
    {
        let ghost pre = *old(self);
        let w_opt = self.get_local_first_writeable();
        match w_opt {
            None => Err(RingLineError::Line(LineError::Full)),
            Some(w) => {
                let ghost mid = *self;
                let res = lines::push_at(&mut self.lines, w, c);
                proof {
                    Self::lemma_push_front_local_view(mid, *self, w);
                    if pre@.local.len() > 0 && pre@.local[0].len() < C {
                        if is_acceptable(c) {
                            assert(self@ =~= RingView {
                                local: pre@.local.update(0, pre@.local[0].push(c)),
                                ..pre@
                            });
                        } else {
                            assert(self@.local =~= pre@.local);
                            assert(self@ =~= pre@);
                        }
                    } else {
                        let midv = ring_after_local_insert(pre@);
                        if C == 0 || !is_acceptable(c) {
                            assert(self@.local =~= midv.local);
                            assert(self@ =~= midv);
                        } else {
                            assert(Seq::<u8>::empty().push(c) =~= seq![c]);
                            assert(self@ =~= RingView {
                                local: midv.local.update(0, seq![c]),
                                ..midv
                            });
                        }
                    }
                }
                match res {
                    Ok(()) => Ok(()),
                    Err(e) => Err(RingLineError::Line(e)),
                }
            },
        }
    }

    /// Append one character to the remote editing region, recycling a line
    /// for it if the current front line is full or absent; the remote
    /// counterpart of [`Self::append_local_char`].
    pub fn append_remote_char(&mut self, c: u8) -> (r: Result<(), RingLineError>)
        requires
            old(self).wf(),
        ensures
            final(self).wf(),
            ({
                let pre = old(self)@;
                let post = final(self)@;
                if pre.remote.len() > 0 && pre.remote[0].len() < C {
                    if is_acceptable(c) {
                        r is Ok && post == (RingView {
                            remote: pre.remote.update(0, pre.remote[0].push(c)),
                            ..pre
                        })
                    } else {
                        r == Result::<(), RingLineError>::Err(
                            RingLineError::Line(LineError::InvalidChar),
                        ) && post == pre
                    }
                } else if pre.local.len() + pre.remote.len() == L {
                    r == Result::<(), RingLineError>::Err(RingLineError::Line(LineError::Full))
                        && post == pre
                } else {
                    let mid = ring_after_remote_insert(pre);
                    if C == 0 {
                        r == Result::<(), RingLineError>::Err(
                            RingLineError::Line(LineError::Full),
                        ) && post == mid
                    } else if !is_acceptable(c) {
                        r == Result::<(), RingLineError>::Err(
                            RingLineError::Line(LineError::InvalidChar),
                        ) && post == mid
                    } else {
                        r is Ok && post == (RingView { remote: mid.remote.update(0, seq![c]), ..mid })
                    }
                }
            }),
    {
        let ghost pre = *old(self);
        let w_opt = self.get_remote_first_writeable();
        match w_opt {
            None => Err(RingLineError::Line(LineError::Full)),
            Some(w) => {
                let ghost mid = *self;
                let res = lines::push_at(&mut self.lines, w, c);
                proof {
                    Self::lemma_push_front_remote_view(mid, *self, w);
                    if pre@.remote.len() > 0 && pre@.remote[0].len() < C {
                        if is_acceptable(c) {
                            assert(self@ =~= RingView {
                                remote: pre@.remote.update(0, pre@.remote[0].push(c)),
                                ..pre@
                            });
                        } else {
                            assert(self@.remote =~= pre@.remote);
                            assert(self@ =~= pre@);
                        }
                    } else {
                        let midv = ring_after_remote_insert(pre@);
                        if C == 0 || !is_acceptable(c) {
                            assert(self@.remote =~= midv.remote);
                            assert(self@ =~= midv);
                        } else {
                            assert(Seq::<u8>::empty().push(c) =~= seq![c]);
                            assert(self@ =~= RingView {
                                remote: midv.remote.update(0, seq![c]),
                                ..midv
                            });
                        }
                    }
                }
                match res {
                    Ok(()) => Ok(()),
                    Err(e) => Err(RingLineError::Line(e)),
                }
            },
        }
    }

    /// Dropping the newest local editing entry turns its slot over to the
    /// free pool and leaves the other zones' content untouched.
    proof fn lemma_pop_local_view(pre: Self, post: Self)
        requires
            pre.wf(),
            pre.brick@.local_end > 0,
            post.brick@ == pre.brick@.after_pop_local(),
            post.brick.wf(),
            post.lines == pre.lines,
        ensures
            post.wf(),
            post@ == (RingView { local: pre@.local.drop_first(), free: pre@.free + 1, ..pre@ }),
    {
        assert(post@.local =~= pre@.local.drop_first());
        assert(post@.remote =~= pre@.remote);
        assert(post@.history =~= pre@.history);
    }

    /// The remote counterpart of [`Self::lemma_pop_local_view`].
    proof fn lemma_pop_remote_view(pre: Self, post: Self)
        requires
            pre.wf(),
            pre.brick@.remote_end > pre.brick@.local_end,
            post.brick@ == pre.brick@.after_pop_remote(),
            post.brick.wf(),
            post.lines == pre.lines,
        ensures
            post.wf(),
            post@ == (RingView { remote: pre@.remote.drop_first(), free: pre@.free + 1, ..pre@ }),
    {
        assert(post@.local =~= pre@.local);
        assert(post@.remote =~= pre@.remote.drop_first());
        assert(post@.history =~= pre@.history);
    }

    /// Remove one character from the local editing region: take the last
    /// byte of the front line, or drop the front line entirely when it is
    /// already empty; with no local editing line, do nothing.
    pub fn pop_local_char(&mut self)
        requires
            old(self).wf(),
        ensures
            final(self).wf(),
            ({
                let pre = old(self)@;
                let post = final(self)@;
                if pre.local.len() == 0 {
                    post == pre
                } else if pre.local[0].len() == 0 {
                    post == (RingView { local: pre.local.drop_first(), free: pre.free + 1, ..pre })
                } else {
                    post == (RingView {
                        local: pre.local.update(0, pre.local[0].drop_last()),
                        ..pre
                    })
                }
            }),
    {
        let ghost pre = *old(self);
        match self.brick.local_editable_front() {
            None => {},
            Some(wr) => {
                let empty = self.lines[wr].is_empty();
                if empty {
                    self.brick.pop_local_editable_front();
                    proof {
                        Self::lemma_pop_local_view(pre, *self);
                    }
                } else {
                    lines::pop_at(&mut self.lines, wr);
                    proof {
                        Self::lemma_push_front_local_view(pre, *self, wr);
                        assert(self@ =~= RingView {
                            local: pre@.local.update(0, pre@.local[0].drop_last()),
                            ..pre@
                        });
                    }
                }
            },
        }
    }

    /// Remove one character from the remote editing region; the remote
    /// counterpart of [`Self::pop_local_char`].
    pub fn pop_remote_char(&mut self)
        requires
            old(self).wf(),
        ensures
            final(self).wf(),
            ({
                let pre = old(self)@;
                let post = final(self)@;
                if pre.remote.len() == 0 {
                    post == pre
                } else if pre.remote[0].len() == 0 {
                    post == (RingView { remote: pre.remote.drop_first(), free: pre.free + 1, ..pre })
                } else {
                    post == (RingView {
                        remote: pre.remote.update(0, pre.remote[0].drop_last()),
                        ..pre
                    })
                }
            }),
    {
        let ghost pre = *old(self);
        match self.brick.remote_editable_front() {
            None => {},
            Some(wr) => {
                let empty = self.lines[wr].is_empty();
                if empty {
                    self.brick.pop_remote_editable_front();
                    proof {
                        Self::lemma_pop_remote_view(pre, *self);
                    }
                } else {
                    lines::pop_at(&mut self.lines, wr);
                    proof {
                        Self::lemma_push_front_remote_view(pre, *self, wr);
                        assert(self@ =~= RingView {
                            remote: pre@.remote.update(0, pre@.remote[0].drop_last()),
                            ..pre@
                        });
                    }
                }
            },
        }
    }

    /// Promoting the local editing zone moves its lines, tags intact, to
    /// the front of history, ahead of the untouched remote editing zone.
    proof fn lemma_submit_local_view(pre: Self, post: Self)
        requires
            pre.wf(),
            post.brick@ == pre.brick@.after_submit_local(),
            post.brick.wf(),
            post.lines == pre.lines,
        ensures
            post.wf(),
            post@ == (RingView {
                local: Seq::<Seq<u8>>::empty(),
                remote: pre@.remote,
                history: pre@.local.map_values(
                    |t: Seq<u8>| LineContent { text: t, status: Source::Local },
                ) + pre@.history,
                free: pre@.free,
            }),
    {
        assert(post@.local =~= Seq::<Seq<u8>>::empty());
        assert(post@.remote =~= pre@.remote);
        assert(post@.history =~= pre@.local.map_values(
            |t: Seq<u8>| LineContent { text: t, status: Source::Local },
        ) + pre@.history);
    }

    /// Promoting the remote editing zone moves its lines, tags intact, to
    /// the front of history; only the boundary moves.
    proof fn lemma_submit_remote_view(pre: Self, post: Self)
        requires
            pre.wf(),
            post.brick@ == pre.brick@.after_submit_remote(),
            post.brick.wf(),
            post.lines == pre.lines,
        ensures
            post.wf(),
            post@ == (RingView {
                local: pre@.local,
                remote: Seq::<Seq<u8>>::empty(),
                history: pre@.remote.map_values(
                    |t: Seq<u8>| LineContent { text: t, status: Source::Remote },
                ) + pre@.history,
                free: pre@.free,
            }),
    {
        assert(post@.local =~= pre@.local);
        assert(post@.remote =~= Seq::<Seq<u8>>::empty());
        assert(post@.history =~= pre@.remote.map_values(
            |t: Seq<u8>| LineContent { text: t, status: Source::Remote },
        ) + pre@.history);
    }

    /// Submit the local editing region: its lines become the newest history
    /// entries, tagged local, ahead of the remote editing region, which is
    /// untouched in content and relative order.
    pub fn submit_local_editing(&mut self)
        requires
            old(self).wf(),
        ensures
            final(self).wf(),
            final(self)@ == (RingView {
                local: Seq::<Seq<u8>>::empty(),
                remote: old(self)@.remote,
                history: old(self)@.local.map_values(
                    |t: Seq<u8>| LineContent { text: t, status: Source::Local },
                ) + old(self)@.history,
                free: old(self)@.free,
            }),
    {
        let ghost pre = *old(self);
        self.brick.submit_local_editable();
        proof {
            Self::lemma_submit_local_view(pre, *self);
        }
    }

    /// Submit the remote editing region: its lines become the newest
    /// history entries, tagged remote. Submitting an empty region changes
    /// nothing.
    pub fn submit_remote_editing(&mut self)
        requires
            old(self).wf(),
        ensures
            final(self).wf(),
            final(self)@ == (RingView {
                local: old(self)@.local,
                remote: Seq::<Seq<u8>>::empty(),
                history: old(self)@.remote.map_values(
                    |t: Seq<u8>| LineContent { text: t, status: Source::Remote },
                ) + old(self)@.history,
                free: old(self)@.free,
            }),
    {
        let ghost pre = *old(self);
        self.brick.submit_remote_editable();
        proof {
            Self::lemma_submit_remote_view(pre, *self);
        }
    }

    /// The submitted lines, newest first, each carrying the tag of the
    /// party that submitted it; a caller that wants oldest-first display
    /// order reverses the sequence.
    pub fn iter_history(&self) -> (r: Vec<&Line<C>>)
        requires
            self.wf(),
        ensures
            r@.len() == self@.history.len(),
            forall|i: int| 0 <= i < r@.len() ==> (#[trigger] r@[i])@ == self@.history[i],
    {
        let idxs = self.brick.iter_history();
        let mut r: Vec<&Line<C>> = Vec::new();
        let mut i: usize = 0;
        while i < idxs.len()
            invariant
                self.wf(),
                idxs@ == self.brick@.idx.subrange(
                    self.brick@.remote_end,
                    self.brick@.history_end,
                ),
                i <= idxs@.len(),
                r@.len() == i,
                forall|k: int| 0 <= k < i ==> (#[trigger] r@[k])@ == self@.history[k],
            decreases idxs@.len() - i,
        {
            let w = idxs[i];
            proof {
                assert(idxs@[i as int] == self.brick@.idx[self.brick@.remote_end + i]);
            }
            r.push(&self.lines[w]);
            i = i + 1;
        }
        r
    }

    /// The lines the local end is editing, newest first, all tagged local.
    pub fn iter_local_editing(&self) -> (r: Vec<&Line<C>>)
        requires
            self.wf(),
        ensures
            r@.len() == self@.local.len(),
            forall|i: int|
                0 <= i < r@.len() ==> (#[trigger] r@[i])@ == (LineContent {
                    text: self@.local[i],
                    status: Source::Local,
                }),
    {
        let idxs = self.brick.iter_local_editable();
        let mut r: Vec<&Line<C>> = Vec::new();
        let mut i: usize = 0;
        while i < idxs.len()
            invariant
                self.wf(),
                idxs@ == self.brick@.idx.subrange(0, self.brick@.local_end),
                i <= idxs@.len(),
                r@.len() == i,
                forall|k: int|
                    0 <= k < i ==> (#[trigger] r@[k])@ == (LineContent {
                        text: self@.local[k],
                        status: Source::Local,
                    }),
            decreases idxs@.len() - i,
        {
            let w = idxs[i];
            proof {
                assert(idxs@[i as int] == self.brick@.idx[i as int]);
            }
            r.push(&self.lines[w]);
            i = i + 1;
        }
        r
    }

    /// The lines the remote end is editing, newest first, all tagged
    /// remote.
    pub fn iter_remote_editing(&self) -> (r: Vec<&Line<C>>)
        requires
            self.wf(),
        ensures
            r@.len() == self@.remote.len(),
            forall|i: int|
                0 <= i < r@.len() ==> (#[trigger] r@[i])@ == (LineContent {
                    text: self@.remote[i],
                    status: Source::Remote,
                }),
    {
        let idxs = self.brick.iter_remote_editable();
        let mut r: Vec<&Line<C>> = Vec::new();
        let mut i: usize = 0;
        while i < idxs.len()
            invariant
                self.wf(),
                idxs@ == self.brick@.idx.subrange(self.brick@.local_end, self.brick@.remote_end),
                i <= idxs@.len(),
                r@.len() == i,
                forall|k: int|
                    0 <= k < i ==> (#[trigger] r@[k])@ == (LineContent {
                        text: self@.remote[k],
                        status: Source::Remote,
                    }),
            decreases idxs@.len() - i,
        {
            let w = idxs[i];
            proof {
                assert(idxs@[i as int] == self.brick@.idx[self.brick@.local_end + i]);
            }
            r.push(&self.lines[w]);
            i = i + 1;
        }
        r
    }
}

} // verus!
