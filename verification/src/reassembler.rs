//! The accumulator that collects the fragments of one message as they arrive.

use vstd::prelude::*;
use crate::fragment::{carries_more, frame_views, has_more, in_order, reassembly};
use crate::frame::{Frame, FrameView};

verus! {

/// What a reassembler holds: the index that it waits for, the fragments taken
/// so far, and whether the message is complete.
pub struct ReassemblerView {
    pub expected_next: nat,
    pub pending: Seq<FrameView>,
    pub complete: bool,
}

/// A reassembler that has seen nothing.
pub open spec fn fresh() -> ReassemblerView {
    ReassemblerView { expected_next: 0, pending: Seq::empty(), complete: false }
}

/// One push: the state after it, and what it hands out.
///
/// A complete reassembler ignores the frame, and so does one that waits for
/// another index. Otherwise the frame is taken; if it does not carry `MORE`
/// the message is complete and all its fragments are handed out.
pub open spec fn pushed(s: ReassemblerView, f: FrameView) -> (
    ReassemblerView,
    Option<Seq<FrameView>>,
) {
    if s.complete || f.frag_seq != s.expected_next {
        (s, None)
    } else if has_more(f.flags) {
        (
            ReassemblerView {
                expected_next: s.expected_next + 1,
                pending: s.pending.push(f),
                complete: false,
            },
            None,
        )
    } else {
        (
            ReassemblerView {
                expected_next: s.expected_next + 1,
                pending: Seq::empty(),
                complete: true,
            },
            Some(s.pending.push(f)),
        )
    }
}

/// The state after pushing the frames one after the other.
pub open spec fn fed(s: ReassemblerView, frames: Seq<FrameView>) -> ReassemblerView
    decreases frames.len(),
{
    if frames.len() == 0 {
        s
    } else {
        pushed(fed(s, frames.drop_last()), frames.last()).0
    }
}

/// What the push of `frames[k]` hands out when the frames before it were
/// pushed first.
pub open spec fn answer(s: ReassemblerView, frames: Seq<FrameView>, k: int) -> Option<
    Seq<FrameView>,
> {
    pushed(fed(s, frames.take(k)), frames[k]).1
}

/// The views of the fragments handed out, if any.
pub open spec fn opt_frame_views(o: Option<Vec<Frame>>) -> Option<Seq<FrameView>> {
    match o {
        Some(v) => Some(frame_views(v@)),
        None => None,
    }
}

/// Collects the fragments of one message. The index that it waits for is
/// held in 64 bits, so that it can pass the last index a frame can carry.
#[derive(Debug)]
pub struct Reassembler {
    expected_next: u64,
    buffer: Vec<Frame>,
    complete: bool,
}

impl View for Reassembler {
    type V = ReassemblerView;

    closed spec fn view(&self) -> ReassemblerView {
        ReassemblerView {
            expected_next: self.expected_next as nat,
            pending: frame_views(self.buffer@),
            complete: self.complete,
        }
    }
}

impl Reassembler {
    /// A reassembler that has seen nothing.
    pub fn new() -> (r: Reassembler)
        ensures
            r@ == fresh(),
    {
        let r = Reassembler { expected_next: 0, buffer: Vec::new(), complete: false };
        assert(frame_views(r.buffer@) =~= Seq::<FrameView>::empty());
        r
    }

    /// Takes the next frame: see [`pushed`].
    pub fn push(&mut self, frame: Frame) -> (r: Option<Vec<Frame>>)
        ensures
            final(self)@ == pushed(old(self)@, frame@).0,
            opt_frame_views(r) == pushed(old(self)@, frame@).1,
    {
        if self.complete {
            return None;
        }
        if frame.frag_seq as u64 != self.expected_next {
            return None;
        }
        let is_last = !carries_more(&frame.flags);
        let ghost before = frame_views(self.buffer@);
        self.buffer.push(frame);
        assert(frame_views(self.buffer@) =~= before.push(frame@));
        self.expected_next = self.expected_next + 1;
        if is_last {
            self.complete = true;
            let mut done: Vec<Frame> = Vec::new();
            core::mem::swap(&mut self.buffer, &mut done);
            assert(frame_views(self.buffer@) =~= Seq::<FrameView>::empty());
            return Some(done);
        }
        None
    }
}

impl Default for Reassembler {
    fn default() -> (r: Reassembler)
        ensures
            r@ == fresh(),
    {
        Reassembler::new()
    }
}

/// While the frame that a fresh reassembler waits for stays away, it stays
/// fresh.
proof fn lemma_fed_none_expected(frames: Seq<FrameView>)
    requires
        forall|i: int| 0 <= i < frames.len() ==> (#[trigger] frames[i]).frag_seq != 0,
    ensures
        fed(fresh(), frames) == fresh(),
    decreases frames.len(),
{
    if frames.len() > 0 {
        lemma_fed_none_expected(frames.drop_last());
    }
}

/// Fragments in order, pushed in order, are all taken.
proof fn lemma_fed_in_order(frames: Seq<FrameView>, k: int)
    requires
        in_order(frames),
        0 <= k < frames.len(),
    ensures
        fed(fresh(), frames.take(k)) == (ReassemblerView {
            expected_next: k as nat,
            pending: frames.take(k),
            complete: false,
        }),
    decreases k,
{
    if k > 0 {
        lemma_fed_in_order(frames, k - 1);
        assert(frames.take(k).drop_last() =~= frames.take(k - 1));
        assert(frames.take(k).last() == frames[k - 1]);
        assert(frames.take(k - 1).push(frames[k - 1]) =~= frames.take(k));
    } else {
        assert(frames.take(0) =~= Seq::<FrameView>::empty());
    }
}

/// Fragments in order, pushed in order to a fresh reassembler: every push but
/// the last hands out nothing, and the last hands out all of them.
pub proof fn lemma_in_order_completes(frames: Seq<FrameView>)
    requires
        in_order(frames),
    ensures
        forall|k: int| 0 <= k < frames.len() - 1 ==> answer(fresh(), frames, k) is None,
        answer(fresh(), frames, frames.len() - 1) == Some(frames),
        fed(fresh(), frames).complete,
{
    assert forall|k: int| 0 <= k < frames.len() - 1 implies answer(fresh(), frames, k) is None by {
        lemma_fed_in_order(frames, k);
    }
    let n = frames.len() as int;
    lemma_fed_in_order(frames, n - 1);
    assert(frames.take(n - 1).push(frames[n - 1]) =~= frames);
    assert(frames.drop_last() =~= frames.take(n - 1));
}

/// Two or more fragments in order, pushed in reverse order to a fresh
/// reassembler: every push hands out nothing.
pub proof fn lemma_reverse_order_yields_nothing(frames: Seq<FrameView>)
    requires
        in_order(frames),
        frames.len() >= 2,
    ensures
        forall|k: int| 0 <= k < frames.len() ==> answer(fresh(), frames.reverse(), k) is None,
{
    let rev = frames.reverse();
    let n = frames.len() as int;
    assert forall|k: int| 0 <= k < n implies answer(fresh(), rev, k) is None by {
        let before = rev.take(k);
        assert forall|i: int| 0 <= i < before.len() implies (#[trigger] before[i]).frag_seq
            != 0 by {
            assert(before[i] == frames[n - 1 - i]);
        }
        lemma_fed_none_expected(before);
        assert(rev[k] == frames[n - 1 - k]);
    }
}

/// Frames that all carry `MORE`, pushed in any order to a reassembler that is
/// not complete: no push hands out anything and the message never completes.
/// A set of fragments without its last one is such a sequence.
pub proof fn lemma_without_last_never_completes(s: ReassemblerView, frames: Seq<FrameView>)
    requires
        !s.complete,
        forall|i: int| 0 <= i < frames.len() ==> has_more((#[trigger] frames[i]).flags),
    ensures
        !fed(s, frames).complete,
        forall|k: int| 0 <= k < frames.len() ==> answer(s, frames, k) is None,
    decreases frames.len(),
{
    if frames.len() > 0 {
        let init = frames.drop_last();
        lemma_without_last_never_completes(s, init);
        assert forall|k: int| 0 <= k < frames.len() implies answer(s, frames, k) is None by {
            if k < frames.len() - 1 {
                assert(frames.take(k) =~= init.take(k));
                assert(answer(s, init, k) is None);
            } else {
                assert(frames.take(k) =~= init);
            }
        }
    }
}

/// A sequence in which a frame before the last lacks `MORE` has no
/// reassembly.
pub proof fn lemma_missing_more_rejected(frames: Seq<FrameView>, i: int)
    requires
        0 <= i < frames.len() - 1,
        !has_more(frames[i].flags),
    ensures
        reassembly(frames) is None,
{
}

} // verus!
