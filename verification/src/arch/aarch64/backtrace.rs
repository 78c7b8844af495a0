//! Walks along the frames of the stack.
//!
//! A frame holds the address of the frame before it, and where its function
//! returns to.
use vstd::prelude::*;

verus! {

/// The most frames of a walk.
pub const MAX_DEPTH: usize = 32;

/// A walk along the frames.
#[derive(Clone, Copy, PartialEq, Eq, Structural, Debug)]
pub struct Backtrace {
    /// The frame to look at, or zero.
    pub fp: u64,
    /// Frames that were left behind.
    pub depth: usize,
}

impl Backtrace {
    /// A walk from a frame.
    pub fn new(fp: u64) -> (r: Backtrace)
        ensures
            r == (Backtrace { fp, depth: 0 }),
    {
        Backtrace { fp, depth: 0 }
    }

    /// There is a frame to look at.
    pub open spec fn goes_on(self) -> bool {
        self.fp != 0 && self.depth < MAX_DEPTH && self.fp % 8 == 0
    }

    /// Whether there is a frame to look at: one that is aligned, and not too deep.
    pub fn has_frame(&self) -> (r: bool)
        ensures
            r == self.goes_on(),
    {
        self.fp != 0 && self.depth < MAX_DEPTH && self.fp % 8 == 0
    }

    /// The walk after a frame that holds `saved_fp` and `saved_lr`. Frames lie
    /// higher and higher; one that does not ends the walk.
    pub open spec fn after(self, saved_fp: u64, saved_lr: u64) -> Backtrace {
        if saved_lr == 0 || saved_fp <= self.fp {
            Backtrace { fp: 0, ..self }
        } else {
            Backtrace { fp: saved_fp, depth: (self.depth + 1) as usize }
        }
    }

    /// Takes a frame: the line to print about it, where there is one, as its
    /// number and the address it returns to.
    pub fn step(&mut self, saved_fp: u64, saved_lr: u64) -> (r: Option<(usize, u64)>)
        requires
            old(self).goes_on(),
        ensures
            *final(self) == old(self).after(saved_fp, saved_lr),
            r == (if saved_lr == 0 {
                None
            } else {
                Some((old(self).depth, saved_lr))
            }),
    {
        if saved_lr == 0 {
            self.fp = 0;
            return None;
        }
        let line: (usize, u64) = (self.depth, saved_lr);
        if saved_fp <= self.fp {
            self.fp = 0;
        } else {
            self.fp = saved_fp;
            self.depth = self.depth + 1;
        }
        Some(line)
    }

    /// Whether no frame was left behind.
    pub fn no_frames(&self) -> (r: bool)
        ensures
            r == (self.depth == 0),
    {
        self.depth == 0
    }
}

/// The walk after frames that hold what `frames` says, until it ends.
pub open spec fn walked(b: Backtrace, frames: Seq<(u64, u64)>) -> Backtrace
    decreases frames.len(),
{
    if frames.len() == 0 || !b.goes_on() {
        b
    } else {
        walked(b.after(frames[0].0, frames[0].1), frames.drop_first())
    }
}

/// However the stack looks, a walk ends: it never goes back to a frame, and looks
/// at no more than the most frames.
pub proof fn law_walk_ends(b: Backtrace, frames: Seq<(u64, u64)>)
    requires
        b.depth <= MAX_DEPTH,
    ensures
        walked(b, frames).depth <= MAX_DEPTH,
        walked(b, frames).fp == 0 || walked(b, frames).fp >= b.fp,
        frames.len() >= MAX_DEPTH - b.depth ==> !walked(b, frames).goes_on(),
    decreases frames.len(),
{
    if frames.len() != 0 && b.goes_on() {
        let next = b.after(frames[0].0, frames[0].1);
        law_walk_ends(next, frames.drop_first());
        if next.fp == 0 {
            assert(walked(next, frames.drop_first()) == next);
        }
    }
}

/// A stack whose frames lie higher and higher, at multiples of eight, each of which holds the
/// address of the next and a place to return to, is walked frame by frame: after `k` frames,
/// of the first 32, the walk is at frame `k` and has counted the frames before it.
pub proof fn law_frames_are_followed(at: Seq<u64>, lr: Seq<u64>, k: int)
    requires
        0 <= k < at.len(),
        k <= 32,
        lr.len() == at.len(),
        forall|j: int| 0 <= j < at.len() ==> (#[trigger] at[j]) != 0 && at[j] % 8 == 0,
        forall|j: int| 0 <= j < at.len() ==> #[trigger] lr[j] != 0,
        forall|i: int, j: int| 0 <= i < j < at.len() ==> #[trigger] at[i] < #[trigger] at[j],
    ensures
        ({
            let frames = Seq::new(k as nat, |j: int| (at[j + 1], lr[j]));
            walked(Backtrace { fp: at[0], depth: 0 }, frames) == (Backtrace {
                fp: at[k],
                depth: k as usize,
            })
        }),
{
    let frames = Seq::new(k as nat, |j: int| (at[j + 1], lr[j]));
    lemma_followed(at, lr, 0, k);
    assert(frames =~= Seq::new((k - 0) as nat, |j: int| (at[0 + j + 1], lr[0 + j])));
}

/// The same from frame `i` on.
proof fn lemma_followed(at: Seq<u64>, lr: Seq<u64>, i: int, k: int)
    requires
        0 <= i <= k < at.len(),
        k <= 32,
        lr.len() == at.len(),
        forall|j: int| 0 <= j < at.len() ==> (#[trigger] at[j]) != 0 && at[j] % 8 == 0,
        forall|j: int| 0 <= j < at.len() ==> #[trigger] lr[j] != 0,
        forall|i: int, j: int| 0 <= i < j < at.len() ==> #[trigger] at[i] < #[trigger] at[j],
    ensures
        walked(
            Backtrace { fp: at[i], depth: i as usize },
            Seq::new((k - i) as nat, |j: int| (at[i + j + 1], lr[i + j])),
        ) == (Backtrace { fp: at[k], depth: k as usize }),
    decreases k - i,
{
    if i < k {
        let frames = Seq::new((k - i) as nat, |j: int| (at[i + j + 1], lr[i + j]));
        let b = Backtrace { fp: at[i], depth: i as usize };
        assert(at[i] < at[i + 1]);
        assert(lr[i] != 0);
        assert(b.after(frames[0].0, frames[0].1) == (Backtrace {
            fp: at[i + 1],
            depth: (i + 1) as usize,
        }));
        lemma_followed(at, lr, i + 1, k);
        assert(frames.drop_first() =~= Seq::new(
            (k - (i + 1)) as nat,
            |j: int| (at[i + 1 + j + 1], lr[i + 1 + j]),
        ));
    }
}

/// A walk ends at a frame that returns nowhere, and at one that does not lie below the next;
/// it looks at no frame that is not a multiple of eight, and at none after 32.
pub proof fn law_walk_stops(b: Backtrace, saved_fp: u64, saved_lr: u64)
    ensures
        saved_lr == 0 || saved_fp <= b.fp ==> !b.after(saved_fp, saved_lr).goes_on(),
        b.fp % 8 != 0 || b.fp == 0 || b.depth >= 32 ==> !b.goes_on(),
        b.fp % 8 == 0 && b.fp != 0 && b.depth < 32 ==> b.goes_on(),
{
}

} // verus!
