use vstd::prelude::*;

verus! {

/// Target number of envelope buckets per channel. The envelope holds between
/// `WF_RES` and `2 * WF_RES` buckets once a file is long enough, however long
/// the file.
pub const WF_RES: usize = 2048;

/// What to do with the envelope after a frame (one sample per channel) has
/// been folded into the open bucket.
#[derive(Clone, Copy, Debug, PartialEq, Eq)]
pub enum FrameStep {
    /// Keep folding frames into the open bucket.
    Accumulate,
    /// Close the open bucket: append it to every channel's envelope.
    Push,
    /// Close the open bucket, then merge every channel's buckets pairwise.
    PushAndHalve,
}

/// Bookkeeping of an envelope streamed with adaptive downsampling: each
/// bucket covers `frames_per_bucket` frames; when the envelope reaches
/// `2 * WF_RES` buckets they are merged pairwise and buckets grow twice as
/// long, so memory stays bounded whatever the file's length.
#[derive(Clone, Copy, Debug, PartialEq, Eq)]
pub struct EnvelopeSchedule {
    /// Frames folded into the open (not yet appended) bucket.
    pub frames_in_cur: u64,
    /// Frames each closed bucket covers.
    pub frames_per_bucket: u64,
    /// Closed buckets per channel.
    pub buckets: usize,
    /// Frames seen so far.
    pub total_frames: u64,
}

/// The bookkeeping after one more frame, and what the envelope must do: the
/// open bucket fills up by one frame; when it is full it is closed, and when
/// that makes `2 * WF_RES` closed buckets they are merged pairwise into
/// `WF_RES` buckets twice as long.
pub open spec fn spec_end_frame(s: EnvelopeSchedule) -> (EnvelopeSchedule, FrameStep) {
    let total = (s.total_frames + 1) as u64;
    if s.frames_in_cur + 1 < s.frames_per_bucket {
        (
            EnvelopeSchedule { frames_in_cur: (s.frames_in_cur + 1) as u64, total_frames: total, ..s },
            FrameStep::Accumulate,
        )
    } else if s.buckets + 1 < 2 * WF_RES {
        (
            EnvelopeSchedule {
                frames_in_cur: 0,
                buckets: (s.buckets + 1) as usize,
                total_frames: total,
                ..s
            },
            FrameStep::Push,
        )
    } else {
        (
            EnvelopeSchedule {
                frames_in_cur: 0,
                frames_per_bucket: (2 * s.frames_per_bucket) as u64,
                buckets: WF_RES,
                total_frames: total,
            },
            FrameStep::PushAndHalve,
        )
    }
}

impl EnvelopeSchedule {
    /// The bookkeeping is consistent: fewer than `2 * WF_RES` closed buckets,
    /// the open bucket not yet full, and every frame seen is in a closed
    /// bucket or the open one.
    pub open spec fn wf(&self) -> bool {
        &&& 1 <= self.frames_per_bucket
        &&& self.frames_in_cur < self.frames_per_bucket
        &&& self.buckets < 2 * WF_RES
        &&& self.total_frames == self.buckets * self.frames_per_bucket + self.frames_in_cur
    }

    /// An empty envelope: one frame per bucket, nothing seen.
    pub fn new() -> (s: Self)
        ensures
            s.wf(),
            s == (EnvelopeSchedule {
                frames_in_cur: 0,
                frames_per_bucket: 1,
                buckets: 0,
                total_frames: 0,
            }),
    {
        EnvelopeSchedule { frames_in_cur: 0, frames_per_bucket: 1, buckets: 0, total_frames: 0 }
    }

    /// Account for one more frame, and say what the envelope must do.
    pub fn end_frame(&mut self) -> (step: FrameStep)
        requires
            old(self).wf(),
            old(self).total_frames < u64::MAX,
        ensures
            (*final(self), step) == spec_end_frame(*old(self)),
            final(self).wf(),
            final(self).total_frames == old(self).total_frames + 1,
            old(self).frames_in_cur + 1 < old(self).frames_per_bucket ==> {
                &&& step == FrameStep::Accumulate
                &&& final(self).frames_in_cur == old(self).frames_in_cur + 1
                &&& final(self).frames_per_bucket == old(self).frames_per_bucket
                &&& final(self).buckets == old(self).buckets
            },
            old(self).frames_in_cur + 1 == old(self).frames_per_bucket && old(self).buckets + 1 < 2
                * WF_RES ==> {
                &&& step == FrameStep::Push
                &&& final(self).frames_in_cur == 0
                &&& final(self).frames_per_bucket == old(self).frames_per_bucket
                &&& final(self).buckets == old(self).buckets + 1
            },
            old(self).frames_in_cur + 1 == old(self).frames_per_bucket && old(self).buckets + 1 >= 2
                * WF_RES ==> {
                &&& step == FrameStep::PushAndHalve
                &&& final(self).frames_in_cur == 0
                &&& final(self).frames_per_bucket == 2 * old(self).frames_per_bucket
                &&& final(self).buckets == WF_RES
            },
    {
        self.frames_in_cur = self.frames_in_cur + 1;
        self.total_frames = self.total_frames + 1;
        if self.frames_in_cur == self.frames_per_bucket {
            self.frames_in_cur = 0;
            self.buckets = self.buckets + 1;
            if self.buckets >= 2 * WF_RES {
                proof {
                    assert(self.buckets == 2 * WF_RES);
                    assert(self.total_frames == 2 * WF_RES * self.frames_per_bucket) by (
                    nonlinear_arith)
                        requires
                            self.total_frames == (self.buckets - 1) * self.frames_per_bucket
                                + self.frames_per_bucket,
                            self.buckets == 2 * WF_RES,
                    ;
                }
                self.buckets = (self.buckets + 1) / 2;
                self.frames_per_bucket = self.frames_per_bucket * 2;
                assert(self.total_frames == self.buckets * self.frames_per_bucket + self.frames_in_cur)
                    by (nonlinear_arith)
                    requires
                        self.buckets == WF_RES,
                        self.total_frames == 2 * WF_RES * (self.frames_per_bucket / 2),
                        self.frames_per_bucket % 2 == 0,
                        self.frames_in_cur == 0,
                ;
                FrameStep::PushAndHalve
            } else {
                proof {
                    assert(self.total_frames == self.buckets * self.frames_per_bucket) by (
                    nonlinear_arith)
                        requires
                            self.total_frames == (self.buckets - 1) * self.frames_per_bucket
                                + self.frames_per_bucket,
                    ;
                }
                FrameStep::Push
            }
        } else {
            FrameStep::Accumulate
        }
    }

    /// At the end of the stream: whether a partial open bucket must still be
    /// appended (it holds at least one frame).
    pub fn has_partial(&self) -> (partial: bool)
        ensures
            partial == (self.frames_in_cur > 0),
    {
        self.frames_in_cur > 0
    }
}

/// However long the stream, the finished envelope (closed buckets plus a
/// partial one) has at most `2 * WF_RES` buckets per channel.
pub proof fn lemma_envelope_bounded(s: EnvelopeSchedule)
    requires
        s.wf(),
    ensures
        s.buckets + (if s.frames_in_cur > 0 { 1int } else { 0 }) <= 2 * WF_RES,
{
}

/// Merge adjacent entries of `lane` pairwise with `merge`, halving the count
/// (an odd last entry is kept as it is).
pub fn halve<T: Copy, F: Fn(T, T) -> T>(lane: &mut Vec<T>, merge: F)
    requires
        forall|a: T, b: T| merge.requires((a, b)),
    ensures
        final(lane)@.len() == (old(lane)@.len() + 1) / 2,
        forall|i: int|
            0 <= i < final(lane)@.len() ==> if 2 * i + 1 < old(lane)@.len() {
                merge.ensures((old(lane)@[2 * i], old(lane)@[2 * i + 1]), #[trigger] final(lane)@[i])
            } else {
                final(lane)@[i] == old(lane)@[2 * i]
            },
{
    let mut out: Vec<T> = Vec::new();
    let n = lane.len();
    let mut i: usize = 0;
    while i < n
        invariant
            n == lane@.len(),
            i <= n,
            i % 2 == 0 || i == n,
            out@.len() == (i + 1) / 2,
            forall|a: T, b: T| merge.requires((a, b)),
            forall|k: int|
                0 <= k < out@.len() ==> if 2 * k + 1 < n {
                    merge.ensures((lane@[2 * k], lane@[2 * k + 1]), #[trigger] out@[k])
                } else {
                    out@[k] == lane@[2 * k]
                },
        decreases n - i,
    {
        if i + 1 < n {
            let m = merge(lane[i], lane[i + 1]);
            out.push(m);
            i = i + 2;
        } else {
            out.push(lane[i]);
            i = n;
        }
    }
    *lane = out;
}

/// `after` is `before` with adjacent entries merged pairwise by `merge` (an
/// odd last entry kept as it is), as `halve` leaves it.
pub open spec fn halved<T, F: Fn(T, T) -> T>(before: Seq<T>, after: Seq<T>, merge: F) -> bool {
    &&& after.len() == (before.len() + 1) / 2
    &&& forall|i: int|
        0 <= i < after.len() ==> if 2 * i + 1 < before.len() {
            merge.ensures((before[2 * i], before[2 * i + 1]), #[trigger] after[i])
        } else {
            after[i] == before[2 * i]
        }
}

/// A streamed per-channel envelope: one lane of closed buckets per channel,
/// kept by the bookkeeping of `schedule`.
pub struct Envelope<T> {
    pub lanes: Vec<Vec<T>>,
    pub schedule: EnvelopeSchedule,
}

/// Append `cur[c]` to lane `c` of `lanes`, for every channel `c`.
fn push_each<T: Copy>(lanes: Vec<Vec<T>>, cur: &[T]) -> (out: Vec<Vec<T>>)
    requires
        cur@.len() == lanes@.len(),
    ensures
        out@.len() == lanes@.len(),
        forall|c: int| 0 <= c < out@.len() ==> #[trigger] out@[c]@ == lanes@[c]@.push(cur@[c]),
{
    let ghost before = lanes@;
    let n = lanes.len();
    let mut rest = lanes;
    let mut out: Vec<Vec<T>> = Vec::new();
    let mut c: usize = 0;
    while c < n
        invariant
            n == before.len(),
            cur@.len() == n,
            c <= n,
            rest@ == before.skip(c as int),
            out@.len() == c,
            forall|j: int| 0 <= j < c ==> #[trigger] out@[j]@ == before[j]@.push(cur@[j]),
        decreases n - c,
    {
        assert(rest@[0] == before[c as int]);
        let mut lane = rest.remove(0);
        lane.push(cur[c]);
        out.push(lane);
        assert(rest@ =~= before.skip(c + 1));
        c = c + 1;
    }
    out
}

/// Merge the buckets of every lane pairwise with `merge`.
fn halve_each<T: Copy, F: Fn(T, T) -> T + Copy>(lanes: Vec<Vec<T>>, merge: F) -> (out: Vec<Vec<T>>)
    requires
        forall|a: T, b: T| merge.requires((a, b)),
    ensures
        out@.len() == lanes@.len(),
        forall|c: int| 0 <= c < out@.len() ==> halved(lanes@[c]@, #[trigger] out@[c]@, merge),
{
    let ghost before = lanes@;
    let n = lanes.len();
    let mut rest = lanes;
    let mut out: Vec<Vec<T>> = Vec::new();
    let mut c: usize = 0;
    while c < n
        invariant
            n == before.len(),
            c <= n,
            rest@ == before.skip(c as int),
            out@.len() == c,
            forall|a: T, b: T| merge.requires((a, b)),
            forall|j: int| 0 <= j < c ==> halved(before[j]@, #[trigger] out@[j]@, merge),
        decreases n - c,
    {
        assert(rest@[0] == before[c as int]);
        let mut lane = rest.remove(0);
        halve(&mut lane, merge);
        out.push(lane);
        assert(rest@ =~= before.skip(c + 1));
        c = c + 1;
    }
    out
}

impl<T: Copy> Envelope<T> {
    /// The lanes match the bookkeeping: consistent bookkeeping, and every
    /// lane holds exactly the closed buckets.
    pub open spec fn wf(&self) -> bool {
        &&& self.schedule.wf()
        &&& forall|c: int| 0 <= c < self.lanes@.len() ==> #[trigger] self.lanes@[c]@.len() == self.schedule.buckets
    }

    /// An empty envelope of `channels` lanes.
    pub fn new(channels: usize) -> (e: Self)
        ensures
            e.wf(),
            e.lanes@.len() == channels,
            forall|c: int| 0 <= c < channels ==> #[trigger] e.lanes@[c]@.len() == 0,
            e.schedule == (EnvelopeSchedule {
                frames_in_cur: 0,
                frames_per_bucket: 1,
                buckets: 0,
                total_frames: 0,
            }),
    {
        let mut lanes: Vec<Vec<T>> = Vec::new();
        let mut c: usize = 0;
        while c < channels
            invariant
                c <= channels,
                lanes@.len() == c,
                forall|j: int| 0 <= j < c ==> #[trigger] lanes@[j]@.len() == 0,
            decreases channels - c,
        {
            lanes.push(Vec::new());
            c = c + 1;
        }
        Envelope { lanes, schedule: EnvelopeSchedule::new() }
    }

    /// Account for one more frame, whose open bucket per channel is `cur`:
    /// when the bookkeeping closes the bucket, append `cur[c]` to lane `c`,
    /// and when it halves, merge every lane pairwise with `merge`. Says what
    /// happened, so the caller knows to start fresh open buckets.
    pub fn end_frame<F: Fn(T, T) -> T + Copy>(&mut self, cur: &[T], merge: F) -> (step: FrameStep)
        requires
            old(self).wf(),
            old(self).schedule.total_frames < u64::MAX,
            cur@.len() == old(self).lanes@.len(),
            forall|a: T, b: T| merge.requires((a, b)),
        ensures
            final(self).wf(),
            (final(self).schedule, step) == spec_end_frame(old(self).schedule),
            final(self).lanes@.len() == old(self).lanes@.len(),
            step == FrameStep::Accumulate ==> final(self).lanes@ == old(self).lanes@,
            step == FrameStep::Push ==> forall|c: int|
                0 <= c < final(self).lanes@.len() ==> #[trigger] final(self).lanes@[c]@ == old(
                    self,
                ).lanes@[c]@.push(cur@[c]),
            step == FrameStep::PushAndHalve ==> forall|c: int|
                0 <= c < final(self).lanes@.len() ==> halved(
                    old(self).lanes@[c]@.push(cur@[c]),
                    #[trigger] final(self).lanes@[c]@,
                    merge,
                ),
    {
        let step = self.schedule.end_frame();
        match step {
            FrameStep::Accumulate => {},
            FrameStep::Push => {
                let mut lanes: Vec<Vec<T>> = Vec::new();
                std::mem::swap(&mut lanes, &mut self.lanes);
                self.lanes = push_each(lanes, cur);
            },
            FrameStep::PushAndHalve => {
                let mut lanes: Vec<Vec<T>> = Vec::new();
                std::mem::swap(&mut lanes, &mut self.lanes);
                let ghost before = lanes@;
                let pushed = push_each(lanes, cur);
                let ghost mid = pushed@;
                self.lanes = halve_each(pushed, merge);
                assert forall|c: int| 0 <= c < self.lanes@.len() implies halved(
                    before[c]@.push(cur@[c]),
                    #[trigger] self.lanes@[c]@,
                    merge,
                ) by {
                    assert(mid[c]@ == before[c]@.push(cur@[c]));
                }
                assert forall|c: int| 0 <= c < self.lanes@.len() implies #[trigger] self.lanes@[c]@.len()
                    == self.schedule.buckets by {
                    assert(mid[c]@ == before[c]@.push(cur@[c]));
                    assert(halved(mid[c]@, self.lanes@[c]@, merge));
                }
            },
        }
        step
    }

    /// The finished envelope, at the end of the stream: the closed buckets
    /// and, when frames are left in the open bucket `cur`, that bucket too;
    /// none when the stream held no frame at all. Every lane then has at
    /// most `2 * WF_RES` buckets.
    pub fn finish(self, cur: &[T]) -> (lanes: Option<Vec<Vec<T>>>)
        requires
            self.wf(),
            cur@.len() == self.lanes@.len(),
        ensures
            lanes is None <==> self.schedule.total_frames == 0,
            lanes matches Some(l) ==> {
                &&& l@.len() == self.lanes@.len()
                &&& forall|c: int|
                    0 <= c < l@.len() ==> #[trigger] l@[c]@ == if self.schedule.frames_in_cur > 0 {
                        self.lanes@[c]@.push(cur@[c])
                    } else {
                        self.lanes@[c]@
                    }
                &&& forall|c: int| 0 <= c < l@.len() ==> #[trigger] l@[c]@.len() <= 2 * WF_RES
            },
    {
        if self.schedule.total_frames == 0 {
            return None;
        }
        if self.schedule.has_partial() {
            Some(push_each(self.lanes, cur))
        } else {
            Some(self.lanes)
        }
    }
}

} // verus!
