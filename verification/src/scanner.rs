//! The scan: one pass over the frames in order, which keeps a frame or marks
//! it as a duplicate of the last frame that was kept.
//!
//! The scanner decides; it touches no file. Its caller reads the frames,
//! hands them over one by one and deletes what the scanner calls a duplicate.

use crate::raster::{decode_png, png_decoding, raster_of, Raster};
use crate::similarity::{are_images_similar, similar};
use crate::threshold::{Share, Threshold};
use image::DynamicImage;
use vstd::prelude::*;

verus! {

/// What the scan says of one frame.
#[derive(Clone, Copy, Debug, PartialEq, Eq, Structural)]
pub enum Verdict {
    /// The first frame of the scan: kept without any comparison.
    First,
    /// Different enough from the last frame that was kept: kept as well.
    Unique,
    /// A duplicate of the last frame that was kept: to be deleted.
    Duplicate,
}

impl Verdict {
    /// Whether the frame stays.
    pub fn retains(&self) -> (kept: bool)
        ensures
            kept == !(*self is Duplicate),
    {
        match self {
            Verdict::Duplicate => false,
            _ => true,
        }
    }
}

/// A frame that could not be decoded, with what the decoder said of it.
#[derive(Debug)]
pub struct DecodeError {
    pub reason: String,
}

/// The state of a scan as contracts speak of it: the threshold, and the
/// baseline, which is the last frame that was kept, if there is one yet.
pub struct ScanState {
    pub threshold: Share,
    pub baseline: Option<Raster>,
}

impl ScanState {
    /// The state before the first frame: no baseline.
    pub open spec fn start(threshold: Share) -> ScanState {
        ScanState { threshold, baseline: None }
    }

    /// The verdict on `frame` in this state. The first frame is kept as it
    /// is; every later one is a duplicate exactly if it is similar to the
    /// baseline.
    pub open spec fn verdict_on(self, frame: Raster) -> Verdict {
        match self.baseline {
            None => Verdict::First,
            Some(baseline) => if similar(baseline, frame, self.threshold) {
                Verdict::Duplicate
            } else {
                Verdict::Unique
            },
        }
    }

    /// The state after `frame`: a frame that is kept becomes the baseline, a
    /// duplicate leaves the baseline as it was.
    pub open spec fn after(self, frame: Raster) -> ScanState {
        if self.verdict_on(frame) is Duplicate {
            self
        } else {
            ScanState { threshold: self.threshold, baseline: Some(frame) }
        }
    }

    /// The verdicts of a scan that starts in this state, one for each of
    /// `frames`.
    pub open spec fn verdicts(self, frames: Seq<Raster>) -> Seq<Verdict>
        decreases frames.len(),
    {
        if frames.len() == 0 {
            Seq::empty()
        } else {
            seq![self.verdict_on(frames[0])] + self.after(frames[0]).verdicts(frames.drop_first())
        }
    }

    /// The frames that a scan from this state keeps, in their order.
    pub open spec fn survivors(self, frames: Seq<Raster>) -> Seq<Raster>
        decreases frames.len(),
    {
        if frames.len() == 0 {
            Seq::empty()
        } else {
            let rest = self.after(frames[0]).survivors(frames.drop_first());
            if self.verdict_on(frames[0]) is Duplicate {
                rest
            } else {
                seq![frames[0]] + rest
            }
        }
    }

    /// The state in which a scan from this state ends.
    pub open spec fn after_all(self, frames: Seq<Raster>) -> ScanState
        decreases frames.len(),
    {
        if frames.len() == 0 {
            self
        } else {
            self.after(frames[0]).after_all(frames.drop_first())
        }
    }
}

/// A scan in progress.
pub struct Scanner {
    threshold: Threshold,
    baseline: Option<DynamicImage>,
}

impl View for Scanner {
    type V = ScanState;

    closed spec fn view(&self) -> ScanState {
        ScanState {
            threshold: self.threshold@,
            baseline: match self.baseline {
                Some(image) => Some(raster_of(image)),
                None => None,
            },
        }
    }
}

impl Scanner {
    /// A scan that has seen no frame yet.
    pub fn new(threshold: Threshold) -> (scanner: Scanner)
        ensures
            scanner@ == ScanState::start(threshold@),
    {
        Scanner { threshold, baseline: None }
    }

    /// The threshold of the scan.
    pub fn threshold(&self) -> (threshold: Threshold)
        ensures
            threshold@ == self@.threshold,
    {
        self.threshold
    }

    /// Whether a frame has been kept yet.
    pub fn has_baseline(&self) -> (any: bool)
        ensures
            any == (self@.baseline is Some),
    {
        self.baseline.is_some()
    }

    /// Takes the next frame of the sequence and says what becomes of it. A
    /// frame that is kept is the baseline from then on.
    pub fn observe(&mut self, frame: DynamicImage) -> (verdict: Verdict)
        ensures
            verdict == old(self)@.verdict_on(raster_of(frame)),
            final(self)@ == old(self)@.after(raster_of(frame)),
    {
        let verdict = match &self.baseline {
            None => Verdict::First,
            Some(baseline) => if are_images_similar(baseline, &frame, &self.threshold) {
                Verdict::Duplicate
            } else {
                Verdict::Unique
            },
        };
        if verdict.retains() {
            self.baseline = Some(frame);
        }
        verdict
    }

    /// Decodes the bytes of the next frame's PNG file and takes the frame as
    /// [`Scanner::observe`] does. Bytes that do not decode are an error and
    /// leave the scan as it was.
    pub fn observe_encoded(&mut self, bytes: &[u8]) -> (outcome: Result<Verdict, DecodeError>)
        ensures
            match png_decoding(bytes@) {
                Some(frame) => outcome == Ok::<Verdict, DecodeError>(old(self)@.verdict_on(frame))
                    && final(self)@ == old(self)@.after(frame),
                None => outcome is Err && final(self)@ == old(self)@,
            },
    {
        match decode_png(bytes) {
            Ok(frame) => Ok(self.observe(frame)),
            Err(error) => Err(DecodeError { reason: error.to_string() }),
        }
    }
}

/// A scan gives one verdict for each frame, and calls a frame the first
/// exactly where it has no baseline yet: a fresh scan does so for the frame
/// that it starts with and for no other.
pub proof fn lemma_first_frame_is_kept(state: ScanState, frames: Seq<Raster>)
    ensures
        state.verdicts(frames).len() == frames.len(),
        forall|i: int|
            0 <= i < frames.len() ==> (#[trigger] state.verdicts(frames)[i] is First <==> i == 0
                && state.baseline is None),
    decreases frames.len(),
{
    if frames.len() > 0 {
        let next = state.after(frames[0]);
        let rest = frames.drop_first();
        lemma_first_frame_is_kept(next, rest);
        assert forall|i: int| 0 <= i < frames.len() implies (#[trigger] state.verdicts(
            frames,
        )[i] is First <==> i == 0 && state.baseline is None) by {
            if i > 0 {
                assert(state.verdicts(frames)[i] == next.verdicts(rest)[i - 1]);
            }
        }
    }
}

/// Of the frames that a scan keeps, no two neighbours are duplicates of each
/// other, nor is the first of them a duplicate of the baseline that the scan
/// began with.
pub proof fn lemma_neighbouring_survivors_differ(state: ScanState, frames: Seq<Raster>)
    ensures
        state.baseline matches Some(baseline) ==> (state.survivors(frames).len() > 0 ==> !similar(
            baseline,
            state.survivors(frames)[0],
            state.threshold,
        )),
        forall|i: int|
            0 <= i < state.survivors(frames).len() - 1 ==> !similar(
                #[trigger] state.survivors(frames)[i],
                state.survivors(frames)[i + 1],
                state.threshold,
            ),
    decreases frames.len(),
{
    if frames.len() > 0 {
        let head = frames[0];
        let next = state.after(head);
        let rest = frames.drop_first();
        lemma_neighbouring_survivors_differ(next, rest);
        if !(state.verdict_on(head) is Duplicate) {
            let kept = state.survivors(frames);
            assert(kept == seq![head] + next.survivors(rest));
            assert forall|i: int| 0 <= i < kept.len() - 1 implies !similar(
                #[trigger] kept[i],
                kept[i + 1],
                state.threshold,
            ) by {
                if i > 0 {
                    assert(kept[i] == next.survivors(rest)[i - 1]);
                    assert(kept[i + 1] == next.survivors(rest)[i]);
                } else {
                    assert(kept[1] == next.survivors(rest)[0]);
                }
            }
        }
    }
}

/// A second scan over the frames that a scan has kept deletes nothing: it
/// keeps every one of them, and ends with the same baseline.
pub proof fn lemma_scan_idempotent(state: ScanState, frames: Seq<Raster>)
    ensures
        state.survivors(state.survivors(frames)) == state.survivors(frames),
        state.verdicts(state.survivors(frames)).len() == state.survivors(frames).len(),
        forall|i: int|
            0 <= i < state.survivors(frames).len() ==> !(#[trigger] state.verdicts(
                state.survivors(frames),
            )[i] is Duplicate),
        state.after_all(state.survivors(frames)) == state.after_all(frames),
    decreases frames.len(),
{
    if frames.len() > 0 {
        let head = frames[0];
        let next = state.after(head);
        lemma_scan_idempotent(next, frames.drop_first());
        if !(state.verdict_on(head) is Duplicate) {
            let rest = next.survivors(frames.drop_first());
            let kept = seq![head] + rest;
            assert(kept[0] == head);
            assert(kept.drop_first() =~= rest);
            assert(state.survivors(kept) == seq![head] + next.survivors(rest));
            assert(state.verdicts(kept) == seq![state.verdict_on(head)] + next.verdicts(rest));
        }
    }
}

} // verus!
