//! Host-side decisions of GPU scoring: checking what the device read back,
//! falling back to the CPU scorer, and planning decode batches.
use vstd::prelude::*;
use crate::analysis::{summarize_analysis, AnalysisProgress, AnalysisResult, VideoInfo};
use crate::sharpness::{calculate_sharpness, lemma_responses_in_range, Raster};
use crate::threshold::MAX_SCORES;
use crate::stats::{population_variance_milli, responses_in_range, variance_milli};

verus! {

/// Frames decoded together, then scored one after another on the device.
pub const BATCH_SIZE: usize = 50;

/// Whether a device read-back can stand for the raster's responses: one
/// response per interior sample, each within what 8-bit samples produce.
pub open spec fn readback_usable(raster: &Raster, readback: Seq<i32>) -> bool {
    &&& readback.len() == raster.responses().len()
    &&& responses_in_range(readback)
}

/// Score from the device when its read-back is usable, else the CPU score.
pub open spec fn score_after_readback(raster: &Raster, readback: Option<Seq<i32>>) -> int {
    match readback {
        Some(v) => if readback_usable(raster, v) {
            variance_milli(v)
        } else {
            raster.sharpness()
        },
        None => raster.sharpness(),
    }
}

/// Number of interior samples of a raster.
fn interior_count(raster: &Raster) -> (r: usize)
    requires
        raster.scorable(),
    ensures
        r == raster.responses().len(),
{
    if raster.width < 3 || raster.height < 3 {
        0
    } else {
        let iw = (raster.width - 2) as usize;
        let ih = (raster.height - 2) as usize;
        proof {
            assert(iw * ih <= raster.width * raster.height) by (nonlinear_arith)
                requires
                    iw == raster.width - 2,
                    ih == raster.height - 2,
                    raster.width >= 3,
                    raster.height >= 3,
            ;
        }
        iw * ih
    }
}

/// Whether every value lies within what 8-bit samples produce.
fn all_in_range(values: &Vec<i32>) -> (r: bool)
    ensures
        r == responses_in_range(values@),
{
    let mut i: usize = 0;
    while i < values.len()
        invariant
            0 <= i <= values@.len(),
            forall|k: int| 0 <= k < i ==> -1020 <= #[trigger] values@[k] <= 1020,
        decreases values@.len() - i,
    {
        if values[i] < -1020 || values[i] > 1020 {
            return false;
        }
        i = i + 1;
    }
    true
}

/// Sharpness of a raster from the Laplacian responses the device read back,
/// or the CPU scorer's value when there is no read-back (the device or the
/// buffer mapping failed) or it does not fit the raster.
pub fn score_with_fallback(raster: &Raster, readback: &Option<Vec<i32>>) -> (r: u32)
    requires
        raster.scorable(),
    ensures
        r == score_after_readback(
            raster,
            match readback {
                Some(v) => Some(v@),
                None => None,
            },
        ),
{
    match readback {
        Some(values) => {
            let expected = interior_count(raster);
            if values.len() == expected && all_in_range(values) {
                proof {
                    assert(values@.len() <= raster.pixels@.len()) by (nonlinear_arith)
                        requires
                            values@.len() == raster.responses().len(),
                            raster.wf(),
                            raster.width >= 3 || raster.responses().len() == 0,
                            raster.height >= 3 || raster.responses().len() == 0,
                            raster.has_interior() ==> raster.responses().len() == (raster.width
                                - 2) * (raster.height - 2),
                    ;
                }
                population_variance_milli(values)
            } else {
                calculate_sharpness(raster)
            }
        },
        None => calculate_sharpness(raster),
    }
}

/// When the device read back the raster's own responses, the GPU path scores
/// the raster exactly as the CPU scorer does.
pub proof fn lemma_device_agrees_with_cpu(raster: &Raster)
    requires
        raster.wf(),
    ensures
        score_after_readback(raster, Some(raster.responses())) == raster.sharpness(),
{
    lemma_responses_in_range(raster);
}

/// A raster narrower or shorter than 3 samples scores 0 on the GPU path too,
/// whatever the device read back.
pub proof fn lemma_small_raster_scores_zero_on_any_readback(
    raster: &Raster,
    readback: Option<Seq<i32>>,
)
    requires
        !raster.has_interior(),
    ensures
        score_after_readback(raster, readback) == 0,
{
    if let Some(v) = readback {
        if readback_usable(raster, v) {
            assert(v.len() == 0);
        }
    }
}

/// With no read-back (a failed buffer mapping), the GPU path gives the CPU
/// scorer's value.
pub proof fn lemma_failed_readback_matches_cpu(raster: &Raster)
    ensures
        score_after_readback(raster, None) == raster.sharpness(),
{
}

/// Score of one frame in the CPU strategy: the raster's sharpness, or 0 when
/// the frame could not be extracted.
pub fn frame_score_or_zero(extracted: &Option<Raster>) -> (r: u32)
    requires
        extracted matches Some(raster) ==> raster.scorable(),
    ensures
        r == match extracted {
            Some(raster) => raster.sharpness(),
            None => 0,
        },
{
    match extracted {
        Some(raster) => calculate_sharpness(raster),
        None => 0,
    }
}

/// The `b`-th batch of frame numbers: positions `b * BATCH_SIZE` up to the
/// next multiple of `BATCH_SIZE`, or the end.
pub open spec fn batch_of(frames: Seq<usize>, b: int) -> Seq<usize> {
    let lo = b * BATCH_SIZE;
    let hi = if lo + BATCH_SIZE < frames.len() {
        lo + BATCH_SIZE
    } else {
        frames.len() as int
    };
    frames.subrange(lo, hi)
}

/// The values at positions `lo` up to `hi`.
fn copy_range(v: &Vec<usize>, lo: usize, hi: usize) -> (r: Vec<usize>)
    requires
        lo <= hi <= v@.len(),
    ensures
        r@ == v@.subrange(lo as int, hi as int),
{
    let mut out: Vec<usize> = Vec::new();
    let mut i: usize = lo;
    while i < hi
        invariant
            lo <= i <= hi <= v@.len(),
            out@ == v@.subrange(lo as int, i as int),
        decreases hi - i,
    {
        out.push(v[i]);
        i = i + 1;
        proof {
            assert(out@ =~= v@.subrange(lo as int, i as int));
        }
    }
    out
}

/// Splits the frame numbers, in order, into batches of `BATCH_SIZE` (the last
/// one may be shorter).
pub fn plan_batches(frame_numbers: &Vec<usize>) -> (r: Vec<Vec<usize>>)
    ensures
        r@.len() == (frame_numbers@.len() + BATCH_SIZE - 1) / (BATCH_SIZE as int),
        forall|b: int| 0 <= b < r@.len() ==> (#[trigger] r@[b])@ == batch_of(frame_numbers@, b),
{
    let n = frame_numbers.len();
    let count = n / BATCH_SIZE + if n % BATCH_SIZE != 0 {
        1
    } else {
        0
    };
    proof {
        assert(count == (n + BATCH_SIZE - 1) / (BATCH_SIZE as int));
        assert(count * BATCH_SIZE < n + BATCH_SIZE);
    }
    let mut batches: Vec<Vec<usize>> = Vec::new();
    let mut b: usize = 0;
    while b < count
        invariant
            n == frame_numbers@.len(),
            count == (n + BATCH_SIZE - 1) / (BATCH_SIZE as int),
            count * BATCH_SIZE < n + BATCH_SIZE,
            0 <= b <= count,
            batches@.len() == b,
            forall|k: int| 0 <= k < b ==> (#[trigger] batches@[k])@ == batch_of(frame_numbers@, k),
        decreases count - b,
    {
        let lo = b * BATCH_SIZE;
        let hi = if n - lo > BATCH_SIZE {
            lo + BATCH_SIZE
        } else {
            n
        };
        batches.push(copy_range(frame_numbers, lo, hi));
        b = b + 1;
    }
    batches
}

/// Number of batches for `n` frames.
pub open spec fn batch_count(n: int) -> int {
    (n + BATCH_SIZE - 1) / (BATCH_SIZE as int)
}

/// Frames in the first `b` batches of `n` frames.
pub open spec fn scored_count(b: int, n: int) -> int {
    if b * BATCH_SIZE < n {
        b * BATCH_SIZE
    } else {
        n
    }
}

/// Scores of frames whose rasters and device read-backs are given in order.
pub open spec fn batch_scores(rasters: Seq<Raster>, readbacks: Seq<Option<Vec<i32>>>) -> Seq<u32> {
    Seq::new(
        rasters.len(),
        |k: int|
            score_after_readback(
                &rasters[k],
                match readbacks[k] {
                    Some(v) => Some(v@),
                    None => None,
                },
            ) as u32,
    )
}

/// State of the GPU strategy: frames are decoded batch by batch, in sampling
/// order, and each decoded frame is scored on the device, one at a time.
pub struct GpuRun {
    pub frame_numbers: Vec<usize>,
    pub batches_done: usize,
    pub scored_frames: Vec<usize>,
    pub scores: Vec<u32>,
}

impl GpuRun {
    /// The frames of the batches done so far are scored, in sampling order.
    pub open spec fn wf(&self) -> bool {
        &&& self.scored_frames@.len() == self.scores@.len()
        &&& self.batches_done <= batch_count(self.frame_numbers@.len() as int)
        &&& self.scored_frames@ == self.frame_numbers@.take(
            scored_count(self.batches_done as int, self.frame_numbers@.len() as int),
        )
    }

    /// Every batch has been decoded and scored.
    pub open spec fn is_complete(&self) -> bool {
        self.batches_done == batch_count(self.frame_numbers@.len() as int)
    }

    /// A run over the sampled frame numbers, with nothing decoded yet.
    pub fn new(frame_numbers: Vec<usize>) -> (r: GpuRun)
        ensures
            r.wf(),
            r.frame_numbers@ == frame_numbers@,
            r.batches_done == 0,
            r.scored_frames@.len() == 0,
    {
        let run = GpuRun { frame_numbers, batches_done: 0, scored_frames: Vec::new(), scores: Vec::new() };
        assert(run.frame_numbers@.take(0) =~= run.scored_frames@);
        run
    }

    /// Frame numbers of the next batch to decode, or `None` when every batch
    /// is done.
    pub fn next_batch(&self) -> (r: Option<Vec<usize>>)
        requires
            self.wf(),
        ensures
            self.batches_done < batch_count(self.frame_numbers@.len() as int) ==> (r matches Some(
                b,
            ) && b@ == batch_of(self.frame_numbers@, self.batches_done as int)),
            self.batches_done >= batch_count(self.frame_numbers@.len() as int) ==> r is None,
    {
        let n = self.frame_numbers.len();
        let lo_limit = n / BATCH_SIZE + if n % BATCH_SIZE != 0 {
            1
        } else {
            0
        };
        if self.batches_done >= lo_limit {
            return None;
        }
        let lo = self.batches_done * BATCH_SIZE;
        let hi = if n - lo > BATCH_SIZE {
            lo + BATCH_SIZE
        } else {
            n
        };
        Some(copy_range(&self.frame_numbers, lo, hi))
    }

    /// Records the decoded frames of the next batch: the `k`-th raster is the
    /// batch's `k`-th frame, scored from its device read-back with the CPU
    /// scorer as fallback. Returns the progress after the batch.
    pub fn record_batch(&mut self, rasters: &Vec<Raster>, readbacks: &Vec<Option<Vec<i32>>>) -> (r:
        AnalysisProgress)
        requires
            old(self).wf(),
            old(self).batches_done < batch_count(old(self).frame_numbers@.len() as int),
            rasters@.len() == readbacks@.len(),
            rasters@.len() == batch_of(old(self).frame_numbers@, old(self).batches_done as int).len(),
            forall|k: int| 0 <= k < rasters@.len() ==> (#[trigger] rasters@[k]).scorable(),
        ensures
            final(self).wf(),
            final(self).frame_numbers == old(self).frame_numbers,
            final(self).batches_done == old(self).batches_done + 1,
            final(self).scored_frames@ == old(self).scored_frames@ + batch_of(
                old(self).frame_numbers@,
                old(self).batches_done as int,
            ),
            final(self).scores@ == old(self).scores@ + batch_scores(rasters@, readbacks@),
            r.current_frame == final(self).scores@.len(),
            r.total_frames == old(self).frame_numbers@.len(),
    {
        let ghost old_frames = self.scored_frames@;
        let ghost old_scores = self.scores@;
        let n = self.frame_numbers.len();
        let lo = self.batches_done * BATCH_SIZE;
        let ghost batch = batch_of(self.frame_numbers@, self.batches_done as int);
        let mut k: usize = 0;
        while k < rasters.len()
            invariant
                rasters@.len() == readbacks@.len(),
                rasters@.len() == batch.len(),
                forall|j: int| 0 <= j < rasters@.len() ==> (#[trigger] rasters@[j]).scorable(),
                self.frame_numbers == old(self).frame_numbers,
                self.batches_done == old(self).batches_done,
                n == self.frame_numbers@.len(),
                lo == self.batches_done * BATCH_SIZE,
                lo < n,
                batch == batch_of(self.frame_numbers@, self.batches_done as int),
                0 <= k <= rasters@.len(),
                self.scored_frames@ == old_frames + batch.take(k as int),
                self.scores@ == old_scores + batch_scores(rasters@, readbacks@).take(k as int),
            decreases rasters@.len() - k,
        {
            let score = score_with_fallback(&rasters[k], &readbacks[k]);
            self.scores.push(score);
            self.scored_frames.push(self.frame_numbers[lo + k]);
            k = k + 1;
            proof {
                assert(self.scored_frames@ =~= old_frames + batch.take(k as int));
                assert(self.scores@ =~= old_scores + batch_scores(rasters@, readbacks@).take(
                    k as int,
                ));
            }
        }
        proof {
            assert(batch_scores(rasters@, readbacks@).take(rasters@.len() as int) =~= batch_scores(
                rasters@,
                readbacks@,
            ));
            assert(batch.take(rasters@.len() as int) =~= batch);
            let b = self.batches_done as int;
            assert(self.frame_numbers@.take(scored_count(b + 1, n as int)) =~= self.frame_numbers@.take(
                scored_count(b, n as int),
            ) + batch);
        }
        self.batches_done = self.batches_done + 1;
        AnalysisProgress { current_frame: self.scores.len(), total_frames: n }
    }

    /// The analysis of a complete run: one frame per sampled number, in
    /// sampling order, with its score and no export path.
    pub fn finish(self, video_info: VideoInfo) -> (r: AnalysisResult)
        requires
            self.wf(),
            self.is_complete(),
            self.frame_numbers@.len() <= MAX_SCORES,
        ensures
            r.video_info == video_info,
            r.frames@.len() == self.frame_numbers@.len(),
            forall|i: int|
                0 <= i < self.frame_numbers@.len() ==> (#[trigger] r.frames@[i]).frame_number
                    == self.frame_numbers@[i] && r.frames@[i].sharpness == self.scores@[i]
                    && r.frames@[i].path is None,
            crate::analysis::frame_scores(r.frames@) == self.scores@,
            self.scores@.len() > 0 ==> crate::threshold::is_statistical_cutoff(
                self.scores@,
                r.suggested_threshold as int,
            ),
            r.suggested_frame_count == crate::analysis::count_reaching(
                self.scores@,
                r.suggested_threshold as int,
            ),
    {
        proof {
            let n = self.frame_numbers@.len() as int;
            assert(scored_count(self.batches_done as int, n) == n);
            assert(self.frame_numbers@.take(n) =~= self.frame_numbers@);
        }
        summarize_analysis(video_info, &self.scored_frames, &self.scores)
    }
}

} // verus!
