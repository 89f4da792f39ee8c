//! Analysis results, frame sampling and export selection.
use vstd::prelude::*;
use vstd::relations::{sorted_by, total_ordering};
use vstd::seq_lib::lemma_sorted_unique;
use crate::threshold::{
    calculate_auto_threshold, greedy_selection, is_statistical_cutoff, select_frames_smart,
    MAX_SCORES,
};

verus! {

broadcast use vstd::seq_lib::group_to_multiset_ensures;

/// Ranking order on frame indices: higher score first, and among equal
/// scores the earlier index first.
pub open spec fn ranked_before(scores: Seq<u32>) -> spec_fn(usize, usize) -> bool {
    |a: usize, b: usize|
        scores[a as int] > scores[b as int] || (scores[a as int] == scores[b as int] && a <= b)
}

/// The indices ranked by score, highest first, ties in index order.
pub open spec fn ranked(indices: Seq<usize>, scores: Seq<u32>) -> Seq<usize> {
    indices.sort_by(ranked_before(scores))
}

/// The indices ranked by score and cut to at most `max` of them.
pub open spec fn capped(indices: Seq<usize>, scores: Seq<u32>, max: Option<usize>) -> Seq<usize> {
    match max {
        None => indices,
        Some(m) => if m < indices.len() {
            ranked(indices, scores).take(m as int)
        } else {
            ranked(indices, scores)
        },
    }
}

pub proof fn lemma_ranked_before_total(scores: Seq<u32>)
    ensures
        total_ordering(ranked_before(scores)),
{
}

/// Orders frame indices by score, highest first; equal scores keep index order.
pub fn rank_by_score(indices: &mut Vec<usize>, scores: &Vec<u32>)
    requires
        forall|k: int| 0 <= k < old(indices)@.len() ==> (#[trigger] old(indices)@[k]) < scores@.len(),
    ensures
        final(indices)@ == ranked(old(indices)@, scores@),
{
    let ghost leq = ranked_before(scores@);
    let n = indices.len();
    let mut i: usize = 0;
    while i < n
        invariant
            leq == ranked_before(scores@),
            indices@.len() == n,
            n == old(indices)@.len(),
            indices@.to_multiset() == old(indices)@.to_multiset(),
            forall|k: int| 0 <= k < n ==> (#[trigger] indices@[k]) < scores@.len(),
            0 <= i <= n,
            forall|a: int, b: int| 0 <= a < b < i ==> leq(indices@[a], indices@[b]),
            forall|a: int, b: int| 0 <= a < i <= b < n ==> leq(indices@[a], indices@[b]),
        decreases n - i,
    {
        let mut best: usize = i;
        let mut j: usize = i + 1;
        while j < n
            invariant
                leq == ranked_before(scores@),
                indices@.len() == n,
                forall|k: int| 0 <= k < n ==> (#[trigger] indices@[k]) < scores@.len(),
                i < n,
                i <= best < n,
                i < j <= n,
                forall|b: int| i <= b < j ==> leq(indices@[best as int], indices@[b]),
            decreases n - j,
        {
            let sj = scores[indices[j]];
            let sb = scores[indices[best]];
            if sj > sb || (sj == sb && indices[j] < indices[best]) {
                proof {
                    assert forall|b: int| i <= b < j + 1 implies leq(indices@[j as int], indices@[b]) by {
                        lemma_ranked_before_total(scores@);
                    }
                }
                best = j;
            }
            j = j + 1;
        }
        let a = indices[i];
        let b = indices[best];
        let ghost before = indices@;
        indices.set(i, b);
        indices.set(best, a);
        proof {
            assert(indices@ == before.update(i as int, b).update(best as int, a));
            assert(indices@.to_multiset() =~= before.to_multiset());
            lemma_ranked_before_total(scores@);
        }
        i = i + 1;
    }
    proof {
        lemma_ranked_before_total(scores@);
        assert(sorted_by(indices@, leq));
        old(indices)@.lemma_sort_by_ensures(leq);
        lemma_sorted_unique(indices@, ranked(old(indices)@, scores@), leq);
    }
}

/// Metadata of a probed video. The frame rate is the exact ratio
/// `fps_num / fps_den` that the container reports.
pub struct VideoInfo {
    pub duration_millis: u64,
    pub fps_num: u64,
    pub fps_den: u64,
    pub width: u32,
    pub height: u32,
    pub total_frames: u32,
}

/// One sampled frame: its ordinal in the decoded stream, its sharpness in
/// thousandths, and where it was exported, if it was.
pub struct FrameData {
    pub frame_number: usize,
    pub sharpness: u32,
    pub path: Option<String>,
}

/// Scores of every sampled frame, in sampling order, with the suggested
/// cutoff and how many frames reach it.
pub struct AnalysisResult {
    pub video_info: VideoInfo,
    pub frames: Vec<FrameData>,
    pub suggested_threshold: u64,
    pub suggested_frame_count: usize,
}

/// What to export: the image format, an explicit cutoff (else the suggested
/// one), an optional cap on the number of frames, and the least gap between
/// two selected frames, counted in sampled positions.
pub struct ExportOptions {
    pub format: String,
    pub threshold: Option<u64>,
    pub max_frames: Option<usize>,
    pub min_frame_distance: usize,
}

/// Progress of an analysis: frames scored so far out of all sampled frames.
pub struct AnalysisProgress {
    pub current_frame: usize,
    pub total_frames: usize,
}

/// Number of scores at or above `t`.
pub open spec fn count_reaching(s: Seq<u32>, t: int) -> nat
    decreases s.len(),
{
    if s.len() == 0 {
        0
    } else {
        count_reaching(s.drop_last(), t) + if s.last() >= t {
            1nat
        } else {
            0nat
        }
    }
}

/// The scores of the frames, in order.
pub open spec fn frame_scores(frames: Seq<FrameData>) -> Seq<u32> {
    frames.map_values(|f: FrameData| f.sharpness)
}

/// The frames' numbers at the given positions.
pub open spec fn frame_numbers_at(frames: Seq<FrameData>, positions: Seq<usize>) -> Seq<usize> {
    positions.map_values(|p: usize| frames[p as int].frame_number)
}

/// Number of scores at or above `t`.
pub fn count_at_least(scores: &Vec<u32>, t: u64) -> (r: usize)
    ensures
        r == count_reaching(scores@, t as int),
{
    let mut count: usize = 0;
    let mut i: usize = 0;
    while i < scores.len()
        invariant
            0 <= i <= scores@.len(),
            count == count_reaching(scores@.take(i as int), t as int),
            count <= i,
        decreases scores@.len() - i,
    {
        proof {
            assert(scores@.take(i as int + 1).drop_last() == scores@.take(i as int));
        }
        if scores[i] as u64 >= t {
            count = count + 1;
        }
        i = i + 1;
    }
    proof {
        assert(scores@.take(scores@.len() as int) == scores@);
    }
    count
}

/// The scores of the frames, in order.
pub fn scores_of(frames: &Vec<FrameData>) -> (r: Vec<u32>)
    ensures
        r@ == frame_scores(frames@),
{
    let mut out: Vec<u32> = Vec::new();
    let mut i: usize = 0;
    while i < frames.len()
        invariant
            0 <= i <= frames@.len(),
            out@ == frame_scores(frames@.take(i as int)),
        decreases frames@.len() - i,
    {
        proof {
            assert(frame_scores(frames@.take(i as int + 1)) == frame_scores(frames@.take(
                i as int,
            )).push(frames@[i as int].sharpness));
        }
        out.push(frames[i].sharpness);
        i = i + 1;
    }
    proof {
        assert(frames@.take(frames@.len() as int) == frames@);
    }
    out
}

/// Builds the result of an analysis from the sampled frame numbers and their
/// scores, in sampling order: the suggested cutoff is the statistical one
/// (0 for no frames) and the suggested count is how many scores reach it.
pub fn summarize_analysis(video_info: VideoInfo, frame_numbers: &Vec<usize>, scores: &Vec<u32>) -> (r:
    AnalysisResult)
    requires
        frame_numbers@.len() == scores@.len(),
        scores@.len() <= MAX_SCORES,
    ensures
        r.video_info == video_info,
        r.frames@.len() == frame_numbers@.len(),
        forall|i: int|
            0 <= i < frame_numbers@.len() ==> (#[trigger] r.frames@[i]).frame_number
                == frame_numbers@[i] && r.frames@[i].sharpness == scores@[i] && r.frames@[i].path
                is None,
        frame_scores(r.frames@) == scores@,
        scores@.len() == 0 ==> r.suggested_threshold == 0,
        scores@.len() > 0 ==> is_statistical_cutoff(scores@, r.suggested_threshold as int),
        r.suggested_frame_count == count_reaching(scores@, r.suggested_threshold as int),
{
    let mut frames: Vec<FrameData> = Vec::new();
    let mut i: usize = 0;
    while i < scores.len()
        invariant
            frame_numbers@.len() == scores@.len(),
            0 <= i <= scores@.len(),
            frames@.len() == i,
            forall|k: int|
                0 <= k < i ==> (#[trigger] frames@[k]).frame_number == frame_numbers@[k]
                    && frames@[k].sharpness == scores@[k] && frames@[k].path is None,
        decreases scores@.len() - i,
    {
        frames.push(FrameData { frame_number: frame_numbers[i], sharpness: scores[i], path: None });
        i = i + 1;
    }
    proof {
        assert(frame_scores(frames@) =~= scores@);
    }
    let suggested_threshold = calculate_auto_threshold(scores, None);
    let suggested_frame_count = count_at_least(scores, suggested_threshold);
    AnalysisResult { video_info, frames, suggested_threshold, suggested_frame_count }
}

/// Positions of the frames to export: the greedy, spaced selection over the
/// scores, then, under a cap, ranked by score (ties in position order) and
/// cut to the cap. Without a cap the selection stays in position order.
pub fn select_export_indices(
    scores: &Vec<u32>,
    threshold: u64,
    min_frame_distance: usize,
    max_frames: Option<usize>,
) -> (r: Vec<usize>)
    ensures
        r@ == capped(
            greedy_selection(scores@, threshold as int, min_frame_distance as int),
            scores@,
            max_frames,
        ),
        forall|k: int| 0 <= k < r@.len() ==> (#[trigger] r@[k]) < scores@.len(),
{
    let mut selected = select_frames_smart(scores, threshold, min_frame_distance);
    let ghost sel = selected@;
    match max_frames {
        None => {
            assert(selected@ == capped(sel, scores@, max_frames));
            selected
        },
        Some(max) => {
            rank_by_score(&mut selected, scores);
            proof {
                lemma_ranked_before_total(scores@);
                sel.lemma_sort_by_ensures(ranked_before(scores@));
                vstd::seq_lib::to_multiset_len(sel);
                vstd::seq_lib::to_multiset_len(selected@);
                assert(selected@.len() == sel.len());
            }
            if max < selected.len() {
                let ghost rk = selected@;
                selected.truncate(max);
                proof {
                    assert(selected@ =~= rk.take(max as int));
                    assert forall|k: int| 0 <= k < selected@.len() implies (#[trigger] selected@[k])
                        < scores@.len() by {
                        assert(selected@[k] == rk[k]);
                        assert(rk.contains(rk[k]));
                        assert(sel.contains(rk[k]));
                    }
                }
            } else {
                proof {
                    assert forall|k: int| 0 <= k < selected@.len() implies (#[trigger] selected@[k])
                        < scores@.len() by {
                        assert(selected@.contains(selected@[k]));
                        assert(sel.contains(selected@[k]));
                    }
                }
            }
            selected
        },
    }
}

/// Frame numbers to export from an analysis: the options' cutoff, or the
/// suggested one, applied as `select_export_indices` does.
pub fn export_frame_numbers(analysis: &AnalysisResult, options: &ExportOptions) -> (r: Vec<usize>)
    ensures
        r@ == frame_numbers_at(
            analysis.frames@,
            capped(
                greedy_selection(
                    frame_scores(analysis.frames@),
                    match options.threshold {
                        Some(t) => t as int,
                        None => analysis.suggested_threshold as int,
                    },
                    options.min_frame_distance as int,
                ),
                frame_scores(analysis.frames@),
                options.max_frames,
            ),
        ),
{
    let threshold = match options.threshold {
        Some(t) => t,
        None => analysis.suggested_threshold,
    };
    let scores = scores_of(&analysis.frames);
    let positions = select_export_indices(
        &scores,
        threshold,
        options.min_frame_distance,
        options.max_frames,
    );
    let mut out: Vec<usize> = Vec::new();
    let mut i: usize = 0;
    while i < positions.len()
        invariant
            0 <= i <= positions@.len(),
            forall|k: int| 0 <= k < positions@.len() ==> (#[trigger] positions@[k])
                < analysis.frames@.len(),
            out@ == frame_numbers_at(analysis.frames@, positions@.take(i as int)),
        decreases positions@.len() - i,
    {
        proof {
            assert(frame_numbers_at(analysis.frames@, positions@.take(i as int + 1))
                == frame_numbers_at(analysis.frames@, positions@.take(i as int)).push(
                analysis.frames@[positions@[i as int] as int].frame_number,
            ));
        }
        out.push(analysis.frames[positions[i]].frame_number);
        i = i + 1;
    }
    proof {
        assert(positions@.take(positions@.len() as int) == positions@);
    }
    out
}

/// Cutoff that admits about `target_count` frames: the score at position
/// `min(target_count, len - 1)` of the scores sorted from highest to lowest,
/// or 0 for no scores.
pub fn calculate_threshold_for_count(sharpness_scores: Vec<u32>, target_count: usize) -> (r: Result<u64, String>)
    ensures
        r is Ok,
        sharpness_scores@.len() == 0 ==> r == Ok::<u64, String>(0),
        sharpness_scores@.len() > 0 ==> r == Ok::<u64, String>(
            crate::threshold::sorted_desc(sharpness_scores@)[crate::threshold::rank_position(
                sharpness_scores@.len() as int,
                target_count as int,
            )] as u64,
        ),
{
    Ok(calculate_auto_threshold(&sharpness_scores, Some(target_count)))
}

/// First frame of the sampled range: the frame shown at `start_millis`
/// (rounded down), kept below `total_frames` where there are frames; 0
/// without a start.
pub open spec fn range_start(info: VideoInfo, start_millis: Option<u64>) -> int {
    let last = if info.total_frames > 0 {
        info.total_frames - 1
    } else {
        0
    };
    let raw = match start_millis {
        None => 0,
        Some(t) => (t * info.fps_num) / (1000 * info.fps_den),
    };
    if raw < last {
        raw
    } else {
        last
    }
}

/// End of the sampled range, exclusive: `end_millis` in frames (rounded up),
/// at most `total_frames`; `total_frames` without an end.
pub open spec fn range_end(info: VideoInfo, end_millis: Option<u64>) -> int {
    let raw = match end_millis {
        None => info.total_frames as int,
        Some(t) => {
            let scaled = t * info.fps_num;
            let unit = 1000 * info.fps_den;
            scaled / unit + if scaled % unit == 0 {
                0int
            } else {
                1int
            }
        },
    };
    if raw < info.total_frames {
        raw
    } else {
        info.total_frames as int
    }
}

/// Frame numbers to analyse: every `sample_rate`-th frame of
/// `[range_start, range_end)`, starting at `range_start`.
pub fn sample_frames(
    info: &VideoInfo,
    sample_rate: usize,
    start_millis: Option<u64>,
    end_millis: Option<u64>,
) -> (r: Vec<usize>)
    requires
        sample_rate > 0,
        info.fps_den > 0,
    ensures
        forall|i: int|
            0 <= i < r@.len() ==> #[trigger] r@[i] == range_start(*info, start_millis) + i
                * sample_rate,
        forall|i: int| 0 <= i < r@.len() ==> #[trigger] r@[i] < range_end(*info, end_millis),
        range_start(*info, start_millis) + r@.len() * sample_rate >= range_end(*info, end_millis),
{
    let total = info.total_frames as u128;
    let last: u128 = if total > 0 {
        total - 1
    } else {
        0
    };
    let scale: u128 = 1000 * (info.fps_den as u128);
    let start_raw: u128 = match start_millis {
        None => 0,
        Some(t) => {
            proof {
                assert(t * info.fps_num <= 0xFFFF_FFFF_FFFF_FFFF * 0xFFFF_FFFF_FFFF_FFFF) by (nonlinear_arith)
                    requires
                        t <= 0xFFFF_FFFF_FFFF_FFFF,
                        info.fps_num <= 0xFFFF_FFFF_FFFF_FFFF,
                ;
            }
            (t as u128) * (info.fps_num as u128) / scale
        },
    };
    let end_raw: u128 = match end_millis {
        None => total,
        Some(t) => {
            proof {
                assert(t * info.fps_num <= 0xFFFF_FFFF_FFFF_FFFF * 0xFFFF_FFFF_FFFF_FFFF) by (nonlinear_arith)
                    requires
                        t <= 0xFFFF_FFFF_FFFF_FFFF,
                        info.fps_num <= 0xFFFF_FFFF_FFFF_FFFF,
                ;
            }
            let scaled = (t as u128) * (info.fps_num as u128);
            scaled / scale + if scaled % scale == 0 {
                0
            } else {
                1
            }
        },
    };
    let start = (if start_raw < last {
        start_raw
    } else {
        last
    }) as usize;
    let end = (if end_raw < total {
        end_raw
    } else {
        total
    }) as usize;
    let ghost s0 = range_start(*info, start_millis);
    let ghost e0 = range_end(*info, end_millis);
    assert(start == s0 && end == e0);
    let mut frames: Vec<usize> = Vec::new();
    let mut current: usize = start;
    if current < end {
        loop
            invariant_except_break
                current == start + frames@.len() * sample_rate,
            invariant
                s0 == start,
                e0 == end,
                sample_rate > 0,
                current < end,
                forall|i: int|
                    0 <= i < frames@.len() ==> #[trigger] frames@[i] == start + i * sample_rate,
                forall|i: int| 0 <= i < frames@.len() ==> #[trigger] frames@[i] < end,
            ensures
                start + frames@.len() * sample_rate >= end,
                forall|i: int|
                    0 <= i < frames@.len() ==> #[trigger] frames@[i] == start + i * sample_rate,
                forall|i: int| 0 <= i < frames@.len() ==> #[trigger] frames@[i] < end,
            decreases end - current,
        {
            frames.push(current);
            proof {
                assert(current + sample_rate == start + frames@.len() * sample_rate) by (nonlinear_arith)
                    requires
                        current == start + (frames@.len() - 1) * sample_rate,
                ;
            }
            if end - current <= sample_rate {
                break;
            }
            current = current + sample_rate;
        }
    }
    frames
}

} // verus!
