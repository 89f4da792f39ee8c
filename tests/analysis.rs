use sharp_frame_extractor::analysis::{
    calculate_threshold_for_count, count_at_least, export_frame_numbers, rank_by_score,
    sample_frames, select_export_indices, summarize_analysis, AnalysisProgress, AnalysisResult,
    ExportOptions, FrameData, VideoInfo,
};

fn info(total_frames: u32) -> VideoInfo {
    VideoInfo { duration_millis: 10_000, fps_num: 30, fps_den: 1, width: 640, height: 480, total_frames }
}

#[test]
fn test_export_options() {
    let options = ExportOptions {
        format: "jpg".to_string(),
        threshold: Some(100),
        max_frames: Some(50),
        min_frame_distance: 5,
    };

    assert_eq!(options.format, "jpg");
}

#[test]
fn summary_counts_frames_at_or_above_cutoff() {
    let result = summarize_analysis(info(300), &vec![0, 10, 20, 30, 40], &vec![10, 20, 30, 40, 50]);
    assert_eq!(result.frames.len(), 5);
    assert_eq!(result.frames[3].frame_number, 30);
    assert_eq!(result.frames[3].sharpness, 40);
    assert!(result.frames[3].path.is_none());
    assert_eq!(result.suggested_threshold, 38);
    assert_eq!(result.suggested_frame_count, 2);
    assert_eq!(result.video_info.total_frames, 300);
}

#[test]
fn summary_of_no_frames() {
    let result = summarize_analysis(info(0), &Vec::new(), &Vec::new());
    assert!(result.frames.is_empty());
    assert_eq!(result.suggested_threshold, 0);
    assert_eq!(result.suggested_frame_count, 0);
}

#[test]
fn counting_scores_at_least() {
    assert_eq!(count_at_least(&vec![5, 10, 10, 3], 10), 2);
    assert_eq!(count_at_least(&Vec::new(), 0), 0);
}

#[test]
fn ranking_keeps_index_order_on_ties() {
    let scores = vec![5, 9, 5, 7, 9];
    let mut indices = vec![0, 1, 2, 3, 4];
    rank_by_score(&mut indices, &scores);
    assert_eq!(indices, vec![1, 4, 3, 0, 2]);
}

#[test]
fn export_selects_then_ranks_then_truncates() {
    let scores = vec![60, 95, 70, 99, 80];
    // selection at 60 with gap 2: positions 0, 2, 4; ranked 80, 70, 60
    assert_eq!(select_export_indices(&scores, 60, 2, None), vec![0, 2, 4]);
    assert_eq!(select_export_indices(&scores, 60, 2, Some(2)), vec![4, 2]);
    assert_eq!(select_export_indices(&scores, 60, 2, Some(10)), vec![4, 2, 0]);
    assert!(select_export_indices(&scores, 60, 2, Some(0)).is_empty());
}

fn frame(frame_number: usize, sharpness: u32) -> FrameData {
    FrameData { frame_number, sharpness, path: None }
}

#[test]
fn export_maps_positions_to_frame_numbers() {
    let analysis = AnalysisResult {
        video_info: info(100),
        frames: vec![frame(0, 10), frame(5, 50), frame(10, 40), frame(15, 45)],
        suggested_threshold: 41,
        suggested_frame_count: 2,
    };
    let suggested = ExportOptions {
        format: "png".to_string(),
        threshold: None,
        max_frames: None,
        min_frame_distance: 1,
    };
    assert_eq!(export_frame_numbers(&analysis, &suggested), vec![5, 15]);
    let explicit = ExportOptions {
        format: "png".to_string(),
        threshold: Some(40),
        max_frames: Some(2),
        min_frame_distance: 1,
    };
    assert_eq!(export_frame_numbers(&analysis, &explicit), vec![5, 15]);
}

#[test]
fn threshold_for_count() {
    assert_eq!(calculate_threshold_for_count(vec![10, 20, 30, 40, 50], 2), Ok(30));
    assert_eq!(calculate_threshold_for_count(Vec::new(), 2), Ok(0));
}

#[test]
fn sampling_whole_video() {
    assert_eq!(sample_frames(&info(10), 3, None, None), vec![0, 3, 6, 9]);
    assert_eq!(sample_frames(&info(9), 3, None, None), vec![0, 3, 6]);
    assert!(sample_frames(&info(0), 3, None, None).is_empty());
}

#[test]
fn sampling_time_range() {
    // 30 fps: 1.0 s is frame 30, 2.01 s rounds up to frame 61
    assert_eq!(sample_frames(&info(300), 10, Some(1000), Some(2010)), vec![30, 40, 50, 60]);
    // a start past the end is clamped to the last frame
    assert_eq!(sample_frames(&info(100), 10, Some(60_000), None), vec![99]);
    let ntsc = VideoInfo { duration_millis: 0, fps_num: 30000, fps_den: 1001, width: 1, height: 1, total_frames: 1000 };
    // 29.97 fps: 10 s is frame 299.7, rounded down to 299
    assert_eq!(sample_frames(&ntsc, 100, Some(10_000), Some(20_000)), vec![299, 399, 499, 599]);
}

#[test]
fn progress_holds_counts() {
    let progress = AnalysisProgress { current_frame: 50, total_frames: 120 };
    assert_eq!(progress.current_frame, 50);
    assert_eq!(progress.total_frames, 120);
}
