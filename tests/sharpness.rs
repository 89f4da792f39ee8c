use sharp_frame_extractor::analysis::VideoInfo;
use sharp_frame_extractor::gpu::{
    frame_score_or_zero, plan_batches, score_with_fallback, GpuRun, BATCH_SIZE,
};
use sharp_frame_extractor::sharpness::{calculate_sharpness, laplacian_responses, Raster};
use sharp_frame_extractor::stats::population_variance_milli;

fn raster(width: u32, height: u32, pixels: Vec<u8>) -> Raster {
    Raster { width, height, pixels }
}

fn bright_dot() -> Raster {
    let mut pixels = vec![0u8; 16];
    pixels[5] = 255;
    raster(4, 4, pixels)
}

fn gradient() -> Raster {
    let mut pixels = Vec::new();
    for y in 0..5u32 {
        for x in 0..5u32 {
            pixels.push(((x * 37 + y * 91) % 256) as u8);
        }
    }
    raster(5, 5, pixels)
}

#[test]
fn test_sharpness_calculation() {
    let img = raster(10, 10, vec![0u8; 100]);
    let sharpness = calculate_sharpness(&img);
    assert!(sharpness as f64 >= 0.0);
}

#[test]
fn uniform_raster_scores_zero() {
    assert_eq!(calculate_sharpness(&raster(10, 10, vec![0u8; 100])), 0);
    assert_eq!(calculate_sharpness(&raster(7, 4, vec![200u8; 28])), 0);
}

#[test]
fn raster_without_interior_scores_zero() {
    let pixels: Vec<u8> = (0..20u32).map(|i| (i * 53 % 256) as u8).collect();
    assert_eq!(calculate_sharpness(&raster(2, 10, pixels.clone())), 0);
    assert_eq!(calculate_sharpness(&raster(10, 2, pixels)), 0);
    assert_eq!(calculate_sharpness(&raster(0, 0, Vec::new())), 0);
}

#[test]
fn laplacian_responses_of_interior() {
    assert_eq!(laplacian_responses(&bright_dot()), vec![-1020, 255, 255, 0]);
}

#[test]
fn sharpness_is_population_variance_in_thousandths() {
    // responses -1020, 255, 255, 0: mean -127.5, variance 276356.25
    assert_eq!(calculate_sharpness(&bright_dot()), 276_356_250);
    // responses 0, -256, -256, -512, 512, 256, 256, 0, 0
    assert_eq!(calculate_sharpness(&gradient()), 87_381_333);
}

#[test]
fn scoring_twice_gives_identical_results() {
    let img = gradient();
    assert_eq!(calculate_sharpness(&img), calculate_sharpness(&img));
}

#[test]
fn variance_of_constant_values_is_zero() {
    assert_eq!(population_variance_milli(&vec![7, 7, 7]), 0);
    assert_eq!(population_variance_milli(&Vec::new()), 0);
    assert_eq!(population_variance_milli(&vec![0, 2]), 1000);
}

#[test]
fn failed_readback_falls_back_to_cpu() {
    let img = gradient();
    assert_eq!(score_with_fallback(&img, &None), calculate_sharpness(&img));
}

#[test]
fn device_readback_of_true_responses_matches_cpu() {
    let img = bright_dot();
    let readback = laplacian_responses(&img);
    assert_eq!(score_with_fallback(&img, &Some(readback)), 276_356_250);
}

#[test]
fn readback_is_used_when_it_fits() {
    let img = bright_dot();
    assert_eq!(score_with_fallback(&img, &Some(vec![0, 2, 0, 2])), 1000);
}

#[test]
fn readback_of_wrong_length_or_range_falls_back() {
    let img = bright_dot();
    assert_eq!(score_with_fallback(&img, &Some(vec![0, 2])), 276_356_250);
    assert_eq!(score_with_fallback(&img, &Some(vec![0, 2, 5000, 2])), 276_356_250);
}

#[test]
fn failed_extraction_scores_zero() {
    assert_eq!(frame_score_or_zero(&None), 0);
    assert_eq!(frame_score_or_zero(&Some(bright_dot())), 276_356_250);
}

#[test]
fn batches_keep_sampling_order() {
    let frames: Vec<usize> = (0..120).map(|i| i * 3).collect();
    let batches = plan_batches(&frames);
    assert_eq!(batches.len(), 3);
    assert_eq!(batches[0].len(), BATCH_SIZE);
    assert_eq!(batches[1].len(), BATCH_SIZE);
    assert_eq!(batches[2].len(), 20);
    let joined: Vec<usize> = batches.concat();
    assert_eq!(joined, frames);
    assert!(plan_batches(&Vec::new()).is_empty());
    assert_eq!(plan_batches(&(0..50).collect()).len(), 1);
}

#[test]
fn gpu_run_scores_batch_by_batch() {
    let frames: Vec<usize> = (0..60).map(|i| i * 2).collect();
    let mut run = GpuRun::new(frames);
    let first = run.next_batch().unwrap();
    assert_eq!(first.len(), BATCH_SIZE);
    assert_eq!(first[49], 98);
    let rasters: Vec<Raster> = (0..BATCH_SIZE).map(|_| bright_dot()).collect();
    let mut readbacks: Vec<Option<Vec<i32>>> = vec![None; BATCH_SIZE];
    readbacks[0] = Some(vec![0, 2, 0, 2]);
    let progress = run.record_batch(&rasters, &readbacks);
    assert_eq!((progress.current_frame, progress.total_frames), (50, 60));
    assert_eq!(run.scores[0], 1000);
    assert_eq!(run.scores[1], 276_356_250);
    let second = run.next_batch().unwrap();
    assert_eq!(second, (50..60).map(|i| i * 2).collect::<Vec<usize>>());
    let rasters: Vec<Raster> = (0..10).map(|_| gradient()).collect();
    let progress = run.record_batch(&rasters, &vec![None; 10]);
    assert_eq!((progress.current_frame, progress.total_frames), (60, 60));
    assert!(run.next_batch().is_none());
    let info = VideoInfo { duration_millis: 4000, fps_num: 30, fps_den: 1, width: 4, height: 4, total_frames: 120 };
    let result = run.finish(info);
    assert_eq!(result.frames.len(), 60);
    assert_eq!(result.frames[59].frame_number, 118);
    assert_eq!(result.frames[59].sharpness, 87_381_333);
    assert!(result.frames.iter().all(|f| f.path.is_none()));
    assert_eq!(result.frames[0].sharpness, 1000);
}
