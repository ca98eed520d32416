use flashback::h264::{contains_idr, extract_param_sets, is_keyframe};
use flashback::media::{
    aac_bitrate, aac_target_format, capture_size_changed, cfr_pts, clamp_fps, clip_filename, elapsed_slots,
    even_capture_dim, extent, fps_interval, gop_size, keep_frame, manual_gop_size, min_update_interval,
    monitor_label, peak_bitrate,
    nv12_size, output_dims, pace_sleep_ms, pack2, packet_duration, paced_emissions, quality_tier,
    resolve_bitrate, target_channels, thumb_height, Cadence, QualityTier,
};

#[test]
fn fps_is_clamped() {
    assert_eq!(clamp_fps(0), 10);
    assert_eq!(clamp_fps(60), 60);
    assert_eq!(clamp_fps(1000), 240);
}

#[test]
fn frame_intervals() {
    assert_eq!(fps_interval(0), 0);
    assert_eq!(fps_interval(60), 166_666);
    assert_eq!(fps_interval(30), 333_333);
    assert_eq!(min_update_interval(60), 83_333);
    assert_eq!(min_update_interval(240), 20_833);
    assert_eq!(min_update_interval(0), 20_000);
}

#[test]
fn cfr_times_do_not_drift() {
    assert_eq!(cfr_pts(0, 60), 0);
    assert_eq!(cfr_pts(1, 60), 166_666);
    assert_eq!(cfr_pts(2, 60), 333_333);
    assert_eq!(cfr_pts(60, 60), 10_000_000);
    assert_eq!(cfr_pts(120, 60) - cfr_pts(60, 60), 10_000_000);
    assert_eq!(cfr_pts(-1, 60), -166_666);
    assert_eq!(cfr_pts(5, 0), 0);
}

#[test]
fn slots_and_sleep() {
    assert_eq!(elapsed_slots(1_000_000, 166_666), 6);
    assert_eq!(elapsed_slots(5, 0), 5);
    assert_eq!(pace_sleep_ms(166_666), 8);
    assert_eq!(pace_sleep_ms(41_666), 2);
    assert_eq!(pace_sleep_ms(0), 1);
}

#[test]
fn gop_sizes() {
    assert_eq!(gop_size(60), 60);
    assert_eq!(gop_size(10), 10);
    assert_eq!(gop_size(240), 240);
    assert_eq!(gop_size(5), 8);
    assert_eq!(manual_gop_size(60), 120);
    assert_eq!(manual_gop_size(5), 16);
}

#[test]
fn peak_bitrate_is_1_75x() {
    assert_eq!(peak_bitrate(40_000_000), 70_000_000);
    assert_eq!(peak_bitrate(0), 0);
    assert_eq!(peak_bitrate(u32::MAX), u32::MAX / 4);
}

#[test]
fn frame_limiter() {
    assert_eq!(keep_frame(i64::MIN, 100, 1000), (true, 1100));
    // On time: the target advances by exactly one interval.
    assert_eq!(keep_frame(1100, 1090, 1000), (true, 2100));
    // Too early: dropped, target unchanged.
    assert_eq!(keep_frame(2100, 1500, 1000), (false, 2100));
    // A long gap re-anchors to the frame.
    assert_eq!(keep_frame(2100, 20_000, 1000), (true, 21_000));
    assert_eq!(keep_frame(5, 1, 0), (true, 5));
}

#[test]
fn cadence_times_increase() {
    let mut c = Cadence::new();
    let (slot, pts) = c.next_slot(3, 60).unwrap();
    assert_eq!((slot, pts), (0, 0));
    c.commit(slot, pts);
    let (slot, pts) = c.next_slot(3, 60).unwrap();
    assert_eq!((slot, pts), (1, 166_666));
    c.commit(slot, pts);
    assert!(c.next_slot(1, 60).is_none());
    // A committed time later than the slot's own keeps times increasing.
    c.commit(1, 500_000);
    assert_eq!(c.next_slot(5, 60).unwrap(), (2, 500_001));
    c.resync(200, 60);
    assert_eq!(c.emitted, 199);
    c.follow_clock(150);
    assert_eq!(c.emitted, 199);
    c.follow_clock(300);
    assert_eq!(c.emitted, 300);
}

#[test]
fn paced_recording_emissions() {
    let (last, frames) = paced_emissions(-1, 2, 60);
    assert_eq!(last, 2);
    assert_eq!(frames, vec![(0, 166_666), (166_666, 166_667), (333_333, 166_667)]);
    // More than a second owed: skip to just before the clock.
    let (last, frames) = paced_emissions(0, 100, 60);
    assert_eq!(last, 100);
    assert_eq!(frames, vec![(cfr_pts(100, 60), cfr_pts(101, 60) - cfr_pts(100, 60))]);
    let (last, frames) = paced_emissions(5, 5, 60);
    assert_eq!(last, 5);
    assert!(frames.is_empty());
}

#[test]
fn paced_slots_run_on_across_rounds() {
    let (last, first) = paced_emissions(-1, 3, 60);
    assert_eq!(last, 3);
    assert_eq!(first.last().unwrap().0, cfr_pts(3, 60));
    // The next round starts right after slot 3.
    let (last, second) = paced_emissions(last, 5, 60);
    assert_eq!(last, 5);
    assert_eq!(second, vec![(cfr_pts(4, 60), cfr_pts(5, 60) - cfr_pts(4, 60)), (cfr_pts(5, 60), cfr_pts(6, 60) - cfr_pts(5, 60))]);
    // A round with the clock unchanged writes nothing.
    let (last, third) = paced_emissions(last, 5, 60);
    assert_eq!(last, 5);
    assert!(third.is_empty());
}

#[test]
fn capture_sizes() {
    assert_eq!(even_capture_dim(1921), 1920);
    assert_eq!(even_capture_dim(1), 2);
    assert_eq!(even_capture_dim(-5), 2);
    assert!(capture_size_changed(1281, 720, 1920, 1080));
    assert!(!capture_size_changed(1921, 1081, 1920, 1080));
    assert!(!capture_size_changed(1, 1, 1920, 1080));
}

#[test]
fn output_sizes_keep_aspect_and_never_upscale() {
    assert_eq!(output_dims(2560, 1440, 1080), (1920, 1080));
    assert_eq!(output_dims(1920, 1080, 1440), (1920, 1080));
    assert_eq!(output_dims(1920, 1080, 0), (1920, 1080));
    assert_eq!(output_dims(1366, 768, 721), (1280, 720));
    assert_eq!(output_dims(3, 1000, 1), (2, 2));
}

#[test]
fn packing_and_sizes() {
    assert_eq!(pack2(1920, 1080), (1920u64 << 32) | 1080);
    assert_eq!(pack2(60, 1), 60 * 4_294_967_296 + 1);
    assert_eq!(nv12_size(1920, 1080), 3_110_400);
    assert_eq!(thumb_height(1920, 1080), 180);
    assert_eq!(thumb_height(100_000, 10), 1);
    assert_eq!(extent(10, 1930), 1920);
    assert_eq!(extent(100, 50), 0);
}

#[test]
fn audio_formats() {
    assert_eq!(target_channels(0), 1);
    assert_eq!(target_channels(1), 1);
    assert_eq!(target_channels(8), 2);
    assert_eq!(aac_target_format(48_000, 8), Some((48_000, 2)));
    assert_eq!(aac_target_format(44_100, 1), Some((44_100, 1)));
    assert_eq!(aac_target_format(96_000, 2), None);
    assert_eq!(aac_bitrate(1), 96_000);
    assert_eq!(aac_bitrate(2), 128_000);
    assert_eq!(packet_duration(480, 48_000), 100_000);
    assert_eq!(packet_duration(10, 0), 100_000_000);
}

#[test]
fn quality_and_bitrate() {
    assert_eq!(quality_tier("low"), QualityTier::Low);
    assert_eq!(quality_tier("normal"), QualityTier::Normal);
    assert_eq!(quality_tier("high"), QualityTier::High);
    assert_eq!(quality_tier("veryhigh"), QualityTier::VeryHigh);
    assert_eq!(quality_tier("ultra"), QualityTier::Ultra);
    assert_eq!(quality_tier("Ultra"), QualityTier::High);
    assert_eq!(resolve_bitrate(8_000_000, 50_000_000), 8_000_000);
    assert_eq!(resolve_bitrate(0, 50_000_000), 50_000_000);
}

#[test]
fn names() {
    assert_eq!(clip_filename(2024, 3, 7, 9, 5, 0), "Flashback_2024-03-07_09-05-00.mp4");
    assert_eq!(clip_filename(12345, 12, 31, 23, 59, 59), "Flashback_12345-12-31_23-59-59.mp4");
    assert_eq!(monitor_label(0), "Pantalla 1");
    assert_eq!(monitor_label(9), "Pantalla 10");
}

#[test]
fn idr_detection() {
    assert!(contains_idr(&[0, 0, 0, 1, 0x65, 0x88]));
    assert!(!contains_idr(&[0, 0, 1, 0x41, 0x9a]));
    assert!(!contains_idr(&[0, 0, 1]));
    assert!(contains_idr(&[0, 0, 1, 0x67, 0, 0, 1, 0x25]));
    assert!(is_keyframe(1, &[]));
    assert!(is_keyframe(0, &[0, 0, 1, 0x65]));
    assert!(!is_keyframe(0, &[0, 0, 1, 0x41]));
}

#[test]
fn parameter_sets_are_extracted() {
    let stream = [0u8, 0, 0, 1, 0x67, 0xAA, 0xBB, 0, 0, 0, 1, 0x68, 0xCC, 0, 0, 1, 0x65, 0xDD, 0xEE];
    assert_eq!(extract_param_sets(&stream), vec![0, 0, 0, 1, 0x67, 0xAA, 0xBB, 0, 0, 0, 1, 0x68, 0xCC]);
    assert!(extract_param_sets(&[0, 0, 1, 0x65, 1, 2]).is_empty());
    assert!(extract_param_sets(&[1, 2, 3]).is_empty());
    assert_eq!(extract_param_sets(&[0, 0, 1, 0x67]), vec![0, 0, 1, 0x67]);
}
