use flashback::audio::{
    aac_output_size, block_frames, conversion, is_float_format, mmdevice_id_from_winrt, order_by_time,
    pcm_input_format, pick_aac_type, Conversion, MixClock,
};
use flashback::devices::{
    device_name, encoder_keywords_of, find_main_window, find_monitor, forward_slashes, is_primary, pick_encoder,
    pick_encoder_among, process_exe_name, process_path_text,
    EncoderSlot, WindowCandidate,
};
use flashback::recording::{frame_duration, use_hardware, wants_microphone, FrameRing};
use flashback::text::is_whitespace;
use flashback::session::{nv12_pool, Announce, ArmStep, FocusState, Nv12Pool, ReplayArming, CARD_INTERVAL_NS};

#[test]
fn window_replay_retries_and_announces_once() {
    let mut a = ReplayArming::new("window");
    assert!(a.window_mode);
    assert_eq!(a.on_build(false), (Announce::Ready, ArmStep::Wait));
    assert_eq!(a.on_build(false), (Announce::Nothing, ArmStep::Wait));
    assert_eq!(a.on_build(true), (Announce::Nothing, ArmStep::Pump));
    assert_eq!(a.after_pump(false), ArmStep::Wait);
    assert_eq!(a.after_pump(true), ArmStep::Finish);
}

#[test]
fn monitor_replay_failure_is_final() {
    let mut a = ReplayArming::new("\\\\.\\DISPLAY1");
    assert!(!a.window_mode);
    assert_eq!(a.on_build(false), (Announce::Failed, ArmStep::Finish));
    let mut b = ReplayArming::new("\\\\.\\DISPLAY1");
    assert_eq!(b.on_build(true), (Announce::Ready, ArmStep::Pump));
    assert_eq!(b.after_pump(false), ArmStep::Finish);
}

#[test]
fn focus_card_while_minimised() {
    let mut f = FocusState::new(0);
    // Not due before 250 ms, nor outside window mode.
    assert!(!f.check_due(true, 100_000_000));
    assert!(!f.check_due(false, 300_000_000));
    assert!(f.check_due(true, 300_000_000));
    f.note_real_frame(5_000, 300_000_000);
    // Minimising asks for the card.
    assert!(f.observe(true, true));
    f.card_rendered(310_000_000);
    assert!(f.take_force_key());
    assert!(!f.take_force_key());
    // The first card is due at once; its time continues the last frame's.
    assert_eq!(f.card_due(310_000_000), Some(5_000 + 100_000));
    assert_eq!(f.card_due(310_000_000 + CARD_INTERVAL_NS - 1), None);
    assert_eq!(f.card_due(310_000_000 + CARD_INTERVAL_NS), Some(5_000 + 5_100_000));
    // Coming back forces a keyframe and stops the card.
    assert!(!f.observe(false, true));
    assert!(f.take_force_key());
    assert_eq!(f.card_due(2_000_000_000), None);
}

#[test]
fn focus_without_frame_renders_no_card() {
    let mut f = FocusState::new(0);
    assert!(!f.observe(true, true));
    assert!(!f.card_ready);
    assert_eq!(f.card_due(1_000_000_000), None);
}

#[test]
fn endpoint_ids() {
    assert_eq!(
        mmdevice_id_from_winrt("\\\\?\\SWD#MMDEVAPI#{0.0.1.00000000}.{abc}#{iface}"),
        "{0.0.1.00000000}.{abc}"
    );
    assert_eq!(mmdevice_id_from_winrt("{0.0.1.00000000}.{abc}"), "{0.0.1.00000000}.{abc}");
    assert_eq!(mmdevice_id_from_winrt("X#MMDEVAPI#tail"), "tail");
}

#[test]
fn mixer_places_blocks_by_cursor_and_resyncs_on_jumps() {
    let mut c = MixClock::new(48_000);
    assert_eq!(c.tolerance, 480);
    // First system block at t = 1 s: the base.
    assert!(c.can_place(10_000_000, false, 480));
    assert_eq!(c.place(10_000_000, false, 480), 0);
    // 10 ms later with jitter: continues at the cursor.
    assert_eq!(c.place(10_100_050, false, 480), 480);
    // A microphone block starts at its own timestamp.
    assert_eq!(c.place(10_050_000, true, 480), 240);
    // A jump of one second resynchronises.
    assert_eq!(c.place(20_100_000, false, 480), 48_480);
    assert_eq!(c.sys_next, 48_960);
    assert_eq!(c.max_time, 10_000_000 + 48_960 * 10_000_000 / 48_000);
}

#[test]
fn mixer_emits_behind_the_latency() {
    let mut c = MixClock::new(48_000);
    assert_eq!(c.emit(false, 100), None);
    c.place(0, false, 48_000);
    // Latest end at 1 s; 150 ms are held back.
    assert!(c.can_emit(false, 48_000));
    assert_eq!(c.emit(false, 48_000), Some((40_800, 0, 8_500_000)));
    assert_eq!(c.acc_start, 40_800);
    assert_eq!(c.emit(false, 48_000), None);
    // Stopping flushes the rest.
    assert_eq!(c.emit(true, 7_200), Some((7_200, 8_500_000, 1_500_000)));
}

#[test]
fn mixer_stop_flush_keeps_a_single_frame() {
    let mut c = MixClock::new(48_000);
    assert_eq!(c.place(0, false, 1), 0);
    assert!(c.can_emit(true, 1));
    assert_eq!(c.emit(true, 1), Some((1, 0, 208)));
    assert_eq!(c.acc_start, 1);
}

#[test]
fn block_sizes() {
    assert_eq!(block_frames(1920, 48_000, 2, 48_000), 480);
    assert_eq!(block_frames(960, 48_000, 1, 48_000), 480);
    assert_eq!(block_frames(1764, 44_100, 2, 48_000), 480);
    assert_eq!(block_frames(3, 48_000, 2, 48_000), 0);
    assert_eq!(block_frames(4, 0, 0, 0), 2);
}

#[test]
fn utf16_names() {
    let mut dev: Vec<u16> = "\\\\.\\DISPLAY1".encode_utf16().collect();
    dev.extend_from_slice(&[0, 0x41, 0x42]);
    assert_eq!(device_name(&dev), "\\\\.\\DISPLAY1");
    let exe: Vec<u16> = "Game.EXE\0junk".encode_utf16().collect();
    assert_eq!(process_exe_name(&exe), "game.exe");
    let path: Vec<u16> = "C:\\Games\\Foo\\Bar.exe".encode_utf16().collect();
    assert_eq!(process_path_text(&path), "c:/games/foo/bar.exe");
    assert_eq!(device_name(&[0x61, 0xD800, 0x62]), "a\u{FFFD}b");
    assert_eq!(device_name(&[0xD83D, 0xDE00]), "\u{1F600}");
}

fn slot(name: Option<&str>) -> EncoderSlot {
    EncoderSlot { present: true, name: name.map(|n| n.to_string()) }
}

#[test]
fn hardware_encoder_choice() {
    let slots = vec![
        EncoderSlot { present: false, name: None },
        slot(Some("Intel® Quick Sync Video H.264 Encoder MFT")),
        slot(None),
        slot(Some("NVIDIA H.264 Encoder MFT")),
    ];
    assert_eq!(pick_encoder("NVENC", &slots), Some(3));
    assert_eq!(pick_encoder("quick sync", &slots), Some(1));
    assert_eq!(pick_encoder("amf", &slots), Some(1));
    assert_eq!(pick_encoder("Auto", &slots), Some(1));
    assert_eq!(pick_encoder("nvenc", &[]), None);
}

fn win(pid: u32, rect: (i32, i32, i32, i32)) -> WindowCandidate {
    WindowCandidate { pid, visible: true, minimized: false, owned: false, rect: Some(rect) }
}

#[test]
fn main_window_is_the_largest_of_the_process() {
    let mut owned = win(5, (0, 0, 4000, 4000));
    owned.owned = true;
    let windows = vec![
        win(9, (0, 0, 5000, 5000)),
        win(5, (0, 0, 800, 600)),
        owned,
        win(5, (10, 10, 1930, 1090)),
        win(5, (0, 0, 1920, 1080)),
    ];
    assert_eq!(find_main_window(&windows, 5), Some(3));
    assert_eq!(find_main_window(&windows, 7), None);
    assert_eq!(find_main_window(&[win(5, (0, 0, 0, 100))], 5), None);
}

#[test]
fn monitors_by_device_name() {
    let names = vec![None, Some("\\\\.\\DISPLAY1".to_string()), Some("\\\\.\\DISPLAY2".to_string())];
    assert_eq!(find_monitor(&names, "\\\\.\\DISPLAY2"), Some(2));
    assert_eq!(find_monitor(&names, "\\\\.\\DISPLAY3"), None);
    assert!(is_primary(1));
    assert!(is_primary(3));
    assert!(!is_primary(2));
}

#[test]
fn recording_choices() {
    assert!(use_hardware("NVENC", false));
    assert!(!use_hardware("Software", false));
    assert!(!use_hardware("Auto", true));
    assert!(wants_microphone(true, "dev"));
    assert!(!wants_microphone(true, ""));
    assert!(!wants_microphone(false, "dev"));
    assert_eq!(frame_duration(0), 1);
    assert_eq!(frame_duration(166_667), 166_667);
}

#[test]
fn recording_frame_ring() {
    let mut r = FrameRing::new(3);
    assert!(!r.has_frame());
    assert_eq!(r.audio_time(100), None);
    assert_eq!(r.note_frame(1_000), 0);
    assert_eq!(r.note_frame(2_000), 1);
    assert_eq!(r.note_frame(3_000), 2);
    assert_eq!(r.note_frame(4_000), 0);
    assert!(r.has_frame());
    assert_eq!(r.base, Some(1_000));
    assert_eq!(r.audio_time(1_500), Some(500));
    assert_eq!(r.audio_time(500), Some(0));
}

#[test]
fn drained_blocks_in_time_order() {
    assert_eq!(order_by_time(&[30, 10, 20, 10]), vec![1, 3, 2, 0]);
    assert_eq!(order_by_time(&[]), Vec::<usize>::new());
}

#[test]
fn capture_formats() {
    assert!(is_float_format(3, false));
    assert!(is_float_format(0xFFFE, true));
    assert!(!is_float_format(0xFFFE, false));
    assert!(!is_float_format(1, true));
    assert_eq!(conversion(true, true, 32, 480, 2), Conversion::Silence { bytes: 1920 });
    assert_eq!(conversion(false, true, 32, 480, 2), Conversion::FromFloat);
    assert_eq!(conversion(false, false, 16, 480, 2), Conversion::Copy);
    assert_eq!(conversion(false, false, 24, 480, 2), Conversion::Unsupported);
    assert_eq!(pcm_input_format(48_000, 2), (4, 192_000));
    assert_eq!(aac_output_size(0), 4096);
    assert_eq!(aac_output_size(8192), 8192);
}

#[test]
fn aac_output_type_choice() {
    let types = [
        (2, 44_100, 0, 16_000),
        (1, 48_000, 0, 12_000),
        (2, 48_000, 1, 16_000),
        (2, 48_000, 0, 12_000),
        (2, 48_000, 0, 16_000),
    ];
    assert_eq!(pick_aac_type(&types, 48_000, 2, 128_000), Some(4));
    assert_eq!(pick_aac_type(&types, 48_000, 2, 256_000), Some(3));
    assert_eq!(pick_aac_type(&types, 44_100, 1, 96_000), None);
}

#[test]
fn replay_sample_pool() {
    assert_eq!(nv12_pool(true, true), Nv12Pool::Provided);
    assert_eq!(nv12_pool(false, true), Nv12Pool::Cpu);
    assert_eq!(nv12_pool(false, false), Nv12Pool::Gpu);
}

#[test]
fn encoder_choice_from_lowercased_names() {
    let slots = vec![
        EncoderSlot { present: true, name: Some("Intel QSV".to_string()) },
        EncoderSlot { present: true, name: Some("NVIDIA NVENC".to_string()) },
    ];
    let names = vec![Some("intel qsv".to_string()), Some("nvidia nvenc".to_string())];
    assert_eq!(pick_encoder_among("nvenc", &slots, &names), Some(1));
    assert_eq!(pick_encoder_among("quick sync", &slots, &names), Some(0));
    assert_eq!(pick_encoder_among("other", &slots, &names), Some(0));
    assert_eq!(encoder_keywords_of("amf").len(), 2);
    assert!(encoder_keywords_of("AMF").is_empty());
}

#[test]
fn forward_slashes_of_a_path() {
    assert_eq!(forward_slashes("c:\\games\\a/b.exe"), "c:/games/a/b.exe");
}

#[test]
fn unicode_white_space() {
    for c in ['\t', '\n', '\u{0B}', '\u{0C}', '\r', ' ', '\u{85}', '\u{A0}', '\u{1680}', '\u{2000}', '\u{200A}',
        '\u{2028}', '\u{2029}', '\u{202F}', '\u{205F}', '\u{3000}'] {
        assert!(is_whitespace(c));
        assert_eq!(is_whitespace(c), c.is_whitespace());
    }
    for c in ['a', '0', '\u{200B}', '\u{FEFF}', '\u{180E}', '_'] {
        assert!(!is_whitespace(c));
        assert_eq!(is_whitespace(c), c.is_whitespace());
    }
}
