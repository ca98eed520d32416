use std::collections::VecDeque;

use flashback::replay::{
    audio_timeline, rebase_time, usable_track, video_timeline, AudioMuxTrack, AudioRole, AudioTrackBuf, Packet,
    ReplayBuffer, LAST_SAMPLE_DURATION,
};

fn pkt(time: i64, key: bool) -> Packet {
    Packet { data: vec![time as u8], time, dur: 10, key }
}

fn times(q: &VecDeque<Packet>) -> Vec<i64> {
    q.iter().map(|p| p.time).collect()
}

#[test]
fn ring_window_is_at_least_one_second() {
    assert_eq!(ReplayBuffer::new(0, 1, 1, 60, 1).window_ns, 10_000_000);
    assert_eq!(ReplayBuffer::new(30, 1, 1, 60, 1).window_ns, 300_000_000);
}

#[test]
fn trim_keeps_window_from_a_keyframe() {
    // One-second window; a packet every half second, a keyframe every second.
    let mut b = ReplayBuffer::new(1, 1920, 1080, 60, 1);
    for i in 0..10i64 {
        b.push(vec![], i * 5_000_000, 5_000_000, i % 2 == 0);
    }
    // Newest at 4.5 s: the window starts at 3.5 s; the last keyframe at or before it
    // is at 3 s, so the ring starts there.
    assert_eq!(times(&b.packets), vec![30_000_000, 35_000_000, 40_000_000, 45_000_000]);
    assert!(b.packets[0].key);
}

#[test]
fn trim_without_keyframe_keeps_everything() {
    let mut b = ReplayBuffer::new(1, 1, 1, 60, 1);
    for i in 0..5i64 {
        b.push(vec![], i * 10_000_000, 1, false);
    }
    assert_eq!(b.packets.len(), 5);
}

#[test]
fn audio_track_keeps_newest_window() {
    let mut t = AudioTrackBuf::new(48_000, 2, 128_000, 100);
    t.push(vec![1], 0, 10);
    t.push(vec![2], 50, 10);
    t.push(vec![3], 100, 10);
    // Cutoff 0: the packet at 0 goes.
    assert_eq!(times(&t.packets), vec![50, 100]);
    t.push(vec![4], 1000, 10);
    assert_eq!(times(&t.packets), vec![1000]);
}

#[test]
fn audio_roles_and_configuration() {
    let mut b = ReplayBuffer::new(10, 1, 1, 60, 1);
    b.push_audio(AudioRole::Sys, vec![1], 5, 1);
    assert!(b.sys_audio.is_none());
    b.init_audio(Some((48_000, 6)), None);
    let sys = b.sys_audio.as_ref().unwrap();
    assert_eq!((sys.sample_rate, sys.channels, sys.bitrate), (48_000, 6, 128_000));
    assert!(b.mic_audio.is_none());
    b.push_audio(AudioRole::Sys, vec![1], 5, 1);
    b.set_user_data(AudioRole::Sys, vec![0x12, 0x10]);
    b.set_payload_type(AudioRole::Sys, 0);
    b.set_user_data(AudioRole::Mic, vec![9]);
    let sys = b.sys_audio.as_ref().unwrap();
    assert_eq!(sys.packets.len(), 1);
    assert_eq!(sys.user_data, vec![0x12, 0x10]);
    assert!(b.mic_audio.is_none());
}

#[test]
fn reconfigure_drops_packets_of_another_size() {
    let mut b = ReplayBuffer::new(10, 1920, 1080, 60, 1);
    b.push(vec![1], 0, 1, true);
    b.configure(1920, 1080, 60, 2, None, None);
    assert_eq!(b.packets.len(), 1);
    b.seq_header = vec![7];
    b.configure(1280, 720, 30, 3, Some((44_100, 1)), None);
    assert!(b.packets.is_empty());
    assert!(b.seq_header.is_empty());
    assert_eq!((b.width, b.height, b.fps, b.bitrate), (1280, 720, 30, 3));
    assert_eq!(b.sys_audio.as_ref().unwrap().bitrate, 96_000);
}

#[test]
fn sequence_header_taken_once() {
    let mut b = ReplayBuffer::new(10, 1, 1, 60, 1);
    let mut grabbed = false;
    b.accept_sequence_header(None, &mut grabbed);
    assert!(!grabbed);
    b.accept_sequence_header(Some(vec![1, 2]), &mut grabbed);
    assert!(grabbed);
    b.accept_sequence_header(Some(vec![3]), &mut grabbed);
    assert_eq!(b.seq_header, vec![1, 2]);
}

#[test]
fn encoded_packets_take_queued_times_and_in_band_headers() {
    let mut b = ReplayBuffer::new(10, 1, 1, 60, 1);
    let mut grabbed = false;
    let mut fifo: VecDeque<i64> = VecDeque::from(vec![100, 200]);
    let idr = vec![0, 0, 0, 1, 0x67, 0xAA, 0, 0, 1, 0x65, 0xBB];
    b.accept_encoded(idr, 999, 5, true, &mut grabbed, &mut fifo);
    assert!(grabbed);
    assert_eq!(b.seq_header, vec![0, 0, 0, 1, 0x67, 0xAA]);
    assert_eq!(b.packets[0].time, 100);
    assert_eq!(fifo, VecDeque::from(vec![200]));
    b.accept_encoded(vec![0, 0, 1, 0x41], 999, 5, false, &mut grabbed, &mut fifo);
    b.accept_encoded(vec![0, 0, 1, 0x41], 999, 5, false, &mut grabbed, &mut fifo);
    assert_eq!(times(&b.packets), vec![100, 200, 999]);
}

#[test]
fn a_whole_drain_is_taken_in_order() {
    let mut b = ReplayBuffer::new(10, 1, 1, 60, 1);
    let mut grabbed = false;
    let mut fifo: VecDeque<i64> = VecDeque::from(vec![100, 200]);
    let samples = vec![
        // No clean-point flag, but an IDR in the bitstream, with in-band SPS.
        (vec![0, 0, 0, 1, 0x67, 0xAA, 0, 0, 1, 0x65, 0xBB], 999, 5, 0u32),
        (vec![0, 0, 1, 0x41], 998, 5, 0u32),
        // The input times are used up: the encoder's own time.
        (vec![0, 0, 1, 0x67, 0xCC, 0, 0, 1, 0x41], 997, 5, 1u32),
    ];
    assert_eq!(b.accept_drained(samples, &mut grabbed, &mut fifo), 3);
    assert!(grabbed);
    // The header is the first in-band one; the later SPS does not replace it.
    assert_eq!(b.seq_header, vec![0, 0, 0, 1, 0x67, 0xAA]);
    assert_eq!(times(&b.packets), vec![100, 200, 997]);
    assert_eq!(b.packets.iter().map(|p| p.key).collect::<Vec<_>>(), vec![true, false, true]);
    assert!(fifo.is_empty());
}

#[test]
fn capture_audio_is_rebased_on_video() {
    let mut b = ReplayBuffer::new(10, 1, 1, 60, 1);
    b.init_audio(None, Some((48_000, 1)));
    b.push_audio_from_capture(AudioRole::Mic, vec![1], 500, 10, i64::MIN);
    assert!(b.mic_audio.as_ref().unwrap().packets.is_empty());
    b.push_audio_from_capture(AudioRole::Mic, vec![1], 500, 10, 200);
    b.push_audio_from_capture(AudioRole::Mic, vec![1], 100, 10, 200);
    assert_eq!(times(&b.mic_audio.as_ref().unwrap().packets), vec![300, 0]);
}

#[test]
fn snapshot_starts_on_first_keyframe() {
    let mut b = ReplayBuffer::new(100, 8, 6, 30, 4);
    b.push(vec![1], 1, 1, false);
    b.push(vec![2], 2, 1, true);
    b.push(vec![3], 3, 1, false);
    let s = b.snapshot();
    assert_eq!(s.total, 3);
    assert_eq!(s.packets.iter().map(|p| p.time).collect::<Vec<_>>(), vec![2, 3]);
    assert!(s.packets[0].key);
    assert_eq!((s.width, s.height, s.fps, s.bitrate), (8, 6, 30, 4));
    let mut none = ReplayBuffer::new(100, 8, 6, 30, 4);
    none.push(vec![1], 1, 1, false);
    let s = none.snapshot();
    assert!(s.packets.is_empty());
    assert_eq!(s.total, 1);
}

#[test]
fn mux_track_copy_and_usability() {
    let mut t = AudioTrackBuf::new(44_100, 2, 128_000, 1_000);
    t.push(vec![5], 10, 2);
    let m = AudioMuxTrack::from_track(&t);
    assert_eq!(m.packets.len(), 1);
    assert!(usable_track(Some(m)).is_none());
    t.user_data = vec![0x12];
    let m = AudioMuxTrack::from_track(&t);
    assert_eq!(usable_track(Some(m)).unwrap().user_data, vec![0x12]);
    let empty = AudioMuxTrack::from_track(&AudioTrackBuf::new(1, 1, 1, 1));
    assert!(usable_track(Some(empty)).is_none());
    assert!(usable_track(None).is_none());
}

#[test]
fn rebasing() {
    assert_eq!(rebase_time(50, i64::MIN), None);
    assert_eq!(rebase_time(50, 20), Some(30));
    assert_eq!(rebase_time(10, 20), Some(0));
}

#[test]
fn video_samples_tile_the_clip() {
    let pkts = vec![pkt(1000, true), pkt(1500, false), pkt(1500, false), pkt(2600, false)];
    let tl = video_timeline(&pkts);
    assert_eq!(tl, vec![(0, 500), (500, 1), (500, 1100), (1600, LAST_SAMPLE_DURATION)]);
    assert_eq!(tl[0].0 + tl[0].1, tl[1].0);
}

#[test]
fn audio_samples_before_video_are_dropped() {
    let pkts = vec![pkt(90, false), pkt(100, false), pkt(130, false)];
    assert_eq!(audio_timeline(&pkts, 100), vec![(1, 0, 10), (2, 30, 10)]);
    assert!(audio_timeline(&pkts, 1000).is_empty());
}
