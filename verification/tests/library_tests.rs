use flashback::library::{
    edit_file_name, frame_file_name, is_mp4_extension, order_by_recent, thumb_file_name, toast_position, Mp4Scan,
};

fn boxed(typ: &[u8; 4], payload: &[u8]) -> Vec<u8> {
    let mut v = ((payload.len() + 8) as u32).to_be_bytes().to_vec();
    v.extend_from_slice(typ);
    v.extend_from_slice(payload);
    v
}

fn mvhd_v0(timescale: u32, duration: u32) -> Vec<u8> {
    let mut p = vec![0u8, 0, 0, 0];
    p.extend_from_slice(&[0u8; 8]);
    p.extend_from_slice(&timescale.to_be_bytes());
    p.extend_from_slice(&duration.to_be_bytes());
    p.extend_from_slice(&[0u8; 80]);
    boxed(b"mvhd", &p)
}

fn mvhd_v1(timescale: u32, duration: u64) -> Vec<u8> {
    let mut p = vec![1u8, 0, 0, 0];
    p.extend_from_slice(&[0u8; 16]);
    p.extend_from_slice(&timescale.to_be_bytes());
    p.extend_from_slice(&duration.to_be_bytes());
    p.extend_from_slice(&[0u8; 80]);
    boxed(b"mvhd", &p)
}

/// Runs the scan against a file held in memory, answering each read it asks for.
fn scan(file: &[u8]) -> Option<(u64, u64)> {
    let mut s = Mp4Scan::start(file.len() as u64);
    let mut steps = 0;
    while let Some((at, n)) = s.request() {
        let bytes = if at + (n as u128) <= file.len() as u128 {
            Some(file[at as usize..at as usize + n].to_vec())
        } else {
            None
        };
        s = s.step(bytes);
        steps += 1;
        assert!(steps < 1000);
    }
    s.result().unwrap()
}

#[test]
fn mp4_times_of_version_0_file() {
    let mut file = boxed(b"ftyp", b"isom\0\0\0\0");
    file.extend(boxed(b"mdat", &[7u8; 1000]));
    let mut moov = boxed(b"trak", &[0u8; 4]);
    moov.extend(mvhd_v0(1000, 65_432));
    file.extend(boxed(b"moov", &moov));
    assert_eq!(scan(&file), Some((1000, 65_432)));
}

#[test]
fn mp4_times_of_version_1_file_with_large_mdat() {
    let mut file = boxed(b"ftyp", b"isom");
    // A `mdat` with a 64-bit size.
    let payload = [0u8; 32];
    file.extend_from_slice(&1u32.to_be_bytes());
    file.extend_from_slice(b"mdat");
    file.extend_from_slice(&((payload.len() + 16) as u64).to_be_bytes());
    file.extend_from_slice(&payload);
    file.extend(boxed(b"moov", &mvhd_v1(90_000, 9_000_000_000)));
    assert_eq!(scan(&file), Some((90_000, 9_000_000_000)));
}

#[test]
fn mp4_moov_running_to_the_end() {
    let mut file = boxed(b"ftyp", b"isom");
    file.extend_from_slice(&0u32.to_be_bytes());
    file.extend_from_slice(b"moov");
    file.extend(mvhd_v0(600, 1200));
    assert_eq!(scan(&file), Some((600, 1200)));
}

#[test]
fn mp4_without_times() {
    // Zero timescale.
    let file = boxed(b"moov", &mvhd_v0(0, 10));
    assert_eq!(scan(&file), None);
    // No `moov`.
    assert_eq!(scan(&boxed(b"ftyp", b"isom")), None);
    // A box smaller than its header stops the scan.
    let mut bad = 4u32.to_be_bytes().to_vec();
    bad.extend_from_slice(b"free");
    bad.extend(boxed(b"moov", &mvhd_v0(1, 1)));
    assert_eq!(scan(&bad), None);
    // Truncated `mvhd`.
    let mut cut = boxed(b"moov", &mvhd_v0(1000, 5));
    cut.truncate(20);
    assert_eq!(scan(&cut), None);
    assert_eq!(scan(&[]), None);
}

#[test]
fn clip_extension() {
    assert!(is_mp4_extension("mp4"));
    assert!(is_mp4_extension("MP4"));
    assert!(!is_mp4_extension("mkv"));
    assert!(!is_mp4_extension("mp4 "));
}

#[test]
fn clips_listed_newest_first_stably() {
    assert_eq!(order_by_recent(&[10, 30, 20, 30, 0]), vec![1, 3, 2, 0, 4]);
    assert_eq!(order_by_recent(&[5, 5, 5]), vec![0, 1, 2]);
    assert_eq!(order_by_recent(&[]), Vec::<usize>::new());
    assert_eq!(order_by_recent(&[i64::MIN, i64::MAX]), vec![1, 0]);
}

#[test]
fn file_names() {
    assert_eq!(edit_file_name(Some("Flashback_2024")), "Flashback_2024_edit.mp4");
    assert_eq!(edit_file_name(None), "clip_edit.mp4");
    assert_eq!(frame_file_name(Some("match"), 12_345), "match_12345.png");
    assert_eq!(frame_file_name(None, 0), "clip_0.png");
    assert_eq!(thumb_file_name(0xdead_beef), "00000000deadbeef.jpg");
    assert_eq!(thumb_file_name(u64::MAX), "ffffffffffffffff.jpg");
}

#[test]
fn toast_goes_top_right() {
    assert_eq!(toast_position(0, 0, 1920, 360, 16), (1560, 16));
    assert_eq!(toast_position(-1920, 100, 1920, 400, 24), (-400, 124));
}
