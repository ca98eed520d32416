//! The clip library: the duration of an MP4 file from its ISO-BMFF box tree, read a
//! few bytes at a time (the scan asks for reads and is handed their results, so it
//! never reads a `mdat` payload), and the order in which clips are listed.
use vstd::prelude::*;
use crate::text::{
    append_str, chars_eq_ignore_ascii_case, chars_of, decimal, eq_ignore_ascii_case, push_decimal,
    string_from_chars,
};

verus! {

// ---------------------------------------------------------------------------
// The box tree, over the file's bytes
// ---------------------------------------------------------------------------

/// The big-endian value of a byte sequence.
pub open spec fn be_value(b: Seq<u8>) -> nat
    decreases b.len(),
{
    if b.len() == 0 {
        0
    } else {
        be_value(b.drop_last()) * 256 + b.last() as nat
    }
}

/// The `n` bytes of `f` at `at`, when the file holds them (a read that `read_exact`
/// completes).
pub open spec fn read_at(f: Seq<u8>, at: int, n: int) -> Option<Seq<u8>> {
    if 0 <= at && 0 <= n && at + n <= f.len() {
        Some(f.subrange(at, at + n))
    } else {
        None
    }
}

/// The kind of a box, from its four type bytes.
pub enum BoxKind {
    Moov,
    Mvhd,
    Other,
}

/// `moov`, `mvhd`, or another box type.
pub open spec fn box_kind(t: Seq<u8>) -> BoxKind {
    if t == seq![0x6Du8, 0x6Fu8, 0x6Fu8, 0x76u8] {
        BoxKind::Moov
    } else if t == seq![0x6Du8, 0x76u8, 0x68u8, 0x64u8] {
        BoxKind::Mvhd
    } else {
        BoxKind::Other
    }
}

/// The timescale and duration of a `mvhd` box whose payload starts at `at`, once its
/// version is known: version 1 has 64-bit times (the timescale after 16 bytes of
/// dates, then a 64-bit duration), version 0 32-bit ones; none when the timescale
/// is 0 or the file ends first.
pub open spec fn mvhd_times(f: Seq<u8>, at: int, long: bool) -> Option<(u64, u64)> {
    let fields = if long {
        read_at(f, at + 20, 12)
    } else {
        read_at(f, at + 12, 8)
    };
    match fields {
        None => None,
        Some(b) => {
            let timescale = be_value(b.subrange(0, 4));
            let duration = be_value(b.subrange(4, b.len() as int));
            if timescale == 0 {
                None
            } else {
                Some((timescale as u64, duration as u64))
            }
        },
    }
}

/// The times of the `mvhd` box whose payload starts at `at` (version byte 1: long form).
pub open spec fn read_mvhd(f: Seq<u8>, at: int) -> Option<(u64, u64)> {
    match read_at(f, at, 4) {
        None => None,
        Some(vf) => mvhd_times(f, at, vf[0] == 1),
    }
}

/// What the scan does once the box at `pos` is known to span `box_size` bytes with a
/// `header`-byte header: at the top level it descends into `moov` (whose children end
/// with it); inside `moov` it reads `mvhd`; a box smaller than its header stops the
/// scan; any other box is skipped.
pub open spec fn after_box(
    f: Seq<u8>,
    pos: int,
    end: int,
    in_moov: bool,
    kind: BoxKind,
    box_size: int,
    header: int,
) -> Option<(u64, u64)> {
    if !in_moov && kind is Moov {
        scan_boxes(f, pos + header, pos + box_size, true)
    } else if in_moov && kind is Mvhd {
        read_mvhd(f, pos + header)
    } else if box_size < header {
        None
    } else {
        scan_boxes(f, pos + box_size, end, in_moov)
    }
}

/// The timescale and duration of an MP4 file, scanning the boxes from `pos` to `end`
/// (the top level, or the children of `moov`). A box starts with a 32-bit size and
/// four type bytes; size 1 means a 64-bit size follows (a 16-byte header), size 0
/// that the box runs to the end of its container. None when no `mvhd` is reached.
pub open spec fn scan_boxes(f: Seq<u8>, pos: int, end: int, in_moov: bool) -> Option<(u64, u64)>
    decreases
            (if in_moov {
                0int
            } else {
                1int
            }),
            (if pos <= end {
                end - pos
            } else {
                0int
            }),
{
    if pos < 0 || pos + 8 > end {
        None
    } else {
        match read_at(f, pos, 8) {
            None => None,
            Some(h) => {
                let size32 = be_value(h.subrange(0, 4)) as int;
                let kind = box_kind(h.subrange(4, 8));
                let ext: Option<(int, int)> = if size32 == 1 {
                    match read_at(f, pos + 8, 8) {
                        Some(l) => Some((be_value(l) as int, 16int)),
                        None => None,
                    }
                } else if size32 == 0 {
                    Some((end - pos, 8int))
                } else {
                    Some((size32, 8int))
                };
                match ext {
                    None => None,
                    Some((box_size, header)) => {
                        if !in_moov && kind is Moov {
                            scan_boxes(f, pos + header, pos + box_size, true)
                        } else if in_moov && kind is Mvhd {
                            read_mvhd(f, pos + header)
                        } else if box_size < header {
                            None
                        } else {
                            scan_boxes(f, pos + box_size, end, in_moov)
                        }
                    },
                }
            },
        }
    }
}

/// The timescale and duration recorded in an MP4 file's `mvhd` box (the duration in
/// seconds is their quotient).
pub open spec fn mp4_times(f: Seq<u8>) -> Option<(u64, u64)> {
    scan_boxes(f, 0, f.len() as int, false)
}

/// The bytes of a read, if it completed.
pub open spec fn bytes_view(b: Option<Vec<u8>>) -> Option<Seq<u8>> {
    match b {
        Some(v) => Some(v@),
        None => None,
    }
}

// ---------------------------------------------------------------------------
// The scan, one read at a time
// ---------------------------------------------------------------------------

enum Stage {
    Header { pos: u128, end: u128, in_moov: bool },
    LargeSize { pos: u128, end: u128, in_moov: bool, kind: BoxKind },
    Version { at: u128 },
    Times { at: u128, long: bool },
    Done { times: Option<(u64, u64)> },
}

/// A scan for an MP4 file's times: it asks for reads (`request`) and is handed their
/// results (`step`) until it is done (`result`).
pub struct Mp4Scan {
    stage: Stage,
}

/// The work left at a box header at `pos` in a container ending at `end` (`rank` 1
/// before its size is read, 0 while its 64-bit size is awaited); top-level headers
/// count above anything inside `moov`.
pub open spec fn level_measure(pos: int, end: int, in_moov: bool, rank: int) -> nat {
    let base = if in_moov {
        3
    } else {
        3 + 2 * pos_limit() + 2
    };
    (base + 2 * (end - pos) + rank) as nat
}

/// The largest position the scan keeps: twice the largest file plus slack.
pub open spec fn pos_limit() -> int {
    0x4_0000_0000_0000_0000
}

impl Mp4Scan {
    /// The scan's state is consistent: a pending header lies inside its container.
    pub closed spec fn wf(&self) -> bool {
        match self.stage {
            Stage::Header { pos, end, in_moov } => pos + 8 <= end <= pos_limit() && (in_moov
                || end <= u64::MAX),
            Stage::LargeSize { pos, end, in_moov, kind } => pos + 8 <= end <= pos_limit() && (in_moov
                || end <= u64::MAX),
            Stage::Version { at } => at <= pos_limit() + 16,
            Stage::Times { at, long } => at <= pos_limit() + 16,
            Stage::Done { times } => true,
        }
    }

    /// The read the scan waits for: offset and length; none once it is done.
    pub closed spec fn pending(&self) -> Option<(int, int)> {
        match self.stage {
            Stage::Header { pos, end, in_moov } => Some((pos as int, 8int)),
            Stage::LargeSize { pos, end, in_moov, kind } => Some((pos + 8, 8int)),
            Stage::Version { at } => Some((at as int, 4int)),
            Stage::Times { at, long } => if long {
                Some((at + 20, 12int))
            } else {
                Some((at + 12, 8int))
            },
            Stage::Done { times } => None,
        }
    }

    /// What the scan will find in file `f`, from where it stands.
    pub closed spec fn outcome(&self, f: Seq<u8>) -> Option<(u64, u64)> {
        match self.stage {
            Stage::Header { pos, end, in_moov } => scan_boxes(f, pos as int, end as int, in_moov),
            Stage::LargeSize { pos, end, in_moov, kind } => match read_at(f, pos + 8, 8) {
                None => None,
                Some(l) => after_box(f, pos as int, end as int, in_moov, kind, be_value(l) as int, 16),
            },
            Stage::Version { at } => read_mvhd(f, at as int),
            Stage::Times { at, long } => mvhd_times(f, at as int, long),
            Stage::Done { times } => times,
        }
    }

    /// `bytes` is what file `f` gives for the read the scan waits for.
    pub open spec fn answered(&self, f: Seq<u8>, bytes: Option<Seq<u8>>) -> bool {
        match self.pending() {
            Some((at, n)) => read_at(f, at, n) == bytes,
            None => true,
        }
    }

    /// How much work the scan has left, at most: every step of a scan that is not done
    /// lowers it, so a scan always ends. A box header counts by the bytes left in its
    /// container (top-level headers above any `moov` child's), then the `mvhd`
    /// version and times.
    pub closed spec fn progress(&self) -> nat {
        match self.stage {
            Stage::Header { pos, end, in_moov } => level_measure(pos as int, end as int, in_moov, 1),
            Stage::LargeSize { pos, end, in_moov, kind } => level_measure(pos as int, end as int, in_moov, 0),
            Stage::Version { at } => 2,
            Stage::Times { at, long } => 1,
            Stage::Done { times } => 0,
        }
    }

    /// `bytes` is a completed read of the length the scan waits for.
    pub open spec fn read_complete(&self, bytes: Option<Seq<u8>>) -> bool {
        match self.pending() {
            Some((at, n)) => bytes matches Some(b) && b.len() == n,
            None => true,
        }
    }

    /// The scan has finished with this result.
    pub closed spec fn finished(&self) -> Option<Option<(u64, u64)>> {
        match self.stage {
            Stage::Done { times } => Some(times),
            _ => None,
        }
    }

    fn enter(pos: u128, end: u128, in_moov: bool) -> (s: Mp4Scan)
        requires
            pos <= 2 * pos_limit(),
            end <= pos_limit(),
            in_moov || end <= u64::MAX,
        ensures
            s.wf(),
            forall|f: Seq<u8>| #[trigger] s.outcome(f) == scan_boxes(f, pos as int, end as int, in_moov),
            s.progress() == if pos + 8 > end {
                0
            } else {
                level_measure(pos as int, end as int, in_moov, 1)
            },
    {
        if pos + 8 > end {
            Mp4Scan { stage: Stage::Done { times: None } }
        } else {
            Mp4Scan { stage: Stage::Header { pos, end, in_moov } }
        }
    }

    /// The scan of a file of `file_len` bytes, from its first box.
    pub fn start(file_len: u64) -> (s: Mp4Scan)
        ensures
            s.wf(),
            forall|f: Seq<u8>| f.len() == file_len ==> #[trigger] s.outcome(f) == mp4_times(f),
    {
        Mp4Scan::enter(0, file_len as u128, false)
    }

    /// The read to perform next (offset, length), or none when the scan is done.
    pub fn request(&self) -> (r: Option<(u128, usize)>)
        requires
            self.wf(),
        ensures
            match self.pending() {
                Some((at, n)) => r matches Some((a, k)) && a == at && k == n,
                None => r is None,
            },
            r matches Some((a, k)) ==> 4 <= k <= 12,
    {
        match &self.stage {
            Stage::Header { pos, end, in_moov } => Some((*pos, 8)),
            Stage::LargeSize { pos, end, in_moov, kind } => Some((*pos + 8, 8)),
            Stage::Version { at } => Some((*at, 4)),
            Stage::Times { at, long } => if *long {
                Some((*at + 20, 12))
            } else {
                Some((*at + 12, 8))
            },
            Stage::Done { times } => None,
        }
    }

    /// The result, once the scan is done: the file's timescale and duration, if found.
    pub fn result(&self) -> (r: Option<Option<(u64, u64)>>)
        ensures
            r == self.finished(),
    {
        match &self.stage {
            Stage::Done { times } => Some(*times),
            _ => None,
        }
    }

    /// Hands the scan the result of the read it asked for: the bytes, or none when the
    /// file did not hold them. For every file that answers so, what the scan will find
    /// is unchanged; a finished scan stays as it is. A scan not yet done always moves
    /// on (its `progress` drops, so every scan ends), and a read that did not bring the
    /// bytes asked for ends it with no result.
    pub fn step(self, bytes: Option<Vec<u8>>) -> (s: Mp4Scan)
        requires
            self.wf(),
        ensures
            s.wf(),
            self.finished() is Some ==> s == self,
            forall|f: Seq<u8>|
                #[trigger] self.answered(f, bytes_view(bytes)) ==> s.outcome(f) == self.outcome(f),
            self.finished() is None ==> s.progress() < self.progress(),
            !self.read_complete(bytes_view(bytes)) ==> s.finished() == Some(None::<(u64, u64)>),
    {
        match self.stage {
            Stage::Done { times } => Mp4Scan { stage: Stage::Done { times } },
            Stage::Header { pos, end, in_moov } => {
                match bytes {
                    Some(b) if b.len() == 8 => {
                        let size32: u32 = be4(b.as_slice(), 0);
                        let kind = kind_of(b.as_slice());
                        if size32 == 1 {
                            Mp4Scan { stage: Stage::LargeSize { pos, end, in_moov, kind } }
                        } else if size32 == 0 {
                            Mp4Scan::decide(pos, end, in_moov, kind, end - pos, 8)
                        } else {
                            Mp4Scan::decide(pos, end, in_moov, kind, size32 as u128, 8)
                        }
                    },
                    _ => Mp4Scan { stage: Stage::Done { times: None } },
                }
            },
            Stage::LargeSize { pos, end, in_moov, kind } => {
                match bytes {
                    Some(b) if b.len() == 8 => {
                        let size: u64 = be8(b.as_slice(), 0);
                        proof {
                            assert(b@.subrange(0, 8) =~= b@);
                        }
                        Mp4Scan::decide(pos, end, in_moov, kind, size as u128, 16)
                    },
                    _ => Mp4Scan { stage: Stage::Done { times: None } },
                }
            },
            Stage::Version { at } => {
                match bytes {
                    Some(b) if b.len() == 4 => Mp4Scan { stage: Stage::Times { at, long: b[0] == 1 } },
                    _ => Mp4Scan { stage: Stage::Done { times: None } },
                }
            },
            Stage::Times { at, long } => {
                let want: usize = if long {
                    12
                } else {
                    8
                };
                match bytes {
                    Some(b) if b.len() == want => {
                        let timescale: u32 = be4(b.as_slice(), 0);
                        let duration: u64 = if long {
                            be8(b.as_slice(), 4)
                        } else {
                            be4(b.as_slice(), 4) as u64
                        };
                        proof {
                            if long {
                                assert(b@.subrange(4, 12) =~= b@.subrange(4, b@.len() as int));
                            } else {
                                assert(b@.subrange(4, 8) =~= b@.subrange(4, b@.len() as int));
                            }
                        }
                        if timescale == 0 {
                            Mp4Scan { stage: Stage::Done { times: None } }
                        } else {
                            Mp4Scan { stage: Stage::Done { times: Some((timescale as u64, duration)) } }
                        }
                    },
                    _ => Mp4Scan { stage: Stage::Done { times: None } },
                }
            },
        }
    }

    fn decide(pos: u128, end: u128, in_moov: bool, kind: BoxKind, box_size: u128, header: u128) -> (s:
        Mp4Scan)
        requires
            pos + 8 <= end <= pos_limit(),
            in_moov || end <= u64::MAX,
            box_size <= 0x1_0000_0000_0000_0000 || box_size <= end - pos,
            header == 8 || header == 16,
        ensures
            s.wf(),
            forall|f: Seq<u8>|
                #[trigger] s.outcome(f) == after_box(
                    f,
                    pos as int,
                    end as int,
                    in_moov,
                    kind,
                    box_size as int,
                    header as int,
                ),
            s.progress() < level_measure(pos as int, end as int, in_moov, 0),
    {
        if !in_moov && matches!(kind, BoxKind::Moov) {
            Mp4Scan::enter(pos + header, pos + box_size, true)
        } else if in_moov && matches!(kind, BoxKind::Mvhd) {
            Mp4Scan { stage: Stage::Version { at: pos + header } }
        } else if box_size < header {
            Mp4Scan { stage: Stage::Done { times: None } }
        } else {
            Mp4Scan::enter(pos + box_size, end, in_moov)
        }
    }
}

/// The big-endian `u32` at `at`.
fn be4(b: &[u8], at: usize) -> (r: u32)
    requires
        at + 4 <= b@.len(),
    ensures
        r == be_value(b@.subrange(at as int, at + 4)),
{
    proof {
        let s = b@.subrange(at as int, at + 4);
        reveal_with_fuel(be_value, 5);
        assert(s.drop_last().drop_last().drop_last().drop_last() =~= Seq::<u8>::empty());
        assert(s.drop_last().drop_last().drop_last() =~= seq![s[0]]);
        assert(s.drop_last().drop_last() =~= seq![s[0], s[1]]);
        assert(s.drop_last() =~= seq![s[0], s[1], s[2]]);
        assert(be_value(s) == ((s[0] as nat * 256 + s[1]) * 256 + s[2]) * 256 + s[3]);
    }
    let r: u32 = (b[at] as u32) * 16777216 + (b[at + 1] as u32) * 65536 + (b[at + 2] as u32) * 256
        + (b[at + 3] as u32);
    r
}

/// The big-endian `u64` at `at`.
fn be8(b: &[u8], at: usize) -> (r: u64)
    requires
        at + 8 <= b@.len(),
    ensures
        r == be_value(b@.subrange(at as int, at + 8)),
{
    let n = b.len();
    let hi = be4(b, at);
    let lo = be4(b, at + 4);
    proof {
        lemma_be_split(b@.subrange(at as int, at + 8), 4);
        assert(b@.subrange(at as int, at + 8).subrange(0, 4) =~= b@.subrange(at as int, at + 4));
        assert(b@.subrange(at as int, at + 8).subrange(4, 8) =~= b@.subrange(at + 4, at + 8));
    }
    (hi as u64) * 4294967296 + (lo as u64)
}

/// The big-endian value of a sequence split in two.
proof fn lemma_be_split(s: Seq<u8>, k: int)
    requires
        0 <= k <= s.len(),
        s.len() - k == 4,
    ensures
        be_value(s) == be_value(s.subrange(0, k)) * 4294967296 + be_value(s.subrange(k, s.len() as int)),
{
    let lo = s.subrange(k, s.len() as int);
    let t1 = s.drop_last();
    let t2 = t1.drop_last();
    let t3 = t2.drop_last();
    let t4 = t3.drop_last();
    assert(t4 =~= s.subrange(0, k));
    assert(lo.drop_last().drop_last().drop_last().drop_last() =~= Seq::<u8>::empty());
    reveal_with_fuel(be_value, 5);
    assert(lo.drop_last().drop_last().drop_last() =~= seq![s[k]]);
    assert(lo.drop_last().drop_last() =~= seq![s[k], s[k + 1]]);
    assert(lo.drop_last() =~= seq![s[k], s[k + 1], s[k + 2]]);
    assert(be_value(t1) == be_value(t2) * 256 + s[k + 2]);
    assert(be_value(t2) == be_value(t3) * 256 + s[k + 1]);
    assert(be_value(t3) == be_value(t4) * 256 + s[k]);
    assert(be_value(lo) == ((s[k] as nat * 256 + s[k + 1]) * 256 + s[k + 2]) * 256 + s[k + 3]);
    assert(be_value(s) == be_value(t1) * 256 + s[k + 3]);
    assert(be_value(s) == be_value(t4) * 4294967296 + be_value(lo)) by (nonlinear_arith)
        requires
            be_value(s) == be_value(t1) * 256 + s[k + 3],
            be_value(t1) == be_value(t2) * 256 + s[k + 2],
            be_value(t2) == be_value(t3) * 256 + s[k + 1],
            be_value(t3) == be_value(t4) * 256 + s[k],
            be_value(lo) == ((s[k] as nat * 256 + s[k + 1]) * 256 + s[k + 2]) * 256 + s[k + 3],
    ;
}

fn kind_of(b: &[u8]) -> (k: BoxKind)
    requires
        b@.len() == 8,
    ensures
        k == box_kind(b@.subrange(4, 8)),
{
    let ghost t = b@.subrange(4, 8);
    if b[4] == 0x6D && b[5] == 0x6F && b[6] == 0x6F && b[7] == 0x76 {
        assert(t =~= seq![0x6Du8, 0x6Fu8, 0x6Fu8, 0x76u8]);
        BoxKind::Moov
    } else if b[4] == 0x6D && b[5] == 0x76 && b[6] == 0x68 && b[7] == 0x64 {
        assert(t =~= seq![0x6Du8, 0x76u8, 0x68u8, 0x64u8]);
        BoxKind::Mvhd
    } else {
        assert(t != seq![0x6Du8, 0x6Fu8, 0x6Fu8, 0x76u8]) by {
            if t == seq![0x6Du8, 0x6Fu8, 0x6Fu8, 0x76u8] {
                assert(t[0] == b@[4] && t[1] == b@[5] && t[2] == b@[6] && t[3] == b@[7]);
            }
        }
        assert(t != seq![0x6Du8, 0x76u8, 0x68u8, 0x64u8]) by {
            if t == seq![0x6Du8, 0x76u8, 0x68u8, 0x64u8] {
                assert(t[0] == b@[4] && t[1] == b@[5] && t[2] == b@[6] && t[3] == b@[7]);
            }
        }
        BoxKind::Other
    }
}



/// A scan reads headers and `mvhd` fields only, never a box's payload: each read asks
/// for 4 to 12 bytes. And once it is done, its result is what it set out to find: so
/// a scan started on a file and handed that file's answers ends with `mp4_times` of
/// the file.
pub proof fn law_scan_result_is_outcome(s: Mp4Scan, f: Seq<u8>)
    requires
        s.wf(),
    ensures
        s.pending() matches Some((a, n)) ==> 4 <= n <= 12,
        s.finished() matches Some(r) ==> s.outcome(f) == r,
{
}

// ---------------------------------------------------------------------------
// Listing
// ---------------------------------------------------------------------------

/// A clip file: its extension is `mp4`, ignoring ASCII case.
pub fn is_mp4_extension(ext: &str) -> (r: bool)
    ensures
        r == eq_ignore_ascii_case(ext@, "mp4"@),
{
    let e = chars_of(ext);
    let m = chars_of("mp4");
    chars_eq_ignore_ascii_case(e.as_slice(), m.as_slice())
}

/// Clips newest first: `order` lists each index of `modified` (the clips' modification
/// times, in ms) once, with times that never increase along it, clips of equal time in
/// the order they were listed in.
pub open spec fn is_recent_first(modified: Seq<i64>, order: Seq<usize>) -> bool {
    &&& order.len() == modified.len()
    &&& forall|i: int| 0 <= i < order.len() ==> (#[trigger] order[i] as int) < modified.len()
    &&& forall|i: int, j: int| 0 <= i < j < order.len() ==> order[i] != order[j]
    &&& forall|i: int, j: int|
        0 <= i < j < order.len() ==> modified[order[i] as int] >= modified[order[j] as int]
    &&& forall|i: int, j: int|
        0 <= i < j < order.len() && modified[order[i] as int] == modified[order[j] as int] ==> order[i]
            < order[j]
}

/// The order in which clips are listed: newest first, a stable sort of their
/// modification times (see `is_recent_first`).
pub fn order_by_recent(modified: &[i64]) -> (order: Vec<usize>)
    ensures
        is_recent_first(modified@, order@),
{
    let n = modified.len();
    let mut out: Vec<usize> = Vec::new();
    let mut k: usize = 0;
    while k < n
        invariant
            k <= n == modified@.len(),
            out@.len() == k,
            forall|i: int| 0 <= i < out@.len() ==> (#[trigger] out@[i] as int) < k,
            forall|i: int, j: int| 0 <= i < j < out@.len() ==> out@[i] != out@[j],
            forall|i: int, j: int|
                0 <= i < j < out@.len() ==> modified@[out@[i] as int] >= modified@[out@[j] as int],
            forall|i: int, j: int|
                0 <= i < j < out@.len() && modified@[out@[i] as int] == modified@[out@[j] as int]
                    ==> out@[i] < out@[j],
        decreases n - k,
    {
        let key = modified[k];
        let mut p: usize = 0;
        while p < out.len() && modified[out[p]] >= key
            invariant
                p <= out@.len(),
                k < n == modified@.len(),
                key == modified@[k as int],
                forall|i: int| 0 <= i < out@.len() ==> (#[trigger] out@[i] as int) < k,
                forall|q: int| 0 <= q < p ==> modified@[(#[trigger] out@[q]) as int] >= key,
            decreases out@.len() - p,
        {
            p = p + 1;
        }
        let ghost before = out@;
        proof {
            if p < before.len() {
                assert(modified@[before[p as int] as int] < key);
            }
        }
        out.insert(p, k);
        proof {
            assert forall|i: int, j: int| 0 <= i < j < out@.len() implies modified@[out@[i] as int]
                >= modified@[out@[j] as int] by {
                if i < p && j == p {
                } else if i < p && j > p {
                    assert(out@[j] == before[j - 1]);
                } else if i == p && j > p {
                    assert(out@[j] == before[j - 1]);
                    assert(modified@[before[p as int] as int] >= modified@[before[j - 1] as int] || j - 1
                        == p);
                } else if i > p {
                    assert(out@[i] == before[i - 1] && out@[j] == before[j - 1]);
                }
            }
            assert forall|i: int, j: int|
                0 <= i < j < out@.len() && modified@[out@[i] as int] == modified@[out@[j] as int]
                    implies out@[i] < out@[j] by {
                if i < p && j == p {
                } else if i < p && j > p {
                    assert(out@[j] == before[j - 1]);
                } else if i == p && j > p {
                    assert(out@[j] == before[j - 1]);
                    assert(modified@[before[j - 1] as int] <= modified@[before[p as int] as int]);
                } else if i > p {
                    assert(out@[i] == before[i - 1] && out@[j] == before[j - 1]);
                }
            }
            assert forall|i: int, j: int| 0 <= i < j < out@.len() implies out@[i] != out@[j] by {
                if i < p && j == p {
                } else if i < p && j > p {
                    assert(out@[j] == before[j - 1]);
                } else if i == p && j > p {
                    assert(out@[j] == before[j - 1]);
                } else if i > p {
                    assert(out@[i] == before[i - 1] && out@[j] == before[j - 1]);
                }
            }
            assert forall|i: int| 0 <= i < out@.len() implies (#[trigger] out@[i] as int) < k + 1 by {
                if i < p {
                } else if i > p {
                    assert(out@[i] == before[i - 1]);
                }
            }
        }
        k = k + 1;
    }
    out
}


// ---------------------------------------------------------------------------
// File names
// ---------------------------------------------------------------------------

/// A clip's file stem, `clip` when it has none.
pub open spec fn stem_or_clip(stem: Option<Seq<char>>) -> Seq<char> {
    match stem {
        Some(s) => s,
        None => "clip"@,
    }
}

/// The file an edited clip is exported to (in the edits folder): `<stem>_edit.mp4`.
pub fn edit_file_name(stem: Option<&str>) -> (r: String)
    ensures
        r@ == stem_or_clip(
            match stem {
                Some(s) => Some(s@),
                None => None,
            },
        ) + "_edit.mp4"@,
{
    let mut out: Vec<char> = Vec::new();
    match stem {
        Some(s) => append_str(&mut out, s),
        None => append_str(&mut out, "clip"),
    }
    append_str(&mut out, "_edit.mp4");
    string_from_chars(out.as_slice())
}

/// The file a frame captured from a clip is saved to: `<stem>_<ms>.png`, with the
/// frame's time in whole milliseconds.
pub fn frame_file_name(stem: Option<&str>, ms: u64) -> (r: String)
    ensures
        r@ == stem_or_clip(
            match stem {
                Some(s) => Some(s@),
                None => None,
            },
        ) + "_"@ + decimal(ms as nat) + ".png"@,
{
    let mut out: Vec<char> = Vec::new();
    match stem {
        Some(s) => append_str(&mut out, s),
        None => append_str(&mut out, "clip"),
    }
    append_str(&mut out, "_");
    push_decimal(&mut out, ms);
    append_str(&mut out, ".png");
    string_from_chars(out.as_slice())
}

/// A lower-case hexadecimal digit.
pub open spec fn hex_lower(d: int) -> char {
    if d < 10 {
        (48 + d) as char
    } else {
        (87 + d) as char
    }
}

/// The last `w` hexadecimal digits of `n`, zero-padded (`{:0w$x}` for a value that
/// fits).
pub open spec fn hex_digits(n: nat, w: nat) -> Seq<char>
    decreases w,
{
    if w == 0 {
        seq![]
    } else {
        hex_digits(n / 16, (w - 1) as nat).push(hex_lower((n % 16) as int))
    }
}

fn push_hex(out: &mut Vec<char>, n: u64, w: u32)
    ensures
        final(out)@ == old(out)@ + hex_digits(n as nat, w as nat),
    decreases w,
{
    if w == 0 {
        assert(final(out)@ =~= old(out)@ + hex_digits(n as nat, w as nat));
        return;
    }
    push_hex(out, n / 16, w - 1);
    let d: u8 = (n % 16) as u8;
    let c = if d < 10 {
        (48u8 + d) as char
    } else {
        (87u8 + d) as char
    };
    out.push(c);
    assert(final(out)@ =~= old(out)@ + hex_digits(n as nat, w as nat));
}

/// The cached thumbnail of a clip, named by the hash of its path: 16 lower-case
/// hexadecimal digits and `.jpg`.
pub fn thumb_file_name(path_hash: u64) -> (r: String)
    ensures
        r@ == hex_digits(path_hash as nat, 16) + ".jpg"@,
{
    let mut out: Vec<char> = Vec::new();
    push_hex(&mut out, path_hash, 16);
    append_str(&mut out, ".jpg");
    string_from_chars(out.as_slice())
}

/// Where the toast window goes on the primary monitor: against its right edge, `margin`
/// below its top.
pub fn toast_position(mon_x: i32, mon_y: i32, mon_width: u32, win_width: u32, margin: i32) -> (r: (
    i32,
    i32,
))
    requires
        mon_width <= i32::MAX,
        win_width <= i32::MAX,
        i32::MIN <= mon_x + mon_width <= i32::MAX,
        i32::MIN <= mon_x + mon_width - win_width <= i32::MAX,
        i32::MIN <= mon_y + margin <= i32::MAX,
    ensures
        r.0 == mon_x + mon_width - win_width,
        r.1 == mon_y + margin,
{
    let x = mon_x + mon_width as i32 - win_width as i32;
    let y = mon_y + margin;
    (x, y)
}

} // verus!
