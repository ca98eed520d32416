//! H.264 Annex B bitstream inspection: finding IDR pictures and parameter sets.
use vstd::prelude::*;

verus! {

/// A three-byte start code `00 00 01` begins at `i`.
pub open spec fn is_start_code(d: Seq<u8>, i: int) -> bool {
    &&& 0 <= i
    &&& i + 3 <= d.len()
    &&& d[i] == 0
    &&& d[i + 1] == 0
    &&& d[i + 2] == 1
}

/// The NAL unit type in the header byte that follows the start code at `s`.
pub open spec fn nal_type_after(d: Seq<u8>, s: int) -> u8 {
    d[s + 3] & 0x1F
}

/// The bitstream holds an IDR slice (NAL unit type 5): a start code followed by a
/// header byte of type 5.
pub open spec fn has_idr(d: Seq<u8>) -> bool {
    exists|i: int| #[trigger] is_start_code(d, i) && i + 3 < d.len() && nal_type_after(d, i) == 5
}

/// Positions of the start codes at or after `i`, in increasing order.
pub open spec fn start_codes_from(d: Seq<u8>, i: int) -> Seq<int>
    decreases d.len() + 3 - i,
    when 0 <= i
{
    if i + 3 > d.len() {
        seq![]
    } else if is_start_code(d, i) {
        seq![i] + start_codes_from(d, i + 3)
    } else {
        start_codes_from(d, i + 1)
    }
}

/// Positions of all start codes of the bitstream, in increasing order.
pub open spec fn start_codes(d: Seq<u8>) -> Seq<int> {
    start_codes_from(d, 0)
}

/// `start_codes_from` lists exactly the start codes at or after `i`, each once, in
/// increasing order.
pub proof fn lemma_start_codes_from(d: Seq<u8>, i: int)
    requires
        0 <= i,
    ensures
        forall|x: int| #[trigger]
            start_codes_from(d, i).contains(x) <==> (i <= x && is_start_code(d, x)),
        forall|a: int, b: int|
            0 <= a < b < start_codes_from(d, i).len() ==> #[trigger] start_codes_from(d, i)[a]
                < #[trigger] start_codes_from(d, i)[b],
    decreases d.len() + 3 - i,
{
    if i + 3 > d.len() {
        assert(start_codes_from(d, i) =~= Seq::<int>::empty());
    } else if is_start_code(d, i) {
        lemma_start_codes_from(d, i + 3);
        let rest = start_codes_from(d, i + 3);
        let all = start_codes_from(d, i);
        assert(all == seq![i] + rest);
        assert forall|x: int| all.contains(x) implies (i <= x && is_start_code(d, x)) by {
            let k = choose|k: int| 0 <= k < all.len() && all[k] == x;
            if k > 0 {
                assert(rest[k - 1] == x);
                assert(rest.contains(x));
                assert(i + 3 <= x);
            } else {
                assert(x == i);
            }
        }
        assert forall|x: int| (i <= x && is_start_code(d, x)) implies all.contains(x) by {
            if x == i {
                assert(all[0] == x);
            } else {
                // no start code can begin at i + 1 or i + 2: d[i + 2] is 1
                if x == i + 1 {
                    assert(d[x + 1] == 1);
                }
                if x == i + 2 {
                    assert(d[x] == 1);
                }
                assert(rest.contains(x));
                let k = choose|k: int| 0 <= k < rest.len() && rest[k] == x;
                assert(all[k + 1] == x);
            }
        }
        assert forall|a: int, b: int| 0 <= a < b < all.len() implies all[a] < all[b] by {
            assert(all[b] == rest[b - 1]);
            assert(rest.contains(rest[b - 1]));
            assert(i + 3 <= rest[b - 1]);
            if a > 0 {
                assert(all[a] == rest[a - 1]);
            } else {
                assert(all[a] == i);
            }
        }
    } else {
        lemma_start_codes_from(d, i + 1);
        assert(start_codes_from(d, i) == start_codes_from(d, i + 1));
    }
}

/// Whether a start code begins at `i`.
fn start_code_at(d: &[u8], i: usize) -> (r: bool)
    requires
        i + 3 <= d@.len(),
    ensures
        r == is_start_code(d@, i as int),
{
    d[i] == 0 && d[i + 1] == 0 && d[i + 2] == 1
}

/// True if the Annex B bitstream holds an IDR picture (NAL unit type 5): the start of
/// a GOP, from which decoding, and so a saved clip, can begin.
pub fn contains_idr(data: &[u8]) -> (r: bool)
    ensures
        r == has_idr(data@),
{
    let mut i: usize = 0;
    while i < data.len() && data.len() - i >= 3
        invariant
            data@.len() == data.len(),
            i <= data@.len(),
            forall|j: int|
                0 <= j < i ==> !(#[trigger] is_start_code(data@, j) && j + 3 < data@.len()
                    && nal_type_after(data@, j) == 5),
        decreases data@.len() - i,
    {
        if start_code_at(data, i) {
            let header_pos = i + 3;
            if header_pos < data.len() && (data[header_pos] & 0x1F) == 5 {
                assert(is_start_code(data@, i as int));
                return true;
            }
            assert(!is_start_code(data@, i + 1));
            assert(!is_start_code(data@, i + 2));
            i = i + 3;
        } else {
            i = i + 1;
        }
    }
    assert forall|j: int| #[trigger] is_start_code(data@, j) implies !(j + 3 < data@.len()
        && nal_type_after(data@, j) == 5) by {
        assert(j < i);
    }
    false
}

/// Whether an encoded sample is a keyframe: flagged as a clean point by the encoder,
/// or (for encoders that do not flag it) carrying an IDR picture in its bitstream.
pub fn is_keyframe(clean_point: u32, data: &[u8]) -> (r: bool)
    ensures
        r == (clean_point == 1 || has_idr(data@)),
{
    clean_point == 1 || contains_idr(data)
}

/// Where the start code at `s` begins, counting the leading zero of a four-byte
/// start code `00 00 00 01`.
pub open spec fn sc_begin(d: Seq<u8>, s: int) -> int {
    if s > 0 && d[s - 1] == 0 {
        s - 1
    } else {
        s
    }
}

/// Where the NAL unit after the `k`-th start code ends: before the next start code
/// (and its leading zero, if it has one), or at the end of the bitstream.
pub open spec fn nal_end(d: Seq<u8>, ss: Seq<int>, k: int) -> int {
    if k + 1 < ss.len() {
        sc_begin(d, ss[k + 1])
    } else {
        d.len() as int
    }
}

/// The bytes the `k`-th NAL unit contributes: the whole unit, with its start code, if
/// it is a sequence (7) or picture (8) parameter set; nothing otherwise.
pub open spec fn param_piece(d: Seq<u8>, ss: Seq<int>, k: int) -> Seq<u8> {
    let s = ss[k];
    if s + 3 >= d.len() {
        seq![]
    } else if nal_type_after(d, s) == 7 || nal_type_after(d, s) == 8 {
        d.subrange(sc_begin(d, s), nal_end(d, ss, k))
    } else {
        seq![]
    }
}

/// The parameter-set bytes of the first `k` NAL units, in order.
pub open spec fn param_sets_upto(d: Seq<u8>, ss: Seq<int>, k: int) -> Seq<u8>
    decreases k,
{
    if k <= 0 {
        seq![]
    } else {
        param_sets_upto(d, ss, k - 1) + param_piece(d, ss, k - 1)
    }
}

/// All SPS and PPS NAL units of the bitstream, each with its start code, in order:
/// the sequence header an MP4 `avcC` is built from.
pub open spec fn param_sets(d: Seq<u8>) -> Seq<u8> {
    param_sets_upto(d, start_codes(d), start_codes(d).len() as int)
}

/// Appends `d[lo..hi]` to `out`.
fn append_range(out: &mut Vec<u8>, d: &[u8], lo: usize, hi: usize)
    requires
        lo <= hi <= d@.len(),
    ensures
        final(out)@ == old(out)@ + d@.subrange(lo as int, hi as int),
{
    let mut i: usize = lo;
    while i < hi
        invariant
            lo <= i <= hi <= d@.len(),
            out@ == old(out)@ + d@.subrange(lo as int, i as int),
        decreases hi - i,
    {
        out.push(d[i]);
        assert(d@.subrange(lo as int, i + 1) =~= d@.subrange(lo as int, i as int).push(
            d@[i as int],
        ));
        i = i + 1;
    }
}

/// Positions of all start codes of `data`, in increasing order.
fn find_start_codes(data: &[u8]) -> (starts: Vec<usize>)
    ensures
        starts@.len() == start_codes(data@).len(),
        forall|k: int| 0 <= k < starts@.len() ==> starts@[k] as int == start_codes(data@)[k],
{
    let mut starts: Vec<usize> = Vec::new();
    let mut i: usize = 0;
    while i < data.len() && data.len() - i >= 3
        invariant
            data@.len() == data.len(),
            i <= data@.len(),
            start_codes(data@) == starts@.map_values(|p: usize| p as int) + start_codes_from(
                data@,
                i as int,
            ),
        decreases data@.len() - i,
    {
        let ghost before = starts@;
        if start_code_at(data, i) {
            starts.push(i);
            assert(starts@.map_values(|p: usize| p as int) =~= before.map_values(
                |p: usize| p as int,
            ) + seq![i as int]);
            i = i + 3;
        } else {
            i = i + 1;
        }
    }
    assert(start_codes_from(data@, i as int) =~= Seq::<int>::empty());
    assert(start_codes(data@) =~= starts@.map_values(|p: usize| p as int));
    starts
}

/// The SPS (7) and PPS (8) NAL units of an Annex B bitstream, each with its start code
/// (a four-byte one when present), concatenated in order: the sequence header the MP4
/// sink needs when the encoder does not expose one in its output type.
pub fn extract_param_sets(data: &[u8]) -> (out: Vec<u8>)
    ensures
        out@ == param_sets(data@),
{
    let starts = find_start_codes(data);
    let ghost ss = start_codes(data@);
    proof {
        lemma_start_codes_from(data@, 0);
    }
    let mut out: Vec<u8> = Vec::new();
    let mut idx: usize = 0;
    while idx < starts.len()
        invariant
            data@.len() == data.len(),
            ss == start_codes(data@),
            starts@.len() == ss.len(),
            forall|k: int| 0 <= k < starts@.len() ==> starts@[k] as int == ss[k],
            forall|x: int| #[trigger] ss.contains(x) <==> (0 <= x && is_start_code(data@, x)),
            forall|a: int, b: int| 0 <= a < b < ss.len() ==> #[trigger] ss[a] < #[trigger] ss[b],
            idx <= starts@.len(),
            out@ == param_sets_upto(data@, ss, idx as int),
        ensures
            out@ == param_sets_upto(data@, ss, ss.len() as int),
        decreases starts@.len() - idx,
    {
        let s = starts[idx];
        assert(ss.contains(s as int)) by {
            assert(ss[idx as int] == s as int);
        }
        let header_pos = s + 3;
        if header_pos >= data.len() {
            // Only the last start code can lack a header byte: every later one would
            // begin at least three bytes further on.
            proof {
                assert forall|k: int| idx <= k <= ss.len() implies param_sets_upto(data@, ss, k)
                    == param_sets_upto(data@, ss, idx as int) by {
                    lemma_upto_stable(data@, ss, idx as int, k);
                }
            }
            break;
        }
        let sc_start = if s > 0 && data[s - 1] == 0 {
            s - 1
        } else {
            s
        };
        let end = if idx + 1 < starts.len() {
            let ns = starts[idx + 1];
            assert(ss.contains(ns as int)) by {
                assert(ss[idx + 1] == ns as int);
            }
            assert(ss[idx as int] < ss[idx + 1]);
            if data[ns - 1] == 0 {
                ns - 1
            } else {
                ns
            }
        } else {
            data.len()
        };
        let nal_type = data[header_pos] & 0x1F;
        if nal_type == 7 || nal_type == 8 {
            proof {
                if idx + 1 < starts.len() {
                    assert(ss[idx as int] < ss[idx + 1]);
                    assert(ss[idx + 1] >= ss[idx as int] + 3) by {
                        assert(!is_start_code(data@, ss[idx as int] + 1));
                        assert(!is_start_code(data@, ss[idx as int] + 2));
                    }
                }
            }
            append_range(&mut out, data, sc_start, end);
        }
        idx = idx + 1;
    }
    out
}

/// Once a start code without a header byte is reached, the remaining NAL units
/// contribute nothing.
proof fn lemma_upto_stable(d: Seq<u8>, ss: Seq<int>, idx: int, k: int)
    requires
        0 <= idx < ss.len(),
        idx <= k <= ss.len(),
        ss[idx] + 3 >= d.len(),
        forall|a: int, b: int| 0 <= a < b < ss.len() ==> ss[a] < ss[b],
    ensures
        param_sets_upto(d, ss, k) == param_sets_upto(d, ss, idx),
    decreases k - idx,
{
    if k > idx {
        lemma_upto_stable(d, ss, idx, k - 1);
        let s = ss[k - 1];
        if k - 1 > idx {
            assert(ss[idx] < ss[k - 1]);
        }
        assert(param_piece(d, ss, k - 1) =~= Seq::<u8>::empty());
        assert(param_sets_upto(d, ss, k) =~= param_sets_upto(d, ss, k - 1));
    }
}

} // verus!
