//! Images as `data:` URLs: recognising the format of downloaded artwork, Base64
//! (RFC 4648, standard alphabet, padded), and the BMP files of screen snapshots.
use vstd::prelude::*;
use base64::Engine;
use crate::text::append_str;

verus! {

// ---------------------------------------------------------------------------
// Image format
// ---------------------------------------------------------------------------

/// `b` starts with the bytes `p`.
pub open spec fn bytes_start_with(b: Seq<u8>, p: Seq<u8>) -> bool {
    p.len() <= b.len() && b.subrange(0, p.len() as int) == p
}

/// The MIME type of an image, from its first bytes: JPEG (`FF D8 FF`), PNG
/// (`89 'P' 'N' 'G'`), WebP (`"RIFF"`, 4 bytes, `"WEBP"`); JPEG when none matches.
pub open spec fn spec_mime(b: Seq<u8>) -> Seq<char> {
    if bytes_start_with(b, seq![0xFFu8, 0xD8u8, 0xFFu8]) {
        "image/jpeg"@
    } else if bytes_start_with(b, seq![0x89u8, 0x50u8, 0x4Eu8, 0x47u8]) {
        "image/png"@
    } else if b.len() > 11 && b.subrange(0, 4) == seq![0x52u8, 0x49u8, 0x46u8, 0x46u8] && b.subrange(
        8,
        12,
    ) == seq![0x57u8, 0x45u8, 0x42u8, 0x50u8] {
        "image/webp"@
    } else {
        "image/jpeg"@
    }
}

fn bytes_at(b: &[u8], at: usize, p: &[u8]) -> (r: bool)
    requires
        at + p@.len() <= b@.len(),
    ensures
        r == (b@.subrange(at as int, at + p@.len()) == p@),
{
    let mut k: usize = 0;
    while k < p.len()
        invariant
            at + p@.len() <= b@.len(),
            b@.len() == b.len(),
            k <= p@.len(),
            forall|j: int| 0 <= j < k ==> b@[at + j] == p@[j],
        decreases p@.len() - k,
    {
        if b[at + k] != p[k] {
            assert(b@.subrange(at as int, at + p@.len())[k as int] != p@[k as int]);
            return false;
        }
        k = k + 1;
    }
    assert(b@.subrange(at as int, at + p@.len()) =~= p@);
    true
}

/// The MIME type of image bytes (see `spec_mime`).
pub fn mime_of(bytes: &[u8]) -> (r: &'static str)
    ensures
        r@ == spec_mime(bytes@),
{
    let jpeg = [0xFFu8, 0xD8u8, 0xFFu8];
    let png = [0x89u8, 0x50u8, 0x4Eu8, 0x47u8];
    let riff = [0x52u8, 0x49u8, 0x46u8, 0x46u8];
    let webp = [0x57u8, 0x45u8, 0x42u8, 0x50u8];
    assert(jpeg@ =~= seq![0xFFu8, 0xD8u8, 0xFFu8]);
    assert(png@ =~= seq![0x89u8, 0x50u8, 0x4Eu8, 0x47u8]);
    assert(riff@ =~= seq![0x52u8, 0x49u8, 0x46u8, 0x46u8]);
    assert(webp@ =~= seq![0x57u8, 0x45u8, 0x42u8, 0x50u8]);
    if bytes.len() >= 3 && bytes_at(bytes, 0, jpeg.as_slice()) {
        "image/jpeg"
    } else if bytes.len() >= 4 && bytes_at(bytes, 0, png.as_slice()) {
        "image/png"
    } else if bytes.len() > 11 && bytes_at(bytes, 0, riff.as_slice()) && bytes_at(
        bytes,
        8,
        webp.as_slice(),
    ) {
        "image/webp"
    } else {
        "image/jpeg"
    }
}

// ---------------------------------------------------------------------------
// Base64
// ---------------------------------------------------------------------------

/// The character of a 6-bit value in the standard Base64 alphabet
/// (`A`–`Z`, `a`–`z`, `0`–`9`, `+`, `/`).
pub open spec fn b64_char(v: int) -> char {
    if v < 26 {
        (65 + v) as char
    } else if v < 52 {
        (97 + v - 26) as char
    } else if v < 62 {
        (48 + v - 52) as char
    } else if v == 62 {
        '+'
    } else {
        '/'
    }
}

/// Standard Base64 with padding (RFC 4648 §4): each group of three bytes becomes four
/// characters; a last group of one or two bytes is completed with `=`.
pub open spec fn b64_standard(b: Seq<u8>) -> Seq<char>
    decreases b.len(),
{
    if b.len() == 0 {
        seq![]
    } else {
        let x0 = b[0] as int;
        let x1 = if b.len() > 1 { b[1] as int } else { 0 };
        let x2 = if b.len() > 2 { b[2] as int } else { 0 };
        if b.len() == 1 {
            seq![b64_char(x0 / 4), b64_char((x0 % 4) * 16), '=', '=']
        } else if b.len() == 2 {
            seq![b64_char(x0 / 4), b64_char((x0 % 4) * 16 + x1 / 16), b64_char((x1 % 16) * 4), '=']
        } else {
            seq![
                b64_char(x0 / 4),
                b64_char((x0 % 4) * 16 + x1 / 16),
                b64_char((x1 % 16) * 4 + x2 / 64),
                b64_char(x2 % 64),
            ] + b64_standard(b.subrange(3, b.len() as int))
        }
    }
}

/// `base64::engine::general_purpose::STANDARD.encode`. Claims that the result is the
/// padded standard-alphabet encoding of the bytes (`b64_standard`), as the crate
/// documents. The crate panics when the encoded length overflows `usize`; the
/// `requires` keeps the input well below that.
#[verifier::external_body]
fn base64_encode(bytes: &[u8]) -> (r: String)
    requires
        bytes@.len() <= usize::MAX / 2,
    ensures
        r@ == b64_standard(bytes@),
{
    base64::engine::general_purpose::STANDARD.encode(bytes)
}

/// `data:<mime>;base64,<payload>`.
pub open spec fn data_url(mime: Seq<char>, payload: Seq<u8>) -> Seq<char> {
    "data:"@ + mime + ";base64,"@ + b64_standard(payload)
}

/// An image as a `data:` URL, typed by its first bytes (see `spec_mime`).
pub fn to_data_url(bytes: &[u8]) -> (r: String)
    requires
        bytes@.len() <= usize::MAX / 2,
    ensures
        r@ == data_url(spec_mime(bytes@), bytes@),
{
    let b64 = base64_encode(bytes);
    let mime = mime_of(bytes);
    let mut out: Vec<char> = Vec::new();
    append_str(&mut out, "data:");
    append_str(&mut out, mime);
    append_str(&mut out, ";base64,");
    append_str(&mut out, b64.as_str());
    crate::text::string_from_chars(out.as_slice())
}

// ---------------------------------------------------------------------------
// BMP snapshots
// ---------------------------------------------------------------------------

/// Little-endian bytes of a 32-bit value.
pub open spec fn le32(v: int) -> Seq<u8> {
    seq![(v % 256) as u8, (v / 256 % 256) as u8, (v / 65536 % 256) as u8, (v / 16777216 % 256) as u8]
}

/// Little-endian bytes of a 16-bit value.
pub open spec fn le16(v: int) -> Seq<u8> {
    seq![(v % 256) as u8, (v / 256 % 256) as u8]
}

/// The two's-complement bits of an `i32`, as an unsigned value.
pub open spec fn i32_bits(x: i32) -> int {
    if x >= 0 {
        x as int
    } else {
        x + 0x1_0000_0000
    }
}

/// A 32-bit BMP file: the 14-byte file header (`BM`, file size, reserved, pixel
/// offset 54), the 40-byte `BITMAPINFOHEADER` (width, height, one plane, 32 bits per
/// pixel, no compression, image size, no resolution, no palette) and the pixels.
pub open spec fn bmp_file(w: i32, h: i32, pixels: Seq<u8>) -> Seq<u8> {
    let n = pixels.len() as int;
    seq![0x42u8, 0x4Du8] + le32(54 + n) + le32(0) + le32(54) + le32(40) + le32(i32_bits(w)) + le32(
        i32_bits(h),
    ) + le16(1) + le16(32) + le32(0) + le32(n) + le32(0) + le32(0) + le32(0) + le32(0) + pixels
}

fn push_le32(out: &mut Vec<u8>, v: u32)
    ensures
        final(out)@ == old(out)@ + le32(v as int),
{
    out.push((v % 256) as u8);
    out.push((v / 256 % 256) as u8);
    out.push((v / 65536 % 256) as u8);
    out.push((v / 16777216 % 256) as u8);
    assert(final(out)@ =~= old(out)@ + le32(v as int));
}

fn push_le16(out: &mut Vec<u8>, v: u16)
    ensures
        final(out)@ == old(out)@ + le16(v as int),
{
    out.push((v % 256) as u8);
    out.push((v / 256 % 256) as u8);
    assert(final(out)@ =~= old(out)@ + le16(v as int));
}

fn bits_of_i32(x: i32) -> (r: u32)
    ensures
        r == i32_bits(x),
{
    if x >= 0 {
        x as u32
    } else {
        ((x as i64) + 0x1_0000_0000i64) as u32
    }
}

/// A BGRA snapshot (`w` × `h`, rows as `pixels` holds them) as a BMP `data:` URL.
pub fn bmp_data_url(w: i32, h: i32, pixels: &[u8]) -> (r: String)
    requires
        pixels@.len() + 54 <= u32::MAX,
        pixels@.len() + 54 <= usize::MAX / 2,
    ensures
        r@ == data_url("image/bmp"@, bmp_file(w, h, pixels@)),
{
    let pix_size: u32 = pixels.len() as u32;
    let file_size: u32 = 54 + pix_size;
    let mut buf: Vec<u8> = Vec::new();
    buf.push(0x42u8);
    buf.push(0x4Du8);
    push_le32(&mut buf, file_size);
    push_le32(&mut buf, 0);
    push_le32(&mut buf, 54);
    push_le32(&mut buf, 40);
    push_le32(&mut buf, bits_of_i32(w));
    push_le32(&mut buf, bits_of_i32(h));
    push_le16(&mut buf, 1);
    push_le16(&mut buf, 32);
    push_le32(&mut buf, 0);
    push_le32(&mut buf, pix_size);
    push_le32(&mut buf, 0);
    push_le32(&mut buf, 0);
    push_le32(&mut buf, 0);
    push_le32(&mut buf, 0);
    let ghost header = buf@;
    let mut i: usize = 0;
    while i < pixels.len()
        invariant
            i <= pixels@.len(),
            buf@ == header + pixels@.subrange(0, i as int),
        decreases pixels@.len() - i,
    {
        buf.push(pixels[i]);
        assert(pixels@.subrange(0, (i + 1) as int) =~= pixels@.subrange(0, i as int).push(pixels@[i as int]));
        i = i + 1;
    }
    assert(pixels@.subrange(0, pixels@.len() as int) =~= pixels@);
    assert(buf@ =~= bmp_file(w, h, pixels@));
    let b64 = base64_encode(buf.as_slice());
    let mut out: Vec<char> = Vec::new();
    append_str(&mut out, "data:");
    append_str(&mut out, "image/bmp");
    append_str(&mut out, ";base64,");
    append_str(&mut out, b64.as_str());
    crate::text::string_from_chars(out.as_slice())
}


// ---------------------------------------------------------------------------
// Readback
// ---------------------------------------------------------------------------

/// The first `rows` rows of a mapped texture whose rows start `pitch` bytes apart,
/// `row_bytes` bytes each, packed one after another.
pub open spec fn packed_rows(m: Seq<u8>, pitch: int, row_bytes: int, rows: int) -> Seq<u8>
    decreases rows,
{
    if rows <= 0 {
        seq![]
    } else {
        packed_rows(m, pitch, row_bytes, rows - 1) + m.subrange((rows - 1) * pitch, (rows - 1) * pitch + row_bytes)
    }
}

/// Copies the rows of a mapped BGRA texture (`row_pitch` bytes apart in `mapped`) into
/// a tightly packed picture of `rows` rows of `row_bytes` bytes, as the software
/// encoder path reads frames back from the GPU.
pub fn pack_rows(mapped: &[u8], row_pitch: usize, row_bytes: usize, rows: usize) -> (out: Vec<u8>)
    requires
        rows > 0 ==> (rows - 1) * row_pitch + row_bytes <= mapped@.len(),
    ensures
        out@ == packed_rows(mapped@, row_pitch as int, row_bytes as int, rows as int),
{
    let total = mapped.len();
    let mut out: Vec<u8> = Vec::new();
    let mut r: usize = 0;
    while r < rows
        invariant
            total == mapped@.len(),
            r <= rows,
            rows > 0 ==> (rows - 1) * row_pitch + row_bytes <= mapped@.len(),
            out@ == packed_rows(mapped@, row_pitch as int, row_bytes as int, r as int),
        decreases rows - r,
    {
        assert(r * row_pitch <= (rows - 1) * row_pitch) by (nonlinear_arith)
            requires
                r <= rows - 1,
        ;
        let start: usize = r * row_pitch;
        let ghost before = out@;
        let mut i: usize = 0;
        while i < row_bytes
            invariant
                total == mapped@.len(),
                i <= row_bytes,
                start + row_bytes <= mapped@.len(),
                out@ == before + mapped@.subrange(start as int, start + i),
            decreases row_bytes - i,
        {
            out.push(mapped[start + i]);
            assert(mapped@.subrange(start as int, start + i + 1) =~= mapped@.subrange(start as int, start + i).push(
                mapped@[start + i],
            ));
            i = i + 1;
        }
        assert(packed_rows(mapped@, row_pitch as int, row_bytes as int, r + 1) == before + mapped@.subrange(
            start as int,
            start + row_bytes,
        ));
        r = r + 1;
    }
    out
}

} // verus!
