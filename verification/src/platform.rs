//! Device-independent bitmap codec for clipboard images: decoding
//! `BITMAPINFOHEADER`-prefixed pixels into RGBA and encoding RGBA as a
//! top-down 32 bpp `BI_RGB` DIB, plus the password alphabet mapping.
use vstd::prelude::*;
use vstd::arithmetic::div_mod::lemma_fundamental_div_mod_converse;

verus! {

/// How a captured clipboard bitmap was stored on the clipboard.
#[derive(Debug, Clone, Copy, PartialEq, Eq, Structural)]
pub enum ClipboardBitmapFormat {
    Dib,
    DibV5,
    Png,
}

// ---------------------------------------------------------------------------
// Little-endian fields
// ---------------------------------------------------------------------------

/// The little-endian `u32` stored at `b[at..at + 4]`.
pub open spec fn le_u32(b: Seq<u8>, at: int) -> u32 {
    (b[at] as u32) | ((b[at + 1] as u32) << 8u32) | ((b[at + 2] as u32) << 16u32) | ((b[at
        + 3] as u32) << 24u32)
}

/// The little-endian `u16` stored at `b[at..at + 2]`.
pub open spec fn le_u16(b: Seq<u8>, at: int) -> u16 {
    (b[at] as u16) | ((b[at + 1] as u16) << 8u16)
}

/// The four little-endian bytes of `v`.
pub open spec fn le32_bytes(v: u32) -> Seq<u8> {
    seq![(v & 0xff) as u8, ((v >> 8u32) & 0xff) as u8, ((v >> 16u32) & 0xff) as u8, ((v >> 24u32) & 0xff) as u8]
}

/// The two little-endian bytes of `v`.
pub open spec fn le16_bytes(v: u16) -> Seq<u8> {
    seq![(v & 0xff) as u8, ((v >> 8u16) & 0xff) as u8]
}

proof fn lemma_le32_roundtrip(v: u32)
    ensures
        le_u32(le32_bytes(v), 0) == v,
{
    let b = le32_bytes(v);
    let b0 = (v & 0xff) as u8;
    let b1 = ((v >> 8u32) & 0xff) as u8;
    let b2 = ((v >> 16u32) & 0xff) as u8;
    let b3 = ((v >> 24u32) & 0xff) as u8;
    assert(b[0] == b0 && b[1] == b1 && b[2] == b2 && b[3] == b3);
    assert((b0 as u32) | ((b1 as u32) << 8u32) | ((b2 as u32) << 16u32) | ((b3 as u32) << 24u32)
        == v) by (bit_vector)
        requires
            b0 == (v & 0xff) as u8,
            b1 == ((v >> 8u32) & 0xff) as u8,
            b2 == ((v >> 16u32) & 0xff) as u8,
            b3 == ((v >> 24u32) & 0xff) as u8,
    ;
}

proof fn lemma_le16_roundtrip(v: u16)
    ensures
        le_u16(le16_bytes(v), 0) == v,
{
    let b = le16_bytes(v);
    let b0 = (v & 0xff) as u8;
    let b1 = ((v >> 8u16) & 0xff) as u8;
    assert(b[0] == b0 && b[1] == b1);
    assert((b0 as u16) | ((b1 as u16) << 8u16) == v) by (bit_vector)
        requires
            b0 == (v & 0xff) as u8,
            b1 == ((v >> 8u16) & 0xff) as u8,
    ;
}

pub(crate) fn read_le_u32(b: &[u8], at: usize) -> (v: u32)
    requires
        at + 4 <= b@.len(),
    ensures
        v == le_u32(b@, at as int),
{
    (b[at] as u32) | ((b[at + 1] as u32) << 8u32) | ((b[at + 2] as u32) << 16u32) | ((b[at
        + 3] as u32) << 24u32)
}

pub(crate) fn read_le_u16(b: &[u8], at: usize) -> (v: u16)
    requires
        at + 2 <= b@.len(),
    ensures
        v == le_u16(b@, at as int),
{
    (b[at] as u16) | ((b[at + 1] as u16) << 8u16)
}

fn push_le32(out: &mut Vec<u8>, v: u32)
    ensures
        final(out)@ == old(out)@ + le32_bytes(v),
{
    out.push((v & 0xff) as u8);
    out.push(((v >> 8u32) & 0xff) as u8);
    out.push(((v >> 16u32) & 0xff) as u8);
    out.push(((v >> 24u32) & 0xff) as u8);
    assert(out@ == old(out)@ + le32_bytes(v));
}

fn push_le16(out: &mut Vec<u8>, v: u16)
    ensures
        final(out)@ == old(out)@ + le16_bytes(v),
{
    out.push((v & 0xff) as u8);
    out.push(((v >> 8u16) & 0xff) as u8);
    assert(out@ == old(out)@ + le16_bytes(v));
}

// ---------------------------------------------------------------------------
// Decoding
// ---------------------------------------------------------------------------

/// `biWidth` of the header.
pub open spec fn dib_width(b: Seq<u8>) -> int {
    (le_u32(b, 4) as i32) as int
}

/// `biHeight` of the header (negative for top-down rows).
pub open spec fn dib_height(b: Seq<u8>) -> int {
    (le_u32(b, 8) as i32) as int
}

/// `biBitCount` of the header.
pub open spec fn dib_bpp(b: Seq<u8>) -> u16 {
    le_u16(b, 14)
}

pub open spec fn abs(x: int) -> int {
    if x < 0 {
        -x
    } else {
        x
    }
}

/// Bytes per source pixel.
pub open spec fn dib_pixel_size(bpp: u16) -> int {
    if bpp == 32 {
        4
    } else {
        3
    }
}

/// Bytes per source row: `w * 4` at 32 bpp; at 24 bpp `w * 3` rounded up to
/// a multiple of four.
pub open spec fn dib_stride(w: int, bpp: u16) -> int {
    if bpp == 32 {
        w * 4
    } else {
        ((w * 3 + 3) / 4) * 4
    }
}

/// `biSize`: the header's own length (40 for `BITMAPINFOHEADER`, 124 for
/// `BITMAPV5HEADER`).
pub open spec fn dib_header_size(b: Seq<u8>) -> int {
    le_u32(b, 0) as int
}

/// Where the pixels start: after the header, and after the three colour
/// masks that follow a 40-byte header whose compression is `BI_BITFIELDS`.
pub open spec fn dib_offset(b: Seq<u8>) -> int {
    dib_header_size(b) + if dib_header_size(b) == 40 && le_u32(b, 16) == 3 {
        12int
    } else {
        0int
    }
}

/// The header describes a layout that `dib_to_rgba` decodes: a header of
/// at least 40 bytes, positive width, non-zero height, 24 or 32 bits per
/// pixel, and enough pixel bytes after the header for every row.
pub open spec fn dib_decodes(b: Seq<u8>) -> bool {
    &&& b.len() >= 40
    &&& dib_header_size(b) >= 40
    &&& dib_offset(b) <= b.len()
    &&& dib_width(b) > 0
    &&& dib_height(b) != 0
    &&& (dib_bpp(b) == 32 || dib_bpp(b) == 24)
    &&& abs(dib_height(b)) * dib_stride(dib_width(b), dib_bpp(b)) <= b.len() - dib_offset(b)
}

/// Byte offset in `b` of source pixel (`row`, `col`) of the output image;
/// bottom-up images (positive height) store the last row first.
pub open spec fn dib_source(b: Seq<u8>, row: int, col: int) -> int {
    let h = abs(dib_height(b));
    let src_row = if dib_height(b) < 0 {
        row
    } else {
        h - 1 - row
    };
    dib_offset(b) + src_row * dib_stride(dib_width(b), dib_bpp(b)) + col * dib_pixel_size(dib_bpp(b))
}

/// Channel `k` (R, G, B, A) of output pixel (`row`, `col`): sources are
/// stored as B, G, R(, A); 24 bpp pixels are opaque.
pub open spec fn dib_channel(b: Seq<u8>, row: int, col: int, k: int) -> u8 {
    let p = dib_source(b, row, col);
    if k == 0 {
        b[p + 2]
    } else if k == 1 {
        b[p + 1]
    } else if k == 2 {
        b[p]
    } else if dib_bpp(b) == 32 {
        b[p + 3]
    } else {
        255
    }
}

/// The RGBA bytes `dib_to_rgba` produces: `width * |height|` pixels, row by
/// row from the top.
pub open spec fn dib_pixels(b: Seq<u8>) -> Seq<u8> {
    let w = dib_width(b);
    let h = abs(dib_height(b));
    Seq::new(
        (w * h * 4) as nat,
        |j: int| dib_channel(b, (j / 4) / w, (j / 4) % w, j % 4),
    )
}

proof fn lemma_pixel_index(row: int, col: int, k: int, w: int)
    requires
        0 <= row,
        0 <= col < w,
        0 <= k < 4,
    ensures
        ((row * w + col) * 4 + k) / 4 == row * w + col,
        ((row * w + col) * 4 + k) % 4 == k,
        (row * w + col) / w == row,
        (row * w + col) % w == col,
{
    lemma_fundamental_div_mod_converse((row * w + col) * 4 + k, 4, row * w + col, k);
    lemma_fundamental_div_mod_converse(row * w + col, w, row, col);
}

/// Decode `BITMAPINFOHEADER`/`BITMAPV5HEADER`-prefixed pixels (24 or 32 bpp,
/// top-down or bottom-up, `BI_RGB` or `BI_BITFIELDS` 32 bpp) into RGBA; the
/// pixels start after `biSize` header bytes (and the colour masks of a
/// `BI_BITFIELDS` 40-byte header). Returns `(rgba, width, height)`; `None`
/// for unsupported or truncated layouts.
pub fn dib_to_rgba(bytes: &[u8]) -> (r: Option<(Vec<u8>, u32, u32)>)
    ensures
        r is Some <==> dib_decodes(bytes@),
        r matches Some((px, w, h)) ==> {
            &&& w as int == dib_width(bytes@)
            &&& h as int == abs(dib_height(bytes@))
            &&& px@ == dib_pixels(bytes@)
        },
{
    if bytes.len() < 40 {
        return None;
    }
    let width = #[verifier::truncate] (read_le_u32(bytes, 4) as i32);
    let height = #[verifier::truncate] (read_le_u32(bytes, 8) as i32);
    let bpp = read_le_u16(bytes, 14);
    if width <= 0 || height == 0 {
        return None;
    }
    let top_down = height < 0;
    let w = width as u32;
    let h: u32 = if height < 0 {
        (-(height as i64)) as u32
    } else {
        height as u32
    };
    let ghost gw = w as int;
    let ghost gh = h as int;
    assert(gh == abs(dib_height(bytes@)));
    let psize: u64 = if bpp == 32 {
        4
    } else if bpp == 24 {
        3
    } else {
        return None;
    };
    let stride: u64 = if bpp == 32 {
        w as u64 * 4
    } else {
        ((w as u64 * 3 + 3) / 4) * 4
    };
    assert(stride as int == dib_stride(gw, bpp));
    let blen = bytes.len();
    let hsize = read_le_u32(bytes, 0);
    let masks: u64 = if hsize == 40 && read_le_u32(bytes, 16) == 3 {
        12
    } else {
        0
    };
    if hsize < 40 || hsize as u64 + masks > blen as u64 {
        return None;
    }
    let offset = (hsize as u64 + masks) as usize;
    assert(offset as int == dib_offset(bytes@));
    let avail = (blen - offset) as u64;
    assert((h as u128) * (stride as u128) <= 0xffff_ffffu128 * 0x4_0000_0000u128) by (nonlinear_arith)
        requires
            h <= 0xffff_ffffu32,
            stride <= 0x4_0000_0000u64,
    ;
    if (h as u128) * (stride as u128) > avail as u128 {
        return None;
    }
    assert(gh * stride <= bytes@.len() - offset);
    assert(dib_decodes(bytes@));
    proof {
        assert(gw * 3 <= stride) by (nonlinear_arith)
            requires
                gw > 0,
                bpp == 32 ==> stride == gw * 4,
                bpp != 32 ==> stride == ((gw * 3 + 3) / 4) * 4,
        ;
        assert(gw * psize <= stride) by (nonlinear_arith)
            requires
                gw > 0,
                psize == 4 ==> stride == gw * 4,
                psize == 4 || psize == 3,
                gw * 3 <= stride,
        ;
    }
    assert(stride <= blen) by (nonlinear_arith)
        requires
            gh >= 1,
            gh * stride <= blen - offset,
    ;
    let w_us = w as usize;
    let h_us = h as usize;
    let stride_us = stride as usize;
    let ps = psize as usize;
    let ghost total = gw * gh * 4;
    let mut rgba: Vec<u8> = Vec::new();
    let mut row: usize = 0;
    while row < h_us
        invariant
            dib_decodes(bytes@),
            gw == dib_width(bytes@),
            gh == abs(dib_height(bytes@)),
            w_us == gw,
            h_us == gh,
            stride_us == dib_stride(gw, bpp),
            bpp == dib_bpp(bytes@),
            ps == dib_pixel_size(bpp),
            gw * ps <= stride_us,
            top_down == (dib_height(bytes@) < 0),
            gh * stride_us <= bytes@.len() - offset,
            offset == dib_offset(bytes@),
            blen == bytes@.len(),
            row <= h_us,
            rgba@ == dib_pixels(bytes@).take(row * gw * 4),
        decreases h_us - row,
    {
        let src_row = if top_down {
            row
        } else {
            h_us - 1 - row
        };
        assert((src_row + 1) * stride_us <= gh * stride_us) by (nonlinear_arith)
            requires
                src_row + 1 <= gh,
                stride_us >= 0,
        ;
        assert(src_row * stride_us + stride_us == (src_row + 1) * stride_us) by (nonlinear_arith);
        let start = offset + src_row * stride_us;
        let mut col: usize = 0;
        while col < w_us
            invariant
                dib_decodes(bytes@),
                gw == dib_width(bytes@),
                gh == abs(dib_height(bytes@)),
                w_us == gw,
                h_us == gh,
                stride_us == dib_stride(gw, bpp),
                bpp == dib_bpp(bytes@),
                ps == dib_pixel_size(bpp),
                gw * ps <= stride_us,
                top_down == (dib_height(bytes@) < 0),
                row < h_us,
                src_row == (if top_down { row as int } else { gh - 1 - row }),
                offset == dib_offset(bytes@),
                start == offset + src_row * stride_us,
                start + stride_us <= bytes@.len(),
                blen == bytes@.len(),
                col <= w_us,
                rgba@ == dib_pixels(bytes@).take((row * gw + col) * 4),
            decreases w_us - col,
        {
            assert(col * ps + ps <= gw * ps) by (nonlinear_arith)
                requires
                    col + 1 <= gw,
                    ps >= 0,
            ;
            let p = start + col * ps;
            assert(p as int == dib_source(bytes@, row as int, col as int));
            let ghost n = (row * gw + col) * 4;
            proof {
                assert(n + 4 <= gw * gh * 4) by (nonlinear_arith)
                    requires
                        n == (row * gw + col) * 4,
                        col < gw,
                        row < gh,
                ;
                lemma_pixel_index(row as int, col as int, 0, gw);
                lemma_pixel_index(row as int, col as int, 1, gw);
                lemma_pixel_index(row as int, col as int, 2, gw);
                lemma_pixel_index(row as int, col as int, 3, gw);
            }
            let c3 = if ps == 4 {
                bytes[p + 3]
            } else {
                255u8
            };
            let ghost before = rgba@;
            rgba.push(bytes[p + 2]);
            rgba.push(bytes[p + 1]);
            rgba.push(bytes[p]);
            rgba.push(c3);
            proof {
                let px = dib_pixels(bytes@);
                assert(px[n] == bytes@[p + 2]);
                assert(px[n + 1] == bytes@[p + 1]);
                assert(px[n + 2] == bytes@[p as int]);
                assert(px[n + 3] == c3);
                assert(rgba@ == px.take(n + 4));
            }
            col += 1;
            assert((row * gw + col) * 4 == n + 4) by (nonlinear_arith)
                requires
                    n == (row * gw + (col - 1)) * 4,
            ;
        }
        row += 1;
        assert((row - 1) * gw + gw == row * gw) by (nonlinear_arith);
    }
    assert(dib_pixels(bytes@).len() == gw * gh * 4) by (nonlinear_arith)
        requires
            gw > 0,
            gh > 0,
            dib_pixels(bytes@).len() == (gw * gh * 4) as nat,
    ;
    assert(h_us * gw * 4 == gw * gh * 4) by (nonlinear_arith)
        requires
            h_us == gh,
    ;
    assert(rgba@ == dib_pixels(bytes@));
    Some((rgba, w, h))
}

// ---------------------------------------------------------------------------
// Encoding
// ---------------------------------------------------------------------------

/// `(-(height as i32))` with two's-complement wrap-around.
pub open spec fn negated_height(height: u32) -> i32 {
    (-(height as int)) as i32
}

/// The 40-byte header `rgba_to_dib` writes.
pub open spec fn dib_header(rgba_len: nat, width: u32, height: u32) -> Seq<u8> {
    le32_bytes(40) + le32_bytes(((width as i32) as u32)) + le32_bytes(
        (negated_height(height) as u32),
    ) + le16_bytes(1) + le16_bytes(32) + le32_bytes(0) + le32_bytes(rgba_len as u32) + Seq::new(
        16,
        |i: int| 0u8,
    )
}

/// The BGRA body: every complete RGBA quadruple with red and blue swapped;
/// a trailing partial quadruple is dropped.
pub open spec fn bgra_body(rgba: Seq<u8>) -> Seq<u8> {
    Seq::new(
        ((rgba.len() / 4) * 4) as nat,
        |j: int|
            if j % 4 == 0 {
                rgba[j + 2]
            } else if j % 4 == 2 {
                rgba[j - 2]
            } else {
                rgba[j]
            },
    )
}

/// Encode RGBA pixels as a top-down 32 bpp `BI_RGB` DIB.
pub fn rgba_to_dib(rgba: &[u8], width: u32, height: u32) -> (dib: Vec<u8>)
    ensures
        dib@ == dib_header(rgba@.len(), width, height) + bgra_body(rgba@),
{
    let pixel_bytes = #[verifier::truncate] (rgba.len() as u32);
    let mut dib: Vec<u8> = Vec::new();
    push_le32(&mut dib, 40);
    push_le32(&mut dib, (#[verifier::truncate] (width as i32)) as u32);
    let neg: i32 = #[verifier::truncate] ((-(height as i64)) as i32);
    assert(neg == negated_height(height));
    push_le32(&mut dib, #[verifier::truncate] (neg as u32));
    push_le16(&mut dib, 1);
    push_le16(&mut dib, 32);
    push_le32(&mut dib, 0);
    push_le32(&mut dib, pixel_bytes);
    let mut z: usize = 0;
    while z < 16
        invariant
            z <= 16,
            dib@ == le32_bytes(40) + le32_bytes(((width as i32) as u32)) + le32_bytes(
                (negated_height(height) as u32),
            ) + le16_bytes(1) + le16_bytes(32) + le32_bytes(0) + le32_bytes(rgba@.len() as u32)
                + Seq::new(z as nat, |i: int| 0u8),
        decreases 16 - z,
    {
        dib.push(0u8);
        z += 1;
        assert(dib@ == le32_bytes(40) + le32_bytes(((width as i32) as u32)) + le32_bytes(
            (negated_height(height) as u32),
        ) + le16_bytes(1) + le16_bytes(32) + le32_bytes(0) + le32_bytes(rgba@.len() as u32)
            + Seq::new(z as nat, |i: int| 0u8));
    }
    let ghost header = dib@;
    assert(header == dib_header(rgba@.len(), width, height));
    assert(header.len() == 40);
    let rlen = rgba.len();
    let n = rlen / 4;
    let mut i: usize = 0;
    while i < n
        invariant
            n == rgba@.len() / 4,
            rlen == rgba@.len(),
            i <= n,
            header.len() == 40,
            dib@ == header + bgra_body(rgba@).take(i * 4),
        decreases n - i,
    {
        assert(i * 4 + 4 <= rlen) by (nonlinear_arith)
            requires
                i < n,
                n == rlen / 4,
        ;
        let base = i * 4;
        proof {
            lemma_pixel_index(0, i as int, 0, n as int + 1);
            lemma_fundamental_div_mod_converse(base + 0, 4, i as int, 0);
            lemma_fundamental_div_mod_converse(base + 1, 4, i as int, 1);
            lemma_fundamental_div_mod_converse(base + 2, 4, i as int, 2);
            lemma_fundamental_div_mod_converse(base + 3, 4, i as int, 3);
            assert((rgba@.len() / 4) * 4 >= base + 4) by (nonlinear_arith)
                requires
                    i < n,
                    n == rgba@.len() / 4,
                    base == i * 4,
            ;
        }
        dib.push(rgba[base + 2]);
        dib.push(rgba[base + 1]);
        dib.push(rgba[base]);
        dib.push(rgba[base + 3]);
        proof {
            let body = bgra_body(rgba@);
            assert(body[base as int] == rgba@[base + 2]);
            assert(body[base + 1] == rgba@[base + 1]);
            assert(body[base + 2] == rgba@[base as int]);
            assert(body[base + 3] == rgba@[base + 3]);
            assert(dib@ == header + body.take(base + 4));
        }
        i += 1;
    }
    assert(bgra_body(rgba@).take(n * 4) == bgra_body(rgba@));
    dib
}

// ---------------------------------------------------------------------------
// Toast placement
// ---------------------------------------------------------------------------

/// Where a notification toast rests: as wide as its wider text line plus
/// 48 pixels of padding, but 220 to 460 pixels; 66 pixels tall; 14 pixels
/// in from the bottom-right corner of the work area. Returns
/// `(x, y, width, height)`.
pub open spec fn spec_toast_geometry(title_w: int, body_w: int, right: int, bottom: int) -> (int, int, int, int) {
    let text_w = if title_w >= body_w {
        title_w
    } else {
        body_w
    };
    let w = if text_w + 48 < 220 {
        220
    } else if text_w + 48 > 460 {
        460
    } else {
        text_w + 48
    };
    (right - w - 14, bottom - 66 - 14, w, 66)
}

/// The toast's resting place (see `spec_toast_geometry`), from the widths
/// its title and body text were measured at and the work area's right and
/// bottom edges.
pub fn toast_geometry(title_w: i32, body_w: i32, right: i32, bottom: i32) -> (r: (i32, i32, i32, i32))
    requires
        title_w <= i32::MAX - 48,
        body_w <= i32::MAX - 48,
        right >= i32::MIN + 474,
        bottom >= i32::MIN + 80,
    ensures
        (r.0 as int, r.1 as int, r.2 as int, r.3 as int) == spec_toast_geometry(
            title_w as int,
            body_w as int,
            right as int,
            bottom as int,
        ),
{
    let text_w = if title_w >= body_w {
        title_w
    } else {
        body_w
    };
    let padded = text_w + 48;
    let width = if padded < 220 {
        220
    } else if padded > 460 {
        460
    } else {
        padded
    };
    let height: i32 = 66;
    (right - width - 14, bottom - height - 14, width, height)
}

// ---------------------------------------------------------------------------
// Icon pixels
// ---------------------------------------------------------------------------

/// Pixel `k` of `px` (RGBA) is white, whatever its alpha.
pub open spec fn white_at(px: Seq<u8>, k: int) -> bool {
    px[4 * k] == 255 && px[4 * k + 1] == 255 && px[4 * k + 2] == 255
}

/// Every complete pixel of `px` is white (so an empty image is too).
pub open spec fn all_white(px: Seq<u8>) -> bool {
    forall|k: int| 0 <= k < px.len() / 4 ==> #[trigger] white_at(px, k)
}

/// An icon drawn as BGRA pixels, as RGBA (blue and red swapped in every
/// complete pixel; a trailing partial pixel is dropped); `None` when every
/// pixel is white, which is what a failed drawing leaves.
pub fn icon_from_bgra(bgra: &[u8]) -> (r: Option<Vec<u8>>)
    ensures
        match r {
            Some(px) => px@ == bgra_body(bgra@) && !all_white(bgra_body(bgra@)),
            None => all_white(bgra_body(bgra@)),
        },
{
    let ghost body = bgra_body(bgra@);
    let blen = bgra.len();
    let n = blen / 4;
    let mut out: Vec<u8> = Vec::new();
    let mut white = true;
    let mut i: usize = 0;
    while i < n
        invariant
            blen == bgra@.len(),
            n == bgra@.len() / 4,
            body == bgra_body(bgra@),
            body.len() == n * 4,
            i <= n,
            out@ == body.take(i * 4),
            white == forall|k: int| 0 <= k < i ==> #[trigger] white_at(body, k),
        decreases n - i,
    {
        assert(i * 4 + 4 <= blen) by (nonlinear_arith)
            requires
                i < n,
                n == blen / 4,
        ;
        let base = i * 4;
        proof {
            lemma_fundamental_div_mod_converse(base + 0, 4, i as int, 0);
            lemma_fundamental_div_mod_converse(base + 1, 4, i as int, 1);
            lemma_fundamental_div_mod_converse(base + 2, 4, i as int, 2);
            lemma_fundamental_div_mod_converse(base + 3, 4, i as int, 3);
        }
        let r = bgra[base + 2];
        let g = bgra[base + 1];
        let b = bgra[base];
        out.push(r);
        out.push(g);
        out.push(b);
        out.push(bgra[base + 3]);
        proof {
            assert(body[base as int] == r);
            assert(body[base + 1] == g);
            assert(body[base + 2] == b);
            assert(body[base + 3] == bgra@[base + 3]);
            assert(out@ == body.take(base + 4));
        }
        let here = r == 255 && g == 255 && b == 255;
        assert(here == white_at(body, i as int));
        proof {
            if white && here {
                assert forall|k: int| 0 <= k < i + 1 implies #[trigger] white_at(body, k) by {
                    if k == i {
                    }
                }
            }
            if !here {
                assert(!white_at(body, i as int));
            }
        }
        white = white && here;
        i += 1;
    }
    assert(body.take(n * 4) == body);
    assert(body.len() / 4 == n) by (nonlinear_arith)
        requires
            body.len() == n * 4,
    ;
    if white {
        None
    } else {
        Some(out)
    }
}

// ---------------------------------------------------------------------------
// Round trip
// ---------------------------------------------------------------------------

proof fn lemma_header_fields(rgba_len: nat, width: u32, height: u32)
    requires
        0 < width <= 0x7fff_ffff,
        0 < height <= 0x7fff_ffff,
    ensures
        ({
            let d = dib_header(rgba_len, width, height);
            &&& d.len() == 40
            &&& le_u32(d, 0) == 40
            &&& le_u32(d, 16) == 0
            &&& le_u32(d, 4) as i32 == width as i32
            &&& le_u32(d, 8) as i32 == -(height as int)
            &&& le_u16(d, 14) == 32
        }),
{
    let d = dib_header(rgba_len, width, height);
    let wv = (width as i32) as u32;
    let hv = negated_height(height) as u32;
    lemma_le32_roundtrip(wv);
    lemma_le32_roundtrip(hv);
    lemma_le32_roundtrip(40);
    lemma_le32_roundtrip(0);
    lemma_le16_roundtrip(32);
    assert(d.subrange(0, 4) == le32_bytes(40));
    assert(d.subrange(16, 20) == le32_bytes(0));
    assert(le_u32(d, 0) == le_u32(le32_bytes(40), 0));
    assert(le_u32(d, 16) == le_u32(le32_bytes(0), 0));
    assert(d.subrange(4, 8) == le32_bytes(wv));
    assert(d.subrange(8, 12) == le32_bytes(hv));
    assert(d.subrange(14, 16) == le16_bytes(32));
    assert(le_u32(d, 4) == le_u32(le32_bytes(wv), 0));
    assert(le_u32(d, 8) == le_u32(le32_bytes(hv), 0));
    assert(le_u16(d, 14) == le_u16(le16_bytes(32), 0));
    assert(((width as i32) as u32) as i32 == width as i32) by (bit_vector)
        requires
            width <= 0x7fff_ffffu32,
    ;
    let nh = negated_height(height);
    assert(nh == -(height as int));
    assert((nh as u32) as i32 == nh) by (bit_vector);
}

/// Encoding RGBA pixels as a DIB and decoding the result gives back the same
/// pixels, width and height, for every image whose byte count is
/// `width * height * 4` and whose sides are positive and fit in an `i32`.
pub proof fn lemma_dib_round_trip(rgba: Seq<u8>, width: u32, height: u32)
    requires
        0 < width <= 0x7fff_ffff,
        0 < height <= 0x7fff_ffff,
        rgba.len() == width * height * 4,
    ensures
        ({
            let d = dib_header(rgba.len(), width, height) + bgra_body(rgba);
            &&& dib_decodes(d)
            &&& dib_width(d) == width
            &&& abs(dib_height(d)) == height
            &&& dib_pixels(d) == rgba
        }),
{
    let hd = dib_header(rgba.len(), width, height);
    let body = bgra_body(rgba);
    let d = hd + body;
    lemma_header_fields(rgba.len(), width, height);
    let w = width as int;
    let h = height as int;
    assert(d.subrange(0, 40) == hd);
    assert(le_u32(d, 4) == le_u32(hd, 4));
    assert(le_u32(d, 8) == le_u32(hd, 8));
    assert(le_u16(d, 14) == le_u16(hd, 14));
    assert(dib_width(d) == w);
    assert(dib_height(d) == -h);
    assert(dib_bpp(d) == 32);
    lemma_fundamental_div_mod_converse(rgba.len() as int, 4, w * h, 0);
    assert(body.len() == rgba.len());
    assert(h * dib_stride(w, 32) == rgba.len()) by (nonlinear_arith)
        requires
            dib_stride(w, 32) == w * 4,
            rgba.len() == w * h * 4,
    ;
    assert(dib_decodes(d));
    let px = dib_pixels(d);
    assert(px.len() == rgba.len());
    assert forall|j: int| 0 <= j < rgba.len() implies px[j] == rgba[j] by {
        let q = j / 4;
        let k = j % 4;
        let row = q / w;
        let col = q % w;
        lemma_fundamental_div_mod_converse(j, 4, q, k);
        assert(j == 4 * q + k);
        assert(q == row * w + col) by {
            vstd::arithmetic::div_mod::lemma_fundamental_div_mod(q, w);
        }
        assert(0 <= col < w) by {
            vstd::arithmetic::div_mod::lemma_mod_bound(q, w);
        }
        assert(0 <= q);
        assert(0 <= row);
        let p = dib_source(d, row, col);
        assert(p == 40 + row * (w * 4) + col * 4);
        assert(p == 40 + 4 * q) by (nonlinear_arith)
            requires
                p == 40 + row * (w * 4) + col * 4,
                q == row * w + col,
        ;
        assert(4 * q + 3 < rgba.len());
        lemma_fundamental_div_mod_converse(4 * q, 4, q, 0);
        lemma_fundamental_div_mod_converse(4 * q + 1, 4, q, 1);
        lemma_fundamental_div_mod_converse(4 * q + 2, 4, q, 2);
        lemma_fundamental_div_mod_converse(4 * q + 3, 4, q, 3);
        assert(d[p] == body[4 * q]);
        assert(d[p + 1] == body[4 * q + 1]);
        assert(d[p + 2] == body[4 * q + 2]);
        assert(d[p + 3] == body[4 * q + 3]);
    }
    assert(px == rgba);
}

// ---------------------------------------------------------------------------
// Passwords
// ---------------------------------------------------------------------------

/// The password alphabet: letters, digits and 18 symbols (80 characters).
pub open spec fn password_alphabet() -> Seq<char> {
    "abcdefghijklmnopqrstuvwxyzABCDEFGHIJKLMNOPQRSTUVWXYZ0123456789!@#$%^&*()-_=+[]{}"@
}

/// A requested password length clamped to 8..=64.
pub open spec fn spec_password_length(len: usize) -> usize {
    if len < 8 {
        8
    } else if len > 64 {
        64
    } else {
        len
    }
}

/// A requested password length clamped to 8..=64.
pub fn password_length(len: usize) -> (n: usize)
    ensures
        n == spec_password_length(len),
{
    if len < 8 {
        8
    } else if len > 64 {
        64
    } else {
        len
    }
}

/// The password for random bytes: each byte picks the alphabet character
/// at its value modulo 80.
pub open spec fn spec_password(bytes: Seq<u8>) -> Seq<char> {
    bytes.map_values(|b: u8| password_alphabet()[(b % 80) as int])
}

/// Map random bytes to password characters.
pub fn password_from_bytes(bytes: &[u8]) -> (s: String)
    ensures
        s@ == spec_password(bytes@),
{
    let alphabet = crate::text::chars_of(
        "abcdefghijklmnopqrstuvwxyzABCDEFGHIJKLMNOPQRSTUVWXYZ0123456789!@#$%^&*()-_=+[]{}",
    );
    proof {
        reveal_strlit("abcdefghijklmnopqrstuvwxyzABCDEFGHIJKLMNOPQRSTUVWXYZ0123456789!@#$%^&*()-_=+[]{}");
    }
    let mut s = String::new();
    let mut i: usize = 0;
    while i < bytes.len()
        invariant
            i <= bytes@.len(),
            alphabet@ == password_alphabet(),
            alphabet@.len() == 80,
            s@ == spec_password(bytes@.take(i as int)),
        decreases bytes.len() - i,
    {
        let c = alphabet[(bytes[i] % 80) as usize];
        crate::text::push_char(&mut s, c);
        i += 1;
        assert(spec_password(bytes@.take(i as int)) == spec_password(bytes@.take(i - 1)).push(c));
    }
    assert(bytes@.take(bytes@.len() as int) == bytes@);
    s
}

/// A generated password has one character per random byte, each one of
/// the 80 alphabet characters: printable ASCII, no whitespace.
pub proof fn lemma_password_shape(bytes: Seq<u8>)
    ensures
        spec_password(bytes).len() == bytes.len(),
        forall|i: int|
            0 <= i < bytes.len() ==> {
                let c = #[trigger] spec_password(bytes)[i];
                &&& 0x21 <= (c as u32) <= 0x7E
                &&& exists|k: int| 0 <= k < 80 && password_alphabet()[k] == c
            },
{
    reveal_strlit("abcdefghijklmnopqrstuvwxyzABCDEFGHIJKLMNOPQRSTUVWXYZ0123456789!@#$%^&*()-_=+[]{}");
    let a = password_alphabet();
    assert forall|k: int| 0 <= k < 80 implies 0x21 <= (#[trigger] a[k] as u32) <= 0x7E by {}
    assert forall|i: int| 0 <= i < bytes.len() implies {
        let c = #[trigger] spec_password(bytes)[i];
        &&& 0x21 <= (c as u32) <= 0x7E
        &&& exists|k: int| 0 <= k < 80 && password_alphabet()[k] == c
    } by {
        let k = (bytes[i] % 80) as int;
        assert(spec_password(bytes)[i] == a[k]);
    }
}

} // verus!
