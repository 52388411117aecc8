use vstd::prelude::*;
use vstd::arithmetic::div_mod::{lemma_div_is_ordered, lemma_div_of0, lemma_fundamental_div_mod,
    lemma_mod_bound, lemma_mod_pos_bound};
use crate::frame::{chroma_dim, DesktopFrame, I420Buffer};

verus! {

// Broadcast-video (limited-range) colour conversion with 8-bit integer
// coefficients. The luma plane keeps the frame's resolution; each chroma
// plane holds one sample per 2x2 pixel block, taken at the block's even
// coordinates, so an odd final row or column contributes its own sample
// rather than being dropped.

/// Luma (brightness) of one pixel; always in 16..=235.
pub open spec fn luma_of(r: u8, g: u8, b: u8) -> u8 {
    ((66 * (r as int) + 129 * (g as int) + 25 * (b as int) + 128) / 256 + 16) as u8
}

/// Blue-difference chroma of one pixel; always in 16..=240.
pub open spec fn cb_of(r: u8, g: u8, b: u8) -> u8 {
    ((112 * (b as int) + 32896 - 38 * (r as int) - 74 * (g as int)) / 256) as u8
}

/// Red-difference chroma of one pixel; always in 16..=240.
pub open spec fn cr_of(r: u8, g: u8, b: u8) -> u8 {
    ((112 * (r as int) + 32896 - 94 * (g as int) - 18 * (b as int)) / 256) as u8
}

/// Byte offset of pixel (x, y) in the interleaved source buffer.
pub open spec fn src_offset(f: DesktopFrame, x: int, y: int) -> int {
    y * (f.stride as int) + 4 * x
}

/// Red channel of source pixel (x, y): the first byte of the pixel's four.
pub open spec fn red_at(f: DesktopFrame, x: int, y: int) -> u8 {
    f.data@[src_offset(f, x, y)]
}

/// Green channel of source pixel (x, y).
pub open spec fn green_at(f: DesktopFrame, x: int, y: int) -> u8 {
    f.data@[src_offset(f, x, y) + 1]
}

/// Blue channel of source pixel (x, y). The fourth byte is alpha, which
/// the conversion ignores.
pub open spec fn blue_at(f: DesktopFrame, x: int, y: int) -> u8 {
    f.data@[src_offset(f, x, y) + 2]
}

/// The luma byte the conversion writes for pixel (x, y).
pub open spec fn luma_at(f: DesktopFrame, x: int, y: int) -> u8 {
    luma_of(red_at(f, x, y), green_at(f, x, y), blue_at(f, x, y))
}

/// The blue-difference byte the conversion writes for chroma block
/// (bx, by), sampled at the block's even source coordinates.
pub open spec fn cb_at(f: DesktopFrame, bx: int, by: int) -> u8 {
    cb_of(red_at(f, 2 * bx, 2 * by), green_at(f, 2 * bx, 2 * by), blue_at(f, 2 * bx, 2 * by))
}

/// The red-difference byte the conversion writes for chroma block (bx, by).
pub open spec fn cr_at(f: DesktopFrame, bx: int, by: int) -> u8 {
    cr_of(red_at(f, 2 * bx, 2 * by), green_at(f, 2 * bx, 2 * by), blue_at(f, 2 * bx, 2 * by))
}

/// The buffer holds exactly the conversion of `f`: its geometry matches the
/// frame and every byte of all three planes is the transform of its source
/// pixel. The content therefore depends on the frame alone.
pub open spec fn converted(f: DesktopFrame, b: I420Buffer) -> bool {
    let w = f.width as int;
    let h = f.height as int;
    let cw = chroma_dim(w);
    let ch = chroma_dim(h);
    &&& b.width as int == w
    &&& b.height as int == h
    &&& b.y@.len() == w * h
    &&& b.u@.len() == cw * ch
    &&& b.v@.len() == cw * ch
    &&& forall|x: int, y: int|
        0 <= x < w && 0 <= y < h ==> b.y@[y * w + x] == #[trigger] luma_at(f, x, y)
    &&& forall|bx: int, by: int|
        0 <= bx < cw && 0 <= by < ch ==> b.u@[by * cw + bx] == #[trigger] cb_at(f, bx, by)
    &&& forall|bx: int, by: int|
        0 <= bx < cw && 0 <= by < ch ==> b.v@[by * cw + bx] == #[trigger] cr_at(f, bx, by)
}

proof fn lemma_grid_bound(row: int, col: int, h: int, w: int)
    requires
        0 <= row < h,
        0 <= col < w,
    ensures
        0 <= row * w + col,
        row * w + col < h * w,
{
    assert(0 <= row * w + col) by (nonlinear_arith)
        requires
            0 <= row,
            0 <= col,
            0 < w,
    ;
    assert(row * w + col < h * w) by (nonlinear_arith)
        requires
            0 <= row < h,
            0 <= col < w,
    ;
}

proof fn lemma_grid_order(r1: int, c1: int, r2: int, c2: int, w: int)
    requires
        0 <= c1 < w,
        0 <= c2 < w,
        0 <= r1,
        r1 < r2 || (r1 == r2 && c1 < c2),
    ensures
        r1 * w + c1 < r2 * w + c2,
{
    assert(r1 * w + c1 < r2 * w + c2) by (nonlinear_arith)
        requires
            0 <= c1 < w,
            0 <= c2 < w,
            0 <= r1,
            r1 < r2 || (r1 == r2 && c1 < c2),
    ;
}

proof fn lemma_grid_inverse(i: int, h: int, w: int)
    requires
        0 <= i,
        i < h * w,
        0 <= h,
        0 <= w,
    ensures
        0 < w,
        0 <= i / w < h,
        0 <= i % w < w,
        i == (i / w) * w + (i % w),
{
    assert(0 < w && 0 < h) by (nonlinear_arith)
        requires
            0 <= i,
            i < h * w,
            0 <= h,
            0 <= w,
    ;
    lemma_fundamental_div_mod(i, w);
    lemma_mod_pos_bound(i, w);
    lemma_div_of0(w);
    lemma_div_is_ordered(0, i, w);
    assert(i == (i / w) * w + (i % w)) by (nonlinear_arith)
        requires
            i == w * (i / w) + (i % w),
    ;
    assert(i / w < h) by (nonlinear_arith)
        requires
            i == (i / w) * w + (i % w),
            0 <= i % w,
            i < h * w,
            0 < w,
    ;
}

fn luma_byte(r: u8, g: u8, b: u8) -> (res: u8)
    ensures
        res == luma_of(r, g, b),
{
    let acc: u32 = 66 * (r as u32) + 129 * (g as u32) + 25 * (b as u32) + 128;
    (acc / 256 + 16) as u8
}

fn cb_byte(r: u8, g: u8, b: u8) -> (res: u8)
    ensures
        res == cb_of(r, g, b),
{
    let acc: u32 = 112 * (b as u32) + 32896 - 38 * (r as u32) - 74 * (g as u32);
    (acc / 256) as u8
}

fn cr_byte(r: u8, g: u8, b: u8) -> (res: u8)
    ensures
        res == cr_of(r, g, b),
{
    let acc: u32 = 112 * (r as u32) + 32896 - 94 * (g as u32) - 18 * (b as u32);
    (acc / 256) as u8
}

/// Reads the red, green and blue bytes of source pixel (x, y).
fn read_pixel(f: &DesktopFrame, x: usize, y: usize) -> (p: (u8, u8, u8))
    requires
        f.wf(),
        x < f.width,
        y < f.height,
    ensures
        p.0 == red_at(*f, x as int, y as int),
        p.1 == green_at(*f, x as int, y as int),
        p.2 == blue_at(*f, x as int, y as int),
{
    let n_bytes: usize = f.data.len();
    let stride: usize = f.stride as usize;
    proof {
        lemma_grid_bound(y as int, 4 * (x as int) + 2, f.height as int, stride as int);
        assert(y * stride + 4 * x + 2 < n_bytes);
    }
    let base: usize = y * stride + 4 * x;
    let r = f.data[base];
    let g = f.data[base + 1];
    let b = f.data[base + 2];
    (r, g, b)
}

/// Writes every luma byte: one per source pixel, rows packed at the plane
/// width.
fn fill_luma(f: &DesktopFrame, dst: &mut I420Buffer)
    requires
        f.wf(),
        old(dst).wf(),
        old(dst).width as int == f.width as int,
        old(dst).height as int == f.height as int,
    ensures
        final(dst).wf(),
        final(dst).width == old(dst).width,
        final(dst).height == old(dst).height,
        final(dst).u@ == old(dst).u@,
        final(dst).v@ == old(dst).v@,
        forall|x: int, y: int|
            0 <= x < f.width && 0 <= y < f.height ==> final(dst).y@[y * (f.width as int) + x]
                == #[trigger] luma_at(*f, x, y),
{
    let w: usize = f.width as usize;
    let h: usize = f.height as usize;
    let n: usize = dst.y.len();
    let ghost dst0 = *dst;
    proof {
        assert(n as int == w as int * h as int);
    }
    let mut row: usize = 0;
    while row < h
        invariant
            f.wf(),
            dst.wf(),
            w as int == f.width as int,
            h as int == f.height as int,
            dst.width == dst0.width,
            dst.height == dst0.height,
            dst.width as int == w as int,
            dst.height as int == h as int,
            dst.u@ == dst0.u@,
            dst.v@ == dst0.v@,
            dst.y@.len() == n,
            n as int == w as int * h as int,
            row <= h,
            forall|x: int, y: int|
                0 <= x < w && 0 <= y < row ==> dst.y@[y * (w as int) + x] == #[trigger] luma_at(
                    *f, x, y),
        decreases h - row,
    {
        let mut col: usize = 0;
        while col < w
            invariant
                f.wf(),
                dst.wf(),
                w as int == f.width as int,
                h as int == f.height as int,
                dst.width == dst0.width,
                dst.height == dst0.height,
                dst.width as int == w as int,
                dst.height as int == h as int,
                dst.u@ == dst0.u@,
                dst.v@ == dst0.v@,
                dst.y@.len() == n,
                n as int == w as int * h as int,
                row < h,
                col <= w,
                forall|x: int, y: int|
                    0 <= x < w && 0 <= y < row ==> dst.y@[y * (w as int) + x]
                        == #[trigger] luma_at(*f, x, y),
                forall|x: int|
                    0 <= x < col ==> dst.y@[(row as int) * (w as int) + x] == #[trigger] luma_at(
                        *f, x, row as int),
            decreases w - col,
        {
            let p = read_pixel(f, col, row);
            let yv = luma_byte(p.0, p.1, p.2);
            proof {
                lemma_grid_bound(row as int, col as int, h as int, w as int);
            }
            let idx: usize = row * w + col;
            let ghost pre = dst.y@;
            dst.y.set(idx, yv);
            proof {
                assert forall|x: int, y: int| 0 <= x < w && 0 <= y < row implies dst.y@[y * (
                w as int) + x] == #[trigger] luma_at(*f, x, y) by {
                    lemma_grid_bound(y, x, h as int, w as int);
                    lemma_grid_order(y, x, row as int, col as int, w as int);
                    assert(dst.y@[y * (w as int) + x] == pre[y * (w as int) + x]);
                }
                assert forall|x: int| 0 <= x < col implies dst.y@[(row as int) * (w as int) + x]
                    == #[trigger] luma_at(*f, x, row as int) by {
                    lemma_grid_bound(row as int, x, h as int, w as int);
                    lemma_grid_order(row as int, x, row as int, col as int, w as int);
                    assert(dst.y@[(row as int) * (w as int) + x] == pre[(row as int) * (w as int)
                        + x]);
                }
            }
            col = col + 1;
        }
        row = row + 1;
    }
}

/// Writes every chroma byte of both half-resolution planes: one blue- and
/// one red-difference sample per 2x2 block of source pixels.
fn fill_chroma(f: &DesktopFrame, dst: &mut I420Buffer)
    requires
        f.wf(),
        old(dst).wf(),
        old(dst).width as int == f.width as int,
        old(dst).height as int == f.height as int,
    ensures
        final(dst).wf(),
        final(dst).width == old(dst).width,
        final(dst).height == old(dst).height,
        final(dst).y@ == old(dst).y@,
        forall|bx: int, by: int|
            0 <= bx < chroma_dim(f.width as int) && 0 <= by < chroma_dim(f.height as int)
                ==> final(dst).u@[by * chroma_dim(f.width as int) + bx] == #[trigger] cb_at(
                *f, bx, by),
        forall|bx: int, by: int|
            0 <= bx < chroma_dim(f.width as int) && 0 <= by < chroma_dim(f.height as int)
                ==> final(dst).v@[by * chroma_dim(f.width as int) + bx] == #[trigger] cr_at(
                *f, bx, by),
{
    let w: usize = f.width as usize;
    let h: usize = f.height as usize;
    let cw: usize = (w + 1) / 2;
    let ch: usize = (h + 1) / 2;
    let n: usize = dst.u.len();
    let ghost dst0 = *dst;
    proof {
        assert(cw as int == chroma_dim(f.width as int));
        assert(ch as int == chroma_dim(f.height as int));
        assert(n as int == cw as int * ch as int);
    }
    let mut brow: usize = 0;
    while brow < ch
        invariant
            f.wf(),
            dst.wf(),
            w as int == f.width as int,
            h as int == f.height as int,
            cw as int == chroma_dim(f.width as int),
            ch as int == chroma_dim(f.height as int),
            dst.width == dst0.width,
            dst.height == dst0.height,
            dst.width as int == w as int,
            dst.height as int == h as int,
            dst.y@ == dst0.y@,
            dst.u@.len() == n,
            dst.v@.len() == n,
            n as int == cw as int * ch as int,
            brow <= ch,
            forall|bx: int, by: int|
                0 <= bx < cw && 0 <= by < brow ==> dst.u@[by * (cw as int) + bx]
                    == #[trigger] cb_at(*f, bx, by),
            forall|bx: int, by: int|
                0 <= bx < cw && 0 <= by < brow ==> dst.v@[by * (cw as int) + bx]
                    == #[trigger] cr_at(*f, bx, by),
        decreases ch - brow,
    {
        let mut bcol: usize = 0;
        while bcol < cw
            invariant
                f.wf(),
                dst.wf(),
                w as int == f.width as int,
                h as int == f.height as int,
                cw as int == chroma_dim(f.width as int),
                ch as int == chroma_dim(f.height as int),
                dst.width == dst0.width,
                dst.height == dst0.height,
                dst.width as int == w as int,
                dst.height as int == h as int,
                dst.y@ == dst0.y@,
                dst.u@.len() == n,
                dst.v@.len() == n,
                n as int == cw as int * ch as int,
                brow < ch,
                bcol <= cw,
                forall|bx: int, by: int|
                    0 <= bx < cw && 0 <= by < brow ==> dst.u@[by * (cw as int) + bx]
                        == #[trigger] cb_at(*f, bx, by),
                forall|bx: int, by: int|
                    0 <= bx < cw && 0 <= by < brow ==> dst.v@[by * (cw as int) + bx]
                        == #[trigger] cr_at(*f, bx, by),
                forall|bx: int|
                    0 <= bx < bcol ==> dst.u@[(brow as int) * (cw as int) + bx]
                        == #[trigger] cb_at(*f, bx, brow as int),
                forall|bx: int|
                    0 <= bx < bcol ==> dst.v@[(brow as int) * (cw as int) + bx]
                        == #[trigger] cr_at(*f, bx, brow as int),
            decreases cw - bcol,
        {
            proof {
                assert(2 * (bcol as int) < w as int);
                assert(2 * (brow as int) < h as int);
            }
            let p = read_pixel(f, 2 * bcol, 2 * brow);
            let ub = cb_byte(p.0, p.1, p.2);
            let vb = cr_byte(p.0, p.1, p.2);
            proof {
                lemma_grid_bound(brow as int, bcol as int, ch as int, cw as int);
            }
            let idx: usize = brow * cw + bcol;
            let ghost pre_u = dst.u@;
            let ghost pre_v = dst.v@;
            dst.u.set(idx, ub);
            dst.v.set(idx, vb);
            proof {
                assert forall|bx: int, by: int| 0 <= bx < cw && 0 <= by < brow implies dst.u@[by
                    * (cw as int) + bx] == #[trigger] cb_at(*f, bx, by) by {
                    lemma_grid_bound(by, bx, ch as int, cw as int);
                    lemma_grid_order(by, bx, brow as int, bcol as int, cw as int);
                    assert(dst.u@[by * (cw as int) + bx] == pre_u[by * (cw as int) + bx]);
                }
                assert forall|bx: int, by: int| 0 <= bx < cw && 0 <= by < brow implies dst.v@[by
                    * (cw as int) + bx] == #[trigger] cr_at(*f, bx, by) by {
                    lemma_grid_bound(by, bx, ch as int, cw as int);
                    lemma_grid_order(by, bx, brow as int, bcol as int, cw as int);
                    assert(dst.v@[by * (cw as int) + bx] == pre_v[by * (cw as int) + bx]);
                }
                assert forall|bx: int| 0 <= bx < bcol implies dst.u@[(brow as int) * (cw as int)
                    + bx] == #[trigger] cb_at(*f, bx, brow as int) by {
                    lemma_grid_bound(brow as int, bx, ch as int, cw as int);
                    lemma_grid_order(brow as int, bx, brow as int, bcol as int, cw as int);
                    assert(dst.u@[(brow as int) * (cw as int) + bx] == pre_u[(brow as int) * (
                    cw as int) + bx]);
                }
                assert forall|bx: int| 0 <= bx < bcol implies dst.v@[(brow as int) * (cw as int)
                    + bx] == #[trigger] cr_at(*f, bx, brow as int) by {
                    lemma_grid_bound(brow as int, bx, ch as int, cw as int);
                    lemma_grid_order(brow as int, bx, brow as int, bcol as int, cw as int);
                    assert(dst.v@[(brow as int) * (cw as int) + bx] == pre_v[(brow as int) * (
                    cw as int) + bx]);
                }
            }
            bcol = bcol + 1;
        }
        brow = brow + 1;
    }
}

/// Converts one captured frame into the planar buffer, overwriting every
/// byte of all three planes. The buffer must have been sized to exactly the
/// frame's resolution: a mismatch is a caller error, and no resampling is
/// done.
pub fn abgr_to_i420(f: &DesktopFrame, dst: &mut I420Buffer)
    requires
        f.wf(),
        old(dst).wf(),
        old(dst).width as int == f.width as int,
        old(dst).height as int == f.height as int,
    ensures
        final(dst).wf(),
        final(dst).width == old(dst).width,
        final(dst).height == old(dst).height,
        converted(*f, *final(dst)),
{
    fill_luma(f, dst);
    fill_chroma(f, dst);
}

/// Clamps an integer to the byte range, the inverse transform's last step.
pub open spec fn clamp_to_byte(x: int) -> int {
    if x < 0 {
        0
    } else if x > 255 {
        255
    } else {
        x
    }
}

/// Red as the matching inverse transform recovers it from a luma byte and
/// a red-difference byte.
pub open spec fn inv_red_of(y: u8, v: u8) -> int {
    clamp_to_byte((298 * ((y as int) - 16) + 409 * ((v as int) - 128) + 128) / 256)
}

/// Green as the matching inverse transform recovers it.
pub open spec fn inv_green_of(y: u8, u: u8, v: u8) -> int {
    clamp_to_byte(
        (298 * ((y as int) - 16) - 100 * ((u as int) - 128) - 208 * ((v as int) - 128)
            + 128) / 256,
    )
}

/// Blue as the matching inverse transform recovers it from a luma byte and
/// a blue-difference byte.
pub open spec fn inv_blue_of(y: u8, u: u8) -> int {
    clamp_to_byte((298 * ((y as int) - 16) + 516 * ((u as int) - 128) + 128) / 256)
}

/// Round trip: converting one pixel and decoding its three bytes with the
/// matching inverse transform recovers every channel within three steps of
/// the byte scale, the quantization tolerance of the integer coefficients.
pub proof fn lemma_round_trip_within_tolerance(r: u8, g: u8, b: u8)
    ensures
        -3 <= inv_red_of(luma_of(r, g, b), cr_of(r, g, b)) - (r as int) <= 3,
        -3 <= inv_green_of(luma_of(r, g, b), cb_of(r, g, b), cr_of(r, g, b)) - (g as int) <= 3,
        -3 <= inv_blue_of(luma_of(r, g, b), cb_of(r, g, b)) - (b as int) <= 3,
{
    let ri = r as int;
    let gi = g as int;
    let bi = b as int;
    let num_y = 66 * ri + 129 * gi + 25 * bi + 128;
    let num_u = 112 * bi + 32896 - 38 * ri - 74 * gi;
    let num_v = 112 * ri + 32896 - 94 * gi - 18 * bi;
    lemma_fundamental_div_mod(num_y, 256);
    lemma_mod_pos_bound(num_y, 256);
    lemma_fundamental_div_mod(num_u, 256);
    lemma_mod_pos_bound(num_u, 256);
    lemma_fundamental_div_mod(num_v, 256);
    lemma_mod_pos_bound(num_v, 256);
    let cy = num_y / 256;
    let cu = num_u / 256;
    let cv = num_v / 256;
    let ey = num_y % 256;
    let eu = num_u % 256;
    let ev = num_v % 256;
    // the forward bytes are exactly the quotients: every cast is in range
    lemma_div_of0(256);
    lemma_div_is_ordered(0, num_y, 256);
    lemma_div_is_ordered(num_y, 56228, 256);
    lemma_div_is_ordered(4336, num_u, 256);
    lemma_div_is_ordered(num_u, 61456, 256);
    lemma_div_is_ordered(4336, num_v, 256);
    lemma_div_is_ordered(num_v, 61456, 256);
    assert(4336int / 256 == 16);
    assert(61456int / 256 == 240);
    assert(56228int / 256 == 219);
    assert(luma_of(r, g, b) as int == cy + 16);
    assert(cb_of(r, g, b) as int == cu);
    assert(cr_of(r, g, b) as int == cv);

    let tr = 298 * cy + 409 * (cv - 128) + 128;
    lemma_fundamental_div_mod(tr, 256);
    lemma_mod_bound(tr, 256);
    let qr = tr / 256;
    let etr = tr % 256;
    assert(65536 * qr == 65536 * ri + (-60) * ri + (-4) * gi + 88 * bi + 123264 - 298 * ey - 409
        * ev - 256 * etr);
    assert(-3 <= qr - ri <= 3);
    assert(-3 <= clamp_to_byte(qr) - ri <= 3);

    let tg = 298 * cy - 100 * (cu - 128) - 208 * (cv - 128) + 128;
    lemma_fundamental_div_mod(tg, 256);
    lemma_mod_bound(tg, 256);
    let qg = tg / 256;
    let etg = tg % 256;
    assert(65536 * qg == 65536 * gi + 172 * ri + (-142) * gi + (-6) * bi + 31488 - 298 * ey + 100
        * eu + 208 * ev - 256 * etg);
    assert(-3 <= qg - gi <= 3);
    assert(-3 <= clamp_to_byte(qg) - gi <= 3);

    let tb = 298 * cy + 516 * (cu - 128) + 128;
    lemma_fundamental_div_mod(tb, 256);
    lemma_mod_bound(tb, 256);
    let qb = tb / 256;
    let etb = tb % 256;
    assert(65536 * qb == 65536 * bi + 60 * ri + 258 * gi + (-294) * bi + 136960 - 298 * ey - 516
        * eu - 256 * etb);
    assert(-3 <= qb - bi <= 3);
    assert(-3 <= clamp_to_byte(qb) - bi <= 3);
}

/// Round trip over a whole converted buffer: at each chroma sample point,
/// the luma byte and the two chroma bytes of that block decode back to the
/// sampled source pixel's channels within the tolerance.
pub proof fn lemma_converted_round_trip(f: DesktopFrame, buf: I420Buffer, bx: int, by: int)
    requires
        converted(f, buf),
        0 <= bx < chroma_dim(f.width as int),
        0 <= by < chroma_dim(f.height as int),
    ensures
        -3 <= inv_red_of(
            buf.y@[2 * by * (f.width as int) + 2 * bx],
            buf.v@[by * chroma_dim(f.width as int) + bx],
        ) - (red_at(f, 2 * bx, 2 * by) as int) <= 3,
        -3 <= inv_green_of(
            buf.y@[2 * by * (f.width as int) + 2 * bx],
            buf.u@[by * chroma_dim(f.width as int) + bx],
            buf.v@[by * chroma_dim(f.width as int) + bx],
        ) - (green_at(f, 2 * bx, 2 * by) as int) <= 3,
        -3 <= inv_blue_of(
            buf.y@[2 * by * (f.width as int) + 2 * bx],
            buf.u@[by * chroma_dim(f.width as int) + bx],
        ) - (blue_at(f, 2 * bx, 2 * by) as int) <= 3,
{
    let w = f.width as int;
    let h = f.height as int;
    assert(2 * bx < w);
    assert(2 * by < h);
    assert(buf.y@[2 * by * w + 2 * bx] == luma_at(f, 2 * bx, 2 * by));
    assert(buf.u@[by * chroma_dim(w) + bx] == cb_at(f, bx, by));
    assert(buf.v@[by * chroma_dim(w) + bx] == cr_at(f, bx, by));
    lemma_round_trip_within_tolerance(
        red_at(f, 2 * bx, 2 * by),
        green_at(f, 2 * bx, 2 * by),
        blue_at(f, 2 * bx, 2 * by),
    );
}

/// Full-frame overwrite: the converted content is a function of the source
/// frame alone. Two buffers that each hold the conversion of the same frame
/// agree byte for byte on all three planes, whatever either held before.
pub proof fn lemma_converted_depends_only_on_frame(f: DesktopFrame, a: I420Buffer, b: I420Buffer)
    requires
        converted(f, a),
        converted(f, b),
    ensures
        a.y@ == b.y@,
        a.u@ == b.u@,
        a.v@ == b.v@,
{
    let w = f.width as int;
    let h = f.height as int;
    let cw = chroma_dim(w);
    let ch = chroma_dim(h);
    assert forall|i: int| 0 <= i < a.y@.len() implies a.y@[i] == b.y@[i] by {
        lemma_grid_inverse(i, h, w);
        let y = i / w;
        let x = i % w;
        assert(a.y@[y * w + x] == luma_at(f, x, y));
        assert(b.y@[y * w + x] == luma_at(f, x, y));
    }
    assert(a.y@ =~= b.y@);
    assert forall|i: int| 0 <= i < a.u@.len() implies a.u@[i] == b.u@[i] by {
        lemma_grid_inverse(i, ch, cw);
        let by = i / cw;
        let bx = i % cw;
        assert(a.u@[by * cw + bx] == cb_at(f, bx, by));
        assert(b.u@[by * cw + bx] == cb_at(f, bx, by));
    }
    assert(a.u@ =~= b.u@);
    assert forall|i: int| 0 <= i < a.v@.len() implies a.v@[i] == b.v@[i] by {
        lemma_grid_inverse(i, ch, cw);
        let by = i / cw;
        let bx = i % cw;
        assert(a.v@[by * cw + bx] == cr_at(f, bx, by));
        assert(b.v@[by * cw + bx] == cr_at(f, bx, by));
    }
    assert(a.v@ =~= b.v@);
}

} // verus!
