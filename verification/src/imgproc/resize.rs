//! Reconciling a source image with an output's dimensions: padding,
//! aspect-preserving fit, and center-anchored crop, producing the BGRA
//! buffer an output displays.
use vstd::prelude::*;
use vstd::arithmetic::div_mod::lemma_fundamental_div_mod_converse;
use vstd::math::min;
use crate::cli::Filter;
use crate::cli::Img;
use crate::cli::ResizeStrategy;
use crate::imgproc::RawImg;

verus! {

/// Byte `c` of the RGB pixel at (`x`, `y`) in a byte sequence of row
/// width `w`.
pub open spec fn rgb_byte(s: Seq<u8>, w: int, x: int, y: int, c: int) -> u8 {
    s[3 * (y * w + x) + c]
}

/// A BGRA canvas of `tw` by `th` pixels: inside the region of size
/// (`rw`, `rh`) at (`rx`, `ry`) the canvas shows the source window whose
/// top-left pixel is (`sx0`, `sy0`), channels reversed with an opaque
/// alpha byte added; outside the region it shows the fill color, also
/// reversed to BGRA order.
pub open spec fn compose_spec(
    src: Seq<u8>,
    sw: int,
    rx: int,
    ry: int,
    rw: int,
    rh: int,
    sx0: int,
    sy0: int,
    tw: int,
    th: int,
    cr: u8,
    cg: u8,
    cb: u8,
) -> Seq<u8> {
    Seq::new(
        (4 * (tw * th)) as nat,
        |i: int|
            {
                let p = i / 4;
                let c = i % 4;
                let x = p % tw;
                let y = p / tw;
                if c == 3 {
                    255u8
                } else if rx <= x < rx + rw && ry <= y < ry + rh {
                    let sx = sx0 + (x - rx);
                    let sy = sy0 + (y - ry);
                    if c == 0 {
                        rgb_byte(src, sw, sx, sy, 2)
                    } else if c == 1 {
                        rgb_byte(src, sw, sx, sy, 1)
                    } else {
                        rgb_byte(src, sw, sx, sy, 0)
                    }
                } else {
                    if c == 0 {
                        cb
                    } else if c == 1 {
                        cg
                    } else {
                        cr
                    }
                }
            },
    )
}

/// Build the BGRA canvas that `compose_spec` describes.
#[verifier::rlimit(100)]
pub(crate) fn compose_bgra(
    src: &Vec<u8>,
    sw: u32,
    sh: u32,
    rx: u32,
    ry: u32,
    rw: u32,
    rh: u32,
    sx0: u32,
    sy0: u32,
    tw: u32,
    th: u32,
    cr: u8,
    cg: u8,
    cb: u8,
) -> (r: Vec<u8>)
    requires
        src@.len() == 3 * (sw as int) * (sh as int),
        rx + rw <= tw,
        ry + rh <= th,
        sx0 + rw <= sw,
        sy0 + rh <= sh,
        4 * (tw as int) * (th as int) <= usize::MAX,
    ensures
        r@ == compose_spec(
            src@,
            sw as int,
            rx as int,
            ry as int,
            rw as int,
            rh as int,
            sx0 as int,
            sy0 as int,
            tw as int,
            th as int,
            cr,
            cg,
            cb,
        ),
        r@.len() == 4 * (tw as int) * (th as int),
{
    let ghost gspec = compose_spec(
        src@,
        sw as int,
        rx as int,
        ry as int,
        rw as int,
        rh as int,
        sx0 as int,
        sy0 as int,
        tw as int,
        th as int,
        cr,
        cg,
        cb,
    );
    let srclen = src.len();
    let twu = tw as usize;
    let thu = th as usize;
    let swu = sw as usize;
    let mut out: Vec<u8> = Vec::new();
    let mut y: usize = 0;
    while y < thu
        invariant
            y <= thu,
            twu == tw && thu == th && swu == sw,
            srclen == src@.len(),
            src@.len() == 3 * (sw as int) * (sh as int),
            rx + rw <= tw,
            ry + rh <= th,
            sx0 + rw <= sw,
            sy0 + rh <= sh,
            4 * (tw as int) * (th as int) <= usize::MAX,
            gspec == compose_spec(
                src@,
                sw as int,
                rx as int,
                ry as int,
                rw as int,
                rh as int,
                sx0 as int,
                sy0 as int,
                tw as int,
                th as int,
                cr,
                cg,
                cb,
            ),
            out@.len() == 4 * (y * twu),
            forall|i: int| 0 <= i < out@.len() ==> out@[i] == gspec[i],
        decreases thu - y,
    {
        let mut x: usize = 0;
        proof {
            assert((y * twu) <= (thu - 1) * twu) by (nonlinear_arith)
                requires
                    y < thu,
                    0 <= twu,
            ;
        }
        while x < twu
            invariant
                x <= twu,
                y < thu,
                twu == tw && thu == th && swu == sw,
                srclen == src@.len(),
                src@.len() == 3 * (sw as int) * (sh as int),
                rx + rw <= tw,
                ry + rh <= th,
                sx0 + rw <= sw,
                sy0 + rh <= sh,
                4 * (tw as int) * (th as int) <= usize::MAX,
                gspec == compose_spec(
                    src@,
                    sw as int,
                    rx as int,
                    ry as int,
                    rw as int,
                    rh as int,
                    sx0 as int,
                    sy0 as int,
                    tw as int,
                    th as int,
                    cr,
                    cg,
                    cb,
                ),
                out@.len() == 4 * (y * twu + x),
                forall|i: int| 0 <= i < out@.len() ==> out@[i] == gspec[i],
            decreases twu - x,
        {
            let ghost p = (y * twu + x) as int;
            proof {
                assert(y * twu + x < twu * thu && 4 * (y * twu + x) + 4 <= 4 * (twu * thu)) by (
                nonlinear_arith)
                    requires
                        x < twu,
                        y < thu,
                        0 <= x,
                        0 <= y,
                ;
                assert(p % (tw as int) == x && p / (tw as int) == y) by {
                    lemma_fundamental_div_mod_converse(p, tw as int, y as int, x as int);
                }
                lemma_fundamental_div_mod_converse(4 * p, 4, p, 0);
                lemma_fundamental_div_mod_converse(4 * p + 1, 4, p, 1);
                lemma_fundamental_div_mod_converse(4 * p + 2, 4, p, 2);
                lemma_fundamental_div_mod_converse(4 * p + 3, 4, p, 3);
                assert(gspec.len() == 4 * ((tw as int) * (th as int)));
            }
            let in_region = rx as usize <= x && x < rx as usize + rw as usize && ry as usize <= y
                && y < ry as usize + rh as usize;
            if in_region {
                let sx = sx0 as usize + (x - rx as usize);
                let sy = sy0 as usize + (y - ry as usize);
                proof {
                    assert(3 * ((sy as int) * (swu as int) + (sx as int)) + 3 <= 3 * (swu as int) * (
                    sh as int)) by (nonlinear_arith)
                        requires
                            (sx as int) < (swu as int),
                            (sy as int) < (sh as int),
                            0 <= (sx as int),
                            0 <= (sy as int),
                    ;
                }
                let base = 3 * (sy * swu + sx);
                let bb = src[base + 2];
                let bg = src[base + 1];
                let br = src[base];
                out.push(bb);
                out.push(bg);
                out.push(br);
                out.push(255);
                proof {
                    assert(out@[4 * p] == gspec[4 * p]);
                    assert(out@[4 * p + 1] == gspec[4 * p + 1]);
                    assert(out@[4 * p + 2] == gspec[4 * p + 2]);
                    assert(out@[4 * p + 3] == gspec[4 * p + 3]);
                }
            } else {
                out.push(cb);
                out.push(cg);
                out.push(cr);
                out.push(255);
                proof {
                    assert(out@[4 * p] == gspec[4 * p]);
                    assert(out@[4 * p + 1] == gspec[4 * p + 1]);
                    assert(out@[4 * p + 2] == gspec[4 * p + 2]);
                    assert(out@[4 * p + 3] == gspec[4 * p + 3]);
                }
            }
            x = x + 1;
        }
        proof {
            assert(y * twu + twu == (y + 1) * twu) by (nonlinear_arith);
        }
        y = y + 1;
    }
    proof {
        assert(out@.len() == 4 * (thu * twu));
        assert(4 * ((tw as int) * (th as int)) == 4 * ((thu as int) * (twu as int)) && 4 * ((
        tw as int) * (th as int)) == 4 * (tw as int) * (th as int)) by (nonlinear_arith)
            requires
                (twu as int) == (tw as int),
                (thu as int) == (th as int),
        ;
        assert(out@ =~= gspec);
    }
    out
}

/// Numeric code of a filter, used to identify it in specifications.
pub open spec fn filter_code(f: Filter) -> int {
    match f {
        Filter::Nearest => 0,
        Filter::Triangle => 1,
        Filter::CatmullRom => 2,
        Filter::Gaussian => 3,
        Filter::Lanczos3 => 4,
    }
}

/// The RGB bytes that resampling an `sw` by `sh` RGB image to `tw` by
/// `th` with the given filter produces; a function of its arguments
/// alone, computed by the image library.
pub uninterp spec fn scaled_rgb(src: Seq<u8>, sw: int, sh: int, tw: int, th: int, f: int) -> Seq<
    u8,
>;

/// Relies on image::imageops::resize: convolution resampling of an RGB
/// image to the requested dimensions, deterministic in the pixels,
/// dimensions and filter; the result holds exactly `tw * th` pixels.
#[verifier::external_body]
fn scale_rgb(pixels: Vec<u8>, sw: u32, sh: u32, tw: u32, th: u32, f: &Filter) -> (r: Vec<u8>)
    requires
        pixels@.len() == 3 * (sw as int) * (sh as int),
        1 <= sw && 1 <= sh && 1 <= tw && 1 <= th,
    ensures
        r@ == scaled_rgb(pixels@, sw as int, sh as int, tw as int, th as int, filter_code(*f)),
        r@.len() == 3 * (tw as int) * (th as int),
{
    let img = image::RgbImage::from_raw(sw, sh, pixels).unwrap();
    let ft = match f {
        Filter::Nearest => image::imageops::FilterType::Nearest,
        Filter::Triangle => image::imageops::FilterType::Triangle,
        Filter::CatmullRom => image::imageops::FilterType::CatmullRom,
        Filter::Gaussian => image::imageops::FilterType::Gaussian,
        Filter::Lanczos3 => image::imageops::FilterType::Lanczos3,
    };
    image::imageops::resize(&img, tw, th, ft).into_raw()
}

/// Dimensions that scale (`sw`, `sh`) preserving aspect ratio so the
/// image fits fully inside (`tw`, `th`), exact on the limiting axis.
pub open spec fn fit_dims(sw: int, sh: int, tw: int, th: int) -> (int, int) {
    if tw * sh > sw * th {
        ((sw * th) / sh, th)
    } else {
        (tw, (sh * tw) / sw)
    }
}

/// Dimensions that scale (`sw`, `sh`) preserving aspect ratio so the
/// image fully covers (`tw`, `th`), exact on the limiting axis.
pub open spec fn cover_dims(sw: int, sh: int, tw: int, th: int) -> (int, int) {
    if tw * sh > sw * th {
        (tw, (sh * tw) / sw)
    } else {
        ((sw * th) / sh, th)
    }
}

/// The fit dimensions never exceed the target.
proof fn lemma_fit_dims_le(sw: int, sh: int, tw: int, th: int)
    requires
        1 <= sw && 1 <= sh && 1 <= tw && 1 <= th,
    ensures
        fit_dims(sw, sh, tw, th).0 <= tw,
        fit_dims(sw, sh, tw, th).1 <= th,
{
    if tw * sh > sw * th {
        let q = (sw * th) / sh;
        vstd::arithmetic::div_mod::lemma_fundamental_div_mod(sw * th, sh);
        assert(sh * q <= sw * th);
        assert(q <= tw) by (nonlinear_arith)
            requires
                sh * q <= sw * th,
                sw * th < tw * sh,
                1 <= sh,
        ;
    } else {
        let q = (sh * tw) / sw;
        vstd::arithmetic::div_mod::lemma_fundamental_div_mod(sh * tw, sw);
        assert(sw * q <= sh * tw);
        assert(q <= th) by (nonlinear_arith)
            requires
                sw * q <= sh * tw,
                tw * sh <= sw * th,
                1 <= sw,
        ;
    }
}

/// The cover dimensions never fall short of the target.
proof fn lemma_cover_dims_ge(sw: int, sh: int, tw: int, th: int)
    requires
        1 <= sw && 1 <= sh && 1 <= tw && 1 <= th,
    ensures
        cover_dims(sw, sh, tw, th).0 >= tw,
        cover_dims(sw, sh, tw, th).1 >= th,
{
    if tw * sh > sw * th {
        assert(sw * th <= sh * tw) by (nonlinear_arith)
            requires
                tw * sh > sw * th,
        ;
        lemma_div_is_ordered_pub(sw * th, sh * tw, sw);
        assert(sw * th == th * sw + 0) by (nonlinear_arith);
        lemma_fundamental_div_mod_converse(sw * th, sw, th, 0);
    } else {
        assert(tw * sh <= sw * th) by (nonlinear_arith)
            requires
                tw * sh <= sw * th,
        ;
        lemma_div_is_ordered_pub(tw * sh, sw * th, sh);
        assert(tw * sh == tw * sh + 0) by (nonlinear_arith);
        lemma_fundamental_div_mod_converse(tw * sh, sh, tw, 0);
    }
}

proof fn lemma_div_is_ordered_pub(x: int, y: int, z: int)
    requires
        x <= y,
        0 < z,
    ensures
        x / z <= y / z,
{
    vstd::arithmetic::div_mod::lemma_div_is_ordered(x, y, z);
}

/// Center a source image on a (`tw`, `th`) canvas without scaling: the
/// source is cropped at the origin to at most the canvas size, the
/// uncovered border is filled with the color; an uneven border puts the
/// extra pixel on the trailing edge.
pub open spec fn img_pad_spec(
    src: Seq<u8>,
    sw: int,
    sh: int,
    tw: int,
    th: int,
    cr: u8,
    cg: u8,
    cb: u8,
) -> Seq<u8> {
    let cw = min(sw, tw);
    let ch = min(sh, th);
    compose_spec(src, sw, (tw - cw) / 2, (th - ch) / 2, cw, ch, 0, 0, tw, th, cr, cg, cb)
}

/// Crop a source image to at most the canvas size, center it, and fill
/// the border with `color`, producing a BGRA buffer.
pub fn img_pad(img: RawImg, dimensions: (u32, u32), color: &[u8; 3]) -> (r: Result<
    Vec<u8>,
    String,
>)
    requires
        img.wf(),
        4 * (dimensions.0 as int) * (dimensions.1 as int) <= usize::MAX,
    ensures
        r matches Ok(v) && v@ == img_pad_spec(
            img.pixels@,
            img.width as int,
            img.height as int,
            dimensions.0 as int,
            dimensions.1 as int,
            color[0],
            color[1],
            color[2],
        ),
{
    let (tw, th) = dimensions;
    let sw = img.width;
    let sh = img.height;
    let cw = if sw < tw {
        sw
    } else {
        tw
    };
    let ch = if sh < th {
        sh
    } else {
        th
    };
    let ox = (tw - cw) / 2;
    let oy = (th - ch) / 2;
    assert(ox + cw <= tw && oy + ch <= th);
    let v = compose_bgra(
        &img.pixels,
        sw,
        sh,
        ox,
        oy,
        cw,
        ch,
        0,
        0,
        tw,
        th,
        color[0],
        color[1],
        color[2],
    );
    Ok(v)
}

/// What resizing to fit produces: a passthrough conversion when the
/// dimensions already match, a direct pad when one axis matches, and
/// otherwise an aspect-preserving scale followed by a pad.
pub open spec fn fit_result(
    src: Seq<u8>,
    sw: int,
    sh: int,
    tw: int,
    th: int,
    f: int,
    cr: u8,
    cg: u8,
    cb: u8,
) -> Seq<u8> {
    if sw == tw && sh == th {
        compose_spec(src, sw, 0, 0, sw, sh, 0, 0, sw, sh, cr, cg, cb)
    } else if sw == tw || sh == th {
        img_pad_spec(src, sw, sh, tw, th, cr, cg, cb)
    } else {
        let fw = fit_dims(sw, sh, tw, th).0;
        let fh = fit_dims(sw, sh, tw, th).1;
        img_pad_spec(scaled_rgb(src, sw, sh, fw, fh, f), fw, fh, tw, th, cr, cg, cb)
    }
}

/// What the fit path needs of its inputs: positive dimensions, a canvas
/// that fits in memory, and scaled dimensions that do not vanish.
pub open spec fn fit_req(sw: int, sh: int, tw: int, th: int) -> bool {
    &&& 1 <= sw && 1 <= sh && 1 <= tw && 1 <= th
    &&& 4 * tw * th <= usize::MAX
    &&& fit_dims(sw, sh, tw, th).0 >= 1
    &&& fit_dims(sw, sh, tw, th).1 >= 1
}

/// Resize an image to fit within the given dimensions, covering as much
/// of the canvas as possible without cropping, padding the rest.
pub fn img_resize_fit(
    img: RawImg,
    dimensions: (u32, u32),
    filter: Filter,
    padding_color: &[u8; 3],
) -> (r: Result<Vec<u8>, String>)
    requires
        img.wf(),
        fit_req(
            img.width as int,
            img.height as int,
            dimensions.0 as int,
            dimensions.1 as int,
        ),
    ensures
        r matches Ok(v) && v@ == fit_result(
            img.pixels@,
            img.width as int,
            img.height as int,
            dimensions.0 as int,
            dimensions.1 as int,
            filter_code(filter),
            padding_color[0],
            padding_color[1],
            padding_color[2],
        ),
{
    let (tw, th) = dimensions;
    let sw = img.width;
    let sh = img.height;
    if sw == tw && sh == th {
        proof {
            assert(4 * (sw as int) * (sh as int) <= usize::MAX);
        }
        let v = compose_bgra(
            &img.pixels,
            sw,
            sh,
            0,
            0,
            sw,
            sh,
            0,
            0,
            sw,
            sh,
            padding_color[0],
            padding_color[1],
            padding_color[2],
        );
        Ok(v)
    } else if sw == tw || sh == th {
        img_pad(img, dimensions, padding_color)
    } else {
        proof {
            lemma_fit_dims_le(sw as int, sh as int, tw as int, th as int);
        }
        let (fw, fh) = fit_dims_exec(sw, sh, tw, th);
        proof {
            assert(3 * (fw as int) * (fh as int) <= 4 * (tw as int) * (th as int)) by (
            nonlinear_arith)
                requires
                    1 <= fw <= tw,
                    1 <= fh <= th,
            ;
        }
        let scaled = scale_rgb(img.pixels, sw, sh, fw, fh, &filter);
        let scaled_img = RawImg { width: fw, height: fh, pixels: scaled };
        img_pad(scaled_img, dimensions, padding_color)
    }
}

/// Compute the fit dimensions in execution.
fn fit_dims_exec(sw: u32, sh: u32, tw: u32, th: u32) -> (r: (u32, u32))
    requires
        1 <= sw && 1 <= sh && 1 <= tw && 1 <= th,
    ensures
        r.0 == fit_dims(sw as int, sh as int, tw as int, th as int).0,
        r.1 == fit_dims(sw as int, sh as int, tw as int, th as int).1,
{
    proof {
        lemma_fit_dims_le(sw as int, sh as int, tw as int, th as int);
    }
    let sw64 = sw as u64;
    let sh64 = sh as u64;
    let tw64 = tw as u64;
    let th64 = th as u64;
    proof {
        assert(tw64 * sh64 <= u64::MAX && sw64 * th64 <= u64::MAX && sw64 * th64 == (sw as int) * (
        th as int) && tw64 * sh64 == (tw as int) * (sh as int) && sh64 * tw64 == (sh as int) * (
        tw as int) && th64 * sw64 == (th as int) * (sw as int)) by (nonlinear_arith)
            requires
                sw64 == sw && sh64 == sh && tw64 == tw && th64 == th,
                sw64 <= u32::MAX && sh64 <= u32::MAX && tw64 <= u32::MAX && th64 <= u32::MAX,
        ;
    }
    if tw64 * sh64 > sw64 * th64 {
        (((sw64 * th64) / sh64) as u32, th)
    } else {
        (tw, ((sh64 * tw64) / sw64) as u32)
    }
}

/// What resizing to cover-and-crop produces: a passthrough conversion
/// when the dimensions already match, otherwise an aspect-preserving
/// scale to cover the canvas followed by a center-anchored crop.
pub open spec fn crop_result(src: Seq<u8>, sw: int, sh: int, tw: int, th: int, f: int) -> Seq<
    u8,
> {
    if sw == tw && sh == th {
        compose_spec(src, sw, 0, 0, sw, sh, 0, 0, sw, sh, 0, 0, 0)
    } else {
        let cw = cover_dims(sw, sh, tw, th).0;
        let ch = cover_dims(sw, sh, tw, th).1;
        compose_spec(
            scaled_rgb(src, sw, sh, cw, ch, f),
            cw,
            0,
            0,
            tw,
            th,
            (cw - tw) / 2,
            (ch - th) / 2,
            tw,
            th,
            0,
            0,
            0,
        )
    }
}

/// What the crop path needs of its inputs: positive dimensions, a
/// canvas that fits in memory, and cover dimensions that fit in 32 bits
/// and in memory.
pub open spec fn crop_req(sw: int, sh: int, tw: int, th: int) -> bool {
    &&& 1 <= sw && 1 <= sh && 1 <= tw && 1 <= th
    &&& 4 * tw * th <= usize::MAX
    &&& cover_dims(sw, sh, tw, th).0 <= u32::MAX
    &&& cover_dims(sw, sh, tw, th).1 <= u32::MAX
    &&& 3 * cover_dims(sw, sh, tw, th).0 * cover_dims(sw, sh, tw, th).1 <= usize::MAX
}

/// Scale an image to cover the given dimensions and crop it to exactly
/// that size, anchored at the center; never pads.
pub fn img_resize_crop(img: RawImg, dimensions: (u32, u32), filter: Filter) -> (r: Result<
    Vec<u8>,
    String,
>)
    requires
        img.wf(),
        crop_req(
            img.width as int,
            img.height as int,
            dimensions.0 as int,
            dimensions.1 as int,
        ),
    ensures
        r matches Ok(v) && v@ == crop_result(
            img.pixels@,
            img.width as int,
            img.height as int,
            dimensions.0 as int,
            dimensions.1 as int,
            filter_code(filter),
        ),
{
    let (tw, th) = dimensions;
    let sw = img.width;
    let sh = img.height;
    if sw == tw && sh == th {
        proof {
            assert(4 * (sw as int) * (sh as int) <= usize::MAX);
        }
        let v = compose_bgra(&img.pixels, sw, sh, 0, 0, sw, sh, 0, 0, sw, sh, 0, 0, 0);
        Ok(v)
    } else {
        proof {
            lemma_cover_dims_ge(sw as int, sh as int, tw as int, th as int);
        }
        let (cw, ch) = cover_dims_exec(sw, sh, tw, th);
        let scaled = scale_rgb(img.pixels, sw, sh, cw, ch, &filter);
        let cx = (cw - tw) / 2;
        let cy = (ch - th) / 2;
        assert(cx + tw <= cw && cy + th <= ch);
        let v = compose_bgra(&scaled, cw, ch, 0, 0, tw, th, cx, cy, tw, th, 0, 0, 0);
        Ok(v)
    }
}

/// Compute the cover dimensions in execution.
fn cover_dims_exec(sw: u32, sh: u32, tw: u32, th: u32) -> (r: (u32, u32))
    requires
        1 <= sw && 1 <= sh && 1 <= tw && 1 <= th,
        cover_dims(sw as int, sh as int, tw as int, th as int).0 <= u32::MAX,
        cover_dims(sw as int, sh as int, tw as int, th as int).1 <= u32::MAX,
    ensures
        r.0 == cover_dims(sw as int, sh as int, tw as int, th as int).0,
        r.1 == cover_dims(sw as int, sh as int, tw as int, th as int).1,
{
    let sw64 = sw as u64;
    let sh64 = sh as u64;
    let tw64 = tw as u64;
    let th64 = th as u64;
    proof {
        assert(tw64 * sh64 <= u64::MAX && sw64 * th64 <= u64::MAX && sw64 * th64 == (sw as int) * (
        th as int) && tw64 * sh64 == (tw as int) * (sh as int) && sh64 * tw64 == (sh as int) * (
        tw as int) && th64 * sw64 == (th as int) * (sw as int)) by (nonlinear_arith)
            requires
                sw64 == sw && sh64 == sh && tw64 == tw && th64 == th,
                sw64 <= u32::MAX && sh64 <= u32::MAX && tw64 <= u32::MAX && th64 <= u32::MAX,
        ;
    }
    if tw64 * sh64 > sw64 * th64 {
        (tw, ((sh64 * tw64) / sw64) as u32)
    } else {
        (((sw64 * th64) / sh64) as u32, th)
    }
}

/// A resize strategy with its parameters fixed for one processing job.
pub enum ResizeOperation {
    Pad { dimensions: (u32, u32), color: [u8; 3] },
    ResizeFit { dimensions: (u32, u32), filter: Filter, padding_color: [u8; 3] },
    ResizeCrop { dimensions: (u32, u32), filter: Filter },
}

impl ResizeOperation {
    /// The strategy an `Img` request selects for a given output size.
    pub fn new(img: &Img, dimensions: (u32, u32)) -> (r: Self)
        ensures
            img.resize == ResizeStrategy::No ==> r == (ResizeOperation::Pad {
                dimensions,
                color: img.fill_color,
            }),
            img.resize == ResizeStrategy::Crop ==> r == (ResizeOperation::ResizeCrop {
                dimensions,
                filter: img.filter,
            }),
            img.resize == ResizeStrategy::Fit ==> r == (ResizeOperation::ResizeFit {
                dimensions,
                filter: img.filter,
                padding_color: img.fill_color,
            }),
    {
        match img.resize {
            ResizeStrategy::No => ResizeOperation::Pad { dimensions, color: img.fill_color },
            ResizeStrategy::Crop => ResizeOperation::ResizeCrop {
                dimensions,
                filter: img.filter,
            },
            ResizeStrategy::Fit => ResizeOperation::ResizeFit {
                dimensions,
                filter: img.filter,
                padding_color: img.fill_color,
            },
        }
    }

    /// What `resize` needs of the image for this operation.
    pub open spec fn req(self, img: RawImg) -> bool {
        match self {
            ResizeOperation::Pad { dimensions, .. } => 4 * (dimensions.0 as int) * (
            dimensions.1 as int) <= usize::MAX,
            ResizeOperation::ResizeFit { dimensions, .. } => fit_req(
                img.width as int,
                img.height as int,
                dimensions.0 as int,
                dimensions.1 as int,
            ),
            ResizeOperation::ResizeCrop { dimensions, .. } => crop_req(
                img.width as int,
                img.height as int,
                dimensions.0 as int,
                dimensions.1 as int,
            ),
        }
    }

    /// The buffer `resize` returns for this operation.
    pub open spec fn result_spec(self, img: RawImg) -> Seq<u8> {
        match self {
            ResizeOperation::Pad { dimensions, color } => img_pad_spec(
                img.pixels@,
                img.width as int,
                img.height as int,
                dimensions.0 as int,
                dimensions.1 as int,
                color[0],
                color[1],
                color[2],
            ),
            ResizeOperation::ResizeFit { dimensions, filter, padding_color } => fit_result(
                img.pixels@,
                img.width as int,
                img.height as int,
                dimensions.0 as int,
                dimensions.1 as int,
                filter_code(filter),
                padding_color[0],
                padding_color[1],
                padding_color[2],
            ),
            ResizeOperation::ResizeCrop { dimensions, filter } => crop_result(
                img.pixels@,
                img.width as int,
                img.height as int,
                dimensions.0 as int,
                dimensions.1 as int,
                filter_code(filter),
            ),
        }
    }

    /// Run the selected resize strategy on a decoded image.
    pub fn resize(&self, img: RawImg) -> (r: Result<Vec<u8>, String>)
        requires
            img.wf(),
            self.req(img),
        ensures
            r matches Ok(v) && v@ == self.result_spec(img),
    {
        match self {
            ResizeOperation::Pad { dimensions, color } => img_pad(img, *dimensions, color),
            ResizeOperation::ResizeFit { dimensions, filter, padding_color } => img_resize_fit(
                img,
                *dimensions,
                *filter,
                padding_color,
            ),
            ResizeOperation::ResizeCrop { dimensions, filter } => img_resize_crop(
                img,
                *dimensions,
                *filter,
            ),
        }
    }
}


/// The dimensions a resize operation targets.
pub open spec fn op_dims(op: ResizeOperation) -> (u32, u32) {
    match op {
        ResizeOperation::Pad { dimensions, .. } => dimensions,
        ResizeOperation::ResizeFit { dimensions, .. } => dimensions,
        ResizeOperation::ResizeCrop { dimensions, .. } => dimensions,
    }
}

/// Every resize result is a full BGRA canvas of the target dimensions.
pub proof fn lemma_result_len(op: ResizeOperation, img: RawImg)
    ensures
        op.result_spec(img).len() == 4 * (op_dims(op).0 as int) * (op_dims(op).1 as int),
{
    let tw = op_dims(op).0 as int;
    let th = op_dims(op).1 as int;
    assert(4 * (tw * th) == 4 * tw * th) by (nonlinear_arith);
    let sw = img.width as int;
    let sh = img.height as int;
    assert(4 * (sw * sh) == 4 * sw * sh) by (nonlinear_arith);
}

/// What a strategy needs of the source and target dimensions before the
/// pipeline can run; `Pad` works whenever the canvas itself fits in
/// memory.
pub open spec fn strategy_req(resize: ResizeStrategy, sw: int, sh: int, tw: int, th: int) -> bool {
    match resize {
        ResizeStrategy::No => 4 * tw * th <= usize::MAX,
        ResizeStrategy::Fit => fit_req(sw, sh, tw, th),
        ResizeStrategy::Crop => crop_req(sw, sh, tw, th),
    }
}

/// Decide `strategy_req` in execution, for a canvas already known to
/// fit in memory.
pub fn strategy_ok(resize: ResizeStrategy, sw: u32, sh: u32, tw: u32, th: u32) -> (b: bool)
    requires
        4 * (tw as int) * (th as int) <= usize::MAX,
    ensures
        b == strategy_req(resize, sw as int, sh as int, tw as int, th as int),
{
    match resize {
        ResizeStrategy::No => true,
        ResizeStrategy::Fit => {
            if sw == 0 || sh == 0 || tw == 0 || th == 0 {
                false
            } else {
                let (fw, fh) = fit_dims_exec(sw, sh, tw, th);
                fw >= 1 && fh >= 1
            }
        },
        ResizeStrategy::Crop => {
            if sw == 0 || sh == 0 || tw == 0 || th == 0 {
                false
            } else {
                let sw64 = sw as u64;
                let sh64 = sh as u64;
                let tw64 = tw as u64;
                let th64 = th as u64;
                proof {
                    assert(tw64 * sh64 <= u64::MAX && sw64 * th64 <= u64::MAX && sh64 * tw64
                        <= u64::MAX && tw64 * sh64 == (tw as int) * (sh as int) && sw64 * th64 == (
                    sw as int) * (th as int) && sh64 * tw64 == (sh as int) * (tw as int)) by (
                    nonlinear_arith)
                        requires
                            sw64 == sw && sh64 == sh && tw64 == tw && th64 == th,
                            sw64 <= u32::MAX && sh64 <= u32::MAX && tw64 <= u32::MAX && th64
                                <= u32::MAX,
                    ;
                }
                let (cw64, ch64): (u64, u64) = if tw64 * sh64 > sw64 * th64 {
                    (tw64, (sh64 * tw64) / sw64)
                } else {
                    ((sw64 * th64) / sh64, th64)
                };
                if cw64 > u32::MAX as u64 || ch64 > u32::MAX as u64 {
                    false
                } else {
                    proof {
                        assert(cw64 * ch64 <= u64::MAX) by (nonlinear_arith)
                            requires
                                cw64 <= u32::MAX as u64,
                                ch64 <= u32::MAX as u64,
                        ;
                        vstd::arithmetic::div_mod::lemma_fundamental_div_mod(usize::MAX as int, 3);
                        assert(3 * ((cw64 as int) * (ch64 as int)) == 3 * (cw64 as int) * (
                        ch64 as int)) by (nonlinear_arith);
                    }
                    cw64 * ch64 <= (usize::MAX as u64) / 3
                }
            }
        },
    }
}


/// The resize result depends only on the image's dimensions and pixel
/// bytes.
pub proof fn lemma_result_spec_views(op: ResizeOperation, a: RawImg, b: RawImg)
    requires
        a.width == b.width,
        a.height == b.height,
        a.pixels@ == b.pixels@,
    ensures
        op.result_spec(a) == op.result_spec(b),
{
}

} // verus!
