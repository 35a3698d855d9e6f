use vstd::prelude::*;
use crate::buffer::PixelBuffer;
use crate::config::EncryptionParams;

verus! {

/// Failures of the buffer-shaping stages of the pipeline.
#[derive(Clone, Copy, PartialEq, Eq, Structural, Debug)]
pub enum ImageError {
    /// The buffer's color arrangement is not one the pipeline handles.
    UnsupportedColor,
    /// The buffer's dimensions do not fit the requested operation.
    InvalidDimensions,
    /// The keystream generator produced a non-finite value.
    NumericalInstability,
}

/// A byte index computed from in-range coordinates stays inside a
/// well-shaped buffer, as do its intermediate products.
pub proof fn lemma_index_in_bounds(w: int, h: int, ch: int, x: int, y: int, c: int)
    requires
        0 <= x < w,
        0 <= y < h,
        0 <= c < ch,
    ensures
        0 <= y * w + x < w * h,
        0 <= (y * w + x) * ch + c < w * h * ch,
        w * h <= w * h * ch,
{
    assert(0 <= y * w + x < w * h && 0 <= (y * w + x) * ch + c < w * h * ch
        && w * h <= w * h * ch) by (nonlinear_arith)
        requires
            0 <= x < w,
            0 <= y < h,
            0 <= c < ch,
    ;
}

/// A byte index strictly earlier in raster order than position
/// `(x, y, c)` stays below that position's flat index.
proof fn lemma_raster_prefix_bound(ow: int, ch: int, y: int, x: int, c: int, xx: int, yy: int,
    cc: int)
    requires
        0 <= xx < ow,
        0 <= cc < ch,
        0 <= yy,
        0 <= x,
        0 <= c,
        yy < y || (yy == y && (xx < x || (xx == x && cc < c))),
    ensures
        0 <= (yy * ow + xx) * ch + cc,
        (yy * ow + xx) * ch + cc < y * ow * ch + x * ch + c,
{
    assert(0 <= (yy * ow + xx) * ch + cc
        && (yy * ow + xx) * ch + cc < y * ow * ch + x * ch + c) by (nonlinear_arith)
        requires
            0 <= xx < ow,
            0 <= cc < ch,
            0 <= yy,
            0 <= x,
            0 <= c,
            yy < y || (yy == y && (xx < x || (xx == x && cc < c))),
    ;
}

/// Crop a decrypted buffer back to its pre-padding extent, using the
/// padding offsets recovered from the embedded parameters: the image was
/// centered on the padded canvas, so `(padded - original) / 2` bytes of
/// margin are removed from each axis (integer floor).
pub fn unpad_image(img: &PixelBuffer, params: &EncryptionParams) -> (r: Result<PixelBuffer, ImageError>)
    requires
        img.wf(),
    ensures
        !params.padded ==> (r matches Ok(out) && out.width == img.width
            && out.height == img.height && out.channels == img.channels
            && out.data@ == img.data@),
        params.padded && (params.original_shape_unpadded.0 > img.height
            || params.original_shape_unpadded.1 > img.width)
            ==> r == Err::<PixelBuffer, ImageError>(ImageError::InvalidDimensions),
        params.padded && params.original_shape_unpadded.0 <= img.height
            && params.original_shape_unpadded.1 <= img.width
            ==> (r matches Ok(out)
                && out.wf()
                && out.height == params.original_shape_unpadded.0
                && out.width == params.original_shape_unpadded.1
                && out.channels == img.channels
                && (forall|x: int, y: int, c: int|
                    0 <= x < out.width as int && 0 <= y < out.height as int
                        && 0 <= c < out.channels as int
                        ==> #[trigger] out.byte_at(x, y, c) == img.byte_at(
                                x + (img.width as int - out.width as int) / 2,
                                y + (img.height as int - out.height as int) / 2,
                                c,
                            ))),
{
    if !params.padded {
        return Ok(img.clone());
    }
    let (orig_h, orig_w) = params.original_shape_unpadded;
    if orig_h > img.height || orig_w > img.width {
        return Err(ImageError::InvalidDimensions);
    }
    let pad_top: u32 = (img.height - orig_h) / 2;
    let pad_left: u32 = (img.width - orig_w) / 2;
    let ch: usize = img.channels as usize;
    let mut out_data: Vec<u8> = Vec::new();
    let mut y: u32 = 0;
    proof {
        assert(0int * (orig_w as int) * (ch as int) == 0) by (nonlinear_arith);
    }
    while y < orig_h
        invariant
            img.wf(),
            orig_h <= img.height,
            orig_w <= img.width,
            pad_top == (img.height - orig_h) / 2,
            pad_left == (img.width - orig_w) / 2,
            ch == img.channels as int,
            y <= orig_h,
            out_data@.len() == y as int * orig_w as int * ch as int,
            forall|xx: int, yy: int, cc: int|
                0 <= xx < orig_w as int && 0 <= yy < y as int && 0 <= cc < ch as int
                    ==> #[trigger] out_data@[(yy * orig_w as int + xx) * ch as int + cc]
                        == img.byte_at(xx + pad_left as int, yy + pad_top as int, cc),
        decreases orig_h - y,
    {
        let mut x: u32 = 0;
        proof {
            assert(0int * (ch as int) == 0) by (nonlinear_arith);
        }
        while x < orig_w
            invariant
                img.wf(),
                orig_h <= img.height,
                orig_w <= img.width,
                pad_top == (img.height - orig_h) / 2,
                pad_left == (img.width - orig_w) / 2,
                ch == img.channels as int,
                y < orig_h,
                x <= orig_w,
                out_data@.len() == y as int * orig_w as int * ch as int + x as int * ch as int,
                forall|xx: int, yy: int, cc: int|
                    0 <= xx < orig_w as int && 0 <= yy < y as int && 0 <= cc < ch as int
                        ==> #[trigger] out_data@[(yy * orig_w as int + xx) * ch as int + cc]
                            == img.byte_at(xx + pad_left as int, yy + pad_top as int, cc),
                forall|xx: int, cc: int|
                    0 <= xx < x as int && 0 <= cc < ch as int
                        ==> #[trigger] out_data@[(y as int * orig_w as int + xx) * ch as int + cc]
                            == img.byte_at(xx + pad_left as int, y as int + pad_top as int, cc),
            decreases orig_w - x,
        {
            let mut c: usize = 0;
            while c < ch
                invariant
                    img.wf(),
                    orig_h <= img.height,
                    orig_w <= img.width,
                    pad_top == (img.height - orig_h) / 2,
                    pad_left == (img.width - orig_w) / 2,
                    ch == img.channels as int,
                    y < orig_h,
                    x < orig_w,
                    c <= ch,
                    out_data@.len() == y as int * orig_w as int * ch as int + x as int * ch as int
                        + c as int,
                    forall|xx: int, yy: int, cc: int|
                        0 <= xx < orig_w as int && 0 <= yy < y as int && 0 <= cc < ch as int
                            ==> #[trigger] out_data@[(yy * orig_w as int + xx) * ch as int + cc]
                                == img.byte_at(xx + pad_left as int, yy + pad_top as int, cc),
                    forall|xx: int, cc: int|
                        0 <= xx < x as int && 0 <= cc < ch as int
                            ==> #[trigger] out_data@[(y as int * orig_w as int + xx) * ch as int
                                    + cc]
                                == img.byte_at(xx + pad_left as int, y as int + pad_top as int, cc),
                    forall|cc: int|
                        0 <= cc < c as int
                            ==> #[trigger] out_data@[(y as int * orig_w as int + x as int)
                                    * ch as int + cc]
                                == img.byte_at(x as int + pad_left as int, y as int + pad_top as int, cc),
                decreases ch - c,
            {
                proof {
                    vstd::arithmetic::div_mod::lemma_div_nonincreasing(
                        img.width as int - orig_w as int, 2);
                    vstd::arithmetic::div_mod::lemma_div_nonincreasing(
                        img.height as int - orig_h as int, 2);
                }
                let src_x: u32 = x + pad_left;
                let src_y: u32 = y + pad_top;
                proof {
                    lemma_index_in_bounds(img.width as int, img.height as int, img.channels as int,
                        src_x as int, src_y as int, c as int);
                }
                let data_len: usize = img.data.len();
                proof {
                    assert(data_len as int
                        == img.width as int * img.height as int * img.channels as int);
                }
                let pix: usize = src_y as usize * img.width as usize + src_x as usize;
                let src_idx: usize = pix * ch + c;
                let byte: u8 = img.data[src_idx];
                let ghost prev = out_data@;
                out_data.push(byte);
                proof {
                    let yi = y as int;
                    let xi = x as int;
                    let ci = c as int;
                    let owi = orig_w as int;
                    let chi = ch as int;
                    assert forall|xx: int, yy: int, cc: int|
                        0 <= xx < owi && 0 <= yy < yi && 0 <= cc < chi implies
                        #[trigger] out_data@[(yy * owi + xx) * chi + cc]
                            == img.byte_at(xx + pad_left as int, yy + pad_top as int, cc) by {
                        lemma_raster_prefix_bound(owi, chi, yi, xi, ci, xx, yy, cc);
                        assert(out_data@[(yy * owi + xx) * chi + cc]
                            == prev[(yy * owi + xx) * chi + cc]);
                    }
                    assert forall|xx: int, cc: int|
                        0 <= xx < xi && 0 <= cc < chi implies
                        #[trigger] out_data@[(yi * owi + xx) * chi + cc]
                            == img.byte_at(xx + pad_left as int, yi + pad_top as int, cc) by {
                        lemma_raster_prefix_bound(owi, chi, yi, xi, ci, xx, yi, cc);
                        assert(out_data@[(yi * owi + xx) * chi + cc]
                            == prev[(yi * owi + xx) * chi + cc]);
                    }
                    assert forall|cc: int|
                        0 <= cc < ci implies
                        #[trigger] out_data@[(yi * owi + xi) * chi + cc]
                            == img.byte_at(xi + pad_left as int, yi + pad_top as int, cc) by {
                        lemma_raster_prefix_bound(owi, chi, yi, xi, ci, xi, yi, cc);
                        assert(out_data@[(yi * owi + xi) * chi + cc]
                            == prev[(yi * owi + xi) * chi + cc]);
                    }
                    assert((yi * owi + xi) * chi + ci == yi * owi * chi + xi * chi + ci)
                        by (nonlinear_arith);
                    assert(out_data@[(yi * owi + xi) * chi + ci] == byte);
                }
                c = c + 1;
            }
            x = x + 1;
            proof {
                assert((x as int) * (ch as int) == (x as int - 1) * (ch as int) + ch as int)
                    by (nonlinear_arith);
            }
        }
        y = y + 1;
        proof {
            assert((y as int) * (orig_w as int) * (ch as int)
                == (y as int - 1) * (orig_w as int) * (ch as int)
                    + (orig_w as int) * (ch as int)) by (nonlinear_arith);
        }
    }
    proof {
        assert((orig_w as int) * (orig_h as int) * (ch as int)
            == (orig_h as int) * (orig_w as int) * (ch as int)) by (nonlinear_arith);
    }
    Ok(PixelBuffer { width: orig_w, height: orig_h, channels: img.channels, data: out_data })
}

} // verus!
