//! The self-contained horizontal pixel buffer over heap storage: eight
//! pixels per byte along the x axis, most significant bit first.

use vstd::prelude::*;

use crate::common::{
    as_eight_length, as_eight_start, eight_length_spec, h_drawn_byte, h_packed_from, h_pixel,
    h_updated,
    into_as_eight, lemma_eight_length_bound, lemma_h_draw_pixel, lemma_h_index_bounds,
    lemma_row_major_unique, lemma_zero_byte_bit, min_int, mono_seq, zero_vec, ActAsMono,
    ActAsXywh, AsEight, Mono, Rectangle,
};
use crate::common::draw;

verus! {

/// Construction-time failure: the supplied storage or pixel array length
/// does not match the declared dimensions.
#[derive(Debug, Eq, PartialEq, Structural, Copy, Clone)]
pub enum BytePerEightPixelsError {
    InvalidLengthData,
}

pub type BytePerEightPixelsResult<T> = Result<T, BytePerEightPixelsError>;

/// A monochrome buffer of `width` by `height` logical pixels, stored packed
/// eight pixels per byte along each row: byte `y * eight_width + x / 8`
/// holds pixel `(x, y)` at bit `7 - x % 8`.
#[derive(Debug, Eq, PartialEq, Clone)]
pub struct BytePerEightPixels {
    width: usize,
    height: usize,
    eight_width: usize,
    eight_data: Vec<u8>,
}

impl BytePerEightPixels {
    /// Logical pixel width.
    pub closed spec fn width_spec(&self) -> usize {
        self.width
    }

    /// Logical pixel height.
    pub closed spec fn height_spec(&self) -> usize {
        self.height
    }

    /// Byte count of one packed row.
    pub closed spec fn eight_width_spec(&self) -> usize {
        self.eight_width
    }

    /// The packed bytes, row-major.
    pub closed spec fn data_spec(&self) -> Seq<u8> {
        self.eight_data@
    }

    /// Shape invariant: the row byte count is derived from the width, and
    /// the storage holds exactly one packed row per logical row.
    pub open spec fn wf(&self) -> bool {
        &&& self.eight_width_spec() == eight_length_spec(self.width_spec() as int)
        &&& self.data_spec().len() == self.eight_width_spec() * self.height_spec()
    }

    fn compute_eight_width(width: usize) -> (r: usize)
        ensures
            r == eight_length_spec(width as int),
    {
        proof {
            assert(width >> 3 == width / 8) by (bit_vector);
        }
        match width >> 3 {
            m if m == 0 => 1,
            m if width % 8 == 0 => m,
            m => m + 1,
        }
    }

    /// A zero-filled buffer of the given logical dimensions.
    pub fn new(width: usize, height: usize) -> (r: Self)
        requires
            eight_length_spec(width as int) * (height as int) <= usize::MAX,
        ensures
            r.wf(),
            r.width_spec() == width,
            r.height_spec() == height,
            r.data_spec().len() == eight_length_spec(width as int) * (height as int),
            forall|i: int| 0 <= i < r.data_spec().len() ==> r.data_spec()[i] == 0u8,
    {
        let eight_width = Self::compute_eight_width(width);

        Self {
            width,
            height,
            eight_width,
            eight_data: zero_vec(eight_width * height),
        }
    }

    /// The buffer packed from a dense row-major pixel array; fails if and
    /// only if the array length does not match the dimensions.
    pub fn with_data<M: ActAsMono>(width: usize, height: usize, src: &[M]) -> (r:
        BytePerEightPixelsResult<Self>)
        ensures
            r is Ok <==> src@.len() == (width as int) * (height as int),
            r is Err ==> r == BytePerEightPixelsResult::<Self>::Err(
                BytePerEightPixelsError::InvalidLengthData,
            ),
            r matches Ok(b) ==> {
                &&& b.wf()
                &&& b.width_spec() == width
                &&& b.height_spec() == height
                &&& h_packed_from(
                    b.data_spec(),
                    b.eight_width_spec() as int,
                    width as int,
                    height as int,
                    mono_seq(src@),
                )
            },
    {
        let src_len = src.len();
        let len_matches = match width.checked_mul(height) {
            Some(n) => n == src_len,
            None => false,
        };
        if !len_matches {
            return Err(BytePerEightPixelsError::InvalidLengthData);
        }

        proof {
            lemma_eight_length_bound(width as int);
            let elv = eight_length_spec(width as int);
            if width >= 1 {
                assert(elv * (height as int) <= (width as int) * (height as int))
                    by (nonlinear_arith)
                    requires
                        1 <= elv <= width as int,
                        height as int >= 0,
                ;
            } else {
                assert(elv * (height as int) == height as int);
            }
            assert(elv * (height as int) <= usize::MAX);
        }
        let mut o = Self::new(width, height);
        let ghost zero_data = o.data_spec();
        let res = o.update((0, 0, width, height), src);

        proof {
            let el = o.eight_width_spec() as int;
            let w = width as int;
            let h = height as int;
            let pxs = mono_seq(src@);
            assert forall|ix: int, iy: int| 0 <= ix < 8 * el && 0 <= iy < h implies #[trigger]
                h_pixel(o.data_spec(), el, ix, iy) == if ix < w {
                pxs[iy * w + ix]
            } else {
                Mono::Zero
            } by {
                assert(h_pixel(o.data_spec(), el, ix, iy) == if 0 <= ix < min_int(w, w) && 0 <= iy
                    < min_int(h, h) {
                    pxs[iy * w + ix]
                } else {
                    h_pixel(zero_data, el, ix, iy)
                });
                if !(ix < w) {
                    lemma_h_index_bounds(el, h, ix, iy);
                    lemma_zero_byte_bit((7 - ix % 8) as u8);
                }
            }
        }
        match res {
            Ok(()) => Ok(o),
            Err(e) => Err(BytePerEightPixelsError::InvalidLengthData),
        }
    }

    /// The buffer built directly over pre-packed bytes; fails if and only if
    /// the byte length does not match the dimensions.
    pub fn with_eight_data(width: usize, height: usize, eight_data: Vec<u8>) -> (r:
        BytePerEightPixelsResult<Self>)
        ensures
            r is Ok <==> eight_data@.len() == eight_length_spec(width as int) * (height as int),
            r is Err ==> r == BytePerEightPixelsResult::<Self>::Err(
                BytePerEightPixelsError::InvalidLengthData,
            ),
            r matches Ok(b) ==> {
                &&& b.wf()
                &&& b.width_spec() == width
                &&& b.height_spec() == height
                &&& b.data_spec() == eight_data@
            },
    {
        let eight_width = Self::compute_eight_width(width);

        proof {
            lemma_eight_length_bound(width as int);
            assert(eight_width * height == eight_length_spec(width as int) * (height as int))
                by (nonlinear_arith)
                requires eight_width == eight_length_spec(width as int);
        }
        let len = eight_data.len();
        let matches_len = match eight_width.checked_mul(height) {
            Some(n) => n == len,
            None => false,
        };
        if !matches_len {
            return Err(BytePerEightPixelsError::InvalidLengthData);
        }

        let o = Self { width, height, eight_width, eight_data };
        Ok(o)
    }

    /// Writes a dense row-major pixel block into the rectangle, clipping
    /// silently at the buffer edges. A rectangle starting beyond the buffer
    /// is a successful no-op; a source slice whose length is not exactly
    /// `width * height` of the rectangle is rejected.
    #[verifier::rlimit(30)]
    pub fn update<X: ActAsXywh, M: ActAsMono>(&mut self, xywh: X, src: &[M]) -> (r:
        BytePerEightPixelsResult<()>)
        requires
            old(self).wf(),
        ensures
            final(self).wf(),
            final(self).width_spec() == old(self).width_spec(),
            final(self).height_spec() == old(self).height_spec(),
            final(self).eight_width_spec() == old(self).eight_width_spec(),
            final(self).data_spec().len() == old(self).data_spec().len(),
            ({
                let (x, y, w, h) = xywh.xywh_spec();
                &&& (r is Ok <==> src@.len() >= (w as int) * (h as int))
                &&& (r is Err ==> r == BytePerEightPixelsResult::<()>::Err(
                    BytePerEightPixelsError::InvalidLengthData,
                ) && final(self).data_spec() == old(self).data_spec())
                &&& (src@.len() >= (w as int) * (h as int) && (x > old(self).width_spec() || y
                    > old(self).height_spec()) ==> final(self).data_spec() == old(
                    self,
                ).data_spec())
                &&& (src@.len() >= (w as int) * (h as int) && x <= old(self).width_spec() && y
                    <= old(self).height_spec() ==> h_updated(
                    old(self).data_spec(),
                    final(self).data_spec(),
                    old(self).eight_width_spec() as int,
                    old(self).width_spec() as int,
                    old(self).height_spec() as int,
                    x as int,
                    y as int,
                    w as int,
                    h as int,
                    mono_seq(src@),
                ))
            }),
    {
        let (x, y, width, height) = xywh.xywh();

        let src_len = src.len();
        let len_matches = match width.checked_mul(height) {
            Some(n) => n <= src_len,
            None => false,
        };
        if !len_matches {
            return Err(BytePerEightPixelsError::InvalidLengthData);
        }

        // avoid unsigned subtract overflow
        if x > self.width || y > self.height {
            return Ok(());
        }

        let data_width = self.eight_width;
        let ch = if height < self.height - y { height } else { self.height - y };
        let cw = if width < self.width - x { width } else { self.width - x };

        let data_len = self.eight_data.len();
        let ghost orig = self.eight_data@;
        let ghost bw = self.width;
        let ghost bh = self.height;
        let ghost el = self.eight_width;
        let ghost pxs = mono_seq(src@);

        let mut step_y: usize = 0;
        while step_y < ch
            invariant
                self.wf(),
                self.width == bw,
                self.height == bh,
                self.eight_width == el,
                self.eight_data@.len() == orig.len(),
                self.eight_data@.len() == data_len,
                data_width == el,
                x <= bw,
                y <= bh,
                cw == min_int(width as int, bw - x),
                ch == min_int(height as int, bh - y),
                src@.len() >= (width as int) * (height as int),
                src@.len() == src_len,
                pxs == mono_seq(src@),
                step_y <= ch,
                forall|ix: int, iy: int|
                    0 <= ix < 8 * (el as int) && 0 <= iy < bh ==> #[trigger] h_pixel(
                        self.eight_data@,
                        el as int,
                        ix,
                        iy,
                    ) == if x <= ix < x + cw && y <= iy < y + step_y {
                        pxs[(iy - y) * (width as int) + (ix - x)]
                    } else {
                        h_pixel(orig, el as int, ix, iy)
                    },
            decreases ch - step_y,
        {
            let mut step_x: usize = 0;
            while step_x < cw
                invariant
                    self.wf(),
                    self.width == bw,
                    self.height == bh,
                    self.eight_width == el,
                    self.eight_data@.len() == orig.len(),
                    self.eight_data@.len() == data_len,
                    data_width == el,
                    x <= bw,
                    y <= bh,
                    cw == min_int(width as int, bw - x),
                    ch == min_int(height as int, bh - y),
                    src@.len() >= (width as int) * (height as int),
                    src@.len() == src_len,
                    pxs == mono_seq(src@),
                    step_y < ch,
                    step_x <= cw,
                    forall|ix: int, iy: int|
                        0 <= ix < 8 * (el as int) && 0 <= iy < bh ==> #[trigger] h_pixel(
                            self.eight_data@,
                            el as int,
                            ix,
                            iy,
                        ) == if (x <= ix < x + cw && y <= iy < y + step_y) || (y + step_y == iy
                            && x <= ix < x + step_x) {
                            pxs[(iy - y) * (width as int) + (ix - x)]
                        } else {
                            h_pixel(orig, el as int, ix, iy)
                        },
                decreases cw - step_x,
            {
                proof {
                    assert((width as int) * (step_y as int) + (step_x as int) < (width as int) * (
                    height as int)) by (nonlinear_arith)
                        requires
                            step_x < cw <= width,
                            step_y < ch <= height,
                    ;
                }
                let color = src[width * step_y + step_x].act_as();
                let data_x = x + step_x;
                let data_y = y + step_y;

                proof {
                    lemma_eight_length_bound(bw as int);
                    lemma_h_index_bounds(el as int, bh as int, data_x as int, data_y as int);
                    assert(data_x >> 3 == data_x / 8) by (bit_vector);
                    assert((data_y as int) * (el as int) + (data_x as int) / 8 < (el as int) * (
                    bh as int));
                    assert((data_width as int) * (data_y as int) == (data_y as int) * (
                    el as int));
                    assert((el as int) * (bh as int) == self.eight_data@.len());
                }
                let data_i = data_width * data_y + (data_x >> 3);

                let ghost prev = self.eight_data@;
                draw(&mut self.eight_data, data_i, data_x, color);

                proof {
                    let ghost di = (data_y as int) * (el as int) + (data_x as int) / 8;
                    assert(data_i as int == di);
                    assert(self.eight_data@ == prev.update(
                        di,
                        h_drawn_byte(prev[di], ((data_x as int) % 8) as u8, color),
                    ));
                    assert(color == src@[(width * step_y + step_x) as int].act_as_spec());
                    assert(pxs[(width * step_y + step_x) as int] == src@[(width * step_y
                        + step_x) as int].act_as_spec());
                    assert((width * step_y + step_x) as int == (step_y as int) * (width as int) + (
                    step_x as int));
                    assert(color == pxs[(step_y as int) * (width as int) + (step_x as int)]);
                    assert forall|ix: int, iy: int|
                        0 <= ix < 8 * (el as int) && 0 <= iy < bh implies #[trigger] h_pixel(
                        self.eight_data@,
                        el as int,
                        ix,
                        iy,
                    ) == if (x <= ix < x + cw && y <= iy < y + step_y) || (y + step_y == iy && x
                        <= ix < x + step_x + 1) {
                        pxs[(iy - y) * (width as int) + (ix - x)]
                    } else {
                        h_pixel(orig, el as int, ix, iy)
                    } by {
                        lemma_h_draw_pixel(
                            prev,
                            el as int,
                            bh as int,
                            data_x as int,
                            data_y as int,
                            color,
                            ix,
                            iy,
                        );
                    }
                }
                step_x = step_x + 1;
            }
            step_y = step_y + 1;
        }

        Ok(())
    }

    /// The whole packed buffer, row-major.
    pub fn as_vec(&self) -> (r: &Vec<u8>)
        ensures
            r@ == self.data_spec(),
    {
        &self.eight_data
    }

    /// Copies the bytes covering the requested rectangle, widened to whole
    /// bytes along the x axis, and reports the copied region with byte
    /// positions scaled back to pixel units. This reader does not clip:
    /// the rectangle must lie within the buffer.
    pub fn part_vec<X: ActAsXywh>(&self, xywh: X) -> (r: (Rectangle, Vec<u8>))
        requires
            self.wf(),
            ({
                let (x, y, w, h) = xywh.xywh_spec();
                &&& x + w >= 1
                &&& x + w <= usize::MAX
                &&& as_eight_length(x as int, w as int) >= 1
                &&& y + h <= self.height_spec()
                &&& as_eight_start(x as int) + as_eight_length(x as int, w as int)
                    <= self.eight_width_spec()
                &&& 8 * (self.eight_width_spec() as int) <= usize::MAX
            }),
        ensures
            ({
                let (x, y, w, h) = xywh.xywh_spec();
                let sx = as_eight_start(x as int);
                let rw = as_eight_length(x as int, w as int);
                let el = self.eight_width_spec() as int;
                &&& r.0 == (Rectangle {
                    x: (sx * 8) as usize,
                    y: y,
                    width: (rw * 8) as usize,
                    height: h,
                })
                &&& r.1@.len() == rw * (h as int)
                &&& forall|sy: int, sxx: int|
                    0 <= sy < h && 0 <= sxx < rw ==> #[trigger] r.1@[sy * rw + sxx]
                        == self.data_spec()[(y + sy) * el + sx + sxx]
            }),
    {
        let (x, y, width, height) = xywh.xywh();
        let src_width = self.eight_width;

        let AsEight { start: src_x, length: result_width } = into_as_eight(x, width);

        let ghost el = self.eight_width;
        let ghost bh = self.height;
        let data_len = self.eight_data.len();
        proof {
            assert((el as int) * (bh as int) == data_len);
            assert((result_width as int) * (height as int) <= (el as int) * (bh as int))
                by (nonlinear_arith)
                requires
                    0 <= result_width <= el,
                    0 <= height <= bh,
            ;
        }
        let mut result = zero_vec(result_width * height);
        let result_len = result.len();

        let mut step_y: usize = 0;
        while step_y < height
            invariant
                self.wf(),
                self.eight_width == el,
                self.height == bh,
                src_width == el,
                step_y <= height,
                y + height <= bh,
                src_x == as_eight_start(x as int),
                result_width == as_eight_length(x as int, width as int),
                src_x + result_width <= el,
                result_width >= 1,
                self.eight_data@.len() == data_len,
                result@.len() == result_len,
                result@.len() == (result_width as int) * (height as int),
                forall|sy: int, sxx: int|
                    0 <= sy < step_y && 0 <= sxx < result_width ==> #[trigger] result@[sy
                        * (result_width as int) + sxx] == self.data_spec()[(y + sy) * (el as int)
                        + src_x + sxx],
            decreases height - step_y,
        {
            let mut step_x: usize = 0;
            while step_x < result_width
                invariant
                    self.wf(),
                    self.eight_width == el,
                    self.height == bh,
                    src_width == el,
                    step_y < height,
                    step_x <= result_width,
                    y + height <= bh,
                    src_x == as_eight_start(x as int),
                    result_width == as_eight_length(x as int, width as int),
                    src_x + result_width <= el,
                    result_width >= 1,
                    self.eight_data@.len() == data_len,
                    result@.len() == result_len,
                    result@.len() == (result_width as int) * (height as int),
                    forall|sy: int, sxx: int|
                        0 <= sy < step_y && 0 <= sxx < result_width ==> #[trigger] result@[sy
                            * (result_width as int) + sxx] == self.data_spec()[(y + sy) * (
                        el as int) + src_x + sxx],
                    forall|sxx: int|
                        0 <= sxx < step_x ==> #[trigger] result@[(step_y as int) * (
                        result_width as int) + sxx] == self.data_spec()[(y + step_y as int) * (
                        el as int) + src_x + sxx],
                decreases result_width - step_x,
            {
                proof {
                    assert((el as int) * ((y + step_y) as int) + (src_x + step_x) < (el as int) * (
                    bh as int)) by (nonlinear_arith)
                        requires
                            0 <= ((y + step_y) as int),
                            ((y + step_y) as int) < (bh as int),
                            0 <= src_x + step_x < el as int,
                            el as int >= 1,
                    ;
                    assert((result_width as int) * (step_y as int) + (step_x as int) < (
                    result_width as int) * (height as int)) by (nonlinear_arith)
                        requires
                            0 <= step_x < result_width,
                            0 <= step_y < height,
                    ;
                    assert((el as int) * (bh as int) == self.data_spec().len());
                }
                let real_i = src_width * (y + step_y) + src_x + step_x;
                let result_i = result_width * step_y + step_x;

                let ghost prev = result@;
                let byte = self.eight_data[real_i];
                result[result_i] = byte;

                proof {
                    assert forall|sy: int, sxx: int|
                        (0 <= sy < step_y && 0 <= sxx < result_width) || (sy == step_y && 0 <= sxx
                            < step_x + 1) implies #[trigger] result@[sy * (result_width as int)
                        + sxx] == self.data_spec()[(y + sy) * (el as int) + src_x + sxx] by {
                        if sy == step_y && sxx == step_x {
                            assert(sy * (result_width as int) + sxx == result_i as int);
                            assert((y + sy) * (el as int) == (src_width as int) * (((y + step_y)
                                as usize) as int)) by (nonlinear_arith)
                                requires
                                    y + sy == ((y + step_y) as usize) as int,
                                    el as int == src_width as int,
                            ;
                            assert((y + sy) * (el as int) + src_x + sxx == real_i as int);
                        } else {
                            assert(0 <= sy * (result_width as int) + sxx < (
                            result_width as int) * (height as int)) by (nonlinear_arith)
                                requires
                                    0 <= sy < height,
                                    0 <= sxx < result_width,
                            ;
                            if sy * (result_width as int) + sxx == (step_y as int) * (
                            result_width as int) + (step_x as int) {
                                lemma_row_major_unique(
                                    result_width as int,
                                    sy,
                                    sxx,
                                    step_y as int,
                                    step_x as int,
                                );
                            }
                            assert(result@[sy * (result_width as int) + sxx] == prev[sy * (
                            result_width as int) + sxx]);
                        }
                    }
                }
                step_x = step_x + 1;
            }
            step_y = step_y + 1;
        }

        (Rectangle::new(src_x * 8, y, result_width * 8, height), result)
    }
}

/// Round trip: packing a pixel array with `with_data` and writing the same
/// array onto a fresh zero buffer of the same shape with a full-rectangle
/// `update` leave identical packed bytes behind, so `as_vec` of the two
/// buffers agrees. `packed` is the storage `with_data` produced, `zeroed`
/// the storage of the fresh buffer, and `updated` that storage after the
/// update, each as the contracts of those operations describe them.
pub proof fn lemma_with_data_update_round_trip(
    packed: Seq<u8>,
    zeroed: Seq<u8>,
    updated: Seq<u8>,
    el: int,
    w: int,
    h: int,
    pxs: Seq<Mono>,
)
    requires
        el == eight_length_spec(w),
        w >= 0,
        h >= 0,
        packed.len() == el * h,
        zeroed.len() == el * h,
        updated.len() == el * h,
        h_packed_from(packed, el, w, h, pxs),
        forall|i: int| 0 <= i < zeroed.len() ==> zeroed[i] == 0u8,
        h_updated(zeroed, updated, el, w, h, 0, 0, w, h, pxs),
    ensures
        updated == packed,
{
    lemma_eight_length_bound(w);
    assert forall|ix: int, iy: int| 0 <= ix < 8 * el && 0 <= iy < h implies #[trigger] h_pixel(
        updated,
        el,
        ix,
        iy,
    ) == h_pixel(packed, el, ix, iy) by {
        assert(h_pixel(updated, el, ix, iy) == if 0 <= ix < min_int(w, w) && 0 <= iy < min_int(
            h,
            h,
        ) {
            pxs[iy * w + ix]
        } else {
            h_pixel(zeroed, el, ix, iy)
        });
        if !(ix < w) {
            lemma_h_index_bounds(el, h, ix, iy);
            lemma_zero_byte_bit((7 - ix % 8) as u8);
        }
    }
    crate::common::lemma_h_data_ext(updated, packed, el, h);
}

} // verus!
