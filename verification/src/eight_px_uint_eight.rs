//! The horizontal pixel buffer over an abstract storage collaborator:
//! eight pixels per byte along the x axis, most significant bit first.

use vstd::prelude::*;

use crate::common::draw;
use crate::common::{
    as_eight_length, as_eight_start, eight_length_spec, h_pixel, h_updated, into_as_eight,
    lemma_eight_length_bound, lemma_h_draw_pixel, lemma_h_index_bounds, lemma_row_major_unique,
    min_int, mono_seq, ActAsMono, ActAsXywh, AsEight, Rectangle,
};
use crate::eight_data::EightData;
use crate::error::EightPxUintEightError;
use crate::EightPxUintEightResult;

verus! {

/// A monochrome buffer of `width` by `height` logical pixels over a storage
/// collaborator, packed eight pixels per byte along each row: byte
/// `y * eight_length + x / 8` holds pixel `(x, y)` at bit `7 - x % 8`.
pub struct EightPxUintEight<D: EightData> {
    width: usize,
    height: usize,
    eight_length: usize,
    eight_data: D,
}

impl<D: EightData> EightPxUintEight<D> {
    /// Logical pixel width.
    pub closed spec fn width_spec(&self) -> usize {
        self.width
    }

    /// Logical pixel height.
    pub closed spec fn height_spec(&self) -> usize {
        self.height
    }

    /// Byte count of one packed row.
    pub closed spec fn eight_length_of(&self) -> usize {
        self.eight_length
    }

    /// The packed bytes held by the storage, row-major.
    pub closed spec fn data_spec(&self) -> Seq<u8> {
        self.eight_data.data_spec()
    }

    /// Shape invariant: the row byte count is derived from the width, and
    /// the storage holds exactly one packed row per logical row.
    pub open spec fn wf(&self) -> bool {
        &&& self.eight_length_of() == eight_length_spec(self.width_spec() as int)
        &&& self.data_spec().len() == self.eight_length_of() * self.height_spec()
    }

    /// A buffer over the given storage; fails if and only if the storage
    /// length does not match the dimensions.
    pub fn new(width: usize, height: usize, eight_data: D) -> (r: EightPxUintEightResult<Self>)
        ensures
            r is Ok <==> eight_data.data_spec().len() == eight_length_spec(width as int) * (
            height as int),
            r is Err ==> r == EightPxUintEightResult::<Self>::Err(
                EightPxUintEightError::InvalidLengthData,
            ),
            r matches Ok(b) ==> {
                &&& b.wf()
                &&& b.width_spec() == width
                &&& b.height_spec() == height
                &&& b.data_spec() == eight_data.data_spec()
            },
    {
        let eight_length = crate::common::compute_eight_length(width);

        let len = eight_data.len();
        let matches_len = match eight_length.checked_mul(height) {
            Some(n) => n == len,
            None => false,
        };
        if !matches_len {
            return Err(EightPxUintEightError::InvalidLengthData);
        }

        Ok(Self { width, height, eight_length, eight_data })
    }

    /// Writes a dense row-major pixel block into the rectangle, clipping
    /// silently at the buffer edges. A rectangle starting beyond the buffer
    /// is a successful no-op; a source slice whose length is not exactly
    /// `width * height` of the rectangle is rejected.
    #[verifier::rlimit(30)]
    pub fn update<X: ActAsXywh, M: ActAsMono>(&mut self, xywh: X, src: &[M]) -> (r:
        EightPxUintEightResult<()>)
        requires
            old(self).wf(),
        ensures
            final(self).wf(),
            final(self).width_spec() == old(self).width_spec(),
            final(self).height_spec() == old(self).height_spec(),
            final(self).eight_length_of() == old(self).eight_length_of(),
            final(self).data_spec().len() == old(self).data_spec().len(),
            ({
                let (x, y, w, h) = xywh.xywh_spec();
                &&& (r is Ok <==> src@.len() >= (w as int) * (h as int))
                &&& (r is Err ==> r == EightPxUintEightResult::<()>::Err(
                    EightPxUintEightError::InvalidLengthData,
                ) && final(self).data_spec() == old(self).data_spec())
                &&& (src@.len() >= (w as int) * (h as int) && (x > old(self).width_spec() || y
                    > old(self).height_spec()) ==> final(self).data_spec() == old(
                    self,
                ).data_spec())
                &&& (src@.len() >= (w as int) * (h as int) && x <= old(self).width_spec() && y
                    <= old(self).height_spec() ==> h_updated(
                    old(self).data_spec(),
                    final(self).data_spec(),
                    old(self).eight_length_of() as int,
                    old(self).width_spec() as int,
                    old(self).height_spec() as int,
                    x as int,
                    y as int,
                    w as int,
                    h as int,
                    mono_seq(src@),
                ))
            }),
    {
        let (x, y, width, height) = xywh.xywh();

        let src_len = src.len();
        let len_matches = match width.checked_mul(height) {
            Some(n) => n <= src_len,
            None => false,
        };
        if !len_matches {
            return Err(EightPxUintEightError::InvalidLengthData);
        }

        // avoid unsigned subtract overflow
        if x > self.width || y > self.height {
            return Ok(());
        }

        let data_width = self.eight_length;
        let ch = if height < self.height - y { height } else { self.height - y };
        let cw = if width < self.width - x { width } else { self.width - x };

        let data_len = self.eight_data.len();
        let ghost orig = self.data_spec();
        let ghost bw = self.width;
        let ghost bh = self.height;
        let ghost el = self.eight_length;
        let ghost pxs = mono_seq(src@);

        let mut step_y: usize = 0;
        while step_y < ch
            invariant
                self.wf(),
                self.width == bw,
                self.height == bh,
                self.eight_length == el,
                self.data_spec().len() == orig.len(),
                self.data_spec().len() == data_len,
                data_width == el,
                x <= bw,
                y <= bh,
                cw == min_int(width as int, bw - x),
                ch == min_int(height as int, bh - y),
                src@.len() >= (width as int) * (height as int),
                src@.len() == src_len,
                pxs == mono_seq(src@),
                step_y <= ch,
                forall|ix: int, iy: int|
                    0 <= ix < 8 * (el as int) && 0 <= iy < bh ==> #[trigger] h_pixel(
                        self.data_spec(),
                        el as int,
                        ix,
                        iy,
                    ) == if x <= ix < x + cw && y <= iy < y + step_y {
                        pxs[(iy - y) * (width as int) + (ix - x)]
                    } else {
                        h_pixel(orig, el as int, ix, iy)
                    },
            decreases ch - step_y,
        {
            let mut step_x: usize = 0;
            while step_x < cw
                invariant
                    self.wf(),
                    self.width == bw,
                    self.height == bh,
                    self.eight_length == el,
                    self.data_spec().len() == orig.len(),
                    self.data_spec().len() == data_len,
                    data_width == el,
                    x <= bw,
                    y <= bh,
                    cw == min_int(width as int, bw - x),
                    ch == min_int(height as int, bh - y),
                    src@.len() >= (width as int) * (height as int),
                    src@.len() == src_len,
                    pxs == mono_seq(src@),
                    step_y < ch,
                    step_x <= cw,
                    forall|ix: int, iy: int|
                        0 <= ix < 8 * (el as int) && 0 <= iy < bh ==> #[trigger] h_pixel(
                            self.data_spec(),
                            el as int,
                            ix,
                            iy,
                        ) == if (x <= ix < x + cw && y <= iy < y + step_y) || (y + step_y == iy
                            && x <= ix < x + step_x) {
                            pxs[(iy - y) * (width as int) + (ix - x)]
                        } else {
                            h_pixel(orig, el as int, ix, iy)
                        },
                decreases cw - step_x,
            {
                proof {
                    assert((width as int) * (step_y as int) + (step_x as int) < (width as int) * (
                    height as int)) by (nonlinear_arith)
                        requires
                            step_x < cw <= width,
                            step_y < ch <= height,
                    ;
                }
                let color = src[width * step_y + step_x].act_as();
                let data_x = x + step_x;
                let data_y = y + step_y;

                proof {
                    lemma_eight_length_bound(bw as int);
                    lemma_h_index_bounds(el as int, bh as int, data_x as int, data_y as int);
                    assert(data_x >> 3 == data_x / 8) by (bit_vector);
                    assert((data_y as int) * (el as int) + (data_x as int) / 8 < (el as int) * (
                    bh as int));
                    assert((data_width as int) * (data_y as int) == (data_y as int) * (
                    el as int));
                    assert((el as int) * (bh as int) == self.data_spec().len());
                }
                let data_i = data_width * data_y + (data_x >> 3);

                let ghost prev = self.data_spec();
                draw(self.eight_data.core_mut(), data_i, data_x, color);

                proof {
                    let ghost di = (data_y as int) * (el as int) + (data_x as int) / 8;
                    assert(data_i as int == di);
                    assert(self.data_spec() == prev.update(
                        di,
                        crate::common::h_drawn_byte(prev[di], ((data_x as int) % 8) as u8, color),
                    ));
                    assert(color == src@[(width * step_y + step_x) as int].act_as_spec());
                    assert(pxs[(width * step_y + step_x) as int] == src@[(width * step_y
                        + step_x) as int].act_as_spec());
                    assert((width * step_y + step_x) as int == (step_y as int) * (width as int) + (
                    step_x as int));
                    assert(color == pxs[(step_y as int) * (width as int) + (step_x as int)]);
                    assert forall|ix: int, iy: int|
                        0 <= ix < 8 * (el as int) && 0 <= iy < bh implies #[trigger] h_pixel(
                        self.data_spec(),
                        el as int,
                        ix,
                        iy,
                    ) == if (x <= ix < x + cw && y <= iy < y + step_y) || (y + step_y == iy && x
                        <= ix < x + step_x + 1) {
                        pxs[(iy - y) * (width as int) + (ix - x)]
                    } else {
                        h_pixel(orig, el as int, ix, iy)
                    } by {
                        lemma_h_draw_pixel(
                            prev,
                            el as int,
                            bh as int,
                            data_x as int,
                            data_y as int,
                            color,
                            ix,
                            iy,
                        );
                    }
                }
                step_x = step_x + 1;
            }
            step_y = step_y + 1;
        }

        Ok(())
    }

    /// The whole packed buffer, row-major.
    pub fn as_vec(&self) -> (r: &Vec<u8>)
        ensures
            r@ == self.data_spec(),
    {
        self.eight_data.as_vev()
    }

    /// Copies the bytes covering the requested rectangle into `result`,
    /// widened to whole bytes along the x axis and clamped to the buffer,
    /// and reports the copied region in byte units along x and pixel units
    /// along y. A rectangle starting beyond the buffer is a no-op that
    /// returns the zero rectangle.
    pub fn part_vec<X: ActAsXywh>(&self, xywh: X, result: &mut [u8]) -> (r: Rectangle)
        requires
            self.wf(),
            ({
                let (x, y, w, h) = xywh.xywh_spec();
                x <= self.width_spec() && y <= self.height_spec() ==> {
                    &&& x + w >= 1
                    &&& x + w <= usize::MAX
                    &&& as_eight_length(x as int, w as int) >= 1
                    &&& old(result).len() >= min_int(
                        as_eight_length(x as int, w as int),
                        self.eight_length_of() - as_eight_start(x as int),
                    ) * min_int(h as int, self.height_spec() - y)
                }
            }),
        ensures
            final(result)@.len() == old(result)@.len(),
            ({
                let (x, y, w, h) = xywh.xywh_spec();
                let sx = as_eight_start(x as int);
                let el = self.eight_length_of() as int;
                let rw = min_int(as_eight_length(x as int, w as int), el - sx);
                let rh = min_int(h as int, self.height_spec() - y);
                &&& (x > self.width_spec() || y > self.height_spec() ==> r == (Rectangle {
                    x: 0,
                    y: 0,
                    width: 0,
                    height: 0,
                }) && final(result)@ == old(result)@)
                &&& (x <= self.width_spec() && y <= self.height_spec() ==> {
                    &&& r == (Rectangle {
                        x: sx as usize,
                        y: y,
                        width: rw as usize,
                        height: rh as usize,
                    })
                    &&& forall|sy: int, sxx: int|
                        0 <= sy < rh && 0 <= sxx < rw ==> #[trigger] final(result)@[sy * rw + sxx]
                            == self.data_spec()[(y + sy) * el + sx + sxx]
                    &&& forall|i: int|
                        rw * rh <= i < old(result)@.len() ==> #[trigger] final(result)@[i] == old(
                            result,
                        )@[i]
                })
            }),
    {
        let (x, y, width, height) = xywh.xywh();

        // avoid unsigned subtract overflow
        if x > self.width || y > self.height {
            return Rectangle::new(0, 0, 0, 0);
        }

        let src = self.eight_data.data_core();
        let src_width = self.eight_length;
        let src_height = self.height;

        let AsEight { start: src_x, length: result_width } = into_as_eight(x, width);

        proof {
            lemma_eight_length_bound(self.width_spec() as int);
            assert((x as int) / 8 <= (src_width as int)) by (nonlinear_arith)
                requires
                    0 <= x as int,
                    x as int <= 8 * (src_width as int),
            ;
        }
        let result_height = if height < src_height - y { height } else { src_height - y };
        let result_width = if result_width < src_width - src_x {
            result_width
        } else {
            src_width - src_x
        };

        let ghost el = self.eight_length;
        let ghost bh = self.height;
        let data_len = src.len();
        let result_len = result.len();
        let ghost rw = result_width;
        let ghost rh = result_height;

        let mut step_y: usize = 0;
        while step_y < result_height
            invariant
                self.wf(),
                self.eight_length == el,
                self.height == bh,
                src@ == self.data_spec(),
                src_width == el,
                step_y <= result_height,
                result_width == rw,
                result_height == rh,
                y + result_height <= bh,
                src_x + result_width <= el,
                src_x == as_eight_start(x as int),
                src@.len() == data_len,
                result@.len() == result_len,
                result_len >= (rw as int) * (rh as int),
                forall|sy: int, sxx: int|
                    0 <= sy < step_y && 0 <= sxx < rw ==> #[trigger] result@[sy * (rw as int)
                        + sxx] == self.data_spec()[(y + sy) * (el as int) + src_x + sxx],
                forall|i: int|
                    (rw as int) * (rh as int) <= i < result_len ==> #[trigger] result@[i] == old(
                        result,
                    )@[i],
            decreases result_height - step_y,
        {
            let mut step_x: usize = 0;
            while step_x < result_width
                invariant
                    self.wf(),
                    self.eight_length == el,
                    self.height == bh,
                    src@ == self.data_spec(),
                    src_width == el,
                    step_y < result_height,
                    step_x <= result_width,
                    result_width == rw,
                    result_height == rh,
                    y + result_height <= bh,
                    src_x + result_width <= el,
                    src_x == as_eight_start(x as int),
                    src@.len() == data_len,
                    result@.len() == result_len,
                    result_len >= (rw as int) * (rh as int),
                    forall|sy: int, sxx: int|
                        0 <= sy < step_y && 0 <= sxx < rw ==> #[trigger] result@[sy * (rw as int)
                            + sxx] == self.data_spec()[(y + sy) * (el as int) + src_x + sxx],
                    forall|sxx: int|
                        0 <= sxx < step_x ==> #[trigger] result@[(step_y as int) * (rw as int)
                            + sxx] == self.data_spec()[((y + step_y) as int) * (el as int) + src_x
                            + sxx],
                    forall|i: int|
                        (rw as int) * (rh as int) <= i < result_len ==> #[trigger] result@[i]
                            == old(result)@[i],
                decreases result_width - step_x,
            {
                proof {
                    assert((el as int) * (((y + step_y) as usize) as int) + (src_x + step_x) < (
                    el as int) * (bh as int)) by (nonlinear_arith)
                        requires
                            0 <= (((y + step_y) as usize) as int),
                            (((y + step_y) as usize) as int) < (bh as int),
                            0 <= src_x + step_x < el as int,
                            el as int >= 1,
                    ;
                    assert((rw as int) * (step_y as int) + (step_x as int) < (rw as int) * (
                    rh as int)) by (nonlinear_arith)
                        requires
                            0 <= step_x < rw,
                            0 <= step_y < rh,
                    ;
                    assert((el as int) * (bh as int) == self.data_spec().len());
                }
                let real_i = src_width * (y + step_y) + src_x + step_x;
                let result_i = result_width * step_y + step_x;

                let ghost prev = result@;
                result[result_i] = src[real_i];

                proof {
                    assert forall|sy: int, sxx: int|
                        (0 <= sy < step_y && 0 <= sxx < rw) || (sy == step_y && 0 <= sxx < step_x
                            + 1) implies #[trigger] result@[sy * (rw as int) + sxx]
                        == self.data_spec()[(y + sy) * (el as int) + src_x + sxx] by {
                        if sy == step_y && sxx == step_x {
                            assert(sy * (rw as int) + sxx == result_i as int);
                            assert((y + sy) * (el as int) == (src_width as int) * (((y + step_y)
                                as usize) as int)) by (nonlinear_arith)
                                requires
                                    y + sy == ((y + step_y) as usize) as int,
                                    el as int == src_width as int,
                            ;
                            assert((y + sy) * (el as int) + src_x + sxx == real_i as int);
                        } else {
                            assert(0 <= sy * (rw as int) + sxx < (rw as int) * (rh as int))
                                by (nonlinear_arith)
                                requires
                                    0 <= sy < rh,
                                    0 <= sxx < rw,
                            ;
                            if sy * (rw as int) + sxx == (step_y as int) * (rw as int) + (
                            step_x as int) {
                                lemma_row_major_unique(
                                    rw as int,
                                    sy,
                                    sxx,
                                    step_y as int,
                                    step_x as int,
                                );
                            }
                            assert(result@[sy * (rw as int) + sxx] == prev[sy * (rw as int)
                                + sxx]);
                        }
                    }
                    assert forall|i: int|
                        (rw as int) * (rh as int) <= i < result_len implies #[trigger] result@[i]
                        == old(result)@[i] by {
                        assert((result_i as int) < (rw as int) * (rh as int));
                        assert(result@[i] == prev[i]);
                    }
                }
                step_x = step_x + 1;
            }
            step_y = step_y + 1;
        }

        Rectangle::new(src_x, y, result_width, result_height)
    }
}

} // verus!
