//! The vertical pixel buffer over an abstract storage collaborator: eight
//! pixels per byte along the y axis, least significant bit first.

use vstd::prelude::*;

use crate::common::draw_inverse;
use crate::common::{
    as_eight_length, as_eight_start, eight_length_spec, into_as_eight, lemma_eight_length_bound,
    lemma_row_major_unique, lemma_v_draw_pixel, lemma_v_index_bounds, min_int, mono_seq, v_pixel,
    v_updated, zero_vec, ActAsMono, ActAsXywh, AsEight, Rectangle,
};
use crate::eight_data::EightData;
use crate::error::EightPxUintEightError;
use crate::EightPxUintEightResult;

verus! {

/// A monochrome buffer of `width` by `height` logical pixels over a storage
/// collaborator, packed eight pixels per byte along each column: byte
/// `(y / 8) * width + x` holds pixel `(x, y)` at bit `y % 8`.
pub struct VerticalEightPxUintEight<D: EightData> {
    width: usize,
    height: usize,
    eight_length: usize,
    eight_data: D,
}

impl<D: EightData> VerticalEightPxUintEight<D> {
    /// Logical pixel width.
    pub closed spec fn width_spec(&self) -> usize {
        self.width
    }

    /// Logical pixel height.
    pub closed spec fn height_spec(&self) -> usize {
        self.height
    }

    /// Byte count of one packed column.
    pub closed spec fn eight_length_of(&self) -> usize {
        self.eight_length
    }

    /// The packed bytes held by the storage, byte-row-major.
    pub closed spec fn data_spec(&self) -> Seq<u8> {
        self.eight_data.data_spec()
    }

    /// Shape invariant: the packed column byte count covers the height, and
    /// the storage holds one byte per column and packed row.
    pub open spec fn wf(&self) -> bool {
        &&& self.height_spec() <= 8 * (self.eight_length_of() as int)
        &&& self.data_spec().len() == self.width_spec() * self.eight_length_of()
    }

    /// A buffer over the given storage; fails if and only if the storage
    /// length does not match the dimensions.
    pub fn new(width: usize, height: usize, eight_data: D) -> (r: EightPxUintEightResult<Self>)
        ensures
            r is Ok <==> eight_data.data_spec().len() == (width as int) * eight_length_spec(
                height as int,
            ),
            r is Err ==> r == EightPxUintEightResult::<Self>::Err(
                EightPxUintEightError::InvalidLengthData,
            ),
            r matches Ok(b) ==> {
                &&& b.wf()
                &&& b.width_spec() == width
                &&& b.height_spec() == height
                &&& b.eight_length_of() == eight_length_spec(height as int)
                &&& b.data_spec() == eight_data.data_spec()
            },
    {
        let eight_length = crate::common::compute_eight_length(height);

        proof {
            lemma_eight_length_bound(height as int);
        }
        let len = eight_data.len();
        let matches_len = match width.checked_mul(eight_length) {
            Some(n) => n == len,
            None => false,
        };
        if !matches_len {
            return Err(EightPxUintEightError::InvalidLengthData);
        }

        Ok(Self { width, height, eight_length, eight_data })
    }

    /// A buffer over pre-packed storage whose height is given in whole
    /// bytes; fails if and only if the storage length does not match.
    pub fn with_eight_data(width: usize, eight_height: usize, eight_data: D) -> (r:
        EightPxUintEightResult<Self>)
        requires
            8 * (eight_height as int) <= usize::MAX,
        ensures
            r is Ok <==> eight_data.data_spec().len() == (width as int) * (eight_height as int),
            r is Err ==> r == EightPxUintEightResult::<Self>::Err(
                EightPxUintEightError::InvalidLengthData,
            ),
            r matches Ok(b) ==> {
                &&& b.wf()
                &&& b.width_spec() == width
                &&& b.height_spec() == 8 * (eight_height as int)
                &&& b.eight_length_of() == eight_height
                &&& b.data_spec() == eight_data.data_spec()
            },
    {
        let len = eight_data.len();
        let matches_len = match width.checked_mul(eight_height) {
            Some(n) => n == len,
            None => false,
        };
        if !matches_len {
            return Err(EightPxUintEightError::InvalidLengthData);
        }

        let o = Self {
            width,
            height: eight_height * 8,
            eight_length: eight_height,
            eight_data,
        };
        Ok(o)
    }

    /// Writes a dense row-major pixel block into the rectangle, clipping
    /// silently at the buffer edges. A rectangle starting beyond the buffer
    /// is a successful no-op; a source slice whose length is not exactly
    /// `width * height` of the rectangle is rejected.
    #[verifier::rlimit(30)]
    pub fn update<X: ActAsXywh, M: ActAsMono>(&mut self, xywh: X, src: &[M]) -> (r:
        EightPxUintEightResult<()>)
        requires
            old(self).wf(),
        ensures
            final(self).wf(),
            final(self).width_spec() == old(self).width_spec(),
            final(self).height_spec() == old(self).height_spec(),
            final(self).eight_length_of() == old(self).eight_length_of(),
            final(self).data_spec().len() == old(self).data_spec().len(),
            ({
                let (x, y, w, h) = xywh.xywh_spec();
                &&& (r is Ok <==> src@.len() >= (w as int) * (h as int))
                &&& (r is Err ==> r == EightPxUintEightResult::<()>::Err(
                    EightPxUintEightError::InvalidLengthData,
                ) && final(self).data_spec() == old(self).data_spec())
                &&& (src@.len() >= (w as int) * (h as int) && (x > old(self).width_spec() || y
                    > old(self).height_spec()) ==> final(self).data_spec() == old(
                    self,
                ).data_spec())
                &&& (src@.len() >= (w as int) * (h as int) && x <= old(self).width_spec() && y
                    <= old(self).height_spec() ==> v_updated(
                    old(self).data_spec(),
                    final(self).data_spec(),
                    old(self).eight_length_of() as int,
                    old(self).width_spec() as int,
                    old(self).height_spec() as int,
                    x as int,
                    y as int,
                    w as int,
                    h as int,
                    mono_seq(src@),
                ))
            }),
    {
        let (x, y, width, height) = xywh.xywh();

        let src_len = src.len();
        let len_matches = match width.checked_mul(height) {
            Some(n) => n <= src_len,
            None => false,
        };
        if !len_matches {
            return Err(EightPxUintEightError::InvalidLengthData);
        }

        // avoid unsigned subtract overflow
        if x > self.width || y > self.height {
            return Ok(());
        }

        let ch = if height < self.height - y { height } else { self.height - y };
        let cw = if width < self.width - x { width } else { self.width - x };

        let data_len = self.eight_data.len();
        let ghost orig = self.data_spec();
        let ghost bw = self.width;
        let ghost bh = self.height;
        let ghost el = self.eight_length;
        let ghost pxs = mono_seq(src@);

        let mut step_y: usize = 0;
        while step_y < ch
            invariant
                self.wf(),
                self.width == bw,
                self.height == bh,
                self.eight_length == el,
                self.data_spec().len() == orig.len(),
                self.data_spec().len() == data_len,
                x <= bw,
                y <= bh,
                cw == min_int(width as int, bw - x),
                ch == min_int(height as int, bh - y),
                src@.len() >= (width as int) * (height as int),
                src@.len() == src_len,
                pxs == mono_seq(src@),
                step_y <= ch,
                forall|ix: int, iy: int|
                    0 <= ix < bw && 0 <= iy < 8 * (el as int) ==> #[trigger] v_pixel(
                        self.data_spec(),
                        bw as int,
                        ix,
                        iy,
                    ) == if x <= ix < x + cw && y <= iy < y + step_y {
                        pxs[(iy - y) * (width as int) + (ix - x)]
                    } else {
                        v_pixel(orig, bw as int, ix, iy)
                    },
            decreases ch - step_y,
        {
            let mut step_x: usize = 0;
            while step_x < cw
                invariant
                    self.wf(),
                    self.width == bw,
                    self.height == bh,
                    self.eight_length == el,
                    self.data_spec().len() == orig.len(),
                    self.data_spec().len() == data_len,
                    x <= bw,
                    y <= bh,
                    cw == min_int(width as int, bw - x),
                    ch == min_int(height as int, bh - y),
                    src@.len() >= (width as int) * (height as int),
                    src@.len() == src_len,
                    pxs == mono_seq(src@),
                    step_y < ch,
                    step_x <= cw,
                    forall|ix: int, iy: int|
                        0 <= ix < bw && 0 <= iy < 8 * (el as int) ==> #[trigger] v_pixel(
                            self.data_spec(),
                            bw as int,
                            ix,
                            iy,
                        ) == if (x <= ix < x + cw && y <= iy < y + step_y) || (y + step_y == iy
                            && x <= ix < x + step_x) {
                            pxs[(iy - y) * (width as int) + (ix - x)]
                        } else {
                            v_pixel(orig, bw as int, ix, iy)
                        },
                decreases cw - step_x,
            {
                proof {
                    assert((width as int) * (step_y as int) + (step_x as int) < (width as int) * (
                    height as int)) by (nonlinear_arith)
                        requires
                            step_x < cw <= width,
                            step_y < ch <= height,
                    ;
                }
                let color = src[width * step_y + step_x].act_as();
                let data_x = x + step_x;
                let data_y = y + step_y;

                proof {
                    lemma_v_index_bounds(bw as int, el as int, data_x as int, data_y as int);
                    assert(data_y >> 3 == data_y / 8) by (bit_vector);
                    assert(((data_y as int) / 8) * (bw as int) + (data_x as int) < (bw as int) * (
                    el as int));
                    assert((bw as int) * ((data_y as int) / 8) == ((data_y as int) / 8) * (
                    bw as int));
                    assert((bw as int) * (el as int) == self.data_spec().len());
                }
                let data_i = self.width * (data_y >> 3) + data_x;

                let ghost prev = self.data_spec();
                draw_inverse(self.eight_data.core_mut(), data_i, data_y, color);

                proof {
                    let ghost di = ((data_y as int) / 8) * (bw as int) + (data_x as int);
                    assert(data_i as int == di);
                    assert(self.data_spec() == prev.update(
                        di,
                        crate::common::v_drawn_byte(prev[di], ((data_y as int) % 8) as u8, color),
                    ));
                    assert(color == src@[(width * step_y + step_x) as int].act_as_spec());
                    assert(pxs[(width * step_y + step_x) as int] == src@[(width * step_y
                        + step_x) as int].act_as_spec());
                    assert((width * step_y + step_x) as int == (step_y as int) * (width as int) + (
                    step_x as int));
                    assert(color == pxs[(step_y as int) * (width as int) + (step_x as int)]);
                    assert forall|ix: int, iy: int|
                        0 <= ix < bw && 0 <= iy < 8 * (el as int) implies #[trigger] v_pixel(
                        self.data_spec(),
                        bw as int,
                        ix,
                        iy,
                    ) == if (x <= ix < x + cw && y <= iy < y + step_y) || (y + step_y == iy && x
                        <= ix < x + step_x + 1) {
                        pxs[(iy - y) * (width as int) + (ix - x)]
                    } else {
                        v_pixel(orig, bw as int, ix, iy)
                    } by {
                        lemma_v_draw_pixel(
                            prev,
                            bw as int,
                            el as int,
                            data_x as int,
                            data_y as int,
                            color,
                            ix,
                            iy,
                        );
                    }
                }
                step_x = step_x + 1;
            }
            step_y = step_y + 1;
        }

        Ok(())
    }

    /// The whole packed buffer, byte-row-major.
    pub fn as_vec(&self) -> (r: &Vec<u8>)
        ensures
            r@ == self.data_spec(),
    {
        self.eight_data.as_vev()
    }

    /// Copies the bytes covering the requested rectangle into a fresh
    /// buffer, widened to whole bytes along the y axis and clamped to the
    /// buffer, and reports the copied region in pixel units along x and
    /// byte units along y. A rectangle starting beyond the buffer is a
    /// no-op that returns the zero rectangle and no bytes.
    pub fn part_vec<X: ActAsXywh>(&self, xywh: X) -> (r: (Rectangle, Vec<u8>))
        requires
            self.wf(),
            ({
                let (x, y, w, h) = xywh.xywh_spec();
                x <= self.width_spec() && y <= self.height_spec() ==> {
                    &&& y + h >= 1
                    &&& y + h <= usize::MAX
                    &&& as_eight_length(y as int, h as int) >= 1
                    &&& (w as int) * as_eight_length(y as int, h as int) <= usize::MAX
                }
            }),
        ensures
            ({
                let (x, y, w, h) = xywh.xywh_spec();
                let sy = as_eight_start(y as int);
                let rh0 = as_eight_length(y as int, h as int);
                let el = self.eight_length_of() as int;
                let bw = self.width_spec() as int;
                let rh = min_int(rh0, el - sy);
                let rw = min_int(w as int, bw - x);
                &&& (x > self.width_spec() || y > self.height_spec() ==> r.0 == (Rectangle {
                    x: 0,
                    y: 0,
                    width: 0,
                    height: 0,
                }) && r.1@.len() == 0)
                &&& (x <= self.width_spec() && y <= self.height_spec() ==> {
                    &&& r.0 == (Rectangle {
                        x: x,
                        y: sy as usize,
                        width: rw as usize,
                        height: rh as usize,
                    })
                    &&& r.1@.len() == (w as int) * rh0
                    &&& forall|py: int, px: int|
                        0 <= py < rh && 0 <= px < rw ==> #[trigger] r.1@[py * rw + px]
                            == self.data_spec()[(sy + py) * bw + x + px]
                    &&& forall|i: int| rw * rh <= i < r.1@.len() ==> #[trigger] r.1@[i] == 0u8
                })
            }),
    {
        let (x, y, width, height) = xywh.xywh();

        // avoid unsigned subtract overflow
        if x > self.width || y > self.height {
            return (Rectangle::new(0, 0, 0, 0), Vec::new());
        }

        let src = self.eight_data.data_core();
        let src_width = self.width;
        let src_height = self.eight_length;

        let AsEight { start: src_y, length: result_height } = into_as_eight(y, height);

        proof {
            assert((y as int) / 8 <= (src_height as int)) by (nonlinear_arith)
                requires
                    0 <= y as int,
                    y as int <= 8 * (src_height as int),
            ;
        }
        let mut result = zero_vec(width * result_height);

        let ghost rh0 = result_height;
        let result_height = if result_height < src_height - src_y {
            result_height
        } else {
            src_height - src_y
        };
        let result_width = if width < src_width - x { width } else { src_width - x };

        let ghost el = self.eight_length;
        let ghost bw = self.width;
        let data_len = src.len();
        let result_len = result.len();
        let ghost rw = result_width;
        let ghost rh = result_height;

        proof {
            assert((rw as int) * (rh as int) <= (width as int) * (rh0 as int))
                by (nonlinear_arith)
                requires
                    0 <= rw <= width,
                    0 <= rh <= rh0,
            ;
        }
        let mut step_y: usize = 0;
        while step_y < result_height
            invariant
                self.wf(),
                self.eight_length == el,
                self.width == bw,
                src@ == self.data_spec(),
                src_width == bw,
                step_y <= result_height,
                result_width == rw,
                result_height == rh,
                src_y + result_height <= el,
                x + result_width <= bw,
                src_y == as_eight_start(y as int),
                src@.len() == data_len,
                result@.len() == result_len,
                result_len >= (rw as int) * (rh as int),
                forall|py: int, px: int|
                    0 <= py < step_y && 0 <= px < rw ==> #[trigger] result@[py * (rw as int) + px]
                        == self.data_spec()[(src_y + py) * (bw as int) + x + px],
                forall|i: int|
                    (step_y as int) * (rw as int) <= i < result_len ==> #[trigger] result@[i]
                        == 0u8,
            decreases result_height - step_y,
        {
            let mut step_x: usize = 0;
            while step_x < result_width
                invariant
                    self.wf(),
                    self.eight_length == el,
                    self.width == bw,
                    src@ == self.data_spec(),
                    src_width == bw,
                    step_y < result_height,
                    step_x <= result_width,
                    result_width == rw,
                    result_height == rh,
                    src_y + result_height <= el,
                    x + result_width <= bw,
                    src_y == as_eight_start(y as int),
                    src@.len() == data_len,
                    result@.len() == result_len,
                    result_len >= (rw as int) * (rh as int),
                    forall|py: int, px: int|
                        0 <= py < step_y && 0 <= px < rw ==> #[trigger] result@[py * (rw as int)
                            + px] == self.data_spec()[(src_y + py) * (bw as int) + x + px],
                    forall|px: int|
                        0 <= px < step_x ==> #[trigger] result@[(step_y as int) * (rw as int) + px]
                            == self.data_spec()[((src_y + step_y) as int) * (bw as int) + x + px],
                    forall|i: int|
                        (step_y as int) * (rw as int) + (step_x as int) <= i < result_len
                            ==> #[trigger] result@[i] == 0u8,
                decreases result_width - step_x,
            {
                proof {
                    assert((bw as int) * (((src_y + step_y) as usize) as int) + (x + step_x) < (
                    bw as int) * (el as int)) by (nonlinear_arith)
                        requires
                            0 <= (((src_y + step_y) as usize) as int),
                            (((src_y + step_y) as usize) as int) < (el as int),
                            0 <= x + step_x < bw as int,
                            bw as int >= 1,
                    ;
                    assert((rw as int) * (step_y as int) + (step_x as int) < (rw as int) * (
                    rh as int)) by (nonlinear_arith)
                        requires
                            0 <= step_x < rw,
                            0 <= step_y < rh,
                    ;
                    assert((bw as int) * (el as int) == self.data_spec().len());
                }
                let real_i = src_width * (src_y + step_y) + x + step_x;
                let result_i = result_width * step_y + step_x;

                let ghost prev = result@;
                result[result_i] = src[real_i];

                proof {
                    assert forall|py: int, px: int|
                        (0 <= py < step_y && 0 <= px < rw) || (py == step_y && 0 <= px < step_x
                            + 1) implies #[trigger] result@[py * (rw as int) + px]
                        == self.data_spec()[(src_y + py) * (bw as int) + x + px] by {
                        if py == step_y && px == step_x {
                            assert(py * (rw as int) + px == result_i as int);
                            assert((src_y + py) * (bw as int) == (src_width as int) * (((src_y
                                + step_y) as usize) as int)) by (nonlinear_arith)
                                requires
                                    src_y + py == ((src_y + step_y) as usize) as int,
                                    bw as int == src_width as int,
                            ;
                            assert((src_y + py) * (bw as int) + x + px == real_i as int);
                        } else {
                            assert(0 <= py * (rw as int) + px < (rw as int) * (rh as int))
                                by (nonlinear_arith)
                                requires
                                    0 <= py < rh,
                                    0 <= px < rw,
                            ;
                            if py * (rw as int) + px == (step_y as int) * (rw as int) + (
                            step_x as int) {
                                lemma_row_major_unique(
                                    rw as int,
                                    py,
                                    px,
                                    step_y as int,
                                    step_x as int,
                                );
                            }
                            assert(result@[py * (rw as int) + px] == prev[py * (rw as int) + px]);
                        }
                    }
                    assert forall|i: int|
                        (step_y as int) * (rw as int) + (step_x as int) + 1 <= i < result_len
                            implies #[trigger] result@[i] == 0u8 by {
                        assert(result@[i] == prev[i]);
                    }
                }
                step_x = step_x + 1;
            }
            proof {
                assert(((step_y + 1) as int) * (rw as int) == (step_y as int) * (rw as int) + (
                rw as int)) by (nonlinear_arith);
            }
            step_y = step_y + 1;
        }

        proof {
            assert((rh as int) * (rw as int) == (rw as int) * (rh as int));
            assert forall|i: int|
                (rw as int) * (rh as int) <= i < result@.len() implies #[trigger] result@[i]
                == 0u8 by {
                assert((step_y as int) * (rw as int) <= i);
            }
        }
        (Rectangle::new(x, src_y, result_width, result_height), result)
    }
}

} // verus!
