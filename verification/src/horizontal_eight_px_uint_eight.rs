//! The shared packing interface and its horizontal implementation. Both
//! packing orientations expose the same operation set; only the bit
//! addressing (`draw`) and the choice of the byte-normalized axis
//! (`compute_part`) differ between them.

use vstd::prelude::*;

use crate::common::draw;
use crate::common::{
    as_eight_length, as_eight_start, eight_length_spec, h_pixel, into_as_eight,
    lemma_eight_length_bound, lemma_h_draw_pixel, lemma_h_index_bounds, lemma_row_major_unique,
    min_int, mono_seq, ActAsMono, ActAsXywh, AsEight, Mono, Rectangle,
};
use crate::eight_data::EightData;
use crate::error::EightPxUintEightError;
use crate::EightPxUintEightResult;

verus! {

/// Marker for the horizontal packing orientation: x is the packed axis.
pub struct Horizontal;

/// Marker for the vertical packing orientation: y is the packed axis.
pub struct Vertical;

/// A transfer descriptor: where an extraction reads in the source buffer
/// and how large the copied block is.
#[derive(Debug, Eq, PartialEq, Structural, Copy, Clone)]
pub struct Part {
    pub src_x: usize,
    pub src_y: usize,
    pub src_width: usize,
    pub src_height: usize,
    pub result_width: usize,
    pub result_height: usize,
}

impl Part {
    pub fn new(
        src_x: usize,
        src_y: usize,
        src_width: usize,
        src_height: usize,
        result_width: usize,
        result_height: usize,
    ) -> (r: Self)
        ensures
            r == (Part { src_x, src_y, src_width, src_height, result_width, result_height }),
    {
        Self { src_x, src_y, src_width, src_height, result_width, result_height }
    }
}

/// The shared interface of the packed pixel buffers: geometry accessors,
/// the orientation-specific pixel primitive `draw` and region normalizer
/// `compute_part`, and the region transfers `update` and `part_vec` written
/// against them.
pub trait EightPxUintEight {
    type EightData: EightData;

    /// Logical pixel width.
    spec fn width_spec(&self) -> usize;

    /// Logical pixel height.
    spec fn height_spec(&self) -> usize;

    /// Byte count along the packed axis.
    spec fn eight_length_of(&self) -> usize;

    /// The packed bytes held by the storage.
    spec fn data_spec(&self) -> Seq<u8>;

    /// Shape invariant tying the storage length to the dimensions.
    spec fn wf(&self) -> bool;

    /// Exclusive x bound of the byte-aligned pixel grid.
    spec fn grid_width(&self) -> int;

    /// Exclusive y bound of the byte-aligned pixel grid.
    spec fn grid_height(&self) -> int;

    /// The pixel that `data` shows at `(x, y)` of the byte-aligned grid
    /// under this buffer's orientation and geometry.
    spec fn pixel_of(&self, data: Seq<u8>, x: int, y: int) -> Mono;

    /// When `compute_part` may be called on an in-range rectangle.
    spec fn compute_part_req(&self, x: int, y: int, w: int, h: int) -> bool;

    /// The transfer descriptor `compute_part` returns.
    spec fn compute_part_spec(&self, x: int, y: int, w: int, h: int) -> Part;

    fn width(&self) -> (r: usize)
        ensures
            r == self.width_spec(),
    ;

    fn height(&self) -> (r: usize)
        ensures
            r == self.height_spec(),
    ;

    fn eight_length(&self) -> (r: usize)
        ensures
            r == self.eight_length_of(),
    ;

    fn eight_data(&self) -> (r: &Self::EightData)
        ensures
            r.data_spec() == self.data_spec(),
    ;

    fn eight_data_mut(&mut self) -> (r: &mut Self::EightData)
        ensures
            r.data_spec() == old(self).data_spec(),
            final(self).data_spec() == final(r).data_spec(),
            final(self).width_spec() == old(self).width_spec(),
            final(self).height_spec() == old(self).height_spec(),
            final(self).eight_length_of() == old(self).eight_length_of(),
    ;

    /// Writes one pixel. This is the only mutating primitive: every
    /// higher-level write funnels through it once per pixel.
    fn draw(&mut self, x: usize, y: usize, color: Mono)
        requires
            old(self).wf(),
            (x as int) < old(self).width_spec() as int,
            (y as int) < old(self).height_spec() as int,
        ensures
            final(self).wf(),
            final(self).width_spec() == old(self).width_spec(),
            final(self).height_spec() == old(self).height_spec(),
            final(self).eight_length_of() == old(self).eight_length_of(),
            final(self).grid_width() == old(self).grid_width(),
            final(self).grid_height() == old(self).grid_height(),
            final(self).data_spec().len() == old(self).data_spec().len(),
            forall|ix: int, iy: int|
                0 <= ix < old(self).grid_width() && 0 <= iy < old(self).grid_height()
                    ==> #[trigger] old(self).pixel_of(final(self).data_spec(), ix, iy) == if ix
                    == x && iy == y {
                    color
                } else {
                    old(self).pixel_of(old(self).data_spec(), ix, iy)
                },
    ;

    /// Normalizes a requested rectangle to a transfer descriptor: the
    /// packed axis is widened to whole bytes, and both axes are clamped to
    /// the buffer.
    fn compute_part<X: ActAsXywh>(&self, xywh: X) -> (r: Part)
        requires
            self.wf(),
            ({
                let (x, y, w, h) = xywh.xywh_spec();
                self.compute_part_req(x as int, y as int, w as int, h as int)
            }),
        ensures
            ({
                let (x, y, w, h) = xywh.xywh_spec();
                r == self.compute_part_spec(x as int, y as int, w as int, h as int)
            }),
    ;

    /// Writes a dense row-major pixel block into the rectangle, clipping
    /// silently at the buffer edges. A rectangle starting beyond the buffer
    /// is a successful no-op; a source slice whose length is not exactly
    /// `width * height` of the rectangle is rejected.
    fn update<X: ActAsXywh, M: ActAsMono>(&mut self, xywh: X, src: &[M]) -> (r:
        EightPxUintEightResult<()>)
        requires
            old(self).wf(),
        ensures
            final(self).wf(),
            final(self).width_spec() == old(self).width_spec(),
            final(self).height_spec() == old(self).height_spec(),
            final(self).eight_length_of() == old(self).eight_length_of(),
            final(self).grid_width() == old(self).grid_width(),
            final(self).grid_height() == old(self).grid_height(),
            final(self).data_spec().len() == old(self).data_spec().len(),
            ({
                let (x, y, w, h) = xywh.xywh_spec();
                let cw = min_int(w as int, old(self).width_spec() - x);
                let ch = min_int(h as int, old(self).height_spec() - y);
                &&& (r is Ok <==> src@.len() >= (w as int) * (h as int))
                &&& (r is Err ==> r == EightPxUintEightResult::<()>::Err(
                    EightPxUintEightError::InvalidLengthData,
                ) && final(self).data_spec() == old(self).data_spec())
                &&& (src@.len() >= (w as int) * (h as int) && (x > old(self).width_spec() || y
                    > old(self).height_spec()) ==> final(self).data_spec() == old(
                    self,
                ).data_spec())
                &&& (src@.len() >= (w as int) * (h as int) && x <= old(self).width_spec() && y
                    <= old(self).height_spec() ==> forall|ix: int, iy: int|
                    0 <= ix < old(self).grid_width() && 0 <= iy < old(self).grid_height()
                        ==> #[trigger] old(self).pixel_of(final(self).data_spec(), ix, iy) == if x
                        <= ix < x + cw && y <= iy < y + ch {
                        mono_seq(src@)[(iy - y) * (w as int) + (ix - x)]
                    } else {
                        old(self).pixel_of(old(self).data_spec(), ix, iy)
                    })
            }),
    ;

    /// The whole packed buffer in storage order.
    fn as_vec(&self) -> (r: &Vec<u8>)
        ensures
            r@ == self.data_spec(),
    ;

    /// Copies the bytes of the transfer descriptor's region into `result`
    /// and reports the copied region, in byte units along the packed axis
    /// and pixel units along the other. A rectangle starting beyond the
    /// buffer is a no-op that returns the zero rectangle.
    fn part_vec<X: ActAsXywh>(&self, xywh: X, result: &mut [u8]) -> (r: Rectangle)
        requires
            self.wf(),
            ({
                let (x, y, w, h) = xywh.xywh_spec();
                x <= self.width_spec() && y <= self.height_spec() ==> {
                    let p = self.compute_part_spec(x as int, y as int, w as int, h as int);
                    &&& self.compute_part_req(x as int, y as int, w as int, h as int)
                    &&& old(result).len() >= (p.result_width as int) * (p.result_height as int)
                }
            }),
        ensures
            final(result)@.len() == old(result)@.len(),
            ({
                let (x, y, w, h) = xywh.xywh_spec();
                &&& (x > self.width_spec() || y > self.height_spec() ==> r == (Rectangle {
                    x: 0,
                    y: 0,
                    width: 0,
                    height: 0,
                }) && final(result)@ == old(result)@)
                &&& (x <= self.width_spec() && y <= self.height_spec() ==> {
                    let p = self.compute_part_spec(x as int, y as int, w as int, h as int);
                    &&& r == (Rectangle {
                        x: p.src_x,
                        y: p.src_y,
                        width: p.result_width,
                        height: p.result_height,
                    })
                    &&& forall|sy: int, sxx: int|
                        0 <= sy < p.result_height && 0 <= sxx < p.result_width
                            ==> #[trigger] final(result)@[sy * (p.result_width as int) + sxx]
                            == self.data_spec()[(p.src_width as int) * (p.src_y + sy) + p.src_x
                            + sxx]
                    &&& forall|i: int|
                        (p.result_width as int) * (p.result_height as int) <= i < old(
                            result,
                        )@.len() ==> #[trigger] final(result)@[i] == old(result)@[i]
                })
            }),
    ;
}

/// A monochrome buffer of `width` by `height` logical pixels over a storage
/// collaborator, packed eight pixels per byte along each row: byte
/// `y * eight_length + x / 8` holds pixel `(x, y)` at bit `7 - x % 8`.
pub struct HorizontalEightPxUintEight<D: EightData> {
    width: usize,
    height: usize,
    eight_length: usize,
    eight_data: D,
}

impl<D: EightData> HorizontalEightPxUintEight<D> {
    /// A buffer over the given storage; fails if and only if the storage
    /// length does not match the dimensions.
    pub fn new(width: usize, height: usize, eight_data: D) -> (r: EightPxUintEightResult<Self>)
        ensures
            r is Ok <==> eight_data.data_spec().len() == eight_length_spec(width as int) * (
            height as int),
            r is Err ==> r == EightPxUintEightResult::<Self>::Err(
                EightPxUintEightError::InvalidLengthData,
            ),
            r matches Ok(b) ==> {
                &&& b.wf()
                &&& b.width_spec() == width
                &&& b.height_spec() == height
                &&& b.data_spec() == eight_data.data_spec()
            },
    {
        let eight_length = crate::common::compute_eight_length(width);

        let len = eight_data.len();
        let matches_len = match eight_length.checked_mul(height) {
            Some(n) => n == len,
            None => false,
        };
        if !matches_len {
            return Err(EightPxUintEightError::InvalidLengthData);
        }

        Ok(Self { width, height, eight_length, eight_data })
    }
}

impl<D: EightData> EightPxUintEight for HorizontalEightPxUintEight<D> {
    type EightData = D;

    closed spec fn width_spec(&self) -> usize {
        self.width
    }

    closed spec fn height_spec(&self) -> usize {
        self.height
    }

    closed spec fn eight_length_of(&self) -> usize {
        self.eight_length
    }

    closed spec fn data_spec(&self) -> Seq<u8> {
        self.eight_data.data_spec()
    }

    open spec fn wf(&self) -> bool {
        &&& self.eight_length_of() == eight_length_spec(self.width_spec() as int)
        &&& self.data_spec().len() == self.eight_length_of() * self.height_spec()
    }

    open spec fn grid_width(&self) -> int {
        8 * (self.eight_length_of() as int)
    }

    open spec fn grid_height(&self) -> int {
        self.height_spec() as int
    }

    open spec fn pixel_of(&self, data: Seq<u8>, x: int, y: int) -> Mono {
        h_pixel(data, self.eight_length_of() as int, x, y)
    }

    open spec fn compute_part_req(&self, x: int, y: int, w: int, h: int) -> bool {
        &&& x + w >= 1
        &&& x + w <= usize::MAX
        &&& as_eight_length(x, w) >= 1
        &&& x <= self.width_spec()
        &&& y <= self.height_spec()
    }

    open spec fn compute_part_spec(&self, x: int, y: int, w: int, h: int) -> Part {
        let sx = as_eight_start(x);
        let el = self.eight_length_of() as int;
        Part {
            src_x: sx as usize,
            src_y: y as usize,
            src_width: self.eight_length_of(),
            src_height: self.height_spec(),
            result_width: min_int(as_eight_length(x, w), el - sx) as usize,
            result_height: min_int(h, self.height_spec() - y) as usize,
        }
    }

    fn width(&self) -> (r: usize) {
        self.width
    }

    fn height(&self) -> (r: usize) {
        self.height
    }

    fn eight_length(&self) -> (r: usize) {
        self.eight_length
    }

    fn eight_data(&self) -> (r: &D) {
        &self.eight_data
    }

    fn eight_data_mut(&mut self) -> (r: &mut D) {
        &mut self.eight_data
    }

    fn draw(&mut self, x: usize, y: usize, color: Mono) {
        let ghost el = self.eight_length;
        let ghost bh = self.height;
        let ghost prev = self.data_spec();
        let data_len = self.eight_data.len();

        proof {
            lemma_eight_length_bound(self.width_spec() as int);
            lemma_h_index_bounds(el as int, bh as int, x as int, y as int);
            assert(x >> 3 == x / 8) by (bit_vector);
            assert((y as int) * (el as int) + (x as int) / 8 < (el as int) * (bh as int));
            assert((el as int) * (y as int) == (y as int) * (el as int));
            assert((el as int) * (bh as int) == self.data_spec().len());
        }
        let data_i = self.eight_length * y + (x >> 3);

        draw(self.eight_data.core_mut(), data_i, x, color);

        proof {
            let di = (y as int) * (el as int) + (x as int) / 8;
            assert(data_i as int == di);
            assert(self.data_spec() == prev.update(
                di,
                crate::common::h_drawn_byte(prev[di], ((x as int) % 8) as u8, color),
            ));
            assert forall|ix: int, iy: int|
                0 <= ix < 8 * (el as int) && 0 <= iy < bh implies #[trigger] h_pixel(
                self.data_spec(),
                el as int,
                ix,
                iy,
            ) == if ix == x && iy == y {
                color
            } else {
                h_pixel(prev, el as int, ix, iy)
            } by {
                lemma_h_draw_pixel(prev, el as int, bh as int, x as int, y as int, color, ix, iy);
            }
        }
    }

    fn compute_part<X: ActAsXywh>(&self, xywh: X) -> (r: Part) {
        let (x, y, width, height) = xywh.xywh();

        let src_width = self.eight_length;
        let src_height = self.height;

        let AsEight { start: src_x, length: result_width } = into_as_eight(x, width);

        proof {
            lemma_eight_length_bound(self.width_spec() as int);
            assert((x as int) / 8 <= (src_width as int)) by (nonlinear_arith)
                requires
                    0 <= x as int,
                    x as int <= 8 * (src_width as int),
            ;
        }
        let src_y = y;
        let result_height = if height < src_height - y { height } else { src_height - y };
        let result_width = if result_width < src_width - src_x {
            result_width
        } else {
            src_width - src_x
        };

        Part::new(src_x, src_y, src_width, src_height, result_width, result_height)
    }

    #[verifier::rlimit(30)]
    fn update<X: ActAsXywh, M: ActAsMono>(&mut self, xywh: X, src: &[M]) -> (r:
        EightPxUintEightResult<()>) {
        let (x, y, width, height) = xywh.xywh();

        let src_len = src.len();
        let len_matches = match width.checked_mul(height) {
            Some(n) => n <= src_len,
            None => false,
        };
        if !len_matches {
            return Err(EightPxUintEightError::InvalidLengthData);
        }

        // avoid unsigned subtract overflow
        if x > self.width() || y > self.height() {
            return Ok(());
        }

        let bh_exec = self.height();
        let bw_exec = self.width();
        let ch = if height < bh_exec - y { height } else { bh_exec - y };
        let cw = if width < bw_exec - x { width } else { bw_exec - x };

        let ghost orig = self.data_spec();
        let ghost bw = self.width_spec();
        let ghost bh = self.height_spec();
        let ghost el = self.eight_length_of();
        let ghost pxs = mono_seq(src@);

        let mut step_y: usize = 0;
        while step_y < ch
            invariant
                self.wf(),
                self.width_spec() == bw,
                self.height_spec() == bh,
                self.eight_length_of() == el,
                self.data_spec().len() == orig.len(),
                x <= bw,
                y <= bh,
                cw == min_int(width as int, bw - x),
                ch == min_int(height as int, bh - y),
                src@.len() >= (width as int) * (height as int),
                src@.len() == src_len,
                pxs == mono_seq(src@),
                step_y <= ch,
                forall|ix: int, iy: int|
                    0 <= ix < 8 * (el as int) && 0 <= iy < bh ==> #[trigger] h_pixel(
                        self.data_spec(),
                        el as int,
                        ix,
                        iy,
                    ) == if x <= ix < x + cw && y <= iy < y + step_y {
                        pxs[(iy - y) * (width as int) + (ix - x)]
                    } else {
                        h_pixel(orig, el as int, ix, iy)
                    },
            decreases ch - step_y,
        {
            let mut step_x: usize = 0;
            while step_x < cw
                invariant
                    self.wf(),
                    self.width_spec() == bw,
                    self.height_spec() == bh,
                    self.eight_length_of() == el,
                    self.data_spec().len() == orig.len(),
                    x <= bw,
                    y <= bh,
                    cw == min_int(width as int, bw - x),
                    ch == min_int(height as int, bh - y),
                    src@.len() >= (width as int) * (height as int),
                    src@.len() == src_len,
                    pxs == mono_seq(src@),
                    step_y < ch,
                    step_x <= cw,
                    forall|ix: int, iy: int|
                        0 <= ix < 8 * (el as int) && 0 <= iy < bh ==> #[trigger] h_pixel(
                            self.data_spec(),
                            el as int,
                            ix,
                            iy,
                        ) == if (x <= ix < x + cw && y <= iy < y + step_y) || (y + step_y == iy
                            && x <= ix < x + step_x) {
                            pxs[(iy - y) * (width as int) + (ix - x)]
                        } else {
                            h_pixel(orig, el as int, ix, iy)
                        },
                decreases cw - step_x,
            {
                proof {
                    assert((width as int) * (step_y as int) + (step_x as int) < (width as int) * (
                    height as int)) by (nonlinear_arith)
                        requires
                            step_x < cw <= width,
                            step_y < ch <= height,
                    ;
                }
                let color = src[width * step_y + step_x].act_as();
                let data_x = x + step_x;
                let data_y = y + step_y;

                let ghost prev = self.data_spec();
                let ghost prev_self = *self;
                self.draw(data_x, data_y, color);

                proof {
                    assert(color == src@[(width * step_y + step_x) as int].act_as_spec());
                    assert(pxs[(width * step_y + step_x) as int] == src@[(width * step_y
                        + step_x) as int].act_as_spec());
                    assert((width * step_y + step_x) as int == (step_y as int) * (width as int) + (
                    step_x as int));
                    assert(color == pxs[(step_y as int) * (width as int) + (step_x as int)]);
                    assert forall|ix: int, iy: int|
                        0 <= ix < 8 * (el as int) && 0 <= iy < bh implies #[trigger] h_pixel(
                        self.data_spec(),
                        el as int,
                        ix,
                        iy,
                    ) == if (x <= ix < x + cw && y <= iy < y + step_y) || (y + step_y == iy && x
                        <= ix < x + step_x + 1) {
                        pxs[(iy - y) * (width as int) + (ix - x)]
                    } else {
                        h_pixel(orig, el as int, ix, iy)
                    } by {
                        assert(prev_self.pixel_of(self.data_spec(), ix, iy) == if ix == data_x
                            && iy == data_y {
                            color
                        } else {
                            prev_self.pixel_of(prev, ix, iy)
                        });
                    }
                }
                step_x = step_x + 1;
            }
            step_y = step_y + 1;
        }

        Ok(())
    }

    fn as_vec(&self) -> (r: &Vec<u8>) {
        self.eight_data.as_vev()
    }

    fn part_vec<X: ActAsXywh>(&self, xywh: X, result: &mut [u8]) -> (r: Rectangle) {
        let (x, y, width, height) = xywh.xywh();

        // avoid unsigned subtract overflow
        if x > self.width() || y > self.height() {
            return Rectangle::new(0, 0, 0, 0);
        }

        let src = self.eight_data.data_core();

        let Part { src_x, src_y, src_width, result_width, result_height, .. } = self.compute_part(
            (x, y, width, height),
        );

        let ghost el = self.eight_length_of();
        let ghost bh = self.height_spec();
        let data_len = src.len();
        let result_len = result.len();
        let ghost rw = result_width;
        let ghost rh = result_height;

        let mut step_y: usize = 0;
        while step_y < result_height
            invariant
                self.wf(),
                self.eight_length_of() == el,
                self.height_spec() == bh,
                src@ == self.data_spec(),
                src_width == el,
                src_y == y,
                step_y <= result_height,
                result_width == rw,
                result_height == rh,
                y + result_height <= bh,
                src_x + result_width <= el,
                src_x == as_eight_start(x as int),
                src@.len() == data_len,
                result@.len() == result_len,
                result_len >= (rw as int) * (rh as int),
                forall|sy: int, sxx: int|
                    0 <= sy < step_y && 0 <= sxx < rw ==> #[trigger] result@[sy * (rw as int)
                        + sxx] == self.data_spec()[(el as int) * ((y + sy) as int) + src_x + sxx],
                forall|i: int|
                    (rw as int) * (rh as int) <= i < result_len ==> #[trigger] result@[i] == old(
                        result,
                    )@[i],
            decreases result_height - step_y,
        {
            let mut step_x: usize = 0;
            while step_x < result_width
                invariant
                    self.wf(),
                    self.eight_length_of() == el,
                    self.height_spec() == bh,
                    src@ == self.data_spec(),
                    src_width == el,
                    src_y == y,
                    step_y < result_height,
                    step_x <= result_width,
                    result_width == rw,
                    result_height == rh,
                    y + result_height <= bh,
                    src_x + result_width <= el,
                    src_x == as_eight_start(x as int),
                    src@.len() == data_len,
                    result@.len() == result_len,
                    result_len >= (rw as int) * (rh as int),
                    forall|sy: int, sxx: int|
                        0 <= sy < step_y && 0 <= sxx < rw ==> #[trigger] result@[sy * (rw as int)
                            + sxx] == self.data_spec()[(el as int) * ((y + sy) as int) + src_x
                            + sxx],
                    forall|sxx: int|
                        0 <= sxx < step_x ==> #[trigger] result@[(step_y as int) * (rw as int)
                            + sxx] == self.data_spec()[(el as int) * (((y + step_y) as usize)
                            as int) + src_x + sxx],
                    forall|i: int|
                        (rw as int) * (rh as int) <= i < result_len ==> #[trigger] result@[i]
                            == old(result)@[i],
                decreases result_width - step_x,
            {
                proof {
                    assert((el as int) * (((y + step_y) as usize) as int) + (src_x + step_x) < (
                    el as int) * (bh as int)) by (nonlinear_arith)
                        requires
                            0 <= (((y + step_y) as usize) as int),
                            (((y + step_y) as usize) as int) < (bh as int),
                            0 <= src_x + step_x < el as int,
                            el as int >= 1,
                    ;
                    assert((rw as int) * (step_y as int) + (step_x as int) < (rw as int) * (
                    rh as int)) by (nonlinear_arith)
                        requires
                            0 <= step_x < rw,
                            0 <= step_y < rh,
                    ;
                    assert((el as int) * (bh as int) == self.data_spec().len());
                }
                let real_i = src_width * (src_y + step_y) + src_x + step_x;
                let result_i = result_width * step_y + step_x;

                let ghost prev = result@;
                result[result_i] = src[real_i];

                proof {
                    assert forall|sy: int, sxx: int|
                        (0 <= sy < step_y && 0 <= sxx < rw) || (sy == step_y && 0 <= sxx < step_x
                            + 1) implies #[trigger] result@[sy * (rw as int) + sxx]
                        == self.data_spec()[(el as int) * ((y + sy) as int) + src_x + sxx] by {
                        if sy == step_y && sxx == step_x {
                            assert(sy * (rw as int) + sxx == result_i as int);
                            assert((el as int) * ((y + sy) as int) + src_x + sxx
                                == real_i as int);
                        } else {
                            assert(0 <= sy * (rw as int) + sxx < (rw as int) * (rh as int))
                                by (nonlinear_arith)
                                requires
                                    0 <= sy < rh,
                                    0 <= sxx < rw,
                            ;
                            if sy * (rw as int) + sxx == (step_y as int) * (rw as int) + (
                            step_x as int) {
                                lemma_row_major_unique(
                                    rw as int,
                                    sy,
                                    sxx,
                                    step_y as int,
                                    step_x as int,
                                );
                            }
                            assert(result@[sy * (rw as int) + sxx] == prev[sy * (rw as int)
                                + sxx]);
                        }
                    }
                    assert forall|i: int|
                        (rw as int) * (rh as int) <= i < result_len implies #[trigger] result@[i]
                        == old(result)@[i] by {
                        assert((result_i as int) < (rw as int) * (rh as int));
                        assert(result@[i] == prev[i]);
                    }
                }
                step_x = step_x + 1;
            }
            step_y = step_y + 1;
        }

        Rectangle::new(src_x, src_y, result_width, result_height)
    }
}

} // verus!
