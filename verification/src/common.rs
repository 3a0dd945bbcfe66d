//! Shared primitives: pixel values, rectangles, the eight-length calculator
//! and the byte-alignment normalizer used along the packed axis.

use vstd::prelude::*;

verus! {

/// Byte count needed to hold `n` pixels along the packed axis:
/// ceiling division by eight, with a floor of one byte.
pub open spec fn eight_length_spec(n: int) -> int {
    if n < 8 {
        1
    } else if n % 8 == 0 {
        n / 8
    } else {
        n / 8 + 1
    }
}

/// Converts a pixel extent along the packed axis into a byte count:
/// one byte for any extent under eight, otherwise an exact or rounded-up
/// division by eight.
pub fn compute_eight_length(src: usize) -> (r: usize)
    ensures
        r == eight_length_spec(src as int),
        src < 8 ==> r == 1,
        src >= 8 && src % 8 == 0 ==> r == src / 8,
        src >= 8 && src % 8 != 0 ==> r == src / 8 + 1,
{
    proof {
        assert(src >> 3 == src / 8) by (bit_vector);
    }
    match src >> 3 {
        m if m == 0 => 1,
        m if src % 8 == 0 => m,
        m => m + 1,
    }
}

/// A byte-aligned span along the packed axis: `start` is a byte offset,
/// `length` a byte count.
pub struct AsEight {
    pub start: usize,
    pub length: usize,
}

/// First byte touched by the pixel range starting at `offset`.
pub open spec fn as_eight_start(offset: int) -> int {
    offset / 8
}

/// Number of bytes touched by the half-open pixel range
/// `[offset, offset + extent)`; the range is widened to whole bytes.
pub open spec fn as_eight_length(offset: int, extent: int) -> int {
    (offset + extent - 1) / 8 - offset / 8 + 1
}

/// Normalizes a pixel span along the packed axis to the minimal byte-aligned
/// span that fully covers it.
pub fn into_as_eight(src: usize, length: usize) -> (r: AsEight)
    requires
        src + length >= 1,
        src + length <= usize::MAX,
        as_eight_length(src as int, length as int) >= 1,
    ensures
        r.start == as_eight_start(src as int),
        r.length == as_eight_length(src as int, length as int),
{
    proof {
        assert(src >> 3 == src / 8) by (bit_vector);
        let e: usize = (src + length - 1) as usize;
        assert(e >> 3 == e / 8) by (bit_vector);
    }
    let start = src >> 3;
    let end = (src + length - 1) >> 3;
    let length = end - start + 1;

    AsEight { start, length }
}

/// A single-bit pixel value.
#[derive(Debug, Eq, PartialEq, Copy, Clone, Structural)]
pub enum Mono {
    Zero,
    One,
}

/// Conversion of a source sample into a [`Mono`] pixel.
pub trait ActAsMono {
    /// The pixel value this sample stands for.
    spec fn act_as_spec(&self) -> Mono;

    fn act_as(&self) -> (r: Mono)
        ensures
            r == self.act_as_spec(),
    ;
}

impl ActAsMono for Mono {
    open spec fn act_as_spec(&self) -> Mono {
        *self
    }

    fn act_as(&self) -> (r: Mono) {
        *self
    }
}

impl ActAsMono for u8 {
    open spec fn act_as_spec(&self) -> Mono {
        if *self == 0 {
            Mono::Zero
        } else {
            Mono::One
        }
    }

    fn act_as(&self) -> (r: Mono) {
        match self {
            0 => Mono::Zero,
            _ => Mono::One,
        }
    }
}

/// Anything that can present itself as an `(x, y, width, height)` rectangle.
pub trait ActAsXywh {
    /// The rectangle this value stands for.
    spec fn xywh_spec(&self) -> (usize, usize, usize, usize);

    fn xywh(&self) -> (r: (usize, usize, usize, usize))
        ensures
            r == self.xywh_spec(),
    ;
}

impl ActAsXywh for (usize, usize, usize, usize) {
    open spec fn xywh_spec(&self) -> (usize, usize, usize, usize) {
        *self
    }

    fn xywh(&self) -> (r: (usize, usize, usize, usize)) {
        *self
    }
}

/// A rectangle in logical pixel units; validity is checked at the point of
/// use, not at construction.
#[derive(Debug, Eq, PartialEq, Copy, Clone, Structural)]
pub struct Rectangle {
    pub x: usize,
    pub y: usize,
    pub width: usize,
    pub height: usize,
}

impl ActAsXywh for Rectangle {
    open spec fn xywh_spec(&self) -> (usize, usize, usize, usize) {
        (self.x, self.y, self.width, self.height)
    }

    fn xywh(&self) -> (r: (usize, usize, usize, usize)) {
        let Rectangle { x, y, width, height } = self;
        (*x, *y, *width, *height)
    }
}

impl From<(usize, usize, usize, usize)> for Rectangle {
    fn from(t: (usize, usize, usize, usize)) -> (r: Self) {
        let (x, y, width, height) = t;
        Self { x, y, width, height }
    }
}

impl vstd::std_specs::convert::FromSpecImpl<(usize, usize, usize, usize)> for Rectangle {
    open spec fn obeys_from_spec() -> bool {
        true
    }

    open spec fn from_spec(t: (usize, usize, usize, usize)) -> Rectangle {
        Rectangle { x: t.0, y: t.1, width: t.2, height: t.3 }
    }
}

impl Rectangle {
    pub fn new(x: usize, y: usize, width: usize, height: usize) -> (r: Self)
        ensures
            r == (Rectangle { x, y, width, height }),
    {
        Self { x, y, width, height }
    }
}

/// Whether bit `k` (counted from the least significant end) of `b` is set.
pub open spec fn bit_get(b: u8, k: u8) -> bool {
    (b >> k) & 1u8 == 1u8
}

/// The byte `b` after drawing `color` at bit position `7 - r` (most
/// significant bit first): the horizontal packing convention.
pub open spec fn h_drawn_byte(b: u8, r: u8, color: Mono) -> u8 {
    if color == Mono::One {
        b | (0x80u8 >> r)
    } else {
        b & !(0x80u8 >> r)
    }
}

/// The byte `b` after drawing `color` at bit position `r` (least
/// significant bit first): the vertical packing convention.
pub open spec fn v_drawn_byte(b: u8, r: u8, color: Mono) -> u8 {
    if color == Mono::One {
        b | (1u8 << r)
    } else {
        b & !(1u8 << r)
    }
}

/// The pixel at `(x, y)` of a horizontally packed buffer with `el` bytes per
/// row: bit `7 - x % 8` of the byte at `y * el + x / 8`, remainder zero
/// addressing the most significant bit.
pub open spec fn h_pixel(data: Seq<u8>, el: int, x: int, y: int) -> Mono {
    if bit_get(data[y * el + x / 8], (7 - x % 8) as u8) {
        Mono::One
    } else {
        Mono::Zero
    }
}

/// The pixel at `(x, y)` of a vertically packed buffer that is `w` pixels
/// wide: bit `y % 8` of the byte at `(y / 8) * w + x`, remainder zero
/// addressing the least significant bit.
pub open spec fn v_pixel(data: Seq<u8>, w: int, x: int, y: int) -> Mono {
    if bit_get(data[(y / 8) * w + x], (y % 8) as u8) {
        Mono::One
    } else {
        Mono::Zero
    }
}

/// Drawing under the horizontal convention touches bit `7 - r` of its byte
/// and leaves every other bit as it was.
pub proof fn lemma_h_drawn_byte_bit(b: u8, r: u8, k: u8, color: Mono)
    requires
        r < 8,
        k < 8,
    ensures
        bit_get(h_drawn_byte(b, r, color), k) == if k == 7 - r {
            color == Mono::One
        } else {
            bit_get(b, k)
        },
{
    if color == Mono::One {
        assert(bit_get(b | (0x80u8 >> r), k) == if k == 7 - r {
            true
        } else {
            bit_get(b, k)
        }) by (bit_vector)
            requires r < 8 && k < 8;
    } else {
        assert(bit_get(b & !(0x80u8 >> r), k) == if k == 7 - r {
            false
        } else {
            bit_get(b, k)
        }) by (bit_vector)
            requires r < 8 && k < 8;
    }
}

/// Drawing under the vertical convention touches bit `r` of its byte and
/// leaves every other bit as it was.
pub proof fn lemma_v_drawn_byte_bit(b: u8, r: u8, k: u8, color: Mono)
    requires
        r < 8,
        k < 8,
    ensures
        bit_get(v_drawn_byte(b, r, color), k) == if k == r {
            color == Mono::One
        } else {
            bit_get(b, k)
        },
{
    if color == Mono::One {
        assert(bit_get(b | (1u8 << r), k) == if k == r {
            true
        } else {
            bit_get(b, k)
        }) by (bit_vector)
            requires r < 8 && k < 8;
    } else {
        assert(bit_get(b & !(1u8 << r), k) == if k == r {
            false
        } else {
            bit_get(b, k)
        }) by (bit_vector)
            requires r < 8 && k < 8;
    }
}

/// Two bytes that agree on all eight bits are equal.
pub proof fn lemma_u8_bit_ext(a: u8, b: u8)
    requires
        forall|k: u8| k < 8 ==> #[trigger] bit_get(a, k) == bit_get(b, k),
    ensures
        a == b,
{
    assert(a == b) by (bit_vector)
        requires
            bit_get(a, 0) == bit_get(b, 0),
            bit_get(a, 1) == bit_get(b, 1),
            bit_get(a, 2) == bit_get(b, 2),
            bit_get(a, 3) == bit_get(b, 3),
            bit_get(a, 4) == bit_get(b, 4),
            bit_get(a, 5) == bit_get(b, 5),
            bit_get(a, 6) == bit_get(b, 6),
            bit_get(a, 7) == bit_get(b, 7),
    ;
}

/// No bit of a zero byte is set.
pub proof fn lemma_zero_byte_bit(k: u8)
    ensures
        !bit_get(0u8, k),
{
    assert(!bit_get(0u8, k)) by (bit_vector);
}

/// A horizontally packed buffer is determined by its pixels: two buffers of
/// `el` bytes per row and `h` rows that show the same pixel at every
/// coordinate of the byte-aligned grid hold the same bytes.
pub proof fn lemma_h_data_ext(d1: Seq<u8>, d2: Seq<u8>, el: int, h: int)
    requires
        el >= 1,
        h >= 0,
        d1.len() == el * h,
        d2.len() == el * h,
        forall|x: int, y: int|
            0 <= x < 8 * el && 0 <= y < h ==> #[trigger] h_pixel(d1, el, x, y) == h_pixel(
                d2,
                el,
                x,
                y,
            ),
    ensures
        d1 == d2,
{
    assert forall|i: int| 0 <= i < el * h implies d1[i] == d2[i] by {
        let y = i / el;
        let j = i % el;
        assert(i == y * el + j && 0 <= j < el && 0 <= y < h) by (nonlinear_arith)
            requires el >= 1, 0 <= i < el * h, y == i / el, j == i % el;
        assert forall|k: u8| k < 8 implies #[trigger] bit_get(d1[i], k) == bit_get(d2[i], k) by {
            let x = 8 * j + 7 - (k as int);
            assert(x / 8 == j && x % 8 == 7 - k) by (nonlinear_arith)
                requires 0 <= j, k < 8, x == 8 * j + 7 - k;
            assert(0 <= x < 8 * el);
            assert(h_pixel(d1, el, x, y) == h_pixel(d2, el, x, y));
        }
        lemma_u8_bit_ext(d1[i], d2[i]);
    }
    assert(d1 =~= d2);
}

/// The smaller of two mathematical integers.
pub open spec fn min_int(a: int, b: int) -> int {
    if a < b {
        a
    } else {
        b
    }
}

/// The eight-length of `n` covers `n` pixels and is never zero.
pub proof fn lemma_eight_length_bound(n: int)
    requires
        n >= 0,
    ensures
        eight_length_spec(n) >= 1,
        8 * eight_length_spec(n) >= n,
        n >= 1 ==> eight_length_spec(n) <= n,
{
}

/// The byte index and bit position read by `h_pixel` stay inside a buffer of
/// `el` bytes per row and `h` rows.
pub proof fn lemma_h_index_bounds(el: int, h: int, x: int, y: int)
    requires
        el >= 1,
        0 <= x < 8 * el,
        0 <= y < h,
    ensures
        0 <= y * el + x / 8 < el * h,
        0 <= x / 8 < el,
        0 <= 7 - x % 8 < 8,
{
    assert(0 <= x / 8 < el && 0 <= x % 8 < 8) by (nonlinear_arith)
        requires el >= 1, 0 <= x < 8 * el;
    assert(0 <= y * el + x / 8 < el * h) by (nonlinear_arith)
        requires 0 <= y < h, 0 <= x / 8 < el;
}

/// The byte index and bit position read by `v_pixel` stay inside a buffer
/// that is `w` pixels wide and `el` bytes tall.
pub proof fn lemma_v_index_bounds(w: int, el: int, x: int, y: int)
    requires
        w >= 1,
        0 <= x < w,
        0 <= y < 8 * el,
    ensures
        0 <= (y / 8) * w + x < w * el,
        0 <= y / 8 < el,
        0 <= y % 8 < 8,
{
    assert(0 <= y / 8 < el && 0 <= y % 8 < 8) by (nonlinear_arith)
        requires 0 <= y < 8 * el;
    assert(0 <= (y / 8) * w + x < w * el) by (nonlinear_arith)
        requires 0 <= y / 8 < el, 0 <= x < w, w >= 1;
}

/// Drawing one pixel of a horizontally packed buffer changes exactly that
/// pixel: every other coordinate of the byte-aligned grid reads as before.
pub proof fn lemma_h_draw_pixel(
    data: Seq<u8>,
    el: int,
    h: int,
    x: int,
    y: int,
    color: Mono,
    px: int,
    py: int,
)
    requires
        el >= 1,
        data.len() == el * h,
        0 <= x < 8 * el,
        0 <= y < h,
        0 <= px < 8 * el,
        0 <= py < h,
    ensures
        h_pixel(
            data.update(y * el + x / 8, h_drawn_byte(data[y * el + x / 8], (x % 8) as u8, color)),
            el,
            px,
            py,
        ) == if px == x && py == y {
            color
        } else {
            h_pixel(data, el, px, py)
        },
{
    lemma_h_index_bounds(el, h, x, y);
    lemma_h_index_bounds(el, h, px, py);
    let i = y * el + x / 8;
    let j = py * el + px / 8;
    if i == j {
        assert(py == y && px / 8 == x / 8) by (nonlinear_arith)
            requires
                el >= 1,
                y * el + x / 8 == py * el + x / 8 + (px / 8 - x / 8),
                0 <= x / 8 < el,
                0 <= px / 8 < el,
                y * el + x / 8 == py * el + px / 8,
        ;
        lemma_h_drawn_byte_bit(data[i], (x % 8) as u8, (7 - px % 8) as u8, color);
        if px % 8 == x % 8 {
            assert(px == x) by (nonlinear_arith)
                requires px / 8 == x / 8, px % 8 == x % 8;
        }
    } else {
        if px == x && py == y {
            assert(false);
        }
    }
}

/// Drawing one pixel of a vertically packed buffer changes exactly that
/// pixel: every other coordinate of the byte-aligned grid reads as before.
pub proof fn lemma_v_draw_pixel(
    data: Seq<u8>,
    w: int,
    el: int,
    x: int,
    y: int,
    color: Mono,
    px: int,
    py: int,
)
    requires
        w >= 1,
        data.len() == w * el,
        0 <= x < w,
        0 <= y < 8 * el,
        0 <= px < w,
        0 <= py < 8 * el,
    ensures
        v_pixel(
            data.update(
                (y / 8) * w + x,
                v_drawn_byte(data[(y / 8) * w + x], (y % 8) as u8, color),
            ),
            w,
            px,
            py,
        ) == if px == x && py == y {
            color
        } else {
            v_pixel(data, w, px, py)
        },
{
    lemma_v_index_bounds(w, el, x, y);
    lemma_v_index_bounds(w, el, px, py);
    let i = (y / 8) * w + x;
    let j = (py / 8) * w + px;
    if i == j {
        assert(px == x && py / 8 == y / 8) by (nonlinear_arith)
            requires
                w >= 1,
                0 <= x < w,
                0 <= px < w,
                0 <= y / 8,
                0 <= py / 8,
                (y / 8) * w + x == (py / 8) * w + px,
        ;
        lemma_v_drawn_byte_bit(data[i], (y % 8) as u8, (py % 8) as u8, color);
        if py % 8 == y % 8 {
            assert(py == y) by (nonlinear_arith)
                requires py / 8 == y / 8, py % 8 == y % 8;
        }
    } else {
        if px == x && py == y {
            assert(false);
        }
    }
}

/// The pixel values a sample sequence stands for.
pub open spec fn mono_seq<M: ActAsMono>(src: Seq<M>) -> Seq<Mono> {
    src.map_values(|m: M| m.act_as_spec())
}

/// What a rectangular update leaves behind in a horizontally packed buffer
/// of `el` bytes per row, `bw` pixels wide and `bh` rows tall: inside the
/// clamped region each pixel takes its row-major source value, and every
/// other coordinate of the byte-aligned grid, padding bits included, reads
/// as before.
pub open spec fn h_updated(
    old_data: Seq<u8>,
    new_data: Seq<u8>,
    el: int,
    bw: int,
    bh: int,
    x: int,
    y: int,
    w: int,
    h: int,
    px: Seq<Mono>,
) -> bool {
    let cw = min_int(w, bw - x);
    let ch = min_int(h, bh - y);
    forall|ix: int, iy: int|
        0 <= ix < 8 * el && 0 <= iy < bh ==> #[trigger] h_pixel(new_data, el, ix, iy) == if x <= ix
            < x + cw && y <= iy < y + ch {
            px[(iy - y) * w + (ix - x)]
        } else {
            h_pixel(old_data, el, ix, iy)
        }
}

/// What a rectangular update leaves behind in a vertically packed buffer
/// that is `bw` pixels wide, `bh` rows tall and `el` bytes along each
/// column.
pub open spec fn v_updated(
    old_data: Seq<u8>,
    new_data: Seq<u8>,
    el: int,
    bw: int,
    bh: int,
    x: int,
    y: int,
    w: int,
    h: int,
    px: Seq<Mono>,
) -> bool {
    let cw = min_int(w, bw - x);
    let ch = min_int(h, bh - y);
    forall|ix: int, iy: int|
        0 <= ix < bw && 0 <= iy < 8 * el ==> #[trigger] v_pixel(new_data, bw, ix, iy) == if x <= ix
            < x + cw && y <= iy < y + ch {
            px[(iy - y) * w + (ix - x)]
        } else {
            v_pixel(old_data, bw, ix, iy)
        }
}

/// Update is idempotent on identical input: writing the same source block
/// into the same rectangle a second time leaves the packed bytes exactly as
/// the first write left them. `d0`, `d1` and `d2` are the storage before
/// the first write, after it, and after the repeated write.
pub proof fn lemma_update_idempotent(
    d0: Seq<u8>,
    d1: Seq<u8>,
    d2: Seq<u8>,
    el: int,
    bw: int,
    bh: int,
    x: int,
    y: int,
    w: int,
    h: int,
    px: Seq<Mono>,
)
    requires
        el >= 1,
        bh >= 0,
        d1.len() == el * bh,
        d2.len() == el * bh,
        h_updated(d0, d1, el, bw, bh, x, y, w, h, px),
        h_updated(d1, d2, el, bw, bh, x, y, w, h, px),
    ensures
        d2 == d1,
{
    assert forall|ix: int, iy: int| 0 <= ix < 8 * el && 0 <= iy < bh implies #[trigger] h_pixel(
        d2,
        el,
        ix,
        iy,
    ) == h_pixel(d1, el, ix, iy) by {
        assert(h_pixel(d1, el, ix, iy) == if x <= ix < x + min_int(w, bw - x) && y <= iy < y
            + min_int(h, bh - y) {
            px[(iy - y) * w + (ix - x)]
        } else {
            h_pixel(d0, el, ix, iy)
        });
    }
    lemma_h_data_ext(d2, d1, el, bh);
}

/// A horizontally packed buffer that shows exactly the pixel sequence `px`
/// (row-major, `w` by `h`), with all padding bits clear.
pub open spec fn h_packed_from(data: Seq<u8>, el: int, w: int, h: int, px: Seq<Mono>) -> bool {
    forall|x: int, y: int|
        0 <= x < 8 * el && 0 <= y < h ==> #[trigger] h_pixel(data, el, x, y) == if x < w {
            px[y * w + x]
        } else {
            Mono::Zero
        }
}

/// A row-major linear index determines its row and column.
pub proof fn lemma_row_major_unique(w: int, i1: int, j1: int, i2: int, j2: int)
    requires
        w >= 1,
        0 <= j1 < w,
        0 <= j2 < w,
        i1 >= 0,
        i2 >= 0,
        i1 * w + j1 == i2 * w + j2,
    ensures
        i1 == i2,
        j1 == j2,
{
    assert(i1 == i2 && j1 == j2) by (nonlinear_arith)
        requires
            w >= 1,
            0 <= j1 < w,
            0 <= j2 < w,
            i1 >= 0,
            i2 >= 0,
            i1 * w + j1 == i2 * w + j2,
    ;
}

/// A freshly zeroed byte buffer of the requested length.
pub(crate) fn zero_vec(n: usize) -> (v: Vec<u8>)
    ensures
        v@.len() == n,
        forall|i: int| 0 <= i < n ==> v@[i] == 0u8,
{
    let mut v: Vec<u8> = Vec::new();
    let mut i: usize = 0;
    while i < n
        invariant
            i <= n,
            v@.len() == i,
            forall|j: int| 0 <= j < i ==> v@[j] == 0u8,
        decreases n - i,
    {
        v.push(0);
        i = i + 1;
    }
    v
}

/// Writes one pixel into a horizontally packed byte buffer: `i` is the byte
/// index, and `x % 8` selects the bit, most significant first. This is the
/// only mutating primitive of the horizontal packing.
pub fn draw(data: &mut Vec<u8>, i: usize, x: usize, color: Mono)
    requires
        i < old(data).len(),
    ensures
        final(data)@ == old(data)@.update(
            i as int,
            h_drawn_byte(old(data)@[i as int], (x % 8) as u8, color),
        ),
{
    proof {
        assert(0x80u8 >> 0u8 == 0x80u8 && 0x80u8 >> 1u8 == 0x40u8 && 0x80u8 >> 2u8 == 0x20u8
            && 0x80u8 >> 3u8 == 0x10u8 && 0x80u8 >> 4u8 == 0x08u8 && 0x80u8 >> 5u8 == 0x04u8
            && 0x80u8 >> 6u8 == 0x02u8 && 0x80u8 >> 7u8 == 0x01u8) by (bit_vector);
        assert(!0x80u8 == 0x7fu8 && !0x40u8 == 0xbfu8 && !0x20u8 == 0xdfu8 && !0x10u8 == 0xefu8
            && !0x08u8 == 0xf7u8 && !0x04u8 == 0xfbu8 && !0x02u8 == 0xfdu8 && !0x01u8
            == 0xfeu8) by (bit_vector);
    }
    match color {
        Mono::One => {
            data[i] = data[i] | match x % 8 {
                0 => 0b_1000_0000,
                1 => 0b_0100_0000,
                2 => 0b_0010_0000,
                3 => 0b_0001_0000,
                4 => 0b_0000_1000,
                5 => 0b_0000_0100,
                6 => 0b_0000_0010,
                7 => 0b_0000_0001,
                _ => 0,
            };
        }
        Mono::Zero => {
            data[i] = data[i] & match x % 8 {
                0 => 0b_0111_1111,
                1 => 0b_1011_1111,
                2 => 0b_1101_1111,
                3 => 0b_1110_1111,
                4 => 0b_1111_0111,
                5 => 0b_1111_1011,
                6 => 0b_1111_1101,
                7 => 0b_1111_1110,
                _ => 0,
            };
        }
    }
}

/// Writes one pixel into a vertically packed byte buffer: `i` is the byte
/// index, and `y % 8` selects the bit, least significant first. This is the
/// only mutating primitive of the vertical packing.
pub fn draw_inverse(data: &mut Vec<u8>, i: usize, y: usize, color: Mono)
    requires
        i < old(data).len(),
    ensures
        final(data)@ == old(data)@.update(
            i as int,
            v_drawn_byte(old(data)@[i as int], (y % 8) as u8, color),
        ),
{
    proof {
        assert(1u8 << 0u8 == 0x01u8 && 1u8 << 1u8 == 0x02u8 && 1u8 << 2u8 == 0x04u8 && 1u8
            << 3u8 == 0x08u8 && 1u8 << 4u8 == 0x10u8 && 1u8 << 5u8 == 0x20u8 && 1u8 << 6u8
            == 0x40u8 && 1u8 << 7u8 == 0x80u8) by (bit_vector);
        assert(!0x01u8 == 0xfeu8 && !0x02u8 == 0xfdu8 && !0x04u8 == 0xfbu8 && !0x08u8 == 0xf7u8
            && !0x10u8 == 0xefu8 && !0x20u8 == 0xdfu8 && !0x40u8 == 0xbfu8 && !0x80u8
            == 0x7fu8) by (bit_vector);
    }
    match color {
        Mono::One => {
            data[i] = data[i] | match y % 8 {
                0 => 0b_0000_0001,
                1 => 0b_0000_0010,
                2 => 0b_0000_0100,
                3 => 0b_0000_1000,
                4 => 0b_0001_0000,
                5 => 0b_0010_0000,
                6 => 0b_0100_0000,
                7 => 0b_1000_0000,
                _ => 0,
            };
        }
        Mono::Zero => {
            data[i] = data[i] & match y % 8 {
                0 => 0b_1111_1110,
                1 => 0b_1111_1101,
                2 => 0b_1111_1011,
                3 => 0b_1111_0111,
                4 => 0b_1110_1111,
                5 => 0b_1101_1111,
                6 => 0b_1011_1111,
                7 => 0b_0111_1111,
                _ => 0,
            };
        }
    }
}

} // verus!
