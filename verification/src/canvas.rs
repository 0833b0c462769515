//! The framebuffer: `WIDTH * HEIGHT` pixels in row-major order, three bytes
//! per pixel, no padding.  Everything that draws is specified by [`paint`]:
//! the bytes of the pixels in a region take the ink, all other bytes stay.

use vstd::prelude::*;

verus! {

/// Number of pixel columns.
pub const WIDTH: usize = 1920;

/// Number of pixel rows.
pub const HEIGHT: usize = 1000;

/// Bytes per pixel, one for each colour channel.
pub const CHANNELS: usize = 3;

/// Length of the framebuffer in bytes: `WIDTH * HEIGHT * CHANNELS`.
pub const BUFFER_LEN: usize = 5760000;

/// Whether `(x, y)` names a pixel of the canvas.
pub open spec fn in_canvas(x: int, y: int) -> bool {
    0 <= x < WIDTH && 0 <= y < HEIGHT
}

/// Index of the first byte of pixel `(x, y)`.
pub open spec fn offset(x: int, y: int) -> int {
    (y * WIDTH + x) * CHANNELS
}

/// Column of the pixel that byte `i` belongs to.
pub open spec fn pixel_x(i: int) -> int {
    (i / (CHANNELS as int)) % (WIDTH as int)
}

/// Row of the pixel that byte `i` belongs to.
pub open spec fn pixel_y(i: int) -> int {
    (i / (CHANNELS as int)) / (WIDTH as int)
}

/// Colour channel that byte `i` holds.
pub open spec fn channel(i: int) -> int {
    i % (CHANNELS as int)
}

/// The buffer `before` after every pixel of `region` has been set to `ink`.
/// Bytes of pixels outside the region are those of `before`.
pub open spec fn paint(before: Seq<u8>, region: spec_fn(int, int) -> bool, ink: Seq<u8>) -> Seq<u8> {
    Seq::new(
        before.len(),
        |i: int|
            if region(pixel_x(i), pixel_y(i)) {
                ink[channel(i)]
            } else {
                before[i]
            },
    )
}

/// The three bytes of pixel `(x, y)` in `buffer`.
pub open spec fn pixel(buffer: Seq<u8>, x: int, y: int) -> Seq<u8> {
    buffer.subrange(offset(x, y), offset(x, y) + CHANNELS)
}

/// The framebuffer holds `CHANNELS` bytes for each pixel of the canvas.
pub proof fn lemma_buffer_len()
    ensures
        BUFFER_LEN == WIDTH * HEIGHT * CHANNELS,
{
}

/// Each byte of a pixel of the canvas lies in the buffer, and leads back to
/// that pixel and channel.
pub proof fn lemma_offset_pixel(x: int, y: int, c: int)
    requires
        in_canvas(x, y),
        0 <= c < CHANNELS,
    ensures
        0 <= offset(x, y) + c < BUFFER_LEN,
        pixel_x(offset(x, y) + c) == x,
        pixel_y(offset(x, y) + c) == y,
        channel(offset(x, y) + c) == c,
{
}

/// Each byte of the buffer belongs to exactly one pixel of the canvas.
pub proof fn lemma_pixel_offset(i: int)
    requires
        0 <= i < BUFFER_LEN,
    ensures
        in_canvas(pixel_x(i), pixel_y(i)),
        0 <= channel(i) < CHANNELS,
        i == offset(pixel_x(i), pixel_y(i)) + channel(i),
{
}

/// Two regions that agree on the canvas paint alike.
pub proof fn lemma_paint_same(
    before: Seq<u8>,
    first: spec_fn(int, int) -> bool,
    second: spec_fn(int, int) -> bool,
    ink: Seq<u8>,
)
    requires
        before.len() == BUFFER_LEN,
        forall|px: int, py: int| in_canvas(px, py) ==> #[trigger] first(px, py) == #[trigger] second(px, py),
    ensures
        paint(before, first, ink) == paint(before, second, ink),
{
    assert forall|i: int| 0 <= i < before.len() implies paint(before, first, ink)[i] == paint(
        before,
        second,
        ink,
    )[i] by {
        lemma_pixel_offset(i);
    }
    assert(paint(before, first, ink) =~= paint(before, second, ink));
}

/// Painting `first` and then `second` with one ink paints their union.
pub proof fn lemma_paint_then(
    before: Seq<u8>,
    first: spec_fn(int, int) -> bool,
    second: spec_fn(int, int) -> bool,
    both: spec_fn(int, int) -> bool,
    ink: Seq<u8>,
)
    requires
        before.len() == BUFFER_LEN,
        forall|px: int, py: int|
            in_canvas(px, py) ==> #[trigger] both(px, py) == (first(px, py) || second(px, py)),
    ensures
        paint(paint(before, first, ink), second, ink) == paint(before, both, ink),
{
    let mid = paint(before, first, ink);
    assert forall|i: int| 0 <= i < before.len() implies paint(mid, second, ink)[i] == paint(
        before,
        both,
        ink,
    )[i] by {
        lemma_pixel_offset(i);
    }
    assert(paint(mid, second, ink) =~= paint(before, both, ink));
}

/// Sets pixel `(x, y)` to `color`.
pub fn put_pixel(data: &mut [u8], x: usize, y: usize, color: &[u8; 3])
    requires
        old(data)@.len() == BUFFER_LEN,
        x < WIDTH,
        y < HEIGHT,
    ensures
        final(data)@ == paint(old(data)@, |px: int, py: int| px == x && py == y, color@),
{
    let index: usize = (y * WIDTH + x) * CHANNELS;
    data[index] = color[0];
    data[index + 1] = color[1];
    data[index + 2] = color[2];
    proof {
        let region = |px: int, py: int| px == x && py == y;
        assert forall|i: int| 0 <= i < BUFFER_LEN implies data@[i] == paint(
            old(data)@,
            region,
            color@,
        )[i] by {
            lemma_pixel_offset(i);
        }
        assert(data@ =~= paint(old(data)@, region, color@));
    }
}

/// Sets the pixels of row `y` from column `x0` to column `x1`, both included,
/// to `color`.  Nothing is painted where `x0 > x1`.
pub fn fill_span(data: &mut [u8], y: usize, x0: usize, x1: usize, color: &[u8; 3])
    requires
        old(data)@.len() == BUFFER_LEN,
        y < HEIGHT,
        x1 < WIDTH,
    ensures
        final(data)@ == paint(old(data)@, |px: int, py: int| py == y && x0 <= px <= x1, color@),
{
    let mut x: usize = x0;
    while x <= x1
        invariant
            data@.len() == BUFFER_LEN,
            y < HEIGHT,
            x1 < WIDTH,
            x0 <= x,
            x == x0 || x <= x1 + 1,
            data@ == paint(old(data)@, |px: int, py: int| py == y && x0 <= px < x, color@),
        decreases x1 + 1 - x,
    {
        put_pixel(data, x, y, color);
        x += 1;
    }
    assert(data@ =~= paint(old(data)@, |px: int, py: int| py == y && x0 <= px <= x1, color@));
}

} // verus!
