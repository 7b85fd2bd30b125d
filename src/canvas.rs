//! The pixel buffer: a row-major RGBA8 byte sequence whose rows are `width`
//! pixels (`width * 4` bytes) long, with the origin at the top left.
use vstd::prelude::*;

verus! {

/// An RGBA color with 8-bit channels, in the order red, green, blue, alpha.
pub type Color = (u8, u8, u8, u8);

/// A pixel position `(x, y)`.
pub type Pos2 = (usize, usize);

/// Channel `c` of a color: 0 red, 1 green, 2 blue, 3 alpha.
pub open spec fn channel(color: Color, c: int) -> u8 {
    if c == 0 {
        color.0
    } else if c == 1 {
        color.1
    } else if c == 2 {
        color.2
    } else {
        color.3
    }
}

/// Byte offset of pixel `(x, y)` in a buffer whose rows are `width` pixels long.
pub open spec fn pixel_offset(width: int, x: int, y: int) -> int {
    (y * width + x) * 4
}

/// Pixel `(x, y)` lies inside a buffer of `len` bytes with rows `width` pixels long.
pub open spec fn has_pixel(len: int, width: int, x: int, y: int) -> bool {
    0 <= x < width && 0 <= y && pixel_offset(width, x, y) + 4 <= len
}

/// The four bytes of pixel `(x, y)` in `canvas`, as a color.
pub open spec fn pixel_at(canvas: Seq<u8>, width: int, x: int, y: int) -> Color {
    let o = pixel_offset(width, x, y);
    (canvas[o], canvas[o + 1], canvas[o + 2], canvas[o + 3])
}

/// `new` is `old` with every pixel on which `covers` holds overwritten by `color`,
/// and every other pixel left as it was.
pub open spec fn repainted(
    old: Seq<u8>,
    new: Seq<u8>,
    width: int,
    color: Color,
    covers: spec_fn(int, int) -> bool,
) -> bool {
    &&& new.len() == old.len()
    &&& forall|x: int, y: int, c: int|
        #![trigger new[pixel_offset(width, x, y) + c]]
        has_pixel(old.len() as int, width, x, y) && 0 <= c < 4 ==> new[pixel_offset(width, x, y) + c]
            == if covers(x, y) {
            channel(color, c)
        } else {
            old[pixel_offset(width, x, y) + c]
        }
}

/// `new` is `old` with every pixel on which `covers` holds overwritten by the
/// color `paint` gives for it, and every other pixel left as it was.
pub open spec fn overwritten(
    old: Seq<u8>,
    new: Seq<u8>,
    width: int,
    covers: spec_fn(int, int) -> bool,
    paint: spec_fn(int, int) -> Color,
) -> bool {
    &&& new.len() == old.len()
    &&& forall|x: int, y: int, c: int|
        #![trigger new[pixel_offset(width, x, y) + c]]
        has_pixel(old.len() as int, width, x, y) && 0 <= c < 4 ==> new[pixel_offset(width, x, y) + c]
            == if covers(x, y) {
            channel(paint(x, y), c)
        } else {
            old[pixel_offset(width, x, y) + c]
        }
}

/// Overwriting one more pixel with the color `paint` gives for it extends an
/// overwrite by that pixel.
pub proof fn lemma_overwritten_step(
    start: Seq<u8>,
    a: Seq<u8>,
    b: Seq<u8>,
    width: int,
    covers: spec_fn(int, int) -> bool,
    paint: spec_fn(int, int) -> Color,
    x: int,
    y: int,
    union: spec_fn(int, int) -> bool,
)
    requires
        overwritten(start, a, width, covers, paint),
        repainted(a, b, width, paint(x, y), |px: int, py: int| px == x && py == y),
        forall|px: int, py: int| #[trigger] union(px, py) == (covers(px, py) || (px == x && py == y)),
    ensures
        overwritten(start, b, width, union, paint),
{
    assert forall|px: int, py: int, k: int|
        has_pixel(start.len() as int, width, px, py) && 0 <= k < 4 implies #[trigger] b[pixel_offset(
        width,
        px,
        py,
    ) + k] == if union(px, py) {
        channel(paint(px, py), k)
    } else {
        start[pixel_offset(width, px, py) + k]
    } by {
        assert(a[pixel_offset(width, px, py) + k] == if covers(px, py) {
            channel(paint(px, py), k)
        } else {
            start[pixel_offset(width, px, py) + k]
        });
    }
}

/// Overwriting twice: a pixel the second overwrite covers takes its color from
/// the second, any other covered pixel from the first.
pub proof fn lemma_overwritten_then(
    a: Seq<u8>,
    b: Seq<u8>,
    c: Seq<u8>,
    width: int,
    covers: spec_fn(int, int) -> bool,
    paint: spec_fn(int, int) -> Color,
    more: spec_fn(int, int) -> bool,
    more_paint: spec_fn(int, int) -> Color,
)
    requires
        overwritten(a, b, width, covers, paint),
        overwritten(b, c, width, more, more_paint),
    ensures
        overwritten(
            a,
            c,
            width,
            |x: int, y: int| covers(x, y) || more(x, y),
            |x: int, y: int|
                if more(x, y) {
                    more_paint(x, y)
                } else {
                    paint(x, y)
                },
        ),
{
    assert forall|x: int, y: int, k: int|
        has_pixel(a.len() as int, width, x, y) && 0 <= k < 4 implies #[trigger] c[pixel_offset(
        width,
        x,
        y,
    ) + k] == if covers(x, y) || more(x, y) {
        channel(
            if more(x, y) {
                more_paint(x, y)
            } else {
                paint(x, y)
            },
            k,
        )
    } else {
        a[pixel_offset(width, x, y) + k]
    } by {
        assert(b[pixel_offset(width, x, y) + k] == if covers(x, y) {
            channel(paint(x, y), k)
        } else {
            a[pixel_offset(width, x, y) + k]
        });
    }
}

/// An overwrite is the same overwrite under any predicate that agrees with its own
/// on the pixels of the buffer.
pub proof fn lemma_overwritten_same(
    a: Seq<u8>,
    b: Seq<u8>,
    width: int,
    covers: spec_fn(int, int) -> bool,
    same: spec_fn(int, int) -> bool,
    paint: spec_fn(int, int) -> Color,
)
    requires
        overwritten(a, b, width, covers, paint),
        forall|x: int, y: int|
            has_pixel(a.len() as int, width, x, y) ==> #[trigger] same(x, y) == covers(x, y),
    ensures
        overwritten(a, b, width, same, paint),
{
}

/// Two distinct pixel bytes of a buffer never share an offset.
pub proof fn lemma_offsets_distinct(width: int, x1: int, y1: int, c1: int, x2: int, y2: int, c2: int)
    requires
        0 <= x1 < width,
        0 <= x2 < width,
        0 <= y1,
        0 <= y2,
        0 <= c1 < 4,
        0 <= c2 < 4,
        x1 != x2 || y1 != y2 || c1 != c2,
    ensures
        pixel_offset(width, x1, y1) + c1 != pixel_offset(width, x2, y2) + c2,
{
    if y1 < y2 {
        assert(y1 * width + width <= y2 * width) by (nonlinear_arith)
            requires
                y1 < y2,
                0 <= width,
        ;
    } else if y2 < y1 {
        assert(y2 * width + width <= y1 * width) by (nonlinear_arith)
            requires
                y2 < y1,
                0 <= width,
        ;
    }
}

/// A pixel in an earlier row, or further left in the same row, lies inside the
/// buffer whenever `(x, y)` does.
pub proof fn lemma_has_pixel_before(len: int, width: int, x: int, y: int, x2: int, y2: int)
    requires
        has_pixel(len, width, x, y),
        0 <= x2 < width,
        0 <= y2,
        y2 < y || (y2 == y && x2 <= x),
    ensures
        has_pixel(len, width, x2, y2),
{
    if y2 < y {
        assert(y2 * width + width <= y * width) by (nonlinear_arith)
            requires
                y2 < y,
                0 <= width,
        ;
    }
}

/// Every pixel of the rows above row `rows` lies inside a buffer that holds
/// `rows` full rows.
pub proof fn lemma_has_pixel_in_rows(len: int, width: int, rows: int, x: int, y: int)
    requires
        rows * width * 4 <= len,
        0 <= x < width,
        0 <= y < rows,
    ensures
        has_pixel(len, width, x, y),
{
    assert(y * width + width <= rows * width) by (nonlinear_arith)
        requires
            y < rows,
            0 <= width,
    ;
    assert(rows * width * 4 == (rows * width) * 4) by (nonlinear_arith);
}

/// Painting with `covers` and then with `more` paints the union of the two.
pub proof fn lemma_repainted_then(
    a: Seq<u8>,
    b: Seq<u8>,
    c: Seq<u8>,
    width: int,
    color: Color,
    covers: spec_fn(int, int) -> bool,
    more: spec_fn(int, int) -> bool,
    union: spec_fn(int, int) -> bool,
)
    requires
        repainted(a, b, width, color, covers),
        repainted(b, c, width, color, more),
        forall|x: int, y: int| #[trigger] union(x, y) == (covers(x, y) || more(x, y)),
    ensures
        repainted(a, c, width, color, union),
{
    assert forall|x: int, y: int, k: int|
        has_pixel(a.len() as int, width, x, y) && 0 <= k < 4 implies #[trigger] c[pixel_offset(
        width,
        x,
        y,
    ) + k] == if union(x, y) {
        channel(color, k)
    } else {
        a[pixel_offset(width, x, y) + k]
    } by {
        assert(b[pixel_offset(width, x, y) + k] == if covers(x, y) {
            channel(color, k)
        } else {
            a[pixel_offset(width, x, y) + k]
        });
    }
}

/// A repainting is the same repainting under any predicate that agrees with its own.
pub proof fn lemma_repainted_same(
    a: Seq<u8>,
    b: Seq<u8>,
    width: int,
    color: Color,
    covers: spec_fn(int, int) -> bool,
    same: spec_fn(int, int) -> bool,
)
    requires
        repainted(a, b, width, color, covers),
        forall|x: int, y: int| #[trigger] same(x, y) == covers(x, y),
    ensures
        repainted(a, b, width, color, same),
{
}

/// A buffer is overwritten over nothing by leaving it as it is.
pub proof fn lemma_overwritten_nothing(
    a: Seq<u8>,
    width: int,
    covers: spec_fn(int, int) -> bool,
    paint: spec_fn(int, int) -> Color,
)
    requires
        forall|x: int, y: int| has_pixel(a.len() as int, width, x, y) ==> !#[trigger] covers(x, y),
    ensures
        overwritten(a, a, width, covers, paint),
{
}

/// A buffer is repainted over nothing by leaving it as it is.
pub proof fn lemma_repainted_nothing(a: Seq<u8>, width: int, color: Color, covers: spec_fn(int, int) -> bool)
    requires
        forall|x: int, y: int| !#[trigger] covers(x, y),
    ensures
        repainted(a, a, width, color, covers),
{
}

/// Whether pixel `(x, y)` lies inside a buffer of `len` bytes with rows `width`
/// pixels long.
pub fn pixel_in(len: usize, width: usize, x: usize, y: usize) -> (r: bool)
    ensures
        r == has_pixel(len as int, width as int, x as int, y as int),
{
    if x >= width {
        return false;
    }
    match y.checked_mul(width) {
        None => {
            assert(y * width <= y * width + x);
            false
        },
        Some(yw) => match yw.checked_add(x) {
            None => false,
            Some(i) => i < len / 4,
        },
    }
}

/// Whether `rows` full rows of `width` pixels fit in a buffer of `len` bytes.
pub fn rows_in(len: usize, width: usize, rows: usize) -> (r: bool)
    ensures
        r == (rows * width * 4 <= len),
{
    match rows.checked_mul(width) {
        None => {
            assert(rows * width * 4 > len) by (nonlinear_arith)
                requires
                    rows * width > usize::MAX,
                    len <= usize::MAX,
            ;
            false
        },
        Some(rw) => rw <= len / 4,
    }
}

/// A copy of the bytes of `src`.
pub fn copy_bytes(src: &Vec<u8>) -> (r: Vec<u8>)
    ensures
        r@ == src@,
{
    let mut out: Vec<u8> = Vec::with_capacity(src.len());
    let mut i: usize = 0;
    while i < src.len()
        invariant
            i <= src@.len(),
            out@ == src@.take(i as int),
        decreases src@.len() - i,
    {
        out.push(src[i]);
        i = i + 1;
        assert(out@ =~= src@.take(i as int));
    }
    assert(out@ =~= src@);
    out
}

/// Overwrites pixel `(x, y)` with `color`.
pub fn put_pixel(canvas: &mut [u8], width: usize, x: usize, y: usize, color: Color)
    requires
        has_pixel(old(canvas)@.len() as int, width as int, x as int, y as int),
    ensures
        repainted(
            old(canvas)@,
            final(canvas)@,
            width as int,
            color,
            |px: int, py: int| px == x && py == y,
        ),
{
    let n: usize = canvas.len();
    assert(y * width <= n) by (nonlinear_arith)
        requires
            (y * width + x) * 4 + 4 <= n,
    ;
    let o: usize = (y * width + x) * 4;
    canvas[o] = color.0;
    canvas[o + 1] = color.1;
    canvas[o + 2] = color.2;
    canvas[o + 3] = color.3;
    proof {
        let old_c = old(canvas)@;
        let new_c = canvas@;
        assert forall|px: int, py: int, c: int|
            has_pixel(old_c.len() as int, width as int, px, py) && 0 <= c < 4 implies #[trigger] new_c[pixel_offset(
            width as int,
            px,
            py,
        ) + c] == if px == x && py == y {
            channel(color, c)
        } else {
            old_c[pixel_offset(width as int, px, py) + c]
        } by {
            if px != x || py != y {
                lemma_offsets_distinct(width as int, px, py, c, x as int, y as int, 0);
                lemma_offsets_distinct(width as int, px, py, c, x as int, y as int, 1);
                lemma_offsets_distinct(width as int, px, py, c, x as int, y as int, 2);
                lemma_offsets_distinct(width as int, px, py, c, x as int, y as int, 3);
            }
        }
    }
}

} // verus!
