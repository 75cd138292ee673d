//! The driver's wire model: for every operation, the exact sequence of
//! command/data transactions it issues, as spec functions over the
//! transport's ghost log, together with the lemmas that tie partial failures
//! to prefixes of those sequences.
use crate::geometry::contained_in;
use crate::geometry::Pixel;
use crate::geometry::Point;
use crate::geometry::Rectangle;
use crate::transport::TxRec;
use vstd::prelude::*;

verus! {

/// The two big-endian bytes of a 16-bit word, high byte first.
pub open spec fn be_bytes(w: u16) -> Seq<u8> {
    seq![(w >> 8) as u8, (w & 0xff) as u8]
}

/// A sequence of 16-bit words flattened to bytes, each big-endian.
pub open spec fn be_words(words: Seq<u16>) -> Seq<u8>
    decreases words.len(),
{
    if words.len() == 0 {
        Seq::empty()
    } else {
        be_words(words.drop_last()) + be_bytes(words.last())
    }
}

/// `n` copies of one color.
pub open spec fn repeated(color: u16, n: nat) -> Seq<u16> {
    Seq::new(n, |i: int| color)
}

/// What one transmission issues: the opcode alone on the command channel,
/// then the argument bytes — possibly none — on the data channel.
pub open spec fn command_records(op: u8, args: Seq<u8>) -> Seq<TxRec> {
    seq![TxRec::Command(seq![op]), TxRec::Data(args)]
}

/// What programming the inclusive address window (x0,y0)..(x1,y1) issues:
/// the column range then the row range, each as four big-endian bytes.
pub open spec fn window_records(x0: u16, y0: u16, x1: u16, y1: u16) -> Seq<TxRec> {
    command_records(0x2a, be_bytes(x0) + be_bytes(x1)) + command_records(
        0x2b,
        be_bytes(y0) + be_bytes(y1),
    )
}

/// What streaming `colors` into the current window issues: the memory-write
/// opcode with no arguments, then every color as a big-endian 16-bit word in
/// a single data transfer.
pub open spec fn write_records(colors: Seq<u16>) -> Seq<TxRec> {
    command_records(0x2c, Seq::empty()).push(TxRec::Data(be_words(colors)))
}

/// What the fundamental "set window, then stream" operation issues.
pub open spec fn draw_raw_records(x0: u16, y0: u16, x1: u16, y1: u16, colors: Seq<u16>) -> Seq<
    TxRec,
> {
    window_records(x0, y0, x1, y1) + write_records(colors)
}

/// What drawing one pixel issues: a 1x1 window at the point, then a
/// single-color stream.
pub open spec fn pixel_records(x: u16, y: u16, color: u16) -> Seq<TxRec> {
    draw_raw_records(x, y, x, y, seq![color])
}

/// Whether the point lies on a panel `width` columns by `height` rows.
pub open spec fn in_bounds(p: Point, width: int, height: int) -> bool {
    0 <= p.x < width && 0 <= p.y < height
}

/// What per-pixel drawing issues: for each in-bounds pixel, in order, a 1x1
/// window and a single-color stream; nothing for a clipped pixel.
pub open spec fn draw_pixels_records(pixels: Seq<Pixel>, width: int, height: int) -> Seq<TxRec>
    decreases pixels.len(),
{
    if pixels.len() == 0 {
        Seq::empty()
    } else {
        let p = pixels.last();
        draw_pixels_records(pixels.drop_last(), width, height) + (if in_bounds(
            p.point,
            width,
            height,
        ) {
            pixel_records(p.point.x as u16, p.point.y as u16, p.color)
        } else {
            Seq::empty()
        })
    }
}

/// The colors that survive clipping `area` to `inter`, when `colors` pairs
/// with `area`'s points in row-major order (left-to-right, then
/// top-to-bottom): for each of `inter`'s rows, from top to bottom, the
/// contiguous run of colors whose points lie in that row's overlap.
/// Meaningful when `inter` lies within `area` and `colors` holds one color
/// per point of `area`.
pub open spec fn clipped_colors(colors: Seq<u16>, area: Rectangle, inter: Rectangle) -> Seq<u16>
    decreases inter.height,
{
    if inter.height == 0 {
        Seq::empty()
    } else {
        let above = Rectangle {
            x: inter.x,
            y: inter.y,
            width: inter.width,
            height: (inter.height - 1) as u32,
        };
        let y = inter.y + inter.height - 1;
        let row_start = (y - area.y) * area.width + (inter.x - area.x);
        clipped_colors(colors, area, above) + colors.subrange(row_start, row_start + inter.width)
    }
}

/// What an area fill issues: nothing when the rectangle misses `bounds`
/// entirely; the rectangle's own window and every color, unfiltered, when it
/// lies fully inside; the intersection's window and the clipped colors when
/// it straddles the boundary.
pub open spec fn fill_records(area: Rectangle, colors: Seq<u16>, bounds: Rectangle) -> Seq<TxRec> {
    let inter = area.spec_intersection(bounds);
    if inter.is_empty() {
        Seq::empty()
    } else if inter == area {
        draw_raw_records(
            area.x as u16,
            area.y as u16,
            (area.right() - 1) as u16,
            (area.bottom() - 1) as u16,
            colors,
        )
    } else {
        draw_raw_records(
            inter.x as u16,
            inter.y as u16,
            (inter.right() - 1) as u16,
            (inter.bottom() - 1) as u16,
            clipped_colors(colors, area, inter),
        )
    }
}

/// The positive-polarity gamma table: a fixed vendor-tuned curve.
pub open spec fn gamma_pos_args() -> Seq<u8> {
    seq![
        0x00u8,
        0x0c,
        0x11,
        0x04,
        0x11,
        0x08,
        0x37,
        0x89,
        0x4c,
        0x06,
        0x0c,
        0x0a,
        0x2e,
        0x34,
        0x0f,
    ]
}

/// The negative-polarity gamma table: a fixed vendor-tuned curve.
pub open spec fn gamma_neg_args() -> Seq<u8> {
    seq![
        0x00u8,
        0x0b,
        0x11,
        0x05,
        0x13,
        0x09,
        0x33,
        0x67,
        0x48,
        0x07,
        0x0e,
        0x0b,
        0x2e,
        0x33,
        0x0f,
    ]
}

/// The full power-up sequence, in the one order the panel accepts: software
/// reset, vendor-extension unlock, the two power-control registers, the
/// RGB-interface and interface-control registers, memory-access control set
/// to the chosen orientation byte, RGB565 pixel format, display-function
/// control, both gamma curves, sleep off, display on, and the color
/// inversion this panel's native pixel polarity requires.
pub open spec fn init_records(mode_byte: u8) -> Seq<TxRec> {
    command_records(0x01, Seq::empty()) + command_records(0xc8, seq![0xffu8, 0x93, 0x42])
        + command_records(0xc0, seq![0x12u8, 0x12]) + command_records(0xc1, seq![0x03u8])
        + command_records(0xb0, seq![0xe0u8]) + command_records(0xf6, seq![0x00u8, 0x01, 0x01])
        + command_records(0x36, seq![mode_byte]) + command_records(0x3a, seq![0x55u8])
        + command_records(0xb6, seq![0x08u8, 0x82, 0x27]) + command_records(0xe0, gamma_pos_args())
        + command_records(0xe1, gamma_neg_args()) + command_records(0x11, Seq::empty())
        + command_records(0x29, Seq::empty()) + command_records(0x21, Seq::empty())
}

/// The three settling delays of the power-up sequence, in order: after the
/// software reset, after sleep off, and before any further command.
pub open spec fn init_delays() -> Seq<u16> {
    seq![10u16, 120u16, 5u16]
}

/// Holds when `log` extends `base` by a strict prefix of `full`: the shape
/// the transport log takes when an operation fails partway through.
pub open spec fn advanced_by_prefix(base: Seq<TxRec>, log: Seq<TxRec>, full: Seq<TxRec>) -> bool {
    exists|i: int| 0 <= i < full.len() && log == base + full.take(i)
}

/// A log that stopped inside `first` also stopped inside any `full` that
/// begins with `first`.
pub proof fn lemma_prefix_widen(base: Seq<TxRec>, log: Seq<TxRec>, first: Seq<TxRec>, full: Seq<
    TxRec,
>)
    requires
        advanced_by_prefix(base, log, first),
        first.len() <= full.len(),
        full.take(first.len() as int) == first,
    ensures
        advanced_by_prefix(base, log, full),
{
    let i = choose|i: int| 0 <= i < first.len() && log == base + first.take(i);
    assert(full.take(i) =~= first.take(i)) by {
        assert forall|j: int| 0 <= j < i implies full.take(i)[j] == first.take(i)[j] by {
            assert(full.take(first.len() as int)[j] == first[j]);
        }
    }
    assert(log == base + full.take(i));
}

/// After `done` went out whole and the failing rest got a prefix of `mid`
/// out, the whole extension is a prefix of any `full` that begins with
/// `done + mid`.
pub proof fn lemma_prefix_through(
    base: Seq<TxRec>,
    log: Seq<TxRec>,
    done: Seq<TxRec>,
    mid: Seq<TxRec>,
    full: Seq<TxRec>,
)
    requires
        advanced_by_prefix(base + done, log, mid),
        done.len() + mid.len() <= full.len(),
        full.take((done.len() + mid.len()) as int) == done + mid,
    ensures
        advanced_by_prefix(base, log, full),
{
    let i = choose|i: int| 0 <= i < mid.len() && log == (base + done) + mid.take(i);
    let n = done.len() + i;
    assert(full.take(n) =~= done + mid.take(i)) by {
        assert forall|j: int| 0 <= j < n implies full.take(n)[j] == (done + mid.take(i))[j] by {
            assert(full.take((done.len() + mid.len()) as int)[j] == (done + mid)[j]);
        }
    }
    assert(log =~= base + full.take(n));
    assert(0 <= n < full.len());
}

/// One in-bounds pixel: per-pixel draw issues exactly one window program at
/// the point followed by one single-color stream.
pub proof fn lemma_draw_single_in_bounds(p: Pixel, width: int, height: int)
    requires
        in_bounds(p.point, width, height),
    ensures
        draw_pixels_records(seq![p], width, height) == pixel_records(
            p.point.x as u16,
            p.point.y as u16,
            p.color,
        ),
{
    assert(seq![p].drop_last() =~= Seq::<Pixel>::empty());
    assert(seq![p].last() == p);
    assert(draw_pixels_records(Seq::<Pixel>::empty(), width, height) == Seq::<TxRec>::empty());
    assert(draw_pixels_records(seq![p], width, height) =~~= pixel_records(
        p.point.x as u16,
        p.point.y as u16,
        p.color,
    ));
}

/// One out-of-bounds pixel: per-pixel draw issues nothing at all.
pub proof fn lemma_draw_single_out_of_bounds(p: Pixel, width: int, height: int)
    requires
        !in_bounds(p.point, width, height),
    ensures
        draw_pixels_records(seq![p], width, height) == Seq::<TxRec>::empty(),
{
    assert(seq![p].drop_last() =~= Seq::<Pixel>::empty());
    assert(seq![p].last() == p);
    assert(draw_pixels_records(Seq::<Pixel>::empty(), width, height) == Seq::<TxRec>::empty());
    assert(draw_pixels_records(seq![p], width, height) =~~= Seq::<TxRec>::empty());
}

/// The records of a prefix of the pixel list are a prefix of the records of
/// the whole list.
pub proof fn lemma_draw_records_prefix(pixels: Seq<Pixel>, j: int, width: int, height: int)
    requires
        0 <= j <= pixels.len(),
    ensures
        ({
            let part = draw_pixels_records(pixels.take(j), width, height);
            let full = draw_pixels_records(pixels, width, height);
            part.len() <= full.len() && full.take(part.len() as int) == part
        }),
    decreases pixels.len() - j,
{
    let part = draw_pixels_records(pixels.take(j), width, height);
    let full = draw_pixels_records(pixels, width, height);
    if j == pixels.len() {
        assert(pixels.take(j) =~= pixels);
        assert(full.take(part.len() as int) =~= part);
    } else {
        lemma_draw_records_prefix(pixels, j + 1, width, height);
        let next = draw_pixels_records(pixels.take(j + 1), width, height);
        assert(pixels.take(j + 1).drop_last() =~= pixels.take(j));
        assert(pixels.take(j + 1).last() == pixels[j]);
        assert(full.take(part.len() as int) =~= part) by {
            assert forall|i: int| 0 <= i < part.len() implies full.take(part.len() as int)[i]
                == part[i] by {
                assert(full.take(next.len() as int)[i] == next[i]);
            }
        }
    }
}

/// The byte stream of a color sequence holds exactly two bytes per color.
pub proof fn lemma_be_words_len(words: Seq<u16>)
    ensures
        be_words(words).len() == 2 * words.len(),
    decreases words.len(),
{
    if words.len() > 0 {
        lemma_be_words_len(words.drop_last());
    }
}

/// A fill over a rectangle that lies fully inside the bounds streams all
/// its colors, unfiltered, against a window equal to the rectangle itself.
pub proof fn lemma_fill_inside(area: Rectangle, colors: Seq<u16>, bounds: Rectangle)
    requires
        area.spec_intersection(bounds) == area,
        !area.is_empty(),
    ensures
        fill_records(area, colors, bounds) == draw_raw_records(
            area.x as u16,
            area.y as u16,
            (area.right() - 1) as u16,
            (area.bottom() - 1) as u16,
            colors,
        ),
{
}

/// A fill over a rectangle that misses the bounds issues nothing.
pub proof fn lemma_fill_outside(area: Rectangle, colors: Seq<u16>, bounds: Rectangle)
    requires
        area.spec_intersection(bounds).is_empty(),
    ensures
        fill_records(area, colors, bounds) == Seq::<TxRec>::empty(),
{
}

/// A fill over a rectangle that straddles the bounds streams exactly one
/// color per intersection point — those paired with in-bounds points —
/// against a window equal to the intersection.
pub proof fn lemma_fill_straddling(area: Rectangle, colors: Seq<u16>, bounds: Rectangle)
    requires
        colors.len() == area.point_count(),
        !area.spec_intersection(bounds).is_empty(),
        area.spec_intersection(bounds) != area,
    ensures
        ({
            let inter = area.spec_intersection(bounds);
            fill_records(area, colors, bounds) == draw_raw_records(
                inter.x as u16,
                inter.y as u16,
                (inter.right() - 1) as u16,
                (inter.bottom() - 1) as u16,
                clipped_colors(colors, area, inter),
            ) && clipped_colors(colors, area, inter).len() == inter.point_count()
        }),
{
    let inter = area.spec_intersection(bounds);
    crate::geometry::lemma_intersection_contained(area, bounds);
    lemma_clipped_colors_len(colors, area, inter);
}

/// The row of colors taken for row `y` of the intersection lies inside the
/// color sequence.
pub proof fn lemma_row_in_range(colors: Seq<u16>, area: Rectangle, inter: Rectangle, y: int)
    requires
        colors.len() == area.point_count(),
        contained_in(inter, area),
        inter.y <= y < inter.bottom(),
    ensures
        0 <= (y - area.y) * area.width + (inter.x - area.x),
        (y - area.y) * area.width + (inter.x - area.x) + inter.width <= colors.len(),
{
    let dy = y - area.y;
    let aw = area.width as int;
    let ah = area.height as int;
    assert(0 <= dy * aw) by (nonlinear_arith)
        requires
            dy >= 0,
            aw >= 0,
    ;
    assert(dy * aw + aw <= ah * aw) by (nonlinear_arith)
        requires
            dy + 1 <= ah,
            aw >= 0,
    ;
    assert(colors.len() == aw * ah) by (nonlinear_arith)
        requires
            colors.len() == area.width * area.height,
            aw == area.width,
            ah == area.height,
    ;
    assert(ah * aw == aw * ah) by (nonlinear_arith);
}

/// Clipping keeps exactly one color for each point of the intersection.
pub proof fn lemma_clipped_colors_len(colors: Seq<u16>, area: Rectangle, inter: Rectangle)
    requires
        colors.len() == area.point_count(),
        contained_in(inter, area),
    ensures
        clipped_colors(colors, area, inter).len() == inter.point_count(),
    decreases inter.height,
{
    let iw = inter.width as int;
    let ih = inter.height as int;
    if inter.height == 0 {
        assert(inter.point_count() == 0) by (nonlinear_arith)
            requires
                inter.point_count() == inter.width * inter.height,
                inter.height == 0,
        ;
    } else {
        let above = Rectangle {
            x: inter.x,
            y: inter.y,
            width: inter.width,
            height: (inter.height - 1) as u32,
        };
        let y = inter.y + inter.height - 1;
        lemma_clipped_colors_len(colors, area, above);
        lemma_row_in_range(colors, area, inter, y);
        assert(iw * (ih - 1) + iw == iw * ih) by (nonlinear_arith);
        assert(above.point_count() == iw * (ih - 1)) by (nonlinear_arith)
            requires
                above.point_count() == above.width * above.height,
                above.width == iw,
                above.height == ih - 1,
        ;
        assert(inter.point_count() == iw * ih) by (nonlinear_arith)
            requires
                inter.point_count() == inter.width * inter.height,
                inter.width == iw,
                inter.height == ih,
        ;
    }
}

} // verus!
