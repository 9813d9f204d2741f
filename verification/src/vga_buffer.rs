//! The framebuffer text console: 8x16 glyphs drawn into a linear
//! framebuffer, a cursor that wraps and scrolls, and the colours.
use vstd::prelude::*;
use crate::boot_info::{FrameBufferInfo, PixelFormat};
use vstd::string::StringSliceAdditionalSpecFns;

verus! {

/// Width of a glyph in pixels.
pub const GLYPH_WIDTH: usize = 8;

/// Height of a glyph in pixels.
pub const GLYPH_HEIGHT: usize = 16;

/// Size of a font: 16 rows of 8 pixels (one byte per row) for each of the
/// 256 byte values.
pub const FONT_LEN: usize = 4096;

/// The console colours.
#[derive(Debug, Clone, Copy, PartialEq, Eq, Structural)]
pub enum Color {
    Black,
    Green,
    LightGreen,
    White,
    Amber,
    Cyan,
}

/// The red, green and blue intensities of a colour.
pub open spec fn color_rgb(c: Color) -> (u8, u8, u8) {
    match c {
        Color::Black => (0, 0, 0),
        Color::Green => (0, 170, 0),
        Color::LightGreen => (85, 255, 85),
        Color::White => (255, 255, 255),
        Color::Amber => (255, 176, 0),
        Color::Cyan => (0, 255, 255),
    }
}

impl Color {
    /// The colour's red, green and blue intensities.
    pub fn rgb(self) -> (r: (u8, u8, u8))
        ensures
            r == color_rgb(self),
    {
        match self {
            Color::Black => (0, 0, 0),
            Color::Green => (0, 170, 0),
            Color::LightGreen => (85, 255, 85),
            Color::White => (255, 255, 255),
            Color::Amber => (255, 176, 0),
            Color::Cyan => (0, 255, 255),
        }
    }
}

/// A framebuffer the console can draw on: rows no wider than the stride
/// (wider rows would run into the next one), all rows within the buffer.
pub open spec fn fb_ok(info: FrameBufferInfo) -> bool {
    &&& info.width <= info.stride
    &&& info.stride * info.height * 4 <= info.byte_len
}

/// The column of the pixel that byte `o` of the framebuffer belongs to.
pub open spec fn px(info: FrameBufferInfo, o: int) -> int {
    (o / 4) % (info.stride as int)
}

/// The row of the pixel that byte `o` of the framebuffer belongs to.
pub open spec fn py(info: FrameBufferInfo, o: int) -> int {
    (o / 4) / (info.stride as int)
}

/// Whether byte `o` belongs to a visible pixel.
pub open spec fn visible(info: FrameBufferInfo, o: int) -> bool {
    px(info, o) < info.width && py(info, o) < info.height
}

/// Byte `c` (0 to 3) of a pixel of colour `rgb`: the three colour bytes in
/// the framebuffer's order, then 0.
pub open spec fn channel(fmt: PixelFormat, rgb: (u8, u8, u8), c: int) -> u8 {
    if c == 0 {
        if fmt == PixelFormat::Rgb {
            rgb.0
        } else {
            rgb.2
        }
    } else if c == 1 {
        rgb.1
    } else if c == 2 {
        if fmt == PixelFormat::Rgb {
            rgb.2
        } else {
            rgb.0
        }
    } else {
        0
    }
}

/// The framebuffer `fb` with pixel (`x`, `y`) set to `rgb` when visible.
pub open spec fn put_pixel(fb: Seq<u8>, info: FrameBufferInfo, x: int, y: int, rgb: (u8, u8, u8)) -> Seq<u8> {
    Seq::new(
        fb.len(),
        |o: int|
            if x < info.width && y < info.height && px(info, o) == x && py(info, o) == y {
                channel(info.pixel_format, rgb, o % 4)
            } else {
                fb[o]
            },
    )
}

proof fn lemma_pixel_bytes(info: FrameBufferInfo, x: int, y: int, o: int)
    requires
        fb_ok(info),
        0 <= x < info.width,
        0 <= y < info.height,
        0 <= o,
    ensures
        (px(info, o) == x && py(info, o) == y) <==> ((y * info.stride + x) * 4 <= o < (y
            * info.stride + x) * 4 + 4),
        (px(info, o) == x && py(info, o) == y) ==> o % 4 == o - (y * info.stride + x) * 4,
{
    let s = info.stride as int;
    let q = o / 4;
    let k = y * s + x;
    vstd::arithmetic::div_mod::lemma_fundamental_div_mod(q, s);
    vstd::arithmetic::div_mod::lemma_fundamental_div_mod(o, 4);
    if px(info, o) == x && py(info, o) == y {
        assert(q == s * y + x);
        assert(q == k) by (nonlinear_arith)
            requires q == s * y + x, k == y * s + x;
    }
    if k * 4 <= o < k * 4 + 4 {
        vstd::arithmetic::div_mod::lemma_fundamental_div_mod_converse(o, 4, k, o - k * 4);
        vstd::arithmetic::div_mod::lemma_fundamental_div_mod_converse(q, s, y, x);
    }
}

proof fn lemma_pixel_in_buffer(info: FrameBufferInfo, x: int, y: int)
    requires
        fb_ok(info),
        0 <= x < info.width,
        0 <= y < info.height,
    ensures
        0 <= (y * info.stride + x) * 4,
        (y * info.stride + x) * 4 + 4 <= info.byte_len,
{
    let s = info.stride as int;
    let h = info.height as int;
    assert(0 <= y * s) by (nonlinear_arith)
        requires 0 <= y, 0 <= s;
    assert(y * s + x < s * h) by (nonlinear_arith)
        requires 0 <= y < h, 0 <= x < s;
    assert(s * h * 4 <= info.byte_len);
}

/// How the console stores a colour: visible pixel (`x`, `y`) is the four
/// bytes from `(y * stride + x) * 4`, and a pixel of colour (r, g, b) is
/// stored as r, g, b, 0 on an `Rgb` framebuffer and as b, g, r, 0 on a `Bgr`
/// one, the same colour in opposite channel orders. This holds of every
/// drawing (`paint`, which glyphs and filled rectangles go through) and of a
/// single pixel written alone (`put_pixel`).
pub proof fn lemma_pixel_channel_order(
    fb: Seq<u8>,
    info: FrameBufferInfo,
    inside: spec_fn(int, int) -> bool,
    col: spec_fn(int, int) -> (u8, u8, u8),
    x: int,
    y: int,
)
    requires
        fb_ok(info),
        fb.len() == info.byte_len,
        0 <= x < info.width,
        0 <= y < info.height,
        inside(x, y),
    ensures
        ({
            let o = (y * info.stride + x) * 4;
            let (r, g, b) = col(x, y);
            let painted = paint(fb, info, inside, col).subrange(o, o + 4);
            let single = put_pixel(fb, info, x, y, col(x, y)).subrange(o, o + 4);
            &&& 0 <= o
            &&& o + 4 <= fb.len()
            &&& info.pixel_format == PixelFormat::Rgb ==> painted == seq![r, g, b, 0u8] && single
                == seq![r, g, b, 0u8]
            &&& info.pixel_format == PixelFormat::Bgr ==> painted == seq![b, g, r, 0u8] && single
                == seq![b, g, r, 0u8]
        }),
{
    let o = (y * info.stride + x) * 4;
    lemma_pixel_in_buffer(info, x, y);
    let p = paint(fb, info, inside, col);
    let q = put_pixel(fb, info, x, y, col(x, y));
    let (r, g, b) = col(x, y);
    assert forall|c: int| 0 <= c < 4 implies #[trigger] p.subrange(o, o + 4)[c] == channel(
        info.pixel_format,
        col(x, y),
        c,
    ) && q.subrange(o, o + 4)[c] == channel(info.pixel_format, col(x, y), c) by {
        lemma_pixel_bytes(info, x, y, o + c);
    }
    if info.pixel_format == PixelFormat::Rgb {
        assert(p.subrange(o, o + 4) =~= seq![r, g, b, 0u8]);
        assert(q.subrange(o, o + 4) =~= seq![r, g, b, 0u8]);
    } else {
        assert(p.subrange(o, o + 4) =~= seq![b, g, r, 0u8]);
        assert(q.subrange(o, o + 4) =~= seq![b, g, r, 0u8]);
    }
}

/// Writes one pixel of colour `rgb` at (`x`, `y`); pixels outside the
/// visible area are not drawn.
fn write_pixel(info: &FrameBufferInfo, fb: &mut [u8], x: usize, y: usize, rgb: (u8, u8, u8))
    requires
        fb_ok(*info),
        old(fb)@.len() == info.byte_len,
    ensures
        final(fb)@ == put_pixel(old(fb)@, *info, x as int, y as int, rgb),
{
    let ghost fb0 = fb@;
    if x >= info.width || y >= info.height {
        assert(fb@ =~= put_pixel(fb0, *info, x as int, y as int, rgb));
        return;
    }
    proof {
        lemma_pixel_in_buffer(*info, x as int, y as int);
    }
    let offset = (y * info.stride + x) * 4;
    let (first, second, third) = match info.pixel_format {
        PixelFormat::Rgb => (rgb.0, rgb.1, rgb.2),
        PixelFormat::Bgr => (rgb.2, rgb.1, rgb.0),
    };
    fb[offset] = first;
    fb[offset + 1] = second;
    fb[offset + 2] = third;
    fb[offset + 3] = 0;
    assert forall|o: int| 0 <= o < fb0.len() implies #[trigger] fb@[o] == put_pixel(
        fb0,
        *info,
        x as int,
        y as int,
        rgb,
    )[o] by {
        lemma_pixel_bytes(*info, x as int, y as int, o);
    }
    assert(fb@ =~= put_pixel(fb0, *info, x as int, y as int, rgb));
}


/// The framebuffer `fb` with every visible pixel (`x`, `y`) for which
/// `inside(x, y)` holds set to colour `col(x, y)`; all other bytes as in `fb`.
pub open spec fn paint(
    fb: Seq<u8>,
    info: FrameBufferInfo,
    inside: spec_fn(int, int) -> bool,
    col: spec_fn(int, int) -> (u8, u8, u8),
) -> Seq<u8> {
    Seq::new(
        fb.len(),
        |o: int|
            if visible(info, o) && inside(px(info, o), py(info, o)) {
                channel(info.pixel_format, col(px(info, o), py(info, o)), o % 4)
            } else {
                fb[o]
            },
    )
}

proof fn lemma_put_is_paint(
    fb: Seq<u8>,
    info: FrameBufferInfo,
    x: int,
    y: int,
    col: spec_fn(int, int) -> (u8, u8, u8),
)
    ensures
        put_pixel(fb, info, x, y, col(x, y)) =~= paint(fb, info, |a: int, b: int| a == x && b == y, col),
{
}

proof fn lemma_paint_twice(
    fb: Seq<u8>,
    info: FrameBufferInfo,
    a: spec_fn(int, int) -> bool,
    b: spec_fn(int, int) -> bool,
    col: spec_fn(int, int) -> (u8, u8, u8),
)
    ensures
        paint(paint(fb, info, a, col), info, b, col) =~= paint(
            fb,
            info,
            |x: int, y: int| a(x, y) || b(x, y),
            col,
        ),
{
}

/// Fills the pixels with `x0 <= x < x1` and `y0 <= y < y1` with `rgb`
/// (as far as they are visible).
fn fill_rect(
    info: &FrameBufferInfo,
    fb: &mut [u8],
    x0: usize,
    y0: usize,
    x1: usize,
    y1: usize,
    rgb: (u8, u8, u8),
)
    requires
        fb_ok(*info),
        old(fb)@.len() == info.byte_len,
        x0 <= x1,
        y0 <= y1,
    ensures
        final(fb)@ == paint(
            old(fb)@,
            *info,
            |x: int, y: int| x0 <= x < x1 && y0 <= y < y1,
            |x: int, y: int| rgb,
        ),
{
    let ghost fb0 = fb@;
    let ghost col = |x: int, y: int| rgb;
    let mut y = y0;
    assert(fb@ =~= paint(fb0, *info, |a: int, b: int| x0 <= a < x1 && y0 <= b < y, col));
    while y < y1
        invariant
            fb_ok(*info),
            fb@.len() == info.byte_len,
            fb0.len() == info.byte_len,
            y0 <= y <= y1,
            x0 <= x1,
            col == (|x: int, y: int| rgb),
            fb@ =~= paint(fb0, *info, |a: int, b: int| x0 <= a < x1 && y0 <= b < y, col),
        decreases y1 - y,
    {
        let mut x = x0;
        assert(fb@ =~= paint(
            fb0,
            *info,
            |a: int, b: int| (x0 <= a < x1 && y0 <= b < y) || (b == y && x0 <= a < x),
            col,
        ));
        while x < x1
            invariant
                fb_ok(*info),
                fb@.len() == info.byte_len,
                fb0.len() == info.byte_len,
                x0 <= x <= x1,
                y0 <= y < y1,
                col == (|x: int, y: int| rgb),
                fb@ =~= paint(
                    fb0,
                    *info,
                    |a: int, b: int| (x0 <= a < x1 && y0 <= b < y) || (b == y && x0 <= a < x),
                    col,
                ),
            decreases x1 - x,
        {
            let ghost before = fb@;
            let ghost r_old = |a: int, b: int| (x0 <= a < x1 && y0 <= b < y) || (b == y && x0 <= a < x);
            let ghost point = |a: int, b: int| a == x && b == y;
            assert(before =~= paint(fb0, *info, r_old, col));
            write_pixel(info, fb, x, y, rgb);
            proof {
                lemma_put_is_paint(before, *info, x as int, y as int, col);
                lemma_paint_twice(fb0, *info, r_old, point, col);
            }
            x += 1;
        }
        y += 1;
    }
}

/// Whether the glyph of `byte` in `font` has its pixel (`gx`, `gy`) set:
/// row `gy` is one byte, its most significant bit the leftmost pixel.
pub open spec fn glyph_bit(font: Seq<u8>, byte: u8, gx: int, gy: int) -> bool {
    font[byte * 16 + gy] & (0x80u8 >> (gx as u8)) != 0
}

/// The colours of the glyph of `byte` drawn with its top left corner at
/// (`x0`, `y0`): `fg` where the glyph has a pixel, `bg` elsewhere.
pub open spec fn glyph_colors(
    font: Seq<u8>,
    byte: u8,
    x0: int,
    y0: int,
    fg: (u8, u8, u8),
    bg: (u8, u8, u8),
) -> spec_fn(int, int) -> (u8, u8, u8) {
    |x: int, y: int|
        if glyph_bit(font, byte, x - x0, y - y0) {
            fg
        } else {
            bg
        }
}

/// The box a glyph with its top left corner at (`x0`, `y0`) covers.
pub open spec fn glyph_box(x0: int, y0: int) -> spec_fn(int, int) -> bool {
    |x: int, y: int| x0 <= x < x0 + 8 && y0 <= y < y0 + 16
}

/// Draws the glyph of `byte` from `font` with its top left corner at
/// (`x`, `y`), in `fg` on `bg` (as far as it is visible).
fn draw_glyph(
    info: &FrameBufferInfo,
    font: &[u8],
    fb: &mut [u8],
    byte: u8,
    x: usize,
    y: usize,
    fg: (u8, u8, u8),
    bg: (u8, u8, u8),
)
    requires
        fb_ok(*info),
        old(fb)@.len() == info.byte_len,
        font@.len() == FONT_LEN,
        x + 8 <= usize::MAX,
        y + 16 <= usize::MAX,
    ensures
        final(fb)@ == paint(
            old(fb)@,
            *info,
            glyph_box(x as int, y as int),
            glyph_colors(font@, byte, x as int, y as int, fg, bg),
        ),
{
    let ghost fb0 = fb@;
    let ghost col = glyph_colors(font@, byte, x as int, y as int, fg, bg);
    let glyph_offset = byte as usize * GLYPH_HEIGHT;
    let mut gy: usize = 0;
    assert(fb@ =~= paint(fb0, *info, |a: int, b: int| x <= a < x + 8 && y <= b < y + gy, col));
    while gy < GLYPH_HEIGHT
        invariant
            fb_ok(*info),
            fb@.len() == info.byte_len,
            fb0.len() == info.byte_len,
            font@.len() == FONT_LEN,
            glyph_offset == byte * 16,
            x + 8 <= usize::MAX,
            y + 16 <= usize::MAX,
            gy <= GLYPH_HEIGHT,
            col == glyph_colors(font@, byte, x as int, y as int, fg, bg),
            fb@ =~= paint(fb0, *info, |a: int, b: int| x <= a < x + 8 && y <= b < y + gy, col),
        decreases GLYPH_HEIGHT - gy,
    {
        let bits = font[glyph_offset + gy];
        let mut gx: usize = 0;
        assert(fb@ =~= paint(
            fb0,
            *info,
            |a: int, b: int| (x <= a < x + 8 && y <= b < y + gy) || (b == y + gy && x <= a < x + gx),
            col,
        ));
        while gx < GLYPH_WIDTH
            invariant
                fb_ok(*info),
                fb@.len() == info.byte_len,
                fb0.len() == info.byte_len,
                font@.len() == FONT_LEN,
                bits == font@[byte * 16 + gy],
                x + 8 <= usize::MAX,
                y + 16 <= usize::MAX,
                gy < GLYPH_HEIGHT,
                gx <= GLYPH_WIDTH,
                col == glyph_colors(font@, byte, x as int, y as int, fg, bg),
                fb@ =~= paint(
                    fb0,
                    *info,
                    |a: int, b: int| (x <= a < x + 8 && y <= b < y + gy) || (b == y + gy && x <= a < x + gx),
                    col,
                ),
            decreases GLYPH_WIDTH - gx,
        {
            let ghost before = fb@;
            let ghost r_old = |a: int, b: int|
                (x <= a < x + 8 && y <= b < y + gy) || (b == y + gy && x <= a < x + gx);
            let ghost point = |a: int, b: int| a == x + gx && b == y + gy;
            assert(before =~= paint(fb0, *info, r_old, col));
            let color = if bits & (0x80u8 >> (gx as u8)) != 0 {
                fg
            } else {
                bg
            };
            assert(color == col((x + gx) as int, (y + gy) as int));
            write_pixel(info, fb, x + gx, y + gy, color);
            proof {
                lemma_put_is_paint(before, *info, (x + gx) as int, (y + gy) as int, col);
                lemma_paint_twice(fb0, *info, r_old, point, col);
            }
            gx += 1;
        }
        gy += 1;
    }
    assert(fb@ =~= paint(fb0, *info, glyph_box(x as int, y as int), col));
}

/// The framebuffer after scrolling up by one text row: every byte takes the
/// value `16 * stride * 4` bytes further on (the last bytes keep theirs),
/// then the bottom 16 pixel rows are cleared to `bg`.
pub open spec fn scroll_fb(fb: Seq<u8>, info: FrameBufferInfo, bg: (u8, u8, u8)) -> Seq<u8> {
    let sb = 16 * info.stride * 4;
    let moved = Seq::new(
        fb.len(),
        |o: int|
            if o + sb < fb.len() {
                fb[o + sb]
            } else {
                fb[o]
            },
    );
    paint(
        moved,
        info,
        |x: int, y: int| 0 <= x < info.width && info.height - 16 <= y < info.height,
        |x: int, y: int| bg,
    )
}

/// The console's drawing state: cursor column and row, and the framebuffer
/// contents.
pub struct Cursor {
    pub column: int,
    pub row: int,
    pub fb: Seq<u8>,
}

/// A console's fixed parameters: framebuffer, font, colours.
pub struct Style {
    pub info: FrameBufferInfo,
    pub font: Seq<u8>,
    pub fg: (u8, u8, u8),
    pub bg: (u8, u8, u8),
}

/// How many text columns fit the framebuffer's width.
pub open spec fn columns(info: FrameBufferInfo) -> int {
    info.width as int / 8
}

/// How many text rows fit the framebuffer's height.
pub open spec fn rows(info: FrameBufferInfo) -> int {
    info.height as int / 16
}

/// How far right the cursor can stand: past the last column, or on a
/// framebuffer narrower than a glyph, just past column 0.
pub open spec fn max_column(info: FrameBufferInfo) -> int {
    if columns(info) >= 1 {
        columns(info)
    } else {
        1
    }
}

/// Scrolling up by one text row: the cursor stays in its column on the
/// bottom row.
pub open spec fn scroll_spec(st: Style, c: Cursor) -> Cursor {
    Cursor { column: c.column, row: rows(st.info) - 1, fb: scroll_fb(c.fb, st.info, st.bg) }
}

/// A line feed: back to column 0 on the next row, scrolling when that row
/// is past the bottom.
pub open spec fn new_line_spec(st: Style, c: Cursor) -> Cursor {
    let c1 = Cursor { column: 0, row: c.row + 1, fb: c.fb };
    if c1.row >= rows(st.info) {
        scroll_spec(st, c1)
    } else {
        c1
    }
}

/// The framebuffer with the glyph of `byte` drawn at text cell
/// (`column`, `row`).
pub open spec fn draw_cell(st: Style, fb: Seq<u8>, byte: u8, column: int, row: int) -> Seq<u8> {
    paint(
        fb,
        st.info,
        glyph_box(column * 8, row * 16),
        glyph_colors(st.font, byte, column * 8, row * 16, st.fg, st.bg),
    )
}

/// A backspace: one column back, blanking that cell; nothing at column 0.
pub open spec fn backspace_spec(st: Style, c: Cursor) -> Cursor {
    if c.column == 0 {
        c
    } else {
        Cursor {
            column: c.column - 1,
            row: c.row,
            fb: draw_cell(st, c.fb, 0x20, c.column - 1, c.row),
        }
    }
}

/// One byte written to the console: `\n` is a line feed, 0x08 a backspace;
/// any other byte is drawn at the cursor (after wrapping to the next line
/// when the row is full, and scrolling when past the bottom), and the cursor
/// moves one column on.
pub open spec fn write_byte_spec(st: Style, c: Cursor, byte: u8) -> Cursor {
    if byte == 0x0A {
        new_line_spec(st, c)
    } else if byte == 0x08 {
        backspace_spec(st, c)
    } else {
        let c1 = if c.column >= columns(st.info) {
            new_line_spec(st, c)
        } else {
            c
        };
        let c2 = if c1.row >= rows(st.info) {
            scroll_spec(st, c1)
        } else {
            c1
        };
        Cursor {
            column: c2.column + 1,
            row: c2.row,
            fb: draw_cell(st, c2.fb, byte, c2.column, c2.row),
        }
    }
}

/// The byte drawn for byte `b` of a string: printable ASCII, `\n` and 0x08
/// as they are, anything else as 0xFE (a block).
pub open spec fn shown_byte(b: u8) -> u8 {
    if (0x20 <= b <= 0x7e) || b == 0x0A || b == 0x08 {
        b
    } else {
        0xfe
    }
}

/// The bytes `bs` written one after the other.
pub open spec fn write_bytes_spec(st: Style, c: Cursor, bs: Seq<u8>) -> Cursor
    decreases bs.len(),
{
    if bs.len() == 0 {
        c
    } else {
        write_byte_spec(st, write_bytes_spec(st, c, bs.drop_last()), shown_byte(bs.last()))
    }
}

/// Writing a string is writing its bytes one after the other: writing
/// `a` and then `b` leaves the console as writing `a + b` does, and writing
/// one byte `x` is one `write_byte` of its shown form.
pub proof fn lemma_write_bytes_in_order(st: Style, c: Cursor, a: Seq<u8>, b: Seq<u8>, x: u8)
    ensures
        write_bytes_spec(st, c, a + b) == write_bytes_spec(st, write_bytes_spec(st, c, a), b),
        write_bytes_spec(st, c, seq![x]) == write_byte_spec(st, c, shown_byte(x)),
    decreases b.len(),
{
    if b.len() == 0 {
        assert(a + b =~= a);
    } else {
        lemma_write_bytes_in_order(st, c, a, b.drop_last(), x);
        assert((a + b).drop_last() =~= a + b.drop_last());
        assert((a + b).last() == b.last());
    }
    assert(seq![x].drop_last() =~= Seq::<u8>::empty());
    assert(write_bytes_spec(st, c, Seq::<u8>::empty()) == c);
    assert(seq![x].last() == x);
}

/// Backspace takes back a typed character on the console: after a byte is
/// drawn at a cursor inside the text area, a backspace returns the cursor
/// to that cell and blanks it.
pub proof fn lemma_backspace_after_byte(st: Style, c: Cursor, b: u8)
    requires
        0 <= c.column < columns(st.info),
        0 <= c.row < rows(st.info),
        b != 0x0A,
        b != 0x08,
    ensures
        backspace_spec(st, write_byte_spec(st, c, b)) == (Cursor {
            column: c.column,
            row: c.row,
            fb: draw_cell(st, draw_cell(st, c.fb, b, c.column, c.row), 0x20, c.column, c.row),
        }),
{
}

/// The text console.
pub struct Writer {
    framebuffer: Option<FrameBufferInfo>,
    column: usize,
    row: usize,
    foreground: Color,
    background: Color,
    font: Vec<u8>,
}

impl Writer {
    /// The framebuffer drawn on, once initialised.
    pub closed spec fn fb_info(&self) -> Option<FrameBufferInfo> {
        self.framebuffer
    }

    /// The text colour.
    pub closed spec fn fg(&self) -> Color {
        self.foreground
    }

    /// The background colour.
    pub closed spec fn bg(&self) -> Color {
        self.background
    }

    /// The font glyphs are drawn from.
    pub closed spec fn font(&self) -> Seq<u8> {
        self.font@
    }

    /// The cursor's text column.
    pub closed spec fn column_of(&self) -> int {
        self.column as int
    }

    /// The cursor's text row.
    pub closed spec fn row_of(&self) -> int {
        self.row as int
    }

    /// The fixed drawing parameters.
    pub open spec fn style(&self) -> Style {
        Style {
            info: self.fb_info()->0,
            font: self.font(),
            fg: color_rgb(self.fg()),
            bg: color_rgb(self.bg()),
        }
    }

    /// The cursor, over the framebuffer contents `fb`.
    pub open spec fn cursor(&self, fb: Seq<u8>) -> Cursor {
        Cursor { column: self.column_of(), row: self.row_of(), fb }
    }

    /// An initialised console: a usable framebuffer, a full font, the
    /// cursor within the text area (one row past it only in the middle of
    /// a line feed; on a framebuffer narrower than a glyph, column 0 or 1;
    /// on one lower than a glyph, at the top left).
    pub open spec fn ready(&self) -> bool {
        &&& self.fb_info() is Some
        &&& fb_ok(self.fb_info()->0)
        &&& self.font().len() == FONT_LEN
        &&& 0 <= self.column_of() <= max_column(self.fb_info()->0)
        &&& 0 <= self.row_of() <= rows(self.fb_info()->0)
        &&& rows(self.fb_info()->0) == 0 ==> self.column_of() == 0 && self.row_of() == 0
    }

    /// An initialised console with the cursor within the text area (if it
    /// has a text row at all).
    pub open spec fn wf(&self) -> bool {
        &&& self.ready()
        &&& (rows(self.fb_info()->0) == 0 || self.row_of() < rows(self.fb_info()->0))
    }

    /// A console with no framebuffer yet, white on black.
    pub fn new() -> (w: Self)
        ensures
            w.fb_info() is None,
            w.fg() == Color::White,
            w.bg() == Color::Black,
            w.column_of() == 0,
            w.row_of() == 0,
            w.font() == Seq::<u8>::empty(),
    {
        Writer {
            framebuffer: None,
            column: 0,
            row: 0,
            foreground: Color::White,
            background: Color::Black,
            font: Vec::new(),
        }
    }

    /// Starts drawing on `framebuffer` (whose memory is `fb`) with `font`:
    /// clears the screen to the background colour.
    pub fn init(&mut self, framebuffer: FrameBufferInfo, font: Vec<u8>, fb: &mut [u8])
        requires
            framebuffer.address != 0,
            fb_ok(framebuffer),
            font@.len() == FONT_LEN,
            old(fb)@.len() == framebuffer.byte_len,
        ensures
            final(self).wf(),
            final(self).fb_info() == Some(framebuffer),
            final(self).font() == font@,
            final(self).fg() == old(self).fg(),
            final(self).bg() == old(self).bg(),
            final(self).column_of() == 0,
            final(self).row_of() == 0,
            final(fb)@ == paint(
                old(fb)@,
                framebuffer,
                |x: int, y: int| 0 <= x < framebuffer.width && 0 <= y < framebuffer.height,
                |x: int, y: int| color_rgb(old(self).bg()),
            ),
    {
        self.framebuffer = Some(framebuffer);
        self.font = font;
        self.column = 0;
        self.row = 0;
        self.clear_screen(fb);
    }

    /// The text area's size in cells: columns, rows.
    pub fn dimensions(&self) -> (r: (usize, usize))
        requires
            self.wf(),
        ensures
            r.0 == columns(self.fb_info()->0),
            r.1 == rows(self.fb_info()->0),
    {
        match &self.framebuffer {
            Some(info) => (info.width / GLYPH_WIDTH, info.height / GLYPH_HEIGHT),
            None => (0, 0),
        }
    }

    /// Sets the text and background colours.
    pub fn set_colors(&mut self, fg: Color, bg: Color)
        ensures
            final(self).fg() == fg,
            final(self).bg() == bg,
            final(self).fb_info() == old(self).fb_info(),
            final(self).font() == old(self).font(),
            final(self).column_of() == old(self).column_of(),
            final(self).row_of() == old(self).row_of(),
    {
        self.foreground = fg;
        self.background = bg;
    }

    /// Paints every visible pixel in the background colour and puts the
    /// cursor at the top left.
    pub fn clear_screen(&mut self, fb: &mut [u8])
        requires
            old(self).wf(),
            old(fb)@.len() == old(self).fb_info()->0.byte_len,
        ensures
            final(self).wf(),
            final(self).style() == old(self).style(),
            final(self).fb_info() == old(self).fb_info(),
            final(self).fg() == old(self).fg(),
            final(self).bg() == old(self).bg(),
            final(self).column_of() == 0,
            final(self).row_of() == 0,
            final(fb)@ == paint(
                old(fb)@,
                old(self).fb_info()->0,
                |x: int, y: int| 0 <= x < old(self).fb_info()->0.width && 0 <= y < old(
                    self,
                ).fb_info()->0.height,
                |x: int, y: int| color_rgb(old(self).bg()),
            ),
    {
        let info = match &self.framebuffer {
            Some(i) => *i,
            None => return,
        };
        let color = self.background.rgb();
        fill_rect(&info, fb, 0, 0, info.width, info.height, color);
        self.column = 0;
        self.row = 0;
    }

    /// Moves the picture up by one text row, clears the bottom row, and puts
    /// the cursor on the bottom row.
    fn scroll(&mut self, fb: &mut [u8])
        requires
            old(self).ready(),
            rows(old(self).fb_info()->0) >= 1,
            old(fb)@.len() == old(self).fb_info()->0.byte_len,
        ensures
            final(self).wf(),
            final(self).style() == old(self).style(),
            final(self).fb_info() == old(self).fb_info(),
            final(self).fg() == old(self).fg(),
            final(self).bg() == old(self).bg(),
            final(self).cursor(final(fb)@) == scroll_spec(old(self).style(), old(self).cursor(old(fb)@)),
    {
        let info = match &self.framebuffer {
            Some(i) => *i,
            None => return,
        };
        let ghost fb0 = fb@;
        proof {
            let s = info.stride as int;
            let h = info.height as int;
            assert(16 * s * 4 <= s * h * 4) by (nonlinear_arith)
                requires 16 <= h, 0 <= s;
        }
        let row_bytes = info.stride * 4;
        let scroll_bytes = GLYPH_HEIGHT * row_bytes;
        let retained = info.byte_len - scroll_bytes;
        let mut index: usize = 0;
        while index < retained
            invariant
                fb@.len() == fb0.len(),
                fb0.len() == info.byte_len,
                retained + scroll_bytes == info.byte_len,
                index <= retained,
                forall|o: int| 0 <= o < index ==> #[trigger] fb@[o] == fb0[o + scroll_bytes],
                forall|o: int| index <= o < fb0.len() ==> #[trigger] fb@[o] == fb0[o],
            decreases retained - index,
        {
            let value = fb[index + scroll_bytes];
            fb[index] = value;
            index += 1;
        }
        let ghost moved = Seq::new(
            fb0.len(),
            |o: int|
                if o + 16 * info.stride * 4 < fb0.len() {
                    fb0[o + 16 * info.stride * 4]
                } else {
                    fb0[o]
                },
        );
        assert(fb@ =~= moved);
        let background = self.background.rgb();
        fill_rect(&info, fb, 0, info.height - GLYPH_HEIGHT, info.width, info.height, background);
        assert(fb@ =~= scroll_fb(fb0, info, background));
        self.row = info.height / GLYPH_HEIGHT - 1;
    }

    /// Moves the cursor to the start of the next row, scrolling when that
    /// row is past the bottom.
    fn new_line(&mut self, fb: &mut [u8])
        requires
            old(self).wf(),
            rows(old(self).fb_info()->0) >= 1,
            old(fb)@.len() == old(self).fb_info()->0.byte_len,
        ensures
            final(self).wf(),
            final(self).style() == old(self).style(),
            final(self).fb_info() == old(self).fb_info(),
            final(self).fg() == old(self).fg(),
            final(self).bg() == old(self).bg(),
            final(self).cursor(final(fb)@) == new_line_spec(old(self).style(), old(self).cursor(old(fb)@)),
    {
        self.column = 0;
        self.row = self.row + 1;
        let (_, rows) = self.dimensions_loose();
        if self.row >= rows {
            self.scroll(fb);
        }
    }

    fn dimensions_loose(&self) -> (r: (usize, usize))
        requires
            self.ready(),
        ensures
            r.0 == columns(self.fb_info()->0),
            r.1 == rows(self.fb_info()->0),
    {
        match &self.framebuffer {
            Some(info) => (info.width / GLYPH_WIDTH, info.height / GLYPH_HEIGHT),
            None => (0, 0),
        }
    }

    /// Moves the cursor one column back and blanks that cell; nothing at
    /// column 0.
    fn backspace(&mut self, fb: &mut [u8])
        requires
            old(self).wf(),
            old(fb)@.len() == old(self).fb_info()->0.byte_len,
        ensures
            final(self).wf(),
            final(self).style() == old(self).style(),
            final(self).fb_info() == old(self).fb_info(),
            final(self).fg() == old(self).fg(),
            final(self).bg() == old(self).bg(),
            final(self).cursor(final(fb)@) == backspace_spec(old(self).style(), old(self).cursor(old(fb)@)),
    {
        if self.column == 0 {
            return;
        }
        self.column -= 1;
        self.draw_at_cursor(fb, 0x20);
    }

    /// Draws the glyph of `byte` in the cursor's cell.
    fn draw_at_cursor(&self, fb: &mut [u8], byte: u8)
        requires
            self.ready(),
            self.row_of() < rows(self.fb_info()->0),
            self.column_of() < max_column(self.fb_info()->0),
            old(fb)@.len() == self.fb_info()->0.byte_len,
        ensures
            final(fb)@ == draw_cell(self.style(), old(fb)@, byte, self.column_of(), self.row_of()),
    {
        let info = match &self.framebuffer {
            Some(i) => *i,
            None => return,
        };
        proof {
            let c = self.column as int;
            let r = self.row as int;
            if info.width as int / 8 >= 1 {
                assert(c * 8 + 8 <= info.width) by (nonlinear_arith)
                    requires c < info.width as int / 8, 0 <= c;
            }
            assert(r * 16 + 16 <= info.height) by (nonlinear_arith)
                requires r < info.height as int / 16, 0 <= r;
        }
        let fg = self.foreground.rgb();
        let bg = self.background.rgb();
        draw_glyph(&info, self.font.as_slice(), fb, byte, self.column * GLYPH_WIDTH, self.row * GLYPH_HEIGHT, fg, bg);
    }

    /// Writes one byte: `\n` starts a new line, 0x08 erases the previous
    /// character, any other byte is drawn as a glyph at the cursor, wrapping
    /// and scrolling as needed.
    pub fn write_byte(&mut self, fb: &mut [u8], byte: u8)
        requires
            old(self).wf(),
            rows(old(self).fb_info()->0) >= 1 || byte == 0x08,
            old(fb)@.len() == old(self).fb_info()->0.byte_len,
        ensures
            final(self).wf(),
            final(self).style() == old(self).style(),
            final(self).fb_info() == old(self).fb_info(),
            final(self).fg() == old(self).fg(),
            final(self).bg() == old(self).bg(),
            final(self).cursor(final(fb)@) == write_byte_spec(old(self).style(), old(self).cursor(old(fb)@), byte),
    {
        if byte == 0x0A {
            self.new_line(fb);
        } else if byte == 0x08 {
            self.backspace(fb);
        } else {
            let (columns, rows) = self.dimensions();
            if self.column >= columns {
                self.new_line(fb);
            }
            if self.row >= rows {
                self.scroll(fb);
            }
            self.draw_at_cursor(fb, byte);
            self.column += 1;
        }
    }

    /// Writes the bytes of `text`, drawing bytes other than printable ASCII,
    /// `\n` and 0x08 as 0xFE.
    pub fn write_string(&mut self, fb: &mut [u8], text: &str)
        requires
            old(self).wf(),
            rows(old(self).fb_info()->0) >= 1 || forall|i: int|
                0 <= i < text.spec_bytes().len() ==> #[trigger] text.spec_bytes()[i] == 0x08,
            old(fb)@.len() == old(self).fb_info()->0.byte_len,
        ensures
            final(self).wf(),
            final(self).style() == old(self).style(),
            final(self).fb_info() == old(self).fb_info(),
            final(self).fg() == old(self).fg(),
            final(self).bg() == old(self).bg(),
            final(self).cursor(final(fb)@) == write_bytes_spec(
                old(self).style(),
                old(self).cursor(old(fb)@),
                text.spec_bytes(),
            ),
    {
        let bytes = text.as_bytes();
        let mut i: usize = 0;
        while i < bytes.len()
            invariant
                self.wf(),
                self.style() == old(self).style(),
                self.fb_info() == old(self).fb_info(),
                self.fg() == old(self).fg(),
                self.bg() == old(self).bg(),
                fb@.len() == self.fb_info()->0.byte_len,
                i <= bytes@.len(),
                bytes@ == text.spec_bytes(),
                rows(self.fb_info()->0) >= 1 || forall|k: int|
                    0 <= k < bytes@.len() ==> #[trigger] bytes@[k] == 0x08,
                self.cursor(fb@) == write_bytes_spec(
                    old(self).style(),
                    old(self).cursor(old(fb)@),
                    bytes@.take(i as int),
                ),
            decreases bytes@.len() - i,
        {
            let b = bytes[i];
            let shown = if (0x20 <= b && b <= 0x7e) || b == 0x0A || b == 0x08 {
                b
            } else {
                0xfe
            };
            assert(bytes@.take(i as int + 1).drop_last() =~= bytes@.take(i as int));
            self.write_byte(fb, shown);
            i += 1;
        }
        assert(bytes@.take(bytes@.len() as int) =~= bytes@);
    }
}

} // verus!
