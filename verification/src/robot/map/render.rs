//! Renderings of the map: pixels, PNG and text.
use super::grid::{OccupancyMap, H, UNKNOWN, W};
use vstd::prelude::*;

verus! {

// ── Picture ───────────────────────────────────────────────────────────────────

/// Colour channel `ch` of a cell: very dark for unknown, dark to bright green
/// for free by confidence, red for occupied.
pub open spec fn cell_colour(cell: u8, ch: int) -> u8 {
    if cell == 0 {
        if ch == 2 {
            28
        } else {
            14
        }
    } else if cell <= 127 {
        (if ch == 0 {
            30 + (cell as int) * 10 / 127
        } else if ch == 1 {
            55 + (cell as int) * 80 / 127
        } else {
            25 + (cell as int) * 10 / 127
        }) as u8
    } else if ch == 0 {
        180
    } else if ch == 1 {
        48
    } else {
        38
    }
}

/// Nearest coordinate inside the grid.
pub open spec fn inside(v: int) -> int {
    if v < 0 {
        0
    } else if v > 319 {
        319
    } else {
        v
    }
}

/// Pixel `(x, y)` shows the robot's body: a disc of radius 3 around its cell,
/// pushed inside the picture.
pub open spec fn on_body(rx: int, ry: int, x: int, y: int) -> bool {
    exists|dx: int, dy: int|
        -3 <= dx <= 3 && -3 <= dy <= 3 && dx * dx + dy * dy <= 9 && #[trigger] shifted(
            rx,
            ry,
            dx,
            dy,
        ) == (x, y)
}

/// The pixel that a body offset falls on.
pub open spec fn shifted(rx: int, ry: int, dx: int, dy: int) -> (int, int) {
    (inside(rx + dx), inside(ry + dy))
}

/// Colour channel `ch` of pixel `(x, y)` of the picture: the white heading dot
/// at `(hx, hy)`, the blue body, or the cell.
pub open spec fn pixel_colour(
    cells: Seq<u8>,
    rx: int,
    ry: int,
    hx: int,
    hy: int,
    x: int,
    y: int,
    ch: int,
) -> u8 {
    if x == inside(hx) && y == inside(hy) {
        255
    } else if on_body(rx, ry, x, y) {
        if ch == 0 {
            68
        } else if ch == 1 {
            170
        } else {
            255
        }
    } else {
        cell_colour(cells[y * 320 + x], ch)
    }
}

/// RGB bytes of the picture, one pixel per cell, row by row.
pub open spec fn picture(cells: Seq<u8>, rx: int, ry: int, hx: int, hy: int) -> Seq<u8> {
    Seq::new(
        (W * H * 3) as nat,
        |p: int| pixel_colour(cells, rx, ry, hx, hy, (p / 3) % 320, (p / 3) / 320, p % 3),
    )
}

fn colour(cell: u8) -> (r: (u8, u8, u8))
    ensures
        r.0 == cell_colour(cell, 0),
        r.1 == cell_colour(cell, 1),
        r.2 == cell_colour(cell, 2),
{
    if cell == 0 {
        (14, 14, 28)
    } else if cell <= 127 {
        let c: u32 = cell as u32;
        (
            (30 + c * 10 / 127) as u8,
            (55 + c * 80 / 127) as u8,
            (25 + c * 10 / 127) as u8,
        )
    } else {
        (180, 48, 38)
    }
}

fn clamp_cell(v: i64) -> (r: i64)
    ensures
        r == inside(v as int),
        0 <= r <= 319,
{
    if v < 0 {
        0
    } else if v > 319 {
        319
    } else {
        v
    }
}

fn is_body(rx: i32, ry: i32, x: i64, y: i64) -> (r: bool)
    requires
        0 <= x <= 319,
        0 <= y <= 319,
    ensures
        r == on_body(rx as int, ry as int, x as int, y as int),
{
    let mut dy: i64 = -3;
    while dy <= 3
        invariant
            -3 <= dy <= 4,
            0 <= x <= 319,
            0 <= y <= 319,
            forall|a: int, b: int|
                -3 <= a <= 3 && -3 <= b < dy && a * a + b * b <= 9 ==> #[trigger] shifted(
                    rx as int,
                    ry as int,
                    a,
                    b,
                ) != (x as int, y as int),
        decreases 4 - dy,
    {
        let mut dx: i64 = -3;
        while dx <= 3
            invariant
                -3 <= dx <= 4,
                -3 <= dy <= 3,
                0 <= x <= 319,
                0 <= y <= 319,
                forall|a: int, b: int|
                    -3 <= a <= 3 && -3 <= b && (b < dy || b == dy && a < dx) && a * a + b * b <= 9
                        ==> #[trigger] shifted(rx as int, ry as int, a, b) != (x as int, y as int),
            decreases 4 - dx,
        {
            proof {
                assert(0 <= dx * dx <= 9 && 0 <= dy * dy <= 9) by (nonlinear_arith)
                    requires
                        -3 <= dx <= 3,
                        -3 <= dy <= 3,
                ;
            }
            if dx * dx + dy * dy <= 9 && clamp_cell(rx as i64 + dx) == x && clamp_cell(
                ry as i64 + dy,
            ) == y {
                assert(shifted(rx as int, ry as int, dx as int, dy as int) == (x as int, y as int));
                return true;
            }
            assert forall|a: int, b: int|
                -3 <= a <= 3 && -3 <= b && (b < dy || b == dy && a < dx + 1) && a * a + b * b
                    <= 9 implies #[trigger] shifted(rx as int, ry as int, a, b) != (
                x as int,
                y as int,
            ) by {
                if b == dy && a == dx {
                    assert(shifted(rx as int, ry as int, a, b) == (
                        inside(rx + dx),
                        inside(ry + dy),
                    ));
                }
            }
            dx = dx + 1;
        }
        dy = dy + 1;
    }
    assert(!on_body(rx as int, ry as int, x as int, y as int)) by {
        if on_body(rx as int, ry as int, x as int, y as int) {
            let (a, b) = choose|a: int, b: int|
                -3 <= a <= 3 && -3 <= b <= 3 && a * a + b * b <= 9 && #[trigger] shifted(
                    rx as int,
                    ry as int,
                    a,
                    b,
                ) == (x as int, y as int);
            assert(b < dy);
        }
    }
    false
}

/// PNG bytes of an RGB picture of this width and height.
pub uninterp spec fn png_of(rgb: Seq<u8>, width: u32, height: u32) -> Seq<u8>;

/// Encodes an RGB picture as PNG.
///
/// The call is `write_to` of `image`'s `DynamicImage` with the PNG format, into
/// a cursor over a vector, for an image made by `from_raw`. What is taken on
/// trust: with three bytes per pixel and both sides at least one it succeeds,
/// the bytes depend on the picture and its size alone, and they begin with the
/// PNG signature.
#[verifier::external_body]
fn encode_png(rgb: Vec<u8>, width: u32, height: u32) -> (r: Vec<u8>)
    requires
        1 <= width <= 4096,
        1 <= height <= 4096,
        rgb@.len() == width * height * 3,
    ensures
        r@ == png_of(rgb@, width, height),
        r@.len() >= 8,
        r@.take(8) == seq![0x89u8, 0x50, 0x4e, 0x47, 0x0d, 0x0a, 0x1a, 0x0a],
{
    let img = image::RgbImage::from_raw(width, height, rgb).expect("three bytes per pixel");
    let mut out = std::io::Cursor::new(Vec::new());
    image::DynamicImage::ImageRgb8(img).write_to(&mut out, image::ImageFormat::Png).expect(
        "a vector takes all bytes",
    );
    out.into_inner()
}

impl OccupancyMap {
    /// RGB pixels of the map, one per cell, with the robot at cell `(rx, ry)`
    /// and its heading dot at `(hx, hy)`.
    pub fn render_rgb(&self, rx: i32, ry: i32, hx: i32, hy: i32) -> (r: Vec<u8>)
        requires
            self.wf(),
        ensures
            r@ == picture(self.cells@, rx as int, ry as int, hx as int, hy as int),
    {
        let ghost want = picture(self.cells@, rx as int, ry as int, hx as int, hy as int);
        let (dot_x, dot_y): (i64, i64) = (clamp_cell(hx as i64), clamp_cell(hy as i64));
        let mut out: Vec<u8> = Vec::new();
        let mut y: usize = 0;
        while y < H
            invariant
                y <= H,
                self.wf(),
                dot_x == inside(hx as int),
                dot_y == inside(hy as int),
                want == picture(self.cells@, rx as int, ry as int, hx as int, hy as int),
                out@.len() == y * 960,
                forall|p: int| 0 <= p < out@.len() ==> #[trigger] out@[p] == want[p],
            decreases H - y,
        {
            let mut x: usize = 0;
            while x < W
                invariant
                    x <= W,
                    y < H,
                    self.wf(),
                    dot_x == inside(hx as int),
                    dot_y == inside(hy as int),
                    want == picture(self.cells@, rx as int, ry as int, hx as int, hy as int),
                    out@.len() == y * 960 + x * 3,
                    forall|p: int| 0 <= p < out@.len() ==> #[trigger] out@[p] == want[p],
                decreases W - x,
            {
                let (r, g, b): (u8, u8, u8) = if x as i64 == dot_x && y as i64 == dot_y {
                    (255, 255, 255)
                } else if is_body(rx, ry, x as i64, y as i64) {
                    (68, 170, 255)
                } else {
                    colour(self.cells[y * W + x])
                };
                proof {
                    let k: int = y * 320 + x;
                    assert((k * 3) / 3 == k && (k * 3 + 1) / 3 == k && (k * 3 + 2) / 3 == k);
                    assert((k * 3) % 3 == 0 && (k * 3 + 1) % 3 == 1 && (k * 3 + 2) % 3 == 2);
                    assert(k % 320 == x && k / 320 == y);
                    assert(y * 960 + x * 3 == k * 3);
                }
                out.push(r);
                out.push(g);
                out.push(b);
                x = x + 1;
            }
            y = y + 1;
        }
        assert(out@ =~= want);
        out
    }

    /// The map as a PNG image (1 px per cell).
    pub fn render_png(&self, rx: i32, ry: i32, hx: i32, hy: i32) -> (r: Vec<u8>)
        requires
            self.wf(),
        ensures
            r@ == png_of(
                picture(self.cells@, rx as int, ry as int, hx as int, hy as int),
                W as u32,
                H as u32,
            ),
            r@.len() >= 8,
            r@.take(8) == seq![0x89u8, 0x50, 0x4e, 0x47, 0x0d, 0x0a, 0x1a, 0x0a],
    {
        let rgb: Vec<u8> = self.render_rgb(rx, ry, hx, hy);
        encode_png(rgb, W as u32, H as u32)
    }
}

// ── Text ──────────────────────────────────────────────────────────────────────

/// The cell at `(x, y)` is known.
pub open spec fn known(cells: Seq<u8>, x: int, y: int) -> bool {
    0 <= x < W && 0 <= y < H && cells[y * 320 + x] != UNKNOWN
}

/// `(x_lo, x_hi, y_lo, y_hi)` is the tightest box around the known cells.
pub open spec fn is_box(cells: Seq<u8>, x_lo: int, x_hi: int, y_lo: int, y_hi: int) -> bool {
    &&& forall|x: int, y: int| #[trigger]
        known(cells, x, y) ==> x_lo <= x <= x_hi && y_lo <= y <= y_hi
    &&& exists|x: int, y: int| #[trigger] known(cells, x, y) && x == x_lo
    &&& exists|x: int, y: int| #[trigger] known(cells, x, y) && x == x_hi
    &&& exists|x: int, y: int| #[trigger] known(cells, x, y) && y == y_lo
    &&& exists|x: int, y: int| #[trigger] known(cells, x, y) && y == y_hi
}

/// Sign of a cell: the robot, unknown, free or occupied.
pub open spec fn sign(cells: Seq<u8>, rx: int, ry: int, x: int, y: int) -> char {
    if x == rx && y == ry {
        '@'
    } else if cells[y * 320 + x] == 0 {
        '?'
    } else if cells[y * 320 + x] <= 127 {
        '.'
    } else {
        '#'
    }
}

/// Signs of row `y` from `x_lo` up to but without `x_end`.
pub open spec fn row_signs(cells: Seq<u8>, rx: int, ry: int, y: int, x_lo: int, x_end: int) -> Seq<
    char,
>
    decreases x_end - x_lo,
{
    if x_end <= x_lo {
        Seq::empty()
    } else {
        row_signs(cells, rx, ry, y, x_lo, x_end - 1).push(sign(cells, rx, ry, x_end - 1, y))
    }
}

/// Rows from `y_lo` up to but without `y_end`, each with a line break.
pub open spec fn text_rows(
    cells: Seq<u8>,
    rx: int,
    ry: int,
    x_lo: int,
    x_hi: int,
    y_lo: int,
    y_end: int,
) -> Seq<char>
    decreases y_end - y_lo,
{
    if y_end <= y_lo {
        Seq::empty()
    } else {
        text_rows(cells, rx, ry, x_lo, x_hi, y_lo, y_end - 1) + row_signs(
            cells,
            rx,
            ry,
            y_end - 1,
            x_lo,
            x_hi + 1,
        ) + seq!['\n']
    }
}

/// A coordinate two cells lower, at least 0.
pub open spec fn pad_lo(v: int) -> int {
    if v < 2 {
        0
    } else {
        v - 2
    }
}

/// A coordinate two cells higher, at most 319.
pub open spec fn pad_hi(v: int) -> int {
    if v > 317 {
        319
    } else {
        v + 2
    }
}

/// Text of the box around the known cells, padded by two cells.
pub open spec fn boxed_text(
    cells: Seq<u8>,
    rx: int,
    ry: int,
    x_lo: int,
    x_hi: int,
    y_lo: int,
    y_hi: int,
) -> Seq<char> {
    text_rows(
        cells,
        rx,
        ry,
        pad_lo(x_lo),
        pad_hi(x_hi),
        pad_lo(y_lo),
        pad_hi(y_hi) + 1,
    )
}

fn bounds(map: &OccupancyMap) -> (r: Option<(usize, usize, usize, usize)>)
    requires
        map.wf(),
    ensures
        match r {
            Some((a, b, c, d)) => is_box(map.cells@, a as int, b as int, c as int, d as int) && b
                < W && d < H,
            None => forall|x: int, y: int| !#[trigger] known(map.cells@, x, y),
        },
{
    let mut found: bool = false;
    let (mut x_lo, mut x_hi, mut y_lo, mut y_hi): (usize, usize, usize, usize) = (0, 0, 0, 0);
    let mut y: usize = 0;
    while y < H
        invariant
            y <= H,
            map.wf(),
            x_hi < W,
            y_hi < H,
            !found ==> forall|a: int, b: int| b < y ==> !#[trigger] known(map.cells@, a, b),
            found ==> box_upto(
                map.cells@,
                x_lo as int,
                x_hi as int,
                y_lo as int,
                y_hi as int,
                0,
                y as int,
            ),
        decreases H - y,
    {
        let mut x: usize = 0;
        while x < W
            invariant
                x <= W,
                y < H,
                map.wf(),
                x_hi < W,
                y_hi < H,
                !found ==> forall|a: int, b: int|
                    before(a, b, x as int, y as int) ==> !#[trigger] known(map.cells@, a, b),
                found ==> box_upto(
                    map.cells@,
                    x_lo as int,
                    x_hi as int,
                    y_lo as int,
                    y_hi as int,
                    x as int,
                    y as int,
                ),
            decreases W - x,
        {
            if map.cells[y * W + x] != UNKNOWN {
                assert(known(map.cells@, x as int, y as int));
                if found {
                    if x < x_lo {
                        x_lo = x;
                    }
                    if x > x_hi {
                        x_hi = x;
                    }
                    if y > y_hi {
                        y_hi = y;
                    }
                } else {
                    found = true;
                    x_lo = x;
                    x_hi = x;
                    y_lo = y;
                    y_hi = y;
                }
            } else {
                assert(!known(map.cells@, x as int, y as int));
            }
            assert forall|a: int, b: int| before(a, b, x + 1, y as int) && #[trigger] known(
                map.cells@,
                a,
                b,
            ) implies before(a, b, x as int, y as int) || (a == x && b == y) by {}
            x = x + 1;
        }
        assert forall|a: int, b: int| b < y + 1 && #[trigger] known(map.cells@, a, b) implies before(
            a,
            b,
            320,
            y as int,
        ) by {}
        y = y + 1;
    }
    if found {
        Some((x_lo, x_hi, y_lo, y_hi))
    } else {
        None
    }
}

/// `(a, b)` comes before `(x, y)` in raster order.
spec fn before(a: int, b: int, x: int, y: int) -> bool {
    b < y || b == y && a < x
}

/// The box is the tightest around the known cells before `(x, y)`.
spec fn box_upto(
    cells: Seq<u8>,
    x_lo: int,
    x_hi: int,
    y_lo: int,
    y_hi: int,
    x: int,
    y: int,
) -> bool {
    &&& forall|a: int, b: int|
        before(a, b, x, y) && #[trigger] known(cells, a, b) ==> x_lo <= a <= x_hi && y_lo <= b <= y_hi
    &&& exists|a: int, b: int| #[trigger] known(cells, a, b) && a == x_lo
    &&& exists|a: int, b: int| #[trigger] known(cells, a, b) && a == x_hi
    &&& exists|a: int, b: int| #[trigger] known(cells, a, b) && b == y_lo
    &&& exists|a: int, b: int| #[trigger] known(cells, a, b) && b == y_hi
    &&& y_lo <= y_hi <= y
}

impl OccupancyMap {
    /// The explored part as text, with the robot at cell `(rx, ry)`: `?`
    /// unknown, `.` free, `#` occupied, `@` robot.
    pub fn to_ascii(&self, rx: usize, ry: usize) -> (r: String)
        requires
            self.wf(),
        ensures
            (forall|x: int, y: int| !#[trigger] known(self.cells@, x, y)) ==> r@ == "(empty map)"@,
            forall|a: int, b: int, c: int, d: int|
                #![trigger is_box(self.cells@, a, b, c, d)]
                is_box(self.cells@, a, b, c, d) ==> r@ == boxed_text(
                    self.cells@,
                    rx as int,
                    ry as int,
                    a,
                    b,
                    c,
                    d,
                ),
    {
        let found: Option<(usize, usize, usize, usize)> = bounds(self);
        match found {
            None => String::from_str("(empty map)"),
            Some((x_lo, x_hi, y_lo, y_hi)) => {
                let x0: usize = if x_lo < 2 {
                    0
                } else {
                    x_lo - 2
                };
                let y0: usize = if y_lo < 2 {
                    0
                } else {
                    y_lo - 2
                };
                let x1: usize = if x_hi > 317 {
                    319
                } else {
                    x_hi + 2
                };
                let y1: usize = if y_hi > 317 {
                    319
                } else {
                    y_hi + 2
                };
                let mut out: String = String::new();
                let mut y: usize = y0;
                proof {
                    reveal_strlit("\n");
                    assert("\n"@ =~= seq!['\n']);
                }
                while y <= y1
                    invariant
                        y0 <= y <= y1 + 1,
                        y1 < H,
                        x1 < W,
                        x0 <= x1,
                        self.wf(),
                        "\n"@ == seq!['\n'],
                        out@ == text_rows(
                            self.cells@,
                            rx as int,
                            ry as int,
                            x0 as int,
                            x1 as int,
                            y0 as int,
                            y as int,
                        ),
                    decreases y1 + 1 - y,
                {
                    let ghost head = out@;
                    let mut x: usize = x0;
                    while x <= x1
                        invariant
                            x0 <= x <= x1 + 1,
                            x1 < W,
                            y < H,
                            self.wf(),
                            out@ == head + row_signs(
                                self.cells@,
                                rx as int,
                                ry as int,
                                y as int,
                                x0 as int,
                                x as int,
                            ),
                        decreases x1 + 1 - x,
                    {
                        let c: u8 = self.cells[y * W + x];
                        let s: &str = if x == rx && y == ry {
                            "@"
                        } else if c == 0 {
                            "?"
                        } else if c <= 127 {
                            "."
                        } else {
                            "#"
                        };
                        proof {
                            reveal_strlit("@");
                            reveal_strlit("?");
                            reveal_strlit(".");
                            reveal_strlit("#");
                            assert(s@ =~= seq![
                                sign(self.cells@, rx as int, ry as int, x as int, y as int),
                            ]);
                        }
                        let ghost was = out@;
                        out.append(s);
                        x = x + 1;
                        assert(out@ =~= was.push(
                            sign(self.cells@, rx as int, ry as int, x - 1, y as int),
                        ));
                    }
                    out.append("\n");
                    y = y + 1;
                }
                proof {
                    assert forall|a: int, b: int, c: int, d: int|
                        #![trigger is_box(self.cells@, a, b, c, d)]
                        is_box(self.cells@, a, b, c, d) implies a == x_lo && b == x_hi && c == y_lo
                        && d == y_hi by {
                        lemma_box_unique(
                            self.cells@,
                            a,
                            b,
                            c,
                            d,
                            x_lo as int,
                            x_hi as int,
                            y_lo as int,
                            y_hi as int,
                        );
                    }
                    let (kx, ky) = choose|x: int, y: int| #[trigger]
                        known(self.cells@, x, y) && x == x_lo;
                    assert(known(self.cells@, kx, ky));
                }
                out
            },
        }
    }
}

proof fn lemma_box_unique(
    cells: Seq<u8>,
    a: int,
    b: int,
    c: int,
    d: int,
    a2: int,
    b2: int,
    c2: int,
    d2: int,
)
    requires
        is_box(cells, a, b, c, d),
        is_box(cells, a2, b2, c2, d2),
    ensures
        a == a2,
        b == b2,
        c == c2,
        d == d2,
{
}

/// Colours of cells: near black for unknown, red for occupied, and green for free, from
/// dark to bright in proportion to the confidence.
pub proof fn law_cell_colours(cell: u8, more: u8)
    requires
        cell <= more,
    ensures
        cell_colour(0, 0) == 14 && cell_colour(0, 1) == 14 && cell_colour(0, 2) == 28,
        cell >= 128 ==> cell_colour(cell, 0) == 180 && cell_colour(cell, 1) == 48 && cell_colour(
            cell,
            2,
        ) == 38,
        1 <= cell <= 127 ==> {
            let (r, g, b) = (
                cell_colour(cell, 0) as int,
                cell_colour(cell, 1) as int,
                cell_colour(cell, 2) as int,
            );
            &&& 127 * (r - 30) <= 10 * cell < 127 * (r - 29)
            &&& 127 * (g - 55) <= 80 * cell < 127 * (g - 54)
            &&& 127 * (b - 25) <= 10 * cell < 127 * (b - 24)
            &&& g > r && g > b
        },
        1 <= cell && more <= 127 ==> cell_colour(cell, 1) <= cell_colour(more, 1),
{
}

/// Where a pixel's bytes are: row by row, three to a pixel. The pixel of the heading dot is
/// white, those within three of the robot blue, and every other shows its cell; what would
/// fall outside is drawn on the border.
pub proof fn law_picture_layout(
    cells: Seq<u8>,
    rx: int,
    ry: int,
    hx: int,
    hy: int,
    x: int,
    y: int,
    ch: int,
)
    requires
        0 <= x < 320,
        0 <= y < 320,
        0 <= ch < 3,
    ensures
        picture(cells, rx, ry, hx, hy).len() == 320 * 320 * 3,
        ({
            let p = picture(cells, rx, ry, hx, hy)[3 * (320 * y + x) + ch];
            let dot = x == hx && y == hy;
            let near = (x - rx) * (x - rx) + (y - ry) * (y - ry) <= 9;
            &&& dot ==> p == 255
            &&& 0 <= hx < 320 && 0 <= hy < 320 && !dot && near ==> p == (if ch == 0 {
                68
            } else if ch == 1 {
                170
            } else {
                255u8
            })
            &&& 0 <= hx < 320 && 0 <= hy < 320 && 3 <= rx < 317 && 3 <= ry < 317 && !dot && !near
                ==> p == cell_colour(cells[320 * y + x], ch)
        }),
{
    let i = 3 * (320 * y + x) + ch;
    assert(i / 3 == 320 * y + x && i % 3 == ch);
    assert((320 * y + x) % 320 == x && (320 * y + x) / 320 == y);
    let (dx, dy) = (x - rx, y - ry);
    if dx * dx + dy * dy <= 9 {
        assert(-3 <= dx <= 3 && -3 <= dy <= 3) by (nonlinear_arith)
            requires
                dx * dx + dy * dy <= 9,
        ;
        assert(shifted(rx, ry, dx, dy) == (x, y));
        assert(on_body(rx, ry, x, y));
    }
    if 3 <= rx < 317 && 3 <= ry < 317 && on_body(rx, ry, x, y) {
        let (ex, ey) = choose|ex: int, ey: int|
            -3 <= ex <= 3 && -3 <= ey <= 3 && ex * ex + ey * ey <= 9 && #[trigger] shifted(
                rx,
                ry,
                ex,
                ey,
            ) == (x, y);
        assert(ex == dx && ey == dy);
    }
}

/// Signs of the text: the robot before all, then unknown, free and occupied.
pub proof fn law_signs(cells: Seq<u8>, rx: int, ry: int, x: int, y: int)
    ensures
        x == rx && y == ry ==> sign(cells, rx, ry, x, y) == '@',
        !(x == rx && y == ry) ==> {
            &&& cells[320 * y + x] == 0 <==> sign(cells, rx, ry, x, y) == '?'
            &&& 0 < cells[320 * y + x] < 128 <==> sign(cells, rx, ry, x, y) == '.'
            &&& cells[320 * y + x] >= 128 <==> sign(cells, rx, ry, x, y) == '#'
        },
{
}

proof fn lemma_row_signs(cells: Seq<u8>, rx: int, ry: int, y: int, x_lo: int, x_end: int, x: int)
    requires
        x_lo <= x < x_end,
    ensures
        row_signs(cells, rx, ry, y, x_lo, x_end).len() == x_end - x_lo,
        row_signs(cells, rx, ry, y, x_lo, x_end)[x - x_lo] == sign(cells, rx, ry, x, y),
    decreases x_end - x_lo,
{
    if x_end - 1 > x_lo {
        lemma_row_signs(
            cells,
            rx,
            ry,
            y,
            x_lo,
            x_end - 1,
            if x < x_end - 1 {
                x
            } else {
                x_lo
            },
        );
    } else {
        assert(row_signs(cells, rx, ry, y, x_lo, x_end - 1).len() == 0);
    }
}

/// The text has a line for each row of the box, top row first, with a sign for each cell,
/// from left to right, and a line break.
pub proof fn law_text_layout(
    cells: Seq<u8>,
    rx: int,
    ry: int,
    x_lo: int,
    x_hi: int,
    y_lo: int,
    y_end: int,
    x: int,
    y: int,
)
    requires
        x_lo <= x <= x_hi,
        y_lo <= y < y_end,
    ensures
        ({
            let t = text_rows(cells, rx, ry, x_lo, x_hi, y_lo, y_end);
            let line = x_hi - x_lo + 2;
            &&& t.len() == (y_end - y_lo) * line
            &&& t[(y - y_lo) * line + (x - x_lo)] == sign(cells, rx, ry, x, y)
            &&& t[(y - y_lo) * line + line - 1] == '\n'
        }),
    decreases y_end - y_lo,
{
    let line = x_hi - x_lo + 2;
    let t = text_rows(cells, rx, ry, x_lo, x_hi, y_lo, y_end);
    let before = text_rows(cells, rx, ry, x_lo, x_hi, y_lo, y_end - 1);
    let row = row_signs(cells, rx, ry, y_end - 1, x_lo, x_hi + 1);
    lemma_row_signs(cells, rx, ry, y_end - 1, x_lo, x_hi + 1, x);
    let n = y_end - 1 - y_lo;
    if n > 0 {
        law_text_layout(
            cells,
            rx,
            ry,
            x_lo,
            x_hi,
            y_lo,
            y_end - 1,
            x,
            if y < y_end - 1 {
                y
            } else {
                y_lo
            },
        );
    } else {
        assert(before.len() == 0);
        assert(0 * line == 0) by (nonlinear_arith);
    }
    assert(before.len() == n * line);
    assert((n + 1) * line == n * line + line) by (nonlinear_arith);
    let k = y - y_lo;
    if k < n {
        assert(0 <= k * line && k * line + line <= n * line) by (nonlinear_arith)
            requires
                0 <= k < n,
                line >= 0,
        ;
        assert(t[k * line + (x - x_lo)] == before[k * line + (x - x_lo)]);
        assert(t[k * line + line - 1] == before[k * line + line - 1]);
    } else {
        assert(t[n * line + (x - x_lo)] == row[x - x_lo]);
        assert(t[n * line + line - 1] == '\n');
    }
}

/// The box is padded by two cells on each side, as far as the grid goes.
pub proof fn law_padding(v: int)
    requires
        0 <= v < 320,
    ensures
        v >= 2 ==> pad_lo(v) == v - 2,
        v < 2 ==> pad_lo(v) == 0,
        v <= 317 ==> pad_hi(v) == v + 2,
        v > 317 ==> pad_hi(v) == 319,
{
}

/// The text of a map shows the box around the known cells with two cells of padding, as far
/// as the grid goes: one sign a cell, row by row from the top of the box, each row ended by a
/// line break.
pub proof fn law_text_of_a_box(
    cells: Seq<u8>,
    rx: int,
    ry: int,
    x_lo: int,
    x_hi: int,
    y_lo: int,
    y_hi: int,
    x: int,
    y: int,
)
    requires
        2 <= x_lo <= x_hi <= 317,
        2 <= y_lo <= y_hi <= 317,
        x_lo - 2 <= x <= x_hi + 2,
        y_lo - 2 <= y <= y_hi + 2,
    ensures
        ({
            let t = boxed_text(cells, rx, ry, x_lo, x_hi, y_lo, y_hi);
            let line = x_hi - x_lo + 6;
            &&& t.len() == (y_hi - y_lo + 5) * line
            &&& t[(y - y_lo + 2) * line + (x - x_lo + 2)] == sign(cells, rx, ry, x, y)
            &&& t[(y - y_lo + 2) * line + line - 1] == '\n'
        }),
{
    law_text_layout(cells, rx, ry, x_lo - 2, x_hi + 2, y_lo - 2, y_hi + 3, x, y);
}

/// The box around the known cells holds all of them and touches one on each side; there is
/// only one such box.
pub proof fn law_box_is_tight(
    cells: Seq<u8>,
    x_lo: int,
    x_hi: int,
    y_lo: int,
    y_hi: int,
    x: int,
    y: int,
)
    requires
        is_box(cells, x_lo, x_hi, y_lo, y_hi),
    ensures
        0 <= x < 320 && 0 <= y < 320 && cells[y * 320 + x] != 0 ==> x_lo <= x <= x_hi && y_lo <= y
            <= y_hi,
        0 <= x_lo <= x_hi < 320,
        0 <= y_lo <= y_hi < 320,
        exists|v: int| 0 <= v < 320 && #[trigger] cells[v * 320 + x_lo] != 0,
        exists|v: int| 0 <= v < 320 && #[trigger] cells[v * 320 + x_hi] != 0,
        exists|v: int| 0 <= v < 320 && #[trigger] cells[y_lo * 320 + v] != 0,
        exists|v: int| 0 <= v < 320 && #[trigger] cells[y_hi * 320 + v] != 0,
{
    assert(0 <= x < 320 && 0 <= y < 320 && cells[y * 320 + x] != 0 ==> known(cells, x, y));
    let (a, b) = choose|a: int, b: int| #[trigger] known(cells, a, b) && a == x_lo;
    assert(cells[b * 320 + x_lo] != 0);
    let (c, d) = choose|c: int, d: int| #[trigger] known(cells, c, d) && c == x_hi;
    assert(cells[d * 320 + x_hi] != 0);
    let (e, f) = choose|e: int, f: int| #[trigger] known(cells, e, f) && f == y_lo;
    assert(cells[y_lo * 320 + e] != 0);
    let (g, h) = choose|g: int, h: int| #[trigger] known(cells, g, h) && h == y_hi;
    assert(cells[y_hi * 320 + g] != 0);
}

/// A coordinate outside the grid is shown at its nearest edge.
pub proof fn law_coordinates_are_kept_inside(v: int)
    ensures
        0 <= inside(v) <= 319,
        0 <= v <= 319 ==> inside(v) == v,
        v < 0 ==> inside(v) == 0,
        v > 319 ==> inside(v) == 319,
{
}

} // verus!
