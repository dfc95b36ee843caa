//! Themes: their names and the decisions on which accent colour a reading
//! gets, plus the pixel work behind the tray icon.

use vstd::prelude::*;

verus! {

/// The four themes, which differ in structure as well as in palette.
#[derive(Copy, Clone, Debug, PartialEq, Eq, Structural)]
pub enum ThemeKind {
    Aurora,
    Nova,
    Command,
    Radiant,
}

impl Default for ThemeKind {
    fn default() -> (k: ThemeKind)
        ensures
            k == ThemeKind::Aurora,
    {
        ThemeKind::Aurora
    }
}

impl ThemeKind {
    /// Every theme, in the order the settings page offers them.
    pub const ALL: [ThemeKind; 4] = [
        ThemeKind::Aurora,
        ThemeKind::Nova,
        ThemeKind::Command,
        ThemeKind::Radiant,
    ];

    /// Name shown for the theme.
    pub fn label(self) -> (s: &'static str)
        ensures
            s@ == match self {
                ThemeKind::Aurora => "Aurora"@,
                ThemeKind::Nova => "Nova"@,
                ThemeKind::Command => "Command"@,
                ThemeKind::Radiant => "Radiant"@,
            },
    {
        match self {
            ThemeKind::Aurora => "Aurora",
            ThemeKind::Nova => "Nova",
            ThemeKind::Command => "Command",
            ThemeKind::Radiant => "Radiant",
        }
    }

    /// One-line description shown under the theme's name.
    pub fn tagline(self) -> (s: &'static str)
        ensures
            s@ == match self {
                ThemeKind::Aurora => "Violet & warm"@,
                ThemeKind::Nova => "Charcoal & indigo"@,
                ThemeKind::Command => "Terminal green"@,
                ThemeKind::Radiant => "Light editorial"@,
            },
    {
        match self {
            ThemeKind::Aurora => "Violet & warm",
            ThemeKind::Nova => "Charcoal & indigo",
            ThemeKind::Command => "Terminal green",
            ThemeKind::Radiant => "Light editorial",
        }
    }
}

/// Font used for hero numbers and section titles.
#[derive(Copy, Clone, Debug, PartialEq, Eq, Structural)]
pub enum HeroFont {
    /// Inter Light (Aurora)
    InterLight,
    /// Space Grotesk Bold (Nova)
    SpaceGrotesk,
    /// JetBrains Mono Bold (Command)
    Mono,
    /// Instrument Serif Italic (Radiant)
    SerifItalic,
}

/// How the window background is painted.
#[derive(Copy, Clone, Debug, PartialEq, Eq, Structural)]
pub enum BgStyle {
    /// Three-stop vertical gradient
    Gradient,
    /// One solid colour
    Solid,
}

/// The accent colours of a theme, by role.
#[derive(Copy, Clone, Debug, PartialEq, Eq, Structural)]
pub enum Accent {
    Teal,
    Coral,
    Yellow,
    Orange,
    Purple,
    Pink,
}

/// Accent of a battery percentage: teal from 60, yellow from 30, orange
/// from 15, coral below.
pub open spec fn spec_battery_accent(pct: u8) -> Accent {
    if pct >= 60 {
        Accent::Teal
    } else if pct >= 30 {
        Accent::Yellow
    } else if pct >= 15 {
        Accent::Orange
    } else {
        Accent::Coral
    }
}

/// Accent of a signal strength in dBm: teal above -50, yellow above -65,
/// orange above -80, coral otherwise.
pub open spec fn spec_rssi_accent(rssi: i16) -> Accent {
    if rssi > -50 {
        Accent::Teal
    } else if rssi > -65 {
        Accent::Yellow
    } else if rssi > -80 {
        Accent::Orange
    } else {
        Accent::Coral
    }
}

/// The accent a battery reading is drawn in.
pub fn battery_accent(pct: u8) -> (a: Accent)
    ensures
        a == spec_battery_accent(pct),
{
    if pct >= 60 {
        Accent::Teal
    } else if pct >= 30 {
        Accent::Yellow
    } else if pct >= 15 {
        Accent::Orange
    } else {
        Accent::Coral
    }
}

/// The accent a signal reading is drawn in.
pub fn rssi_accent(rssi: i16) -> (a: Accent)
    ensures
        a == spec_rssi_accent(rssi),
{
    if rssi > -50 {
        Accent::Teal
    } else if rssi > -65 {
        Accent::Yellow
    } else if rssi > -80 {
        Accent::Orange
    } else {
        Accent::Coral
    }
}

/// The cycle of accents given to successive devices.
pub open spec fn accent_cycle() -> Seq<Accent> {
    seq![Accent::Teal, Accent::Coral, Accent::Yellow, Accent::Orange, Accent::Purple, Accent::Pink]
}

/// The accent of the `index`-th device: the cycle, repeated.
pub fn accent_for(index: usize) -> (a: Accent)
    ensures
        a == accent_cycle()[(index % 6) as int],
{
    let k = index % 6;
    if k == 0 {
        Accent::Teal
    } else if k == 1 {
        Accent::Coral
    } else if k == 2 {
        Accent::Yellow
    } else if k == 3 {
        Accent::Orange
    } else if k == 4 {
        Accent::Purple
    } else {
        Accent::Pink
    }
}

/// Reorders RGBA pixels into the ARGB layout a tray icon is sent in. Bytes
/// after the last whole pixel are dropped.
pub fn tray_icon_argb(rgba: &[u8]) -> (argb: Vec<u8>)
    ensures
        argb@.len() == rgba@.len() / 4 * 4,
        forall|p: int| 0 <= p < rgba@.len() / 4 ==> {
            &&& #[trigger] argb@[4 * p] == rgba@[4 * p + 3]
            &&& argb@[4 * p + 1] == rgba@[4 * p]
            &&& argb@[4 * p + 2] == rgba@[4 * p + 1]
            &&& argb@[4 * p + 3] == rgba@[4 * p + 2]
        },
{
    let mut argb: Vec<u8> = Vec::with_capacity(rgba.len());
    let len = rgba.len();
    let n = len / 4;
    let mut p: usize = 0;
    while p < n
        invariant
            len == rgba@.len(),
            n == rgba@.len() / 4,
            p <= n,
            argb@.len() == 4 * p,
            forall|q: int| 0 <= q < p ==> {
                &&& #[trigger] argb@[4 * q] == rgba@[4 * q + 3]
                &&& argb@[4 * q + 1] == rgba@[4 * q]
                &&& argb@[4 * q + 2] == rgba@[4 * q + 1]
                &&& argb@[4 * q + 3] == rgba@[4 * q + 2]
            },
        decreases n - p,
    {
        assert(4 * p + 3 < len) by (nonlinear_arith)
            requires
                p < n,
                n == len / 4,
        ;
        let i = 4 * p;
        let ghost before = argb@;
        argb.push(rgba[i + 3]);
        argb.push(rgba[i]);
        argb.push(rgba[i + 1]);
        argb.push(rgba[i + 2]);
        assert forall|q: int| 0 <= q < p + 1 implies {
            &&& #[trigger] argb@[4 * q] == rgba@[4 * q + 3]
            &&& argb@[4 * q + 1] == rgba@[4 * q]
            &&& argb@[4 * q + 2] == rgba@[4 * q + 1]
            &&& argb@[4 * q + 3] == rgba@[4 * q + 2]
        } by {
            if q < p {
                assert(argb@[4 * q] == before[4 * q]);
                assert(argb@[4 * q + 1] == before[4 * q + 1]);
                assert(argb@[4 * q + 2] == before[4 * q + 2]);
                assert(argb@[4 * q + 3] == before[4 * q + 3]);
            }
        }
        p += 1;
    }
    argb
}

/// Byte offset of pixel `(x, y)` in an RGBA buffer `w` pixels wide.
pub open spec fn pixel_offset(w: int, x: int, y: int) -> int {
    (y * w + x) * 4
}

/// Paints pixel `(x, y)` opaque white when its four bytes lie inside the
/// buffer; otherwise leaves the buffer alone.
pub fn paint_px(pixels: &mut [u8], w: usize, x: usize, y: usize)
    requires
        pixel_offset(w as int, x as int, y as int) + 3 <= usize::MAX,
    ensures
        final(pixels)@ == if pixel_offset(w as int, x as int, y as int) + 3 < old(pixels)@.len() {
            let i = pixel_offset(w as int, x as int, y as int);
            old(pixels)@.update(i, 0xff).update(i + 1, 0xff).update(i + 2, 0xff).update(i + 3, 0xff)
        } else {
            old(pixels)@
        },
{
    let idx = (y * w + x) * 4;
    if idx + 3 < pixels.len() {
        pixels[idx] = 0xff;
        pixels[idx + 1] = 0xff;
        pixels[idx + 2] = 0xff;
        pixels[idx + 3] = 255;
    }
}

/// `pixels` with pixel `(px, py)` painted opaque white, when the pixel lies
/// inside the `w` by `h` image and its four bytes inside the buffer.
pub open spec fn paint_pixel(pixels: Seq<u8>, w: int, h: int, px: int, py: int) -> Seq<u8> {
    let i = pixel_offset(w, px, py);
    if 0 <= px < w && 0 <= py < h && i + 3 < pixels.len() {
        pixels.update(i, 0xff).update(i + 1, 0xff).update(i + 2, 0xff).update(i + 3, 0xff)
    } else {
        pixels
    }
}

/// The first `n` pixels of the row starting at `(left, py)` painted, from
/// left to right.
pub open spec fn paint_row(pixels: Seq<u8>, w: int, h: int, left: int, py: int, n: nat) -> Seq<u8>
    decreases n,
{
    if n == 0 {
        pixels
    } else {
        paint_pixel(paint_row(pixels, w, h, left, py, (n - 1) as nat), w, h, left + n - 1, py)
    }
}

/// The first `rows` rows of the `s` by `s` square whose top-left corner is
/// `(left, top)` painted, top to bottom.
pub open spec fn paint_square(
    pixels: Seq<u8>,
    w: int,
    h: int,
    left: int,
    top: int,
    s: nat,
    rows: nat,
) -> Seq<u8>
    decreases rows,
{
    if rows == 0 {
        pixels
    } else {
        paint_row(paint_square(pixels, w, h, left, top, s, (rows - 1) as nat), w, h, left, top + rows - 1, s)
    }
}

/// One step of Bresenham's algorithm from `(x, y)` with error term `err`.
pub open spec fn bresenham_step(x: int, y: int, err: int, dx: int, dy: int, sx: int, sy: int) -> (int, int, int) {
    let e2 = 2 * err;
    let (x1, err1) = if e2 >= dy {
        (x + sx, err + dy)
    } else {
        (x, err)
    };
    let (y1, err2) = if e2 <= dx {
        (y + sy, err1 + dx)
    } else {
        (y, err1)
    };
    (x1, y1, err2)
}

/// Horizontal distance of a line.
pub open spec fn line_dx(x0: int, x1: int) -> int {
    if x1 >= x0 { x1 - x0 } else { x0 - x1 }
}

/// Negated vertical distance of a line.
pub open spec fn line_dy(y0: int, y1: int) -> int {
    if y1 >= y0 { y0 - y1 } else { y1 - y0 }
}

/// Direction of a coordinate step.
pub open spec fn line_dir(a: int, b: int) -> int {
    if a < b { 1 } else { -1 }
}

/// Position and error term of Bresenham's walk from `(x0, y0)` towards
/// `(x1, y1)` after `k` steps.
pub open spec fn line_state(x0: int, y0: int, x1: int, y1: int, k: nat) -> (int, int, int)
    decreases k,
{
    if k == 0 {
        (x0, y0, line_dx(x0, x1) + line_dy(y0, y1))
    } else {
        let p = line_state(x0, y0, x1, y1, (k - 1) as nat);
        bresenham_step(p.0, p.1, p.2, line_dx(x0, x1), line_dy(y0, y1), line_dir(x0, x1), line_dir(y0, y1))
    }
}

/// The walk's `k`-th position is the far end of the line.
pub open spec fn line_at_end(x0: int, y0: int, x1: int, y1: int, k: nat) -> bool {
    line_state(x0, y0, x1, y1, k).0 == x1 && line_state(x0, y0, x1, y1, k).1 == y1
}

/// The squares of side `s` centred on the first `k` positions of the walk
/// painted, in order.
pub open spec fn paint_line(
    pixels: Seq<u8>,
    w: int,
    h: int,
    x0: int,
    y0: int,
    x1: int,
    y1: int,
    s: nat,
    k: nat,
) -> Seq<u8>
    decreases k,
{
    if k == 0 {
        pixels
    } else {
        let p = line_state(x0, y0, x1, y1, (k - 1) as nat);
        paint_square(
            paint_line(pixels, w, h, x0, y0, x1, y1, s, (k - 1) as nat),
            w,
            h,
            p.0 - s / 2,
            p.1 - s / 2,
            s,
            s,
        )
    }
}

/// Number of steps Bresenham's walk takes to reach the far end.
pub open spec fn line_steps(x0: int, y0: int, x1: int, y1: int) -> nat {
    choose|n: nat| line_at_end(x0, y0, x1, y1, n) && forall|j: nat| j < n ==> !line_at_end(x0, y0, x1, y1, j)
}

/// `pixels` with the line from `(x0, y0)` to `(x1, y1)` drawn `s` pixels
/// thick.
pub open spec fn drawn_line(pixels: Seq<u8>, w: int, h: int, x0: int, y0: int, x1: int, y1: int, s: nat) -> Seq<u8> {
    paint_line(pixels, w, h, x0, y0, x1, y1, s, line_steps(x0, y0, x1, y1) + 1)
}

/// The `k`-th position of the walk lies in the rectangle spanned by the
/// line's two end points.
pub open spec fn walk_in_box(x0: int, y0: int, x1: int, y1: int, k: nat) -> bool {
    let p = line_state(x0, y0, x1, y1, k);
    &&& (if x0 <= x1 { x0 <= p.0 <= x1 } else { x1 <= p.0 <= x0 })
    &&& (if y0 <= y1 { y0 <= p.1 <= y1 } else { y1 <= p.1 <= y0 })
}

/// Largest coordinate or stroke width a line may be drawn with, so that
/// Bresenham's error term stays far inside `i32`.
pub const LINE_COORD_LIMIT: usize = 0x1000_0000;

fn paint_pixel_checked(pixels: &mut [u8], w: usize, h: usize, px: i32, py: i32)
    requires
        (w as int) * (h as int) * 4 <= usize::MAX,
    ensures
        final(pixels)@ == paint_pixel(old(pixels)@, w as int, h as int, px as int, py as int),
{
    if px >= 0 && py >= 0 && (px as usize) < w && (py as usize) < h {
        proof {
            let (x, y) = (px as int, py as int);
            assert(y * w + x < (w as int) * (h as int)) by (nonlinear_arith)
                requires
                    0 <= x < w,
                    0 <= y < h,
            ;
        }
        paint_px(pixels, w, px as usize, py as usize);
    }
}

/// Paints `rows` rows of `s` pixels whose top-left corner is `(left, top)`.
fn paint_square_exec(pixels: &mut [u8], w: usize, h: usize, left: i32, top: i32, s: i32, rows: i32)
    requires
        (w as int) * (h as int) * 4 <= usize::MAX,
        0 <= s,
        0 <= rows,
        i32::MIN <= left,
        left + s <= i32::MAX,
        i32::MIN <= top,
        top + rows <= i32::MAX,
    ensures
        final(pixels)@ == paint_square(old(pixels)@, w as int, h as int, left as int, top as int, s as nat, rows as nat),
{
    let mut oy: i32 = 0;
    while oy < rows
        invariant
            0 <= oy <= rows,
            0 <= s,
            (w as int) * (h as int) * 4 <= usize::MAX,
            top + rows <= i32::MAX,
            left + s <= i32::MAX,
            i32::MIN <= left,
            i32::MIN <= top,
            pixels@ == paint_square(old(pixels)@, w as int, h as int, left as int, top as int, s as nat, oy as nat),
        decreases rows - oy,
    {
        let ghost row_start = pixels@;
        let mut ox: i32 = 0;
        while ox < s
            invariant
                0 <= ox <= s,
                0 <= oy < rows,
                (w as int) * (h as int) * 4 <= usize::MAX,
                top + rows <= i32::MAX,
                left + s <= i32::MAX,
                i32::MIN <= left,
                i32::MIN <= top,
                pixels@ == paint_row(row_start, w as int, h as int, left as int, top + oy, ox as nat),
            decreases s - ox,
        {
            paint_pixel_checked(pixels, w, h, left + ox, top + oy);
            ox += 1;
        }
        oy += 1;
    }
}

proof fn lemma_mul_step(c: int, a: int)
    ensures
        c * (a + 1) == c * a + c,
{
    assert(c * (a + 1) == c * a + c) by (nonlinear_arith);
}

proof fn lemma_mul_le(c: int, a: int, b: int)
    requires
        c >= 0,
        a <= b,
    ensures
        c * a <= c * b,
{
    assert(c * a <= c * b) by (nonlinear_arith)
        requires
            c >= 0,
            a <= b,
    ;
}

/// Draws a line `stroke` pixels thick from `(x0, y0)` to `(x1, y1)` with
/// Bresenham's algorithm: the square of side `stroke` centred on each
/// position of the walk is painted white, clipped to the `w` by `h` image.
pub fn line(
    pixels: &mut [u8],
    w: usize,
    h: usize,
    x0: usize,
    y0: usize,
    x1: usize,
    y1: usize,
    stroke: usize,
)
    requires
        (w as int) * (h as int) * 4 <= usize::MAX,
        x0 < LINE_COORD_LIMIT,
        y0 < LINE_COORD_LIMIT,
        x1 < LINE_COORD_LIMIT,
        y1 < LINE_COORD_LIMIT,
        stroke < LINE_COORD_LIMIT,
    ensures
        exists|n: nat|
            {
                &&& #[trigger] line_at_end(x0 as int, y0 as int, x1 as int, y1 as int, n)
                &&& forall|j: nat| j < n ==> !line_at_end(x0 as int, y0 as int, x1 as int, y1 as int, j)
                &&& forall|j: nat| j <= n ==> walk_in_box(x0 as int, y0 as int, x1 as int, y1 as int, j)
                &&& final(pixels)@ == paint_line(
                    old(pixels)@,
                    w as int,
                    h as int,
                    x0 as int,
                    y0 as int,
                    x1 as int,
                    y1 as int,
                    stroke as nat,
                    n + 1,
                )
            },
        final(pixels)@ == drawn_line(
            old(pixels)@,
            w as int,
            h as int,
            x0 as int,
            y0 as int,
            x1 as int,
            y1 as int,
            stroke as nat,
        ),
{
    let ghost (gx0, gy0, gx1, gy1) = (x0 as int, y0 as int, x1 as int, y1 as int);
    let (mut x, mut y, tx, ty) = (x0 as i32, y0 as i32, x1 as i32, y1 as i32);
    let dx: i32 = if tx >= x { tx - x } else { x - tx };
    let dy: i32 = if ty >= y { y - ty } else { ty - y };
    let sx: i32 = if x < tx { 1 } else { -1 };
    let sy: i32 = if y < ty { 1 } else { -1 };
    let mut err: i32 = dx + dy;
    let s = stroke as i32;
    let ghost mut k: nat = 0;
    let ghost mut a: int = 0;
    let ghost mut b: int = 0;
    let ghost mut pa: int = 0;
    let ghost mut pb: int = 0;
    loop
        invariant_except_break
            pixels@ == paint_line(old(pixels)@, w as int, h as int, gx0, gy0, gx1, gy1, stroke as nat, k),
        invariant
            (w as int) * (h as int) * 4 <= usize::MAX,
            gx0 == x0 as int && gy0 == y0 as int && gx1 == x1 as int && gy1 == y1 as int,
            x0 < LINE_COORD_LIMIT,
            y0 < LINE_COORD_LIMIT,
            x1 < LINE_COORD_LIMIT,
            y1 < LINE_COORD_LIMIT,
            tx == gx1 && ty == gy1,
            0 <= s < LINE_COORD_LIMIT,
            s == stroke as int,
            dx == line_dx(gx0, gx1),
            dy == line_dy(gy0, gy1),
            sx == line_dir(gx0, gx1),
            sy == line_dir(gy0, gy1),
            line_state(gx0, gy0, gx1, gy1, k) == (x as int, y as int, err as int),
            0 <= a <= dx,
            0 <= b <= -dy,
            x == if sx == 1 { gx0 + a } else { gx0 - a },
            y == if sy == 1 { gy0 + b } else { gy0 - b },
            pa == (-dy) * a,
            pb == dx * b,
            err == dx + pb + dy - pa,
            2 * dy <= err <= 2 * dx,
            forall|j: nat| j < k ==> !line_at_end(gx0, gy0, gx1, gy1, j),
            forall|j: nat| j <= k ==> walk_in_box(gx0, gy0, gx1, gy1, j),
        ensures
            line_at_end(gx0, gy0, gx1, gy1, k),
            forall|j: nat| j < k ==> !line_at_end(gx0, gy0, gx1, gy1, j),
            pixels@ == paint_line(old(pixels)@, w as int, h as int, gx0, gy0, gx1, gy1, stroke as nat, k + 1),
        decreases (dx - a) + (-dy - b),
    {
        paint_square_exec(pixels, w, h, x - s / 2, y - s / 2, s, s);
        proof {
            assert(pixels@ == paint_line(old(pixels)@, w as int, h as int, gx0, gy0, gx1, gy1, stroke as nat, k + 1));
        }
        if x == tx && y == ty {
            proof {
                assert(line_at_end(gx0, gy0, gx1, gy1, k));
            }
            break;
        }
        proof {
            assert(!line_at_end(gx0, gy0, gx1, gy1, k));
        }
        let e2 = 2 * err;
        proof {
            let (ddx, ddy) = (dx as int, -dy as int);
            // With x at its target, the error term forbids another x step.
            if a == ddx {
                assert(x == tx);
                assert(b < ddy);
                lemma_mul_le(ddx, b, ddy - 1);
                lemma_mul_step(ddx, ddy - 1);
                assert(pa == ddx * ddy) by (nonlinear_arith)
                    requires
                        pa == ddy * a,
                        a == ddx,
                ;
                assert(2 * err < dy);
            }
            // With y at its target, the error term forbids another y step.
            if b == ddy {
                assert(y == ty);
                assert(a < ddx);
                lemma_mul_le(ddy, a, ddx - 1);
                lemma_mul_step(ddy, ddx - 1);
                assert(pb == ddy * ddx) by (nonlinear_arith)
                    requires
                        pb == ddx * b,
                        b == ddy,
                ;
                assert(2 * err > dx);
            }
        }
        if e2 >= dy {
            proof {
                lemma_mul_step(-dy as int, a);
                a = a + 1;
                pa = pa - dy;
            }
            err += dy;
            x += sx;
        }
        if e2 <= dx {
            proof {
                lemma_mul_step(dx as int, b);
                b = b + 1;
                pb = pb + dx;
            }
            err += dx;
            y += sy;
        }
        proof {
            k = k + 1;
            assert(walk_in_box(gx0, gy0, gx1, gy1, k));
        }
    }
    proof {
        assert(line_at_end(gx0, gy0, gx1, gy1, k));
        let n = line_steps(gx0, gy0, gx1, gy1);
        assert(line_at_end(gx0, gy0, gx1, gy1, n) && forall|j: nat| j < n ==> !line_at_end(gx0, gy0, gx1, gy1, j));
        if n < k {
        } else if k < n {
        }
        assert(n == k);
    }
}

/// The white strokes of the Bluetooth rune on the `w` by `h` icon: the
/// spine, `stroke` pixels wide, from `y_top` to `y_bot` at the centre, then
/// the four diagonals of the rune and the two arms from its centre, all
/// `stroke` pixels thick.
pub open spec fn spec_glyph_strokes(
    pixels: Seq<u8>,
    w: int,
    h: int,
    stroke: nat,
    x_left: int,
    x_right: int,
    y_top: int,
    y_bot: int,
    y_qh: int,
    y_ql: int,
) -> Seq<u8> {
    let cx = w / 2;
    let y_mid = h / 2;
    let spine_left = if cx >= stroke / 2 { cx - stroke / 2 } else { 0 };
    let rows = if y_bot >= y_top { y_bot - y_top + 1 } else { 0 };
    let p0 = paint_square(pixels, w, h, spine_left, y_top, stroke, rows as nat);
    let p1 = drawn_line(p0, w, h, cx, y_top, x_right, y_qh, stroke);
    let p2 = drawn_line(p1, w, h, x_right, y_qh, x_left, y_ql, stroke);
    let p3 = drawn_line(p2, w, h, x_left, y_qh, x_right, y_ql, stroke);
    let p4 = drawn_line(p3, w, h, x_right, y_ql, cx, y_bot, stroke);
    let p5 = drawn_line(p4, w, h, cx, y_mid, x_right, y_qh, stroke);
    drawn_line(p5, w, h, cx, y_mid, x_right, y_ql, stroke)
}

/// Draws the white strokes of the Bluetooth rune onto an RGBA icon. The
/// proportions (`x_left`, `x_right`, `y_top`, `y_bot`, `y_qh`, `y_ql`) and
/// the stroke width are fractions of the icon size worked out by the caller.
pub fn draw_glyph_strokes(
    pixels: &mut [u8],
    w: usize,
    h: usize,
    stroke: usize,
    x_left: usize,
    x_right: usize,
    y_top: usize,
    y_bot: usize,
    y_qh: usize,
    y_ql: usize,
)
    requires
        (w as int) * (h as int) * 4 <= usize::MAX,
        w < LINE_COORD_LIMIT,
        h < LINE_COORD_LIMIT,
        stroke < LINE_COORD_LIMIT,
        x_left < LINE_COORD_LIMIT,
        x_right < LINE_COORD_LIMIT,
        y_top < LINE_COORD_LIMIT,
        y_bot < LINE_COORD_LIMIT,
        y_qh < LINE_COORD_LIMIT,
        y_ql < LINE_COORD_LIMIT,
    ensures
        final(pixels)@ == spec_glyph_strokes(
            old(pixels)@,
            w as int,
            h as int,
            stroke as nat,
            x_left as int,
            x_right as int,
            y_top as int,
            y_bot as int,
            y_qh as int,
            y_ql as int,
        ),
{
    let cx = w / 2;
    let y_mid = h / 2;
    let spine_left: usize = if cx >= stroke / 2 {
        cx - stroke / 2
    } else {
        0
    };
    let rows: usize = if y_bot >= y_top {
        y_bot - y_top + 1
    } else {
        0
    };
    paint_square_exec(pixels, w, h, spine_left as i32, y_top as i32, stroke as i32, rows as i32);
    line(pixels, w, h, cx, y_top, x_right, y_qh, stroke);
    line(pixels, w, h, x_right, y_qh, x_left, y_ql, stroke);
    line(pixels, w, h, x_left, y_qh, x_right, y_ql, stroke);
    line(pixels, w, h, x_right, y_ql, cx, y_bot, stroke);
    line(pixels, w, h, cx, y_mid, x_right, y_qh, stroke);
    line(pixels, w, h, cx, y_mid, x_right, y_ql, stroke);
}

/// `after` differs from `before` only in bytes turned to 0xff: drawing
/// paints white and never erases.
pub open spec fn only_whitened(before: Seq<u8>, after: Seq<u8>) -> bool {
    &&& after.len() == before.len()
    &&& forall|i: int| 0 <= i < before.len() ==> #[trigger] after[i] == before[i] || after[i] == 0xff
}

proof fn lemma_whitened_trans(a: Seq<u8>, b: Seq<u8>, c: Seq<u8>)
    requires
        only_whitened(a, b),
        only_whitened(b, c),
    ensures
        only_whitened(a, c),
{
    assert forall|i: int| 0 <= i < a.len() implies #[trigger] c[i] == a[i] || c[i] == 0xff by {
        assert(b[i] == a[i] || b[i] == 0xff);
        assert(c[i] == b[i] || c[i] == 0xff);
    }
}

proof fn lemma_row_whitens(p: Seq<u8>, w: int, h: int, left: int, py: int, n: nat)
    ensures
        only_whitened(p, paint_row(p, w, h, left, py, n)),
    decreases n,
{
    if n > 0 {
        let q = paint_row(p, w, h, left, py, (n - 1) as nat);
        lemma_row_whitens(p, w, h, left, py, (n - 1) as nat);
        lemma_whitened_trans(p, q, paint_pixel(q, w, h, left + n - 1, py));
    }
}

proof fn lemma_square_whitens(p: Seq<u8>, w: int, h: int, left: int, top: int, s: nat, rows: nat)
    ensures
        only_whitened(p, paint_square(p, w, h, left, top, s, rows)),
    decreases rows,
{
    if rows > 0 {
        let q = paint_square(p, w, h, left, top, s, (rows - 1) as nat);
        lemma_square_whitens(p, w, h, left, top, s, (rows - 1) as nat);
        lemma_row_whitens(q, w, h, left, top + rows - 1, s);
        lemma_whitened_trans(p, q, paint_row(q, w, h, left, top + rows - 1, s));
    }
}

proof fn lemma_line_whitens(p: Seq<u8>, w: int, h: int, x0: int, y0: int, x1: int, y1: int, s: nat, k: nat)
    ensures
        only_whitened(p, paint_line(p, w, h, x0, y0, x1, y1, s, k)),
    decreases k,
{
    if k > 0 {
        let q = paint_line(p, w, h, x0, y0, x1, y1, s, (k - 1) as nat);
        let st = line_state(x0, y0, x1, y1, (k - 1) as nat);
        lemma_line_whitens(p, w, h, x0, y0, x1, y1, s, (k - 1) as nat);
        lemma_square_whitens(q, w, h, st.0 - s / 2, st.1 - s / 2, s, s);
        lemma_whitened_trans(p, q, paint_square(q, w, h, st.0 - s / 2, st.1 - s / 2, s, s));
    }
}

/// Drawing the rune only ever turns bytes white: every other byte of the
/// icon is left as it was, and the buffer keeps its length.
pub proof fn law_glyph_only_whitens(
    pixels: Seq<u8>,
    w: int,
    h: int,
    stroke: nat,
    x_left: int,
    x_right: int,
    y_top: int,
    y_bot: int,
    y_qh: int,
    y_ql: int,
)
    ensures
        only_whitened(
            pixels,
            spec_glyph_strokes(pixels, w, h, stroke, x_left, x_right, y_top, y_bot, y_qh, y_ql),
        ),
{
    let cx = w / 2;
    let y_mid = h / 2;
    let spine_left = if cx >= stroke / 2 { cx - stroke / 2 } else { 0 };
    let rows = if y_bot >= y_top { y_bot - y_top + 1 } else { 0 };
    let p0 = paint_square(pixels, w, h, spine_left, y_top, stroke, rows as nat);
    lemma_square_whitens(pixels, w, h, spine_left, y_top, stroke, rows as nat);
    let p1 = drawn_line(p0, w, h, cx, y_top, x_right, y_qh, stroke);
    lemma_line_whitens(p0, w, h, cx, y_top, x_right, y_qh, stroke, line_steps(cx, y_top, x_right, y_qh) + 1);
    lemma_whitened_trans(pixels, p0, p1);
    let p2 = drawn_line(p1, w, h, x_right, y_qh, x_left, y_ql, stroke);
    lemma_line_whitens(p1, w, h, x_right, y_qh, x_left, y_ql, stroke, line_steps(x_right, y_qh, x_left, y_ql) + 1);
    lemma_whitened_trans(pixels, p1, p2);
    let p3 = drawn_line(p2, w, h, x_left, y_qh, x_right, y_ql, stroke);
    lemma_line_whitens(p2, w, h, x_left, y_qh, x_right, y_ql, stroke, line_steps(x_left, y_qh, x_right, y_ql) + 1);
    lemma_whitened_trans(pixels, p2, p3);
    let p4 = drawn_line(p3, w, h, x_right, y_ql, cx, y_bot, stroke);
    lemma_line_whitens(p3, w, h, x_right, y_ql, cx, y_bot, stroke, line_steps(x_right, y_ql, cx, y_bot) + 1);
    lemma_whitened_trans(pixels, p3, p4);
    let p5 = drawn_line(p4, w, h, cx, y_mid, x_right, y_qh, stroke);
    lemma_line_whitens(p4, w, h, cx, y_mid, x_right, y_qh, stroke, line_steps(cx, y_mid, x_right, y_qh) + 1);
    lemma_whitened_trans(pixels, p4, p5);
    let p6 = drawn_line(p5, w, h, cx, y_mid, x_right, y_ql, stroke);
    lemma_line_whitens(p5, w, h, cx, y_mid, x_right, y_ql, stroke, line_steps(cx, y_mid, x_right, y_ql) + 1);
    lemma_whitened_trans(pixels, p5, p6);
}

} // verus!
