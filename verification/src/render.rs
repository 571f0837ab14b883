//! Render configuration and the integer parts of turning a camera frame into
//! a grid of characters: brightness-to-character mapping, the 3x3 blur of a
//! grayscale buffer, the Sobel edge test and the per-cell decision.
use vstd::prelude::*;

use crate::charsets::{charset_chars, CharsetName};

verus! {

/// Rendering mode.
#[derive(Debug, Clone, Copy, PartialEq, Eq, Structural)]
pub enum RenderMode {
    Normal,
    Outline,
}

/// Background handling: none, motion-based, or person segmentation.
#[derive(Debug, Clone, Copy, PartialEq, Eq, Structural)]
pub enum BgMode {
    Off,
    Motion,
    Person,
}

/// Render configuration.
#[derive(Debug, Clone, Copy, PartialEq, Eq, Structural)]
pub struct RenderConfig {
    pub mode: RenderMode,
    pub charset: CharsetName,
    pub color: bool,
    pub brightness_threshold: u8,
    pub bg_mode: BgMode,
    pub mirror: bool,
    pub contour: bool,
}

/// The configuration a fresh viewer starts with.
pub open spec fn default_render_config() -> RenderConfig {
    RenderConfig {
        mode: RenderMode::Normal,
        charset: CharsetName::Standard,
        color: false,
        brightness_threshold: 10,
        bg_mode: BgMode::Off,
        mirror: false,
        contour: false,
    }
}

impl Default for RenderConfig {
    fn default() -> (r: Self)
        ensures
            r == default_render_config(),
    {
        RenderConfig {
            mode: RenderMode::Normal,
            charset: CharsetName::Standard,
            color: false,
            brightness_threshold: 10,
            bg_mode: BgMode::Off,
            mirror: false,
            contour: false,
        }
    }
}

/// A single rendered ASCII cell, optionally with color.
#[derive(Debug, Clone, Copy, PartialEq, Eq)]
pub struct AsciiCell {
    pub ch: char,
    /// RGB color if color mode is on.
    pub color: Option<(u8, u8, u8)>,
}

/// Index into a charset of `n` characters for a brightness in 0..=255.
pub open spec fn brightness_index(brightness: u8, n: nat) -> int {
    (brightness * (n - 1)) / 255
}

/// The index stays inside the charset, grows with the brightness, and the two
/// ends of the brightness range pick the first and the last character.
pub proof fn lemma_brightness_index(b1: u8, b2: u8, n: nat)
    requires
        n >= 1,
    ensures
        0 <= brightness_index(b1, n) < n,
        b1 <= b2 ==> brightness_index(b1, n) <= brightness_index(b2, n),
        brightness_index(0, n) == 0,
        brightness_index(255, n) == n - 1,
{
    let m = (n - 1) as int;
    assert(0 <= b1 * m <= 255 * m) by (nonlinear_arith)
        requires
            0 <= b1 <= 255,
            m >= 0,
    ;
    assert((255 * m) / 255 == m) by (nonlinear_arith);
    assert((b1 * m) / 255 <= m) by (nonlinear_arith)
        requires
            0 <= b1 * m <= 255 * m,
            (255 * m) / 255 == m,
    ;
    assert((b1 * m) / 255 >= 0) by (nonlinear_arith)
        requires
            0 <= b1 * m,
    ;
    if b1 <= b2 {
        assert(b1 * m <= b2 * m) by (nonlinear_arith)
            requires
                b1 <= b2,
                m >= 0,
        ;
        assert((b1 * m) / 255 <= (b2 * m) / 255) by (nonlinear_arith)
            requires
                b1 * m <= b2 * m,
        ;
    }
}

/// Convert brightness (0–255) to a character from the charset.
pub fn brightness_to_char(brightness: u8, charset: &[char]) -> (c: char)
    requires
        charset@.len() >= 1,
    ensures
        c == charset@[brightness_index(brightness, charset@.len())],
{
    proof {
        lemma_brightness_index(brightness, brightness, charset@.len());
    }
    let last = (charset.len() - 1) as u128;
    proof {
        assert(brightness * last <= 255 * 0xffff_ffff_ffff_ffffu128) by (nonlinear_arith)
            requires
                brightness <= 255,
                last <= 0xffff_ffff_ffff_ffffu128,
        ;
    }
    let wide = (brightness as u128 * last) / 255;
    assert(wide == brightness_index(brightness, charset@.len()));
    let idx = wide as usize;
    charset[idx]
}

/// Horizontal pass of the [1, 2, 1] / 4 kernel at flat position `k` of a
/// `w`-wide buffer, repeating the edge pixel at the left and right borders.
pub open spec fn hblur(g: Seq<u8>, w: int, k: int) -> int {
    let c = g[k] as int;
    let l = if k % w > 0 { g[k - 1] as int } else { c };
    let r = if k % w + 1 < w { g[k + 1] as int } else { c };
    (l + 2 * c + r) / 4
}

/// Vertical pass of the [1, 2, 1] / 4 kernel at flat position `k` of a buffer
/// of `n` values in rows of `w`, repeating the edge row at the top and bottom.
pub open spec fn vblur(t: Seq<u8>, w: int, n: int, k: int) -> int {
    let c = t[k] as int;
    let u = if k >= w { t[k - w] as int } else { c };
    let d = if k + w < n { t[k + w] as int } else { c };
    (u + 2 * c + d) / 4
}

/// The horizontally blurred buffer.
pub open spec fn hblur_all(g: Seq<u8>, w: int, n: int) -> Seq<u8> {
    Seq::new(n as nat, |k: int| hblur(g, w, k) as u8)
}

/// The 3x3 blur of a `w`-wide buffer of `n` values, as the two passes give it.
pub open spec fn blurred(g: Seq<u8>, w: int, n: int) -> Seq<u8> {
    Seq::new(n as nat, |k: int| vblur(hblur_all(g, w, n), w, n, k) as u8)
}

proof fn lemma_mod_step(i: int, w: int, q: int, x: int)
    requires
        w > 0,
        0 <= x < w,
        i == q * w + x,
    ensures
        i % w == x,
        i / w == q,
{
    vstd::arithmetic::div_mod::lemma_fundamental_div_mod_converse(i, w, q, x);
}

/// 3×3 Gaussian blur ([1, 2, 1] / 4, separable) on a grayscale buffer.
pub fn gaussian_blur_3x3(gray: &[u8], w: u32, h: u32) -> (out: Vec<u8>)
    requires
        w * h <= u32::MAX,
        gray@.len() >= w * h,
    ensures
        out@ == blurred(gray@, w as int, w * h),
{
    let n: usize = (w as usize) * (h as usize);
    let ghost nn = w * h;
    let wu = w as usize;
    // Horizontal pass.
    let mut tmp: Vec<u8> = Vec::new();
    let mut i: usize = 0;
    let mut x: usize = 0;
    let ghost mut q: int = 0;
    while i < n
        invariant
            n == nn,
            nn <= u32::MAX,
            n == wu * h,
            gray@.len() >= n,
            wu == w,
            i <= n,
            wu > 0 ==> x < wu,
            wu > 0 ==> i == q * wu + x,
            tmp@.len() == i,
            forall|k: int| 0 <= k < i ==> tmp@[k] == hblur(gray@, w as int, k) as u8,
        decreases n - i,
    {
        proof {
            if wu == 0 {
                assert(n == 0) by (nonlinear_arith)
                    requires
                        n == wu * h,
                        wu == 0,
                ;
            }
            lemma_mod_step(i as int, wu as int, q, x as int);
            if x + 1 < wu {
                assert(i + 1 < n) by (nonlinear_arith)
                    requires
                        i == q * wu + x,
                        x + 1 < wu,
                        i < n,
                        n == wu * h,
                        0 <= x,
                ;
            }
        }
        let c = gray[i] as u32;
        let l = if x > 0 { gray[i - 1] as u32 } else { c };
        let r = if x + 1 < wu { gray[i + 1] as u32 } else { c };
        tmp.push(((l + 2 * c + r) / 4) as u8);
        i = i + 1;
        if x + 1 < wu {
            x = x + 1;
        } else {
            proof {
                assert((q + 1) * wu == q * wu + wu) by (nonlinear_arith);
            }
            x = 0;
            proof {
                q = q + 1;
            }
        }
    }
    assert(tmp@ =~= hblur_all(gray@, w as int, nn));
    // Vertical pass.
    let mut out: Vec<u8> = Vec::new();
    let mut j: usize = 0;
    while j < n
        invariant
            n == nn,
            nn <= u32::MAX,
            n == wu * h,
            wu == w,
            tmp@ == hblur_all(gray@, w as int, nn),
            j <= n,
            out@.len() == j,
            forall|k: int| 0 <= k < j ==> out@[k] == vblur(tmp@, w as int, nn, k) as u8,
        decreases n - j,
    {
        let c = tmp[j] as u32;
        let u = if j >= wu { tmp[j - wu] as u32 } else { c };
        let d = if n - j > wu { tmp[j + wu] as u32 } else { c };
        out.push(((u + 2 * c + d) / 4) as u8);
        j = j + 1;
    }
    assert(out@ =~= blurred(gray@, w as int, nn));
    out
}

/// Gray value at column `x`, row `y` of a `w`-wide buffer.
pub open spec fn px(g: Seq<u8>, w: int, x: int, y: int) -> int {
    g[y * w + x] as int
}

/// Horizontal Sobel gradient at (x, y).
pub open spec fn sobel_x(g: Seq<u8>, w: int, x: int, y: int) -> int {
    -px(g, w, x - 1, y - 1) + px(g, w, x + 1, y - 1) - 2 * px(g, w, x - 1, y) + 2 * px(g, w, x + 1, y)
        - px(g, w, x - 1, y + 1) + px(g, w, x + 1, y + 1)
}

/// Vertical Sobel gradient at (x, y).
pub open spec fn sobel_y(g: Seq<u8>, w: int, x: int, y: int) -> int {
    -px(g, w, x - 1, y - 1) - 2 * px(g, w, x, y - 1) - px(g, w, x + 1, y - 1) + px(g, w, x - 1, y + 1)
        + 2 * px(g, w, x, y + 1) + px(g, w, x + 1, y + 1)
}

/// Whether (x, y) lies on the one-pixel border where no edge is reported.
pub open spec fn on_border(w: int, h: int, x: int, y: int) -> bool {
    x == 0 || y == 0 || x >= w - 1 || y >= h - 1
}

/// The Sobel gradient at (x, y), when (x, y) is inside the border and the
/// gradient magnitude reaches twice the threshold.
pub open spec fn edge_gradient_spec(g: Seq<u8>, w: int, h: int, x: int, y: int, threshold: u8) -> Option<
    (int, int),
> {
    if on_border(w, h, x, y) {
        None
    } else {
        let gx = sobel_x(g, w, x, y);
        let gy = sobel_y(g, w, x, y);
        if gx * gx + gy * gy < 4 * threshold * threshold {
            None
        } else {
            Some((gx, gy))
        }
    }
}

proof fn lemma_row_index(w: int, h: int, x: int, y: int)
    requires
        0 <= x < w,
        0 <= y < h,
    ensures
        0 <= y * w + x < w * h,
        y * w + x + 1 <= w * h,
{
    assert(0 <= y * w + x < w * h) by (nonlinear_arith)
        requires
            0 <= x < w,
            0 <= y < h,
    ;
}

/// Sobel edge test at a single pixel: the gradient when it is strong enough to draw.
pub fn edge_gradient(gray: &[u8], w: u32, h: u32, x: u32, y: u32, threshold: u8) -> (r: Option<
    (i32, i32),
>)
    requires
        x == 0 || y == 0 || (w > 0 && (x >= w - 1 || h > 0)),
        !on_border(w as int, h as int, x as int, y as int) ==> w * h <= u32::MAX + 1 && gray@.len()
            >= w * h,
    ensures
        match r {
            Some((gx, gy)) => edge_gradient_spec(gray@, w as int, h as int, x as int, y as int, threshold)
                == Some((gx as int, gy as int)),
            None => edge_gradient_spec(gray@, w as int, h as int, x as int, y as int, threshold) is None,
        },
{
    if x == 0 || y == 0 || x >= w - 1 || y >= h - 1 {
        return None;
    }
    let wu = w as usize;
    proof {
        lemma_row_index(w as int, h as int, x as int, y as int);
        lemma_row_index(w as int, h as int, (x + 1) as int, (y + 1) as int);
        lemma_row_index(w as int, h as int, (x - 1) as int, (y - 1) as int);
        assert((y - 1) * w + (x - 1) + 2 * w + 2 == (y + 1) * w + (x + 1)) by (nonlinear_arith);
    }
    let c = (y as usize) * wu + (x as usize);
    let ghost gs = gray@;
    proof {
        assert(c == y * w + x);
        assert((y - 1) * w + (x - 1) == c - w - 1) by (nonlinear_arith)
            requires
                c == y * w + x,
        ;
        assert((y - 1) * w + x == c - w) by (nonlinear_arith)
            requires
                c == y * w + x,
        ;
        assert((y - 1) * w + (x + 1) == c - w + 1) by (nonlinear_arith)
            requires
                c == y * w + x,
        ;
        assert(y * w + (x - 1) == c - 1);
        assert(y * w + (x + 1) == c + 1);
        assert((y + 1) * w + (x - 1) == c + w - 1) by (nonlinear_arith)
            requires
                c == y * w + x,
        ;
        assert((y + 1) * w + x == c + w) by (nonlinear_arith)
            requires
                c == y * w + x,
        ;
        assert((y + 1) * w + (x + 1) == c + w + 1) by (nonlinear_arith)
            requires
                c == y * w + x,
        ;
    }
    let tl = gray[c - wu - 1] as i32;
    let tc = gray[c - wu] as i32;
    let tr = gray[c - wu + 1] as i32;
    let ml = gray[c - 1] as i32;
    let mr = gray[c + 1] as i32;
    let bl = gray[c + wu - 1] as i32;
    let bc = gray[c + wu] as i32;
    let br = gray[c + wu + 1] as i32;
    let gx = -tl + tr - 2 * ml + 2 * mr - bl + br;
    let gy = -tl - 2 * tc - tr + bl + 2 * bc + br;
    let t = threshold as i32;
    assert(0 <= gx * gx <= 1020 * 1020 && 0 <= gy * gy <= 1020 * 1020) by (nonlinear_arith)
        requires
            -1020 <= gx <= 1020,
            -1020 <= gy <= 1020,
    ;
    assert(0 <= t * t <= 255 * 255) by (nonlinear_arith)
        requires
            0 <= t <= 255,
    ;
    assert(4 * t * t == 4 * (t * t)) by (nonlinear_arith);
    let tt = t * t;
    if gx * gx + gy * gy < 4 * tt {
        None
    } else {
        Some((gx, gy))
    }
}

/// Each of the three pixels of row `ya` around column `x` is at least as
/// bright as the pixel of row `yb` in the same column.
pub open spec fn row_at_least(g: Seq<u8>, w: int, x: int, ya: int, yb: int) -> bool {
    &&& px(g, w, x - 1, ya) >= px(g, w, x - 1, yb)
    &&& px(g, w, x, ya) >= px(g, w, x, yb)
    &&& px(g, w, x + 1, ya) >= px(g, w, x + 1, yb)
}

/// Row `ya` is at least as bright as row `yb` around column `x`, and
/// brighter in at least one of the three columns.
pub open spec fn row_brighter(g: Seq<u8>, w: int, x: int, ya: int, yb: int) -> bool {
    &&& row_at_least(g, w, x, ya, yb)
    &&& (px(g, w, x - 1, ya) > px(g, w, x - 1, yb) || px(g, w, x, ya) > px(g, w, x, yb) || px(
        g,
        w,
        x + 1,
        ya,
    ) > px(g, w, x + 1, yb))
}

/// Each of the three pixels of column `xa` around row `y` is at least as
/// bright as the pixel of column `xb` in the same row.
pub open spec fn col_at_least(g: Seq<u8>, w: int, y: int, xa: int, xb: int) -> bool {
    &&& px(g, w, xa, y - 1) >= px(g, w, xb, y - 1)
    &&& px(g, w, xa, y) >= px(g, w, xb, y)
    &&& px(g, w, xa, y + 1) >= px(g, w, xb, y + 1)
}

/// Column `xa` is at least as bright as column `xb` around row `y`, and
/// brighter in at least one of the three rows.
pub open spec fn col_brighter(g: Seq<u8>, w: int, y: int, xa: int, xb: int) -> bool {
    &&& col_at_least(g, w, y, xa, xb)
    &&& (px(g, w, xa, y - 1) > px(g, w, xb, y - 1) || px(g, w, xa, y) > px(g, w, xb, y) || px(
        g,
        w,
        xa,
        y + 1,
    ) > px(g, w, xb, y + 1))
}

/// Which way the reported gradient points. Inside the border, at threshold 0
/// every pixel reports a gradient; a reported gradient `(gx, gy)` is at least
/// twice the threshold long, and it points from dark to bright: with the row
/// above brighter than the row below, `gy` is negative (positive the other
/// way round, zero when the two rows match), and with the left column
/// brighter than the right one, `gx` is negative (positive the other way
/// round, zero when the two columns match).
pub proof fn lemma_edge_gradient_direction(g: Seq<u8>, w: int, h: int, x: int, y: int, threshold: u8)
    requires
        !on_border(w, h, x, y),
    ensures
        edge_gradient_spec(g, w, h, x, y, 0) is Some,
        edge_gradient_spec(g, w, h, x, y, threshold) matches Some((gx, gy)) ==> {
            &&& gx * gx + gy * gy >= 4 * threshold * threshold
            &&& row_at_least(g, w, x, y - 1, y + 1) ==> gy <= 0
            &&& row_brighter(g, w, x, y - 1, y + 1) ==> gy < 0
            &&& row_at_least(g, w, x, y + 1, y - 1) ==> gy >= 0
            &&& row_brighter(g, w, x, y + 1, y - 1) ==> gy > 0
            &&& col_at_least(g, w, y, x - 1, x + 1) ==> gx <= 0
            &&& col_brighter(g, w, y, x - 1, x + 1) ==> gx < 0
            &&& col_at_least(g, w, y, x + 1, x - 1) ==> gx >= 0
            &&& col_brighter(g, w, y, x + 1, x - 1) ==> gx > 0
        },
{
    let gx = sobel_x(g, w, x, y);
    let gy = sobel_y(g, w, x, y);
    assert(gx * gx >= 0 && gy * gy >= 0) by (nonlinear_arith);
    assert(4 * 0u8 * 0u8 == 0);
}

/// Per-cell measurements taken from the camera frame: the cell's average
/// color, its luminance, and the edge character for outline mode.
#[derive(Debug, Clone, Copy, PartialEq, Eq)]
pub struct CellSample {
    pub rgb: (u8, u8, u8),
    pub brightness: u8,
    pub edge: char,
}

/// The character drawn for a sampled cell.
pub open spec fn cell_char(s: CellSample, config: RenderConfig) -> char {
    if s.brightness < config.brightness_threshold {
        ' '
    } else {
        match config.mode {
            RenderMode::Normal => charset_chars(config.charset)[brightness_index(
                s.brightness,
                charset_chars(config.charset).len(),
            )],
            RenderMode::Outline => s.edge,
        }
    }
}

/// The rendered cell for a sample: color is kept only in color mode and only
/// on non-blank characters.
pub open spec fn cell_of(s: CellSample, config: RenderConfig) -> AsciiCell {
    let ch = cell_char(s, config);
    AsciiCell { ch, color: if config.color && ch != ' ' { Some(s.rgb) } else { None } }
}

/// Render one sampled cell.
pub fn render_cell(s: CellSample, config: &RenderConfig) -> (c: AsciiCell)
    ensures
        c == cell_of(s, *config),
{
    let ch = if s.brightness < config.brightness_threshold {
        ' '
    } else {
        match config.mode {
            RenderMode::Normal => {
                let cs = config.charset.chars();
                proof {
                    crate::charsets::lemma_charset_shape(config.charset);
                    assert(cs@.len() <= 155);
                    assert(s.brightness * (cs@.len() - 1) <= 255 * 154) by (nonlinear_arith)
                        requires
                            s.brightness <= 255,
                            1 <= cs@.len() <= 155,
                    ;
                }
                brightness_to_char(s.brightness, cs)
            },
            RenderMode::Outline => s.edge,
        }
    };
    let color = if config.color && ch != ' ' {
        Some(s.rgb)
    } else {
        None
    };
    AsciiCell { ch, color }
}

/// How a cell is drawn. Below the brightness threshold it is blank and
/// uncolored. Above it, in normal mode, it is a character of the configured
/// charset's ramp: the `k`-th of its `n` characters exactly when `k / (n - 1)`
/// is the largest step of the ramp not above `brightness / 255`, so full
/// brightness draws the ramp's last character; in outline mode it is the
/// sampled edge character. Without color mode no cell carries a color.
pub proof fn lemma_render_cell_ramp(s: CellSample, config: RenderConfig, k: int)
    ensures
        s.brightness < config.brightness_threshold ==> cell_of(s, config).ch == ' ' && cell_of(
            s,
            config,
        ).color is None,
        ({
            let ramp = charset_chars(config.charset);
            let n = ramp.len();
            config.mode == RenderMode::Normal && s.brightness >= config.brightness_threshold ==> {
                &&& ramp.contains(cell_of(s, config).ch)
                &&& (0 <= k < n && k * 255 <= s.brightness * (n - 1) < (k + 1) * 255) ==> cell_of(
                    s,
                    config,
                ).ch == ramp[k]
                &&& s.brightness == 255 ==> cell_of(s, config).ch == ramp.last()
            }
        }),
        config.mode == RenderMode::Outline && s.brightness >= config.brightness_threshold ==> cell_of(
            s,
            config,
        ).ch == s.edge,
        !config.color ==> cell_of(s, config).color is None,
{
    let ramp = charset_chars(config.charset);
    let n = ramp.len();
    crate::charsets::lemma_charset_shape(config.charset);
    lemma_brightness_index(s.brightness, 255, n);
    let i = brightness_index(s.brightness, n);
    if config.mode == RenderMode::Normal && s.brightness >= config.brightness_threshold {
        assert(cell_of(s, config).ch == ramp[i]);
        assert(ramp.contains(ramp[i]));
        if 0 <= k < n && k * 255 <= s.brightness * (n - 1) < (k + 1) * 255 {
            assert((s.brightness * (n - 1)) / 255 == k) by (nonlinear_arith)
                requires
                    k * 255 <= s.brightness * (n - 1) < (k + 1) * 255,
            ;
        }
    }
}

/// Render a grid of sampled cells (rows × cols) to ASCII cells.
pub fn render_grid(samples: &Vec<Vec<CellSample>>, config: &RenderConfig) -> (grid: Vec<
    Vec<AsciiCell>,
>)
    ensures
        grid@.len() == samples@.len(),
        forall|i: int|
            0 <= i < samples@.len() ==> #[trigger] grid@[i]@ == samples@[i]@.map_values(
                |s: CellSample| cell_of(s, *config),
            ),
{
    let mut grid: Vec<Vec<AsciiCell>> = Vec::new();
    let mut i: usize = 0;
    while i < samples.len()
        invariant
            i <= samples@.len(),
            grid@.len() == i,
            forall|k: int|
                0 <= k < i ==> #[trigger] grid@[k]@ == samples@[k]@.map_values(
                    |s: CellSample| cell_of(s, *config),
                ),
        decreases samples@.len() - i,
    {
        let row = &samples[i];
        let mut line: Vec<AsciiCell> = Vec::new();
        let mut j: usize = 0;
        while j < row.len()
            invariant
                j <= row@.len(),
                line@ == row@.subrange(0, j as int).map_values(|s: CellSample| cell_of(s, *config)),
            decreases row@.len() - j,
        {
            line.push(render_cell(row[j], config));
            j = j + 1;
            assert(line@ =~= row@.subrange(0, j as int).map_values(
                |s: CellSample| cell_of(s, *config),
            ));
        }
        assert(row@.subrange(0, row@.len() as int) =~= row@);
        grid.push(line);
        i = i + 1;
    }
    grid
}

/// Where a pixel of a `w`-pixel-wide row lands when the frame is flipped
/// horizontally: the same row, column `w - 1 - x`.
pub open spec fn mirror_source(w: int, x: int, y: int) -> int {
    (y * w + (w - 1 - x)) * 3
}

proof fn lemma_mirror_indices(w: int, h: int, x: int, y: int)
    requires
        0 <= x < w,
        0 <= y < h,
    ensures
        0 <= mirror_source(w, x, y),
        mirror_source(w, x, y) + 2 < w * h * 3,
        (y * w + x) * 3 == y * w * 3 + x * 3,
        (y * w + x) * 3 + 2 < w * h * 3,
{
    assert(0 <= y * w) by (nonlinear_arith)
        requires
            0 <= y,
            0 <= w,
    ;
    assert(y * w + w <= w * h) by (nonlinear_arith)
        requires
            0 <= y < h,
            0 <= w,
    ;
    assert((y * w + x) * 3 == y * w * 3 + x * 3) by (nonlinear_arith);
    assert(mirror_source(w, x, y) == y * w * 3 + (w - 1 - x) * 3) by (nonlinear_arith);
    assert(w * h * 3 == (w * h) * 3);
}

/// The RGB frame flipped horizontally: pixel (x, y) of the result is pixel
/// (w - 1 - x, y) of `rgb`.
pub fn mirror_rgb(rgb: &[u8], w: u32, h: u32) -> (out: Vec<u8>)
    requires
        w * h * 3 <= u32::MAX,
        rgb@.len() >= w * h * 3,
    ensures
        out@.len() == w * h * 3,
        forall|y: int, x: int, c: int|
            0 <= y < h && 0 <= x < w && 0 <= c < 3 ==> #[trigger] out@[(y * w + x) * 3 + c]
                == rgb@[mirror_source(w as int, x, y) + c],
{
    let mut out: Vec<u8> = Vec::new();
    let wu = w as usize;
    let hu = h as usize;
    let mut y: usize = 0;
    while y < hu
        invariant
            wu == w,
            hu == h,
            w * h * 3 <= u32::MAX,
            rgb@.len() >= w * h * 3,
            y <= h,
            out@.len() == y * w * 3,
            forall|ay: int, ax: int, c: int|
                0 <= ay < y && 0 <= ax < w && 0 <= c < 3 ==> #[trigger] out@[(ay * w + ax) * 3 + c]
                    == rgb@[mirror_source(w as int, ax, ay) + c],
        decreases hu - y,
    {
        let mut x: usize = 0;
        while x < wu
            invariant
                wu == w,
                hu == h,
                w * h * 3 <= u32::MAX,
                rgb@.len() >= w * h * 3,
                y < h,
                x <= w,
                out@.len() == y * w * 3 + x * 3,
                forall|ay: int, ax: int, c: int|
                    0 <= ay < y && 0 <= ax < w && 0 <= c < 3 ==> #[trigger] out@[(ay * w + ax) * 3 + c]
                        == rgb@[mirror_source(w as int, ax, ay) + c],
                forall|ax: int, c: int|
                    0 <= ax < x && 0 <= c < 3 ==> #[trigger] out@[(y * w + ax) * 3 + c]
                        == rgb@[mirror_source(w as int, ax, y as int) + c],
            decreases wu - x,
        {
            proof {
                lemma_mirror_indices(w as int, h as int, x as int, y as int);
            }
            let src = (y * wu + (wu - 1 - x)) * 3;
            let ghost before = out@;
            out.push(rgb[src]);
            out.push(rgb[src + 1]);
            out.push(rgb[src + 2]);
            proof {
                assert forall|ay: int, ax: int, c: int|
                    0 <= ay < y && 0 <= ax < w && 0 <= c < 3 implies #[trigger] out@[(ay * w + ax) * 3
                        + c] == rgb@[mirror_source(w as int, ax, ay) + c] by {
                    lemma_mirror_indices(w as int, y as int, ax, ay);
                    assert(w * y * 3 == y * w * 3) by (nonlinear_arith);
                    assert(out@[(ay * w + ax) * 3 + c] == before[(ay * w + ax) * 3 + c]);
                }
                assert forall|ax: int, c: int| 0 <= ax < x + 1 && 0 <= c < 3 implies #[trigger] out@[(y * w
                    + ax) * 3 + c] == rgb@[mirror_source(w as int, ax, y as int) + c] by {
                    assert((y * w + ax) * 3 == y * w * 3 + ax * 3) by (nonlinear_arith);
                    if ax < x {
                        assert(out@[(y * w + ax) * 3 + c] == before[(y * w + ax) * 3 + c]);
                    }
                }
            }
            x = x + 1;
        }
        proof {
            assert(y * w * 3 + w * 3 == (y + 1) * w * 3) by (nonlinear_arith);
        }
        y = y + 1;
    }
    proof {
        assert(h * w * 3 == w * h * 3) by (nonlinear_arith);
    }
    out
}

} // verus!
