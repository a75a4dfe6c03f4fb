use vstd::prelude::*;
use crate::entity::in_i32;
use crate::util::{clamp, clamp_spec};

verus! {

/// The coverage at column `x` of `row`: 0 past its end.
pub open spec fn cell(row: Seq<u8>, x: int) -> int {
    if 0 <= x < row.len() {
        row[x] as int
    } else {
        0
    }
}

/// `row` with the glyph row `src` added in from column `off`: it grows to
/// cover the glyph, and each covered cell becomes the sum, held to 0..=255.
pub open spec fn blit_row_spec(row: Seq<u8>, off: int, src: Seq<u8>) -> Seq<u8> {
    let len = if row.len() >= off + src.len() {
        row.len() as int
    } else {
        off + src.len()
    };
    Seq::new(
        len as nat,
        |x: int|
            if off <= x < off + src.len() {
                clamp_spec(cell(row, x) + src[x - off] as int, 0, 255) as u8
            } else {
                cell(row, x) as u8
            },
    )
}

/// Adds the glyph row `src[from..from + w]` into `row` from column `off`.
fn blit_row(row: &mut Vec<u8>, off: usize, src: &Vec<u8>, from: usize, w: usize)
    requires
        from + w <= src@.len(),
        off + w <= usize::MAX,
    ensures
        final(row)@ == blit_row_spec(old(row)@, off as int, src@.subrange(from as int, from + w)),
{
    let ghost before = row@;
    let ghost glyph = src@.subrange(from as int, from + w);
    let end = off + w;
    while row.len() < end
        invariant
            end == off + w,
            row@.len() >= before.len(),
            row@.len() <= before.len() || row@.len() <= end,
            forall|x: int| 0 <= x < row@.len() ==> #[trigger] row@[x] as int == cell(before, x),
        decreases end - row@.len(),
    {
        row.push(0);
    }
    let ghost padded = row@;
    let n = src.len();
    let mut x: usize = 0;
    while x < w
        invariant
            x <= w,
            end == off + w,
            from + w <= src@.len(),
            n == src@.len(),
            glyph == src@.subrange(from as int, from + w),
            row@.len() == padded.len(),
            padded.len() >= end,
            padded.len() == if before.len() >= end {
                before.len() as int
            } else {
                end as int
            },
            forall|c: int| 0 <= c < padded.len() ==> #[trigger] padded[c] as int == cell(before, c),
            forall|c: int|
                0 <= c < row@.len() ==> #[trigger] row@[c] == if off <= c < off + x {
                    clamp_spec(cell(before, c) + glyph[c - off] as int, 0, 255) as u8
                } else {
                    padded[c]
                },
        decreases w - x,
    {
        let c = off + x;
        proof {
            assert(from + x < n);
        }
        let v = clamp(src[from + x] as i32 + row[c] as i32, 0, 255);
        row.set(c, v as u8);
        x += 1;
    }
    proof {
        assert(row@ =~= blit_row_spec(before, off as int, glyph));
    }
}

/// The keys increase strictly along `keys`.
pub open spec fn keys_sorted(keys: Seq<i32>) -> bool {
    forall|i: int, j: int| 0 <= i < j < keys.len() ==> keys[i] < keys[j]
}

/// The number of leading keys below `r`: where `r` is, or goes, in sorted `keys`.
pub open spec fn lower_bound(keys: Seq<i32>, r: i32) -> int
    decreases keys.len(),
{
    if keys.len() == 0 || keys[0] >= r {
        0
    } else {
        1 + lower_bound(keys.drop_first(), r)
    }
}

proof fn lemma_lower_bound(keys: Seq<i32>, r: i32)
    requires
        keys_sorted(keys),
    ensures
        0 <= lower_bound(keys, r) <= keys.len(),
        forall|i: int| 0 <= i < lower_bound(keys, r) ==> keys[i] < r,
        forall|i: int| lower_bound(keys, r) <= i < keys.len() ==> keys[i] >= r,
    decreases keys.len(),
{
    if keys.len() > 0 && keys[0] < r {
        let t = keys.drop_first();
        assert(keys_sorted(t)) by {
            assert forall|i: int, j: int| 0 <= i < j < t.len() implies t[i] < t[j] by {
                assert(t[i] == keys[i + 1] && t[j] == keys[j + 1]);
            }
        }
        lemma_lower_bound(t, r);
        assert forall|i: int| 0 <= i < lower_bound(keys, r) implies keys[i] < r by {
            if i > 0 {
                assert(keys[i] == t[i - 1]);
            }
        }
        assert forall|i: int| lower_bound(keys, r) <= i < keys.len() implies keys[i] >= r by {
            assert(keys[i] == t[i - 1]);
        }
    } else if keys.len() > 0 {
        assert forall|i: int| 0 <= i < keys.len() implies keys[i] >= r by {
            if i > 0 {
                assert(keys[0] < keys[i]);
            }
        }
    }
}

/// The row kept under the key `r`, empty where there is none.
pub open spec fn row_at(keys: Seq<i32>, rows: Seq<Seq<u8>>, r: i32) -> Seq<u8> {
    let p = lower_bound(keys, r);
    if p < keys.len() && keys[p] == r {
        rows[p]
    } else {
        seq![]
    }
}

/// The rows with `new` kept under the key `r`, which is added in its place
/// where it was not there.
pub open spec fn put_row(keys: Seq<i32>, rows: Seq<Seq<u8>>, r: i32, new: Seq<u8>) -> (Seq<i32>, Seq<Seq<u8>>) {
    let p = lower_bound(keys, r);
    if p < keys.len() && keys[p] == r {
        (keys, rows.update(p, new))
    } else {
        (keys.insert(p, r), rows.insert(p, new))
    }
}

/// The rows after the glyph `src`, `w` wide and `h` high, is added in with its
/// top-left cell at column `off` and row key `y0`; rows go from top to bottom.
pub open spec fn blit_spec(
    keys: Seq<i32>,
    rows: Seq<Seq<u8>>,
    off: int,
    y0: int,
    w: int,
    h: int,
    src: Seq<u8>,
) -> (Seq<i32>, Seq<Seq<u8>>)
    decreases h,
{
    if w <= 0 || h <= 0 {
        (keys, rows)
    } else {
        let prev = blit_spec(keys, rows, off, y0, w, h - 1, src);
        let y = (y0 + h - 1) as i32;
        put_row(
            prev.0,
            prev.1,
            y,
            blit_row_spec(row_at(prev.0, prev.1, y), off, src.subrange((h - 1) * w, h * w)),
        )
    }
}

/// Coverage rows by vertical position, kept in increasing order of position.
pub struct GlyphCanvas {
    keys: Vec<i32>,
    rows: Vec<Vec<u8>>,
}

impl GlyphCanvas {
    /// The row keys, increasing.
    pub closed spec fn keys(&self) -> Seq<i32> {
        self.keys@
    }

    /// The rows, in the order of their keys.
    pub closed spec fn rows(&self) -> Seq<Seq<u8>> {
        self.rows@.map_values(|v: Vec<u8>| v@)
    }

    /// One row per key, keys strictly increasing.
    pub closed spec fn wf(&self) -> bool {
        self.keys@.len() == self.rows@.len() && keys_sorted(self.keys@)
    }

    /// A canvas with no rows.
    pub fn new() -> (r: Self)
        ensures
            r.wf(),
            r.keys() == Seq::<i32>::empty(),
            r.rows() == Seq::<Seq<u8>>::empty(),
    {
        let r = GlyphCanvas { keys: Vec::new(), rows: Vec::new() };
        proof {
            assert(r.rows() =~= Seq::<Seq<u8>>::empty());
        }
        r
    }

    /// The position of the row under `r`, which is added, empty, where it was not there.
    fn place_row(&mut self, r: i32) -> (p: usize)
        requires
            old(self).wf(),
        ensures
            final(self).wf(),
            p == lower_bound(old(self).keys(), r),
            p < final(self).keys().len(),
            final(self).keys()[p as int] == r,
            (final(self).keys(), final(self).rows()) == put_row(
                old(self).keys(),
                old(self).rows(),
                r,
                row_at(old(self).keys(), old(self).rows(), r),
            ),
    {
        let ghost ks = self.keys@;
        let ghost rs = self.rows();
        proof {
            lemma_lower_bound(ks, r);
        }
        let mut p: usize = 0;
        while p < self.keys.len() && self.keys[p] < r
            invariant
                p <= ks.len(),
                ks == self.keys@,
                forall|i: int| 0 <= i < p ==> ks[i] < r,
                keys_sorted(ks),
                0 <= lower_bound(ks, r) <= ks.len(),
                forall|i: int| 0 <= i < lower_bound(ks, r) ==> ks[i] < r,
                forall|i: int| lower_bound(ks, r) <= i < ks.len() ==> ks[i] >= r,
            decreases ks.len() - p,
        {
            p += 1;
        }
        proof {
            if p < lower_bound(ks, r) {
                assert(ks[p as int] < r);
            }
            if p > lower_bound(ks, r) {
                assert(ks[lower_bound(ks, r)] >= r);
            }
        }
        if p < self.keys.len() && self.keys[p] == r {
            proof {
                assert(rs.update(p as int, rs[p as int]) =~= rs);
            }
            return p;
        }
        self.keys.insert(p, r);
        self.rows.insert(p, Vec::new());
        proof {
            assert(self.rows() =~= rs.insert(p as int, seq![]));
            assert forall|i: int, j: int| 0 <= i < j < self.keys@.len() implies self.keys@[i] < self.keys@[j] by {
                if j < p {
                } else if j == p {
                } else if i < p {
                    assert(self.keys@[j] == ks[j - 1]);
                } else if i == p {
                    assert(self.keys@[j] == ks[j - 1]);
                } else {
                    assert(self.keys@[i] == ks[i - 1] && self.keys@[j] == ks[j - 1]);
                }
            }
        }
        p
    }
}

/// Adds the glyph `src`, `w` wide and `h` high, row by row, into `dst` with its
/// top-left cell at column `off` and row key `y0`.
fn sw_blit_to_buffer(dst: &mut GlyphCanvas, off: usize, y0: i32, w: usize, h: usize, src: &Vec<u8>)
    requires
        old(dst).wf(),
        w * h <= src@.len(),
        off + w <= usize::MAX,
        y0 + h <= i32::MAX + 1,
    ensures
        final(dst).wf(),
        (final(dst).keys(), final(dst).rows()) == blit_spec(
            old(dst).keys(),
            old(dst).rows(),
            off as int,
            y0 as int,
            w as int,
            h as int,
            src@,
        ),
{
    if w == 0 {
        return;
    }
    let ghost k0 = dst.keys();
    let ghost r0 = dst.rows();
    let n = src.len();
    let mut y: usize = 0;
    while y < h
        invariant
            y <= h,
            n == src@.len(),
            w > 0,
            w * h <= src@.len(),
            off + w <= usize::MAX,
            y0 + h <= i32::MAX + 1,
            dst.wf(),
            (dst.keys(), dst.rows()) == blit_spec(k0, r0, off as int, y0 as int, w as int, y as int, src@),
        decreases h - y,
    {
        let ghost pk = dst.keys();
        let ghost pr = dst.rows();
        proof {
            assert((y + 1) * w <= h * w) by (nonlinear_arith)
                requires
                    y < h,
                    w > 0,
            ;
            assert(y * w + w == (y + 1) * w) by (nonlinear_arith);
            assert(h * w == w * h) by (nonlinear_arith);
            assert(y * w + w <= n);
            assert(h <= 0x1_0000_0000);
        }
        let r = (y0 as i64 + y as i64) as i32;
        let p = dst.place_row(r);
        let ghost placed = dst.rows();
        let from = y * w;
        let ghost new_row = blit_row_spec(row_at(pk, pr, r), off as int, src@.subrange(from as int, from + w));
        proof {
            lemma_lower_bound(pk, r);
            assert(placed[p as int] == row_at(pk, pr, r));
        }
        blit_row(&mut dst.rows[p], off, src, from, w);
        proof {
            assert(dst.rows() =~= placed.update(p as int, new_row));
            if lower_bound(pk, r) < pk.len() && pk[lower_bound(pk, r)] == r {
                assert(placed.update(p as int, new_row) =~= pr.update(p as int, new_row));
            } else {
                assert(placed.update(p as int, new_row) =~= pr.insert(p as int, new_row));
            }
            assert((y + 1) as int - 1 == y as int);
            assert(y0 + (y + 1) as int - 1 == r as int);
        }
        y += 1;
    }
}

/// The length of the longest of `rows`.
pub open spec fn max_len(rows: Seq<Seq<u8>>) -> nat
    decreases rows.len(),
{
    if rows.len() == 0 {
        0
    } else {
        let rest = max_len(rows.drop_last());
        if rows.last().len() > rest {
            rows.last().len()
        } else {
            rest
        }
    }
}

/// `row` cut or padded with 0 to `width` cells.
pub open spec fn pad(row: Seq<u8>, width: nat) -> Seq<u8> {
    Seq::new(width, |j: int| cell(row, j) as u8)
}

/// The rows one after another, each padded to `width`.
pub open spec fn composite(rows: Seq<Seq<u8>>, width: nat) -> Seq<u8>
    decreases rows.len(),
{
    if rows.len() == 0 {
        seq![]
    } else {
        composite(rows.drop_last(), width) + pad(rows.last(), width)
    }
}

/// A single-channel coverage image, row after row from the top.
pub struct TextBitmap {
    pub width: usize,
    pub height: usize,
    pub data: Vec<u8>,
}

impl GlyphCanvas {
    /// The canvas as an image: one line per row, in key order, as wide as the
    /// longest row, shorter rows padded with 0.
    pub fn flatten(&self) -> (r: TextBitmap)
        requires
            self.wf(),
        ensures
            r.height == self.rows().len(),
            r.width == max_len(self.rows()),
            r.data@ == composite(self.rows(), r.width as nat),
    {
        let ghost rs = self.rows();
        let n = self.rows.len();
        let mut width: usize = 0;
        let mut i: usize = 0;
        while i < n
            invariant
                i <= n,
                n == rs.len(),
                rs == self.rows@.map_values(|v: Vec<u8>| v@),
                width == max_len(rs.subrange(0, i as int)),
            decreases n - i,
        {
            proof {
                assert(rs.subrange(0, i + 1).drop_last() =~= rs.subrange(0, i as int));
                assert(rs[i as int] == self.rows@[i as int]@);
            }
            if self.rows[i].len() > width {
                width = self.rows[i].len();
            }
            i += 1;
        }
        proof {
            assert(rs.subrange(0, n as int) =~= rs);
        }
        let mut data: Vec<u8> = Vec::new();
        let mut k: usize = 0;
        while k < n
            invariant
                k <= n,
                n == rs.len(),
                rs == self.rows@.map_values(|v: Vec<u8>| v@),
                width == max_len(rs),
                data@ == composite(rs.subrange(0, k as int), width as nat),
            decreases n - k,
        {
            let row = &self.rows[k];
            let ghost before = data@;
            proof {
                assert(rs[k as int] == row@);
            }
            let mut j: usize = 0;
            while j < width
                invariant
                    j <= width,
                    data@ == before + pad(row@, width as nat).subrange(0, j as int),
                decreases width - j,
            {
                if j < row.len() {
                    data.push(row[j]);
                } else {
                    data.push(0);
                }
                j += 1;
                proof {
                    assert(data@ =~= before + pad(row@, width as nat).subrange(0, j as int));
                }
            }
            proof {
                assert(rs.subrange(0, k + 1).drop_last() =~= rs.subrange(0, k as int));
                assert(pad(row@, width as nat).subrange(0, width as int) =~= pad(row@, width as nat));
            }
            k += 1;
        }
        proof {
            assert(rs.subrange(0, n as int) =~= rs);
        }
        TextBitmap { width, height: n, data }
    }
}

/// The character size handed to the font rasteriser for text of pixel size
/// `font_size`, in 1/64 point at 100 dpi.
pub open spec fn char_size_spec(font_size: int) -> int {
    80 * font_size
}

/// The character size for `font_size`, where it fits in an `isize`.
pub fn text_char_size(font_size: isize) -> (r: Option<isize>)
    ensures
        r is Some <==> isize::MIN <= char_size_spec(font_size as int) <= isize::MAX,
        r is Some ==> r->Some_0 == char_size_spec(font_size as int),
{
    font_size.checked_mul(80)
}

/// The resolution, in dots per inch, that text is rasterised at.
pub const TEXT_DPI: u32 = 100;

/// One rasterised glyph as the font rasteriser hands it over: its coverage
/// bitmap (`width` by `rows`, row after row), how far its top stands above the
/// baseline, and the pen advance in 1/64 pixel.
pub struct GlyphBitmap {
    pub width: u32,
    pub rows: u32,
    pub top: i32,
    pub advance_x: i64,
    pub advance_y: i64,
    pub buffer: Vec<u8>,
}

/// The view of a glyph: width, rows, top, advances and bitmap.
pub type GlyphView = (u32, u32, i32, i64, i64, Seq<u8>);

impl View for GlyphBitmap {
    type V = GlyphView;

    open spec fn view(&self) -> GlyphView {
        (self.width, self.rows, self.top, self.advance_x, self.advance_y, self.buffer@)
    }
}

/// `v`, in 1/64 pixel, in whole pixels, rounded toward zero.
pub open spec fn whole_pixels_spec(v: int) -> int {
    if v >= 0 {
        v / 64
    } else {
        -((-v) / 64)
    }
}

fn whole_pixels(v: i64) -> (r: i64)
    ensures
        r == whole_pixels_spec(v as int),
{
    if v >= 0 {
        (v as u64 / 64) as i64
    } else {
        let m = (0 - v as i128) as u64;
        0 - (m / 64) as i64
    }
}

/// The glyph `g` can be drawn with the pen at `(ox, oy)`: it starts at a column
/// that is not negative, its columns and rows have positions, and its bitmap
/// holds all its cells.
pub open spec fn glyph_fits(g: GlyphView, ox: int, oy: int) -> bool {
    let y0 = oy - g.2;
    &&& 0 <= ox
    &&& ox + g.0 <= u32::MAX + 1
    &&& ox + g.0 <= usize::MAX
    &&& in_i32(y0)
    &&& y0 + g.1 <= i32::MAX + 1
    &&& g.0 * g.1 <= g.5.len()
}

/// The rows and the pen position after the glyphs are set one after another
/// from the pen position (0, 0), each blitted with its top at the pen's row
/// less its `top`, then the pen moved by its advance; `None` where a glyph
/// does not fit or the pen leaves the range of `i32`.
pub open spec fn layout_spec(glyphs: Seq<GlyphView>) -> Option<(Seq<i32>, Seq<Seq<u8>>, int, int)>
    decreases glyphs.len(),
{
    if glyphs.len() == 0 {
        Some((seq![], seq![], 0, 0))
    } else {
        match layout_spec(glyphs.drop_last()) {
            None => None,
            Some(st) => {
                let g = glyphs.last();
                let (keys, rows, ox, oy) = st;
                if !glyph_fits(g, ox, oy) {
                    None
                } else {
                    let b = blit_spec(keys, rows, ox, oy - g.2, g.0 as int, g.1 as int, g.5);
                    let nx = ox + whole_pixels_spec(g.3 as int);
                    let ny = oy + whole_pixels_spec(g.4 as int);
                    if in_i32(nx) && in_i32(ny) {
                        Some((b.0, b.1, nx, ny))
                    } else {
                        None
                    }
                }
            },
        }
    }
}

/// Sets a line of glyphs into one coverage image: the rows that any glyph
/// covers, top to bottom, each as wide as the widest. `None` where a glyph
/// does not fit (see `layout_spec`).
pub fn sw_render_text_to_buffer(glyphs: &Vec<GlyphBitmap>) -> (r: Option<TextBitmap>)
    ensures
        r is Some <==> layout_spec(glyphs@.map_values(|g: GlyphBitmap| g@)) is Some,
        r is Some ==> ({
            let st = layout_spec(glyphs@.map_values(|g: GlyphBitmap| g@))->Some_0;
            let b = r->Some_0;
            &&& b.height == st.1.len()
            &&& b.width == max_len(st.1)
            &&& b.data@ == composite(st.1, b.width as nat)
        }),
{
    let ghost gs = glyphs@.map_values(|g: GlyphBitmap| g@);
    let mut canvas = GlyphCanvas::new();
    let mut ox: i32 = 0;
    let mut oy: i32 = 0;
    let mut i: usize = 0;
    proof {
        assert(gs.subrange(0, 0) =~= Seq::<GlyphView>::empty());
    }
    while i < glyphs.len()
        invariant
            i <= glyphs@.len(),
            gs == glyphs@.map_values(|g: GlyphBitmap| g@),
            canvas.wf(),
            layout_spec(gs.subrange(0, i as int)) == Some(
                (canvas.keys(), canvas.rows(), ox as int, oy as int),
            ),
        decreases glyphs@.len() - i,
    {
        let g = &glyphs[i];
        proof {
            assert(gs.subrange(0, i + 1).drop_last() =~= gs.subrange(0, i as int));
            assert(gs.subrange(0, i + 1).last() == g@);
        }
        let y0 = oy as i64 - g.top as i64;
        let end = ox as i64 + g.width as i64;
        if ox < 0 || end > u32::MAX as i64 + 1 || end as u64 > usize::MAX as u64 || y0 < i32::MIN as i64
            || y0 > i32::MAX as i64 || y0 + g.rows as i64 > i32::MAX as i64 + 1 {
            proof {
                lemma_layout_none_extends(gs, i as int + 1);
            }
            return None;
        }
        let w = g.width as usize;
        let h = g.rows as usize;
        proof {
            assert((w as int) * (h as int) <= u64::MAX) by (nonlinear_arith)
                requires
                    w <= u32::MAX,
                    h <= u32::MAX,
            ;
        }
        if (w as u64) * (h as u64) > g.buffer.len() as u64 {
            proof {
                lemma_layout_none_extends(gs, i as int + 1);
            }
            return None;
        }
        sw_blit_to_buffer(&mut canvas, ox as usize, y0 as i32, w, h, &g.buffer);
        let nx = ox as i64 + whole_pixels(g.advance_x);
        let ny = oy as i64 + whole_pixels(g.advance_y);
        if nx < i32::MIN as i64 || nx > i32::MAX as i64 || ny < i32::MIN as i64 || ny > i32::MAX as i64 {
            proof {
                lemma_layout_none_extends(gs, i as int + 1);
            }
            return None;
        }
        ox = nx as i32;
        oy = ny as i32;
        i += 1;
    }
    proof {
        assert(gs.subrange(0, glyphs@.len() as int) =~= gs);
    }
    Some(canvas.flatten())
}

/// Where a prefix of the glyphs does not fit, the whole line does not.
proof fn lemma_layout_none_extends(gs: Seq<GlyphView>, i: int)
    requires
        0 <= i <= gs.len(),
        layout_spec(gs.subrange(0, i)) is None,
    ensures
        layout_spec(gs) is None,
    decreases gs.len() - i,
{
    if i < gs.len() {
        assert(gs.subrange(0, i + 1).drop_last() =~= gs.subrange(0, i));
        lemma_layout_none_extends(gs, i + 1);
    } else {
        assert(gs.subrange(0, i) =~= gs);
    }
}

} // verus!
