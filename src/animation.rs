use vstd::prelude::*;
use crate::registry::Registry;

verus! {

/// A rectangle of a texture, in pixels.
#[derive(Clone, Copy, Debug, PartialEq, Eq, Structural)]
pub struct Rect {
    pub x: u32,
    pub y: u32,
    pub w: u32,
    pub h: u32,
}

/// How many cells of size `cell` fit before `total` with room to spare: the
/// count of `c` with `(c + 1) * cell < total`.
pub open spec fn cells_before(total: int, cell: int) -> int {
    if total <= 0 || cell <= 0 {
        0
    } else {
        (total - 1) / cell
    }
}

/// The frames of a sprite sheet `tex_w` by `tex_h` cut into cells of
/// `cell_w` by `cell_h`: row after row, left to right, keeping each cell that
/// ends strictly inside the sheet.
pub open spec fn frames_spec(tex_w: u32, tex_h: u32, cell_w: u32, cell_h: u32) -> Seq<Rect> {
    let cols = cells_before(tex_w as int, cell_w as int);
    let rows = cells_before(tex_h as int, cell_h as int);
    Seq::new(
        (cols * rows) as nat,
        |i: int| Rect { x: ((i % cols) * cell_w) as u32, y: ((i / cols) * cell_h) as u32, w: cell_w, h: cell_h },
    )
}

proof fn lemma_cells_before(total: int, cell: int)
    requires
        total > 0,
        cell > 0,
    ensures
        cells_before(total, cell) * cell < total,
        (cells_before(total, cell) + 1) * cell >= total,
{
    let q = (total - 1) / cell;
    assert(q * cell <= total - 1) by (nonlinear_arith)
        requires
            q == (total - 1) / cell,
            cell > 0,
            total > 0,
    ;
    assert((q + 1) * cell > total - 1) by (nonlinear_arith)
        requires
            q == (total - 1) / cell,
            cell > 0,
            total > 0,
    ;
}

/// Cuts a sprite sheet into animation frames.
pub fn animation_frames(tex_w: u32, tex_h: u32, cell_w: u32, cell_h: u32) -> (r: Vec<Rect>)
    ensures
        r@ == frames_spec(tex_w, tex_h, cell_w, cell_h),
{
    let mut frames: Vec<Rect> = Vec::new();
    if cell_w == 0 || cell_h == 0 || tex_w == 0 || tex_h == 0 {
        proof {
            assert(frames@ =~= frames_spec(tex_w, tex_h, cell_w, cell_h));
        }
        return frames;
    }
    let cols = (tex_w - 1) / cell_w;
    let rows = (tex_h - 1) / cell_h;
    proof {
        lemma_cells_before(tex_w as int, cell_w as int);
        lemma_cells_before(tex_h as int, cell_h as int);
    }
    let ghost want = frames_spec(tex_w, tex_h, cell_w, cell_h);
    let mut r: u32 = 0;
    while r < rows
        invariant
            cols as int == cells_before(tex_w as int, cell_w as int),
            rows as int == cells_before(tex_h as int, cell_h as int),
            cols * cell_w < tex_w,
            rows * cell_h < tex_h,
            cell_w > 0,
            cell_h > 0,
            r <= rows,
            r * cols <= cols * rows,
            want == frames_spec(tex_w, tex_h, cell_w, cell_h),
            want.len() == cols * rows,
            frames@ == want.subrange(0, r * cols),
        decreases rows - r,
    {
        proof {
            assert(r * cols + cols <= cols * rows) by (nonlinear_arith)
                requires
                    r < rows,
            ;
            assert(r * cell_h < tex_h) by (nonlinear_arith)
                requires
                    r < rows,
                    rows * cell_h < tex_h,
            ;
        }
        let y_pos = r * cell_h;
        let mut c: u32 = 0;
        while c < cols
            invariant
                cols as int == cells_before(tex_w as int, cell_w as int),
                cols * cell_w < tex_w,
                cell_w > 0,
                r < rows,
                r * cols + cols <= cols * rows,
                c <= cols,
                y_pos == r * cell_h,
                want == frames_spec(tex_w, tex_h, cell_w, cell_h),
                want.len() == cols * rows,
                frames@ == want.subrange(0, r * cols + c),
            decreases cols - c,
        {
            proof {
                assert(c * cell_w < tex_w) by (nonlinear_arith)
                    requires
                        c < cols,
                        cols * cell_w < tex_w,
                ;
                let i = r * cols + c;
                assert(i % (cols as int) == c && i / (cols as int) == r) by (nonlinear_arith)
                    requires
                        i == r * cols + c,
                        c < cols,
                ;
            }
            let x_pos = c * cell_w;
            frames.push(Rect { x: x_pos, y: y_pos, w: cell_w, h: cell_h });
            proof {
                let i = r * cols + c;
                assert(want[i as int] == Rect { x: x_pos, y: y_pos, w: cell_w, h: cell_h });
                assert(frames@ =~= want.subrange(0, r * cols + c + 1));
            }
            c += 1;
        }
        proof {
            assert((r + 1) * cols == r * cols + cols) by (nonlinear_arith);
        }
        r += 1;
    }
    proof {
        assert(rows * cols == cols * rows) by (nonlinear_arith);
    }
    proof {
        assert(frames@ =~= want);
    }
    frames
}

/// The frame that an animation over `range` shows once its clock reads
/// `timer_ms`: one frame a second from the start of the range, round and round;
/// the start where the range is empty.
pub open spec fn frame_at_spec(timer_ms: int, range: (usize, usize)) -> int {
    if range.1 <= range.0 {
        range.0 as int
    } else {
        range.0 + (timer_ms / 1000) % ((range.1 - range.0) as int)
    }
}

/// The frame that an animation over `range` shows at `timer_ms`.
pub fn frame_at(timer_ms: u64, range: (usize, usize)) -> (r: usize)
    ensures
        r == frame_at_spec(timer_ms as int, range),
{
    if range.1 <= range.0 {
        range.0
    } else {
        let len = (range.1 - range.0) as u64;
        let pos = (timer_ms / 1000) % len;
        proof {
            assert(pos < len) by (nonlinear_arith)
                requires
                    pos == (timer_ms / 1000) % len,
                    len > 0,
            ;
        }
        range.0 + pos as usize
    }
}

/// The animation clock's milliseconds for `elapsed_us` real microseconds at
/// `rate_permille` thousandths of real time, rounded down, at most `u64::MAX`.
pub open spec fn scaled_ms_spec(elapsed_us: int, rate_permille: int) -> int {
    let ms = elapsed_us * rate_permille / 1_000_000;
    if ms > u64::MAX {
        u64::MAX as int
    } else {
        ms
    }
}

/// Converts real microseconds to animation-clock milliseconds at a rate.
pub fn scaled_ms(elapsed_us: u64, rate_permille: u32) -> (r: u64)
    ensures
        r == scaled_ms_spec(elapsed_us as int, rate_permille as int),
{
    proof {
        assert((elapsed_us as int) * (rate_permille as int) <= (u64::MAX as int) * (u32::MAX as int))
            by (nonlinear_arith)
            requires
                elapsed_us <= u64::MAX,
                rate_permille <= u32::MAX,
        ;
    }
    let product = (elapsed_us as u128) * (rate_permille as u128);
    let ms = product / 1_000_000;
    if ms > u64::MAX as u128 {
        u64::MAX
    } else {
        ms as u64
    }
}

/// The bookkeeping of an animated sprite: its clock, the frames cut from its
/// sheet, the range of frames playing, and named ranges to switch to.
pub struct Animation {
    pub timer_ms: u64,
    pub frame: usize,
    pub frames: Vec<Rect>,
    pub frame_range: (usize, usize),
    /// How fast the clock runs, in thousandths of real time (1000 is real time).
    pub rate_permille: u32,
    pub animations: Registry<String, (usize, usize)>,
}

impl Animation {
    /// The named frame ranges.
    pub closed spec fn animations(&self) -> Map<Seq<char>, (usize, usize)> {
        self.animations@
    }

    /// The internal registry is well formed.
    pub closed spec fn wf(&self) -> bool {
        self.animations.wf()
    }

    /// An animation over all of `frames`, at its first frame.
    pub fn new(frames: Vec<Rect>) -> (r: Self)
        ensures
            r.wf(),
            r.timer_ms == 0,
            r.frame == 0,
            r.frames@ == frames@,
            r.frame_range == (0usize, frames@.len() as usize),
            r.rate_permille == 1000,
            r.animations() == Map::<Seq<char>, (usize, usize)>::empty(),
    {
        let n = frames.len();
        Animation {
            timer_ms: 0,
            frame: 0,
            frames,
            frame_range: (0, n),
            rate_permille: 1000,
            animations: Registry::new(),
        }
    }

    /// Names the frame range `range`.
    pub fn add_animation(&mut self, name: &str, range: (usize, usize))
        requires
            old(self).wf(),
        ensures
            final(self).wf(),
            final(self).animations() == old(self).animations().insert(name@, range),
            final(self).rate_permille == old(self).rate_permille,
            final(self).timer_ms == old(self).timer_ms,
            final(self).frame == old(self).frame,
            final(self).frames@ == old(self).frames@,
            final(self).frame_range == old(self).frame_range,
    {
        self.animations.insert(name.to_owned(), range);
    }

    /// Switches to the range named `name`, from its first frame; a name that
    /// was never added changes nothing.
    pub fn set_animation(&mut self, name: &str)
        requires
            old(self).wf(),
        ensures
            final(self).wf(),
            final(self).animations() == old(self).animations(),
            final(self).rate_permille == old(self).rate_permille,
            final(self).timer_ms == old(self).timer_ms,
            final(self).frames@ == old(self).frames@,
            old(self).animations().contains_key(name@) ==> final(self).frame_range == old(
                self,
            ).animations()[name@] && final(self).frame == 0,
            !old(self).animations().contains_key(name@) ==> final(self).frame_range == old(
                self,
            ).frame_range && final(self).frame == old(self).frame,
    {
        if let Some(range) = self.animations.get(&name.to_owned()) {
            self.frame_range = range;
            self.frame = 0;
        }
    }

    /// Runs the clock on by `elapsed_us` real microseconds at the animation's
    /// rate, as `advance` does with the scaled milliseconds.
    pub fn advance_for(&mut self, elapsed_us: u64) -> (r: Option<Rect>)
        requires
            old(self).wf(),
        ensures
            final(self).wf(),
            final(self).animations() == old(self).animations(),
            final(self).frames@ == old(self).frames@,
            final(self).frame_range == old(self).frame_range,
            final(self).rate_permille == old(self).rate_permille,
            final(self).timer_ms == if old(self).timer_ms + scaled_ms_spec(
                elapsed_us as int,
                old(self).rate_permille as int,
            ) > u64::MAX {
                u64::MAX as int
            } else {
                old(self).timer_ms + scaled_ms_spec(elapsed_us as int, old(self).rate_permille as int)
            },
            final(self).frame == frame_at_spec(final(self).timer_ms as int, final(self).frame_range),
            r == if final(self).frame < final(self).frames@.len() {
                Some(final(self).frames@[final(self).frame as int])
            } else {
                None::<Rect>
            },
    {
        let ms = scaled_ms(elapsed_us, self.rate_permille);
        self.advance(ms)
    }

    /// Runs the clock on by `elapsed_ms` (stopping at its maximum), moves to
    /// the frame it now shows, and returns that frame's rectangle, if the
    /// sheet has such a frame.
    pub fn advance(&mut self, elapsed_ms: u64) -> (r: Option<Rect>)
        requires
            old(self).wf(),
        ensures
            final(self).wf(),
            final(self).rate_permille == old(self).rate_permille,
            final(self).animations() == old(self).animations(),
            final(self).frames@ == old(self).frames@,
            final(self).frame_range == old(self).frame_range,
            final(self).timer_ms == if old(self).timer_ms + elapsed_ms > u64::MAX {
                u64::MAX as int
            } else {
                old(self).timer_ms + elapsed_ms
            },
            final(self).frame == frame_at_spec(final(self).timer_ms as int, final(self).frame_range),
            r == if final(self).frame < final(self).frames@.len() {
                Some(final(self).frames@[final(self).frame as int])
            } else {
                None::<Rect>
            },
    {
        self.timer_ms = self.timer_ms.saturating_add(elapsed_ms);
        self.frame = frame_at(self.timer_ms, self.frame_range);
        if self.frame < self.frames.len() {
            Some(self.frames[self.frame])
        } else {
            None
        }
    }
}

} // verus!
