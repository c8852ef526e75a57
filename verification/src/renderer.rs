//! Index-preserving rasterization of a sampled viewport into glyph lines.
//!
//! The rasterizer owns its evaluation rule, presentation mode, iteration
//! bound, threshold and memoization cache.  `render` materializes the column
//! and row coordinate sequences, classifies the quaternion `(column, row,
//! 0, 0)` for every grid cell, and assembles the glyph lines strictly by
//! index, so the output is a pure function of the sampled coordinates and
//! the configured rule: rendering the same viewport twice gives byte-equal
//! output.

use crate::cache::Cache;
use crate::evaluator::{
    escape_spec, escape_time, lemma_escape_bounds, EscapeRule, EvalResult, COORD_BOUND,
    MAXITER_BOUND, THRESHOLD_BOUND,
};
use crate::quaternion::{qm, qm_bounded, tdiv_i64, Quaternion};
use crate::sampler::{
    fwd_seq, lemma_fwd_seq_range, lemma_rev_seq_range, rev_seq, StepRange, SAMPLE_BOUND,
};
use vstd::prelude::*;
use vstd::string::StringExecFns;

verus! {

/// The presentation of an evaluation result as a single character.
#[derive(Clone, Copy, PartialEq, Eq, Structural, Debug)]
pub enum Mode {
    /// Membership only: the filled glyph for members, background otherwise.
    Boolean,
    /// Divergence depth bucketed into ten density digits; members map to
    /// the background glyph.
    Depth,
}

/// The twelve characters a rendered cell can hold.
pub open spec fn is_glyph(c: char) -> bool {
    ||| c == ' '
    ||| c == '*'
    ||| c == '0'
    ||| c == '1'
    ||| c == '2'
    ||| c == '3'
    ||| c == '4'
    ||| c == '5'
    ||| c == '6'
    ||| c == '7'
    ||| c == '8'
    ||| c == '9'
}

/// The density digit for a depth bucket; buckets past the last map to the
/// deepest digit.
pub open spec fn digit_glyph(b: int) -> char {
    if b == 0 {
        '0'
    } else if b == 1 {
        '1'
    } else if b == 2 {
        '2'
    } else if b == 3 {
        '3'
    } else if b == 4 {
        '4'
    } else if b == 5 {
        '5'
    } else if b == 6 {
        '6'
    } else if b == 7 {
        '7'
    } else if b == 8 {
        '8'
    } else {
        '9'
    }
}

/// The glyph for an evaluation result under the given mode.  In boolean
/// mode members show as the filled glyph `*` and everything else as the
/// background blank; in depth mode a divergence at position `p` shows the
/// digit of the bucket `10 * p / maxiter` and members show the background.
pub open spec fn glyph_spec(mode: Mode, r: EvalResult, maxiter: int) -> char {
    match mode {
        Mode::Boolean => match r {
            EvalResult::Inside => '*',
            EvalResult::Escaped(_) => ' ',
        },
        Mode::Depth => match r {
            EvalResult::Inside => ' ',
            EvalResult::Escaped(p) => digit_glyph(10 * p / maxiter),
        },
    }
}

/// Every value `glyph_spec` can take is one of the twelve glyphs.
proof fn lemma_glyph_charset(mode: Mode, r: EvalResult, maxiter: int)
    ensures
        is_glyph(glyph_spec(mode, r, maxiter)),
{
}

/// Appends one glyph character to a row string.
fn push_glyph(s: &mut String, g: char)
    requires
        is_glyph(g),
    ensures
        final(s)@ == old(s)@.push(g),
{
    if g == ' ' {
        s.append(" ");
        proof {
            reveal_strlit(" ");
            assert(s@ =~= old(s)@.push(g));
        }
    } else if g == '*' {
        s.append("*");
        proof {
            reveal_strlit("*");
            assert(s@ =~= old(s)@.push(g));
        }
    } else if g == '0' {
        s.append("0");
        proof {
            reveal_strlit("0");
            assert(s@ =~= old(s)@.push(g));
        }
    } else if g == '1' {
        s.append("1");
        proof {
            reveal_strlit("1");
            assert(s@ =~= old(s)@.push(g));
        }
    } else if g == '2' {
        s.append("2");
        proof {
            reveal_strlit("2");
            assert(s@ =~= old(s)@.push(g));
        }
    } else if g == '3' {
        s.append("3");
        proof {
            reveal_strlit("3");
            assert(s@ =~= old(s)@.push(g));
        }
    } else if g == '4' {
        s.append("4");
        proof {
            reveal_strlit("4");
            assert(s@ =~= old(s)@.push(g));
        }
    } else if g == '5' {
        s.append("5");
        proof {
            reveal_strlit("5");
            assert(s@ =~= old(s)@.push(g));
        }
    } else if g == '6' {
        s.append("6");
        proof {
            reveal_strlit("6");
            assert(s@ =~= old(s)@.push(g));
        }
    } else if g == '7' {
        s.append("7");
        proof {
            reveal_strlit("7");
            assert(s@ =~= old(s)@.push(g));
        }
    } else if g == '8' {
        s.append("8");
        proof {
            reveal_strlit("8");
            assert(s@ =~= old(s)@.push(g));
        }
    } else {
        s.append("9");
        proof {
            reveal_strlit("9");
            assert(s@ =~= old(s)@.push(g));
        }
    }
}

/// The glyph for `r` under `mode`, executably.
fn glyph_for(mode: Mode, r: EvalResult, maxiter: usize) -> (g: char)
    requires
        1 <= maxiter <= MAXITER_BOUND,
        match r {
            EvalResult::Escaped(p) => p < maxiter,
            EvalResult::Inside => true,
        },
    ensures
        g == glyph_spec(mode, r, maxiter as int),
{
    match mode {
        Mode::Boolean => match r {
            EvalResult::Inside => '*',
            EvalResult::Escaped(_) => ' ',
        },
        Mode::Depth => match r {
            EvalResult::Inside => ' ',
            EvalResult::Escaped(p) => {
                let b = 10 * p / maxiter;
                if b == 0 {
                    '0'
                } else if b == 1 {
                    '1'
                } else if b == 2 {
                    '2'
                } else if b == 3 {
                    '3'
                } else if b == 4 {
                    '4'
                } else if b == 5 {
                    '5'
                } else if b == 6 {
                    '6'
                } else if b == 7 {
                    '7'
                } else if b == 8 {
                    '8'
                } else {
                    '9'
                }
            },
        },
    }
}

/// The rectangle of coordinate space being sampled, in fixed-point units:
/// `x, y` is the top-left corner, `width` and `height` its extent.
#[derive(Clone, Copy, PartialEq, Eq, Structural, Debug)]
pub struct Viewport {
    pub x: i64,
    pub y: i64,
    pub width: i64,
    pub height: i64,
}

/// Largest magnitude accepted for a viewport coordinate or extent: half the
/// sample window, so corner sums still fit in it.
pub const VIEW_BOUND: i64 = 0x80_0000;

/// All four viewport fields lie within the accepted window.
pub open spec fn vp_in_window(v: Viewport) -> bool {
    &&& -VIEW_BOUND <= v.x <= VIEW_BOUND
    &&& -VIEW_BOUND <= v.y <= VIEW_BOUND
    &&& -VIEW_BOUND <= v.width <= VIEW_BOUND
    &&& -VIEW_BOUND <= v.height <= VIEW_BOUND
}

/// Rejection of inputs on which no sampling resolution can be chosen.
#[derive(Clone, Copy, PartialEq, Eq, Structural, Debug)]
pub enum RenderError {
    /// The viewport or the display size leaves a non-positive extent or a
    /// zero sampling step.
    DegenerateViewport,
}

/// No positive sampling step exists: a non-positive extent, a display of at
/// most two columns or rows, or a per-cell resolution that rounds to zero.
pub open spec fn degenerate_sampling(v: Viewport, cols: int, rows: int) -> bool {
    ||| v.width <= 0
    ||| v.height <= 0
    ||| cols <= 2
    ||| rows <= 2
    ||| v.width as int / (cols - 2) == 0
    ||| v.height as int / (rows - 2) == 0
}

/// The coordinate ranges sampling `v` on a display of `cols` by `rows`
/// cells: columns walk `[x, x + width)` forward in steps of
/// `width / (cols - 2)`, rows walk `[y - height, y)` in reverse in steps of
/// `height / (rows - 2)`.  Degenerate inputs are rejected before any range
/// is built.
pub fn sample_ranges(v: Viewport, cols: i64, rows: i64) -> (r: Result<
    (StepRange, StepRange),
    RenderError,
>)
    requires
        vp_in_window(v),
        0 <= cols <= SAMPLE_BOUND,
        0 <= rows <= SAMPLE_BOUND,
    ensures
        match r {
            Err(e) => degenerate_sampling(v, cols as int, rows as int) && e
                == RenderError::DegenerateViewport,
            Ok((xs, ys)) => {
                &&& !degenerate_sampling(v, cols as int, rows as int)
                &&& xs.wf()
                &&& ys.wf()
                &&& xs.start == v.x
                &&& xs.stop == v.x + v.width
                &&& xs.step == v.width as int / (cols - 2)
                &&& xs.orig_start == xs.start
                &&& xs.orig_stop == xs.stop
                &&& ys.start == v.y - v.height
                &&& ys.stop == v.y
                &&& ys.step == v.height as int / (rows - 2)
                &&& ys.orig_start == ys.start
                &&& ys.orig_stop == ys.stop
            },
        },
{
    if v.width <= 0 || v.height <= 0 || cols <= 2 || rows <= 2 {
        return Err(RenderError::DegenerateViewport);
    }
    let resx = tdiv_i64(v.width, cols - 2);
    let resy = tdiv_i64(v.height, rows - 2);
    proof {
        vstd::arithmetic::div_mod::lemma_div_nonincreasing(v.width as int, cols as int - 2);
        vstd::arithmetic::div_mod::lemma_div_nonincreasing(v.height as int, rows as int - 2);
        vstd::arithmetic::div_mod::lemma_div_pos_is_pos(v.width as int, cols as int - 2);
        vstd::arithmetic::div_mod::lemma_div_pos_is_pos(v.height as int, rows as int - 2);
    }
    if resx == 0 || resy == 0 {
        return Err(RenderError::DegenerateViewport);
    }
    let xs = StepRange::new(v.x, v.x + v.width, resx);
    let ys = StepRange::new(v.y - v.height, v.y, resy);
    Ok((xs, ys))
}

/// The escape-time rasterizer with its owned evaluation cache.
pub struct Renderer {
    pub rule: EscapeRule,
    pub mode: Mode,
    pub maxiter: usize,
    pub threshold: i64,
    pub cache: Cache,
}

/// The two rasterizers share rule, mode, iteration bound and threshold, and
/// hence render any coordinate identically, whatever their caches hold.
pub open spec fn same_settings(a: Renderer, b: Renderer) -> bool {
    &&& a.rule == b.rule
    &&& a.mode == b.mode
    &&& a.maxiter == b.maxiter
    &&& a.threshold == b.threshold
}

/// The glyph rendered for the point `(x, y, 0, 0)`: a function of the
/// rasterizer's settings alone, never of its cache.
pub open spec fn pixel_spec(r: Renderer, x: i64, y: i64) -> char {
    glyph_spec(
        r.mode,
        escape_spec(r.rule, qm(x as int, y as int, 0, 0), r.threshold as int, r.maxiter as nat),
        r.maxiter as int,
    )
}

/// The whole grid rendered for the given column and row coordinates, in
/// row-major order: row `m`, column `n` shows the pixel at
/// `(cols[n], rows[m])`.
pub open spec fn render_grid(r: Renderer, cols: Seq<i64>, rows: Seq<i64>) -> Seq<Seq<char>> {
    Seq::new(rows.len(), |m: int| Seq::new(cols.len(), |n: int| pixel_spec(r, cols[n], rows[m])))
}

/// Rendering twice with the same settings and the same sampled coordinates
/// produces identical output, whatever either cache held.
pub proof fn lemma_render_deterministic(
    r1: Renderer,
    r2: Renderer,
    cols: Seq<i64>,
    rows: Seq<i64>,
    s1: Seq<Seq<char>>,
    s2: Seq<Seq<char>>,
)
    requires
        same_settings(r1, r2),
        s1 == render_grid(r1, cols, rows),
        s2 == render_grid(r2, cols, rows),
    ensures
        s1 == s2,
{
    assert forall|m: int, n: int|
        0 <= m < rows.len() && 0 <= n < cols.len() implies render_grid(r1, cols, rows)[m][n]
        == render_grid(r2, cols, rows)[m][n] by {
        assert(pixel_spec(r1, cols[n], rows[m]) == pixel_spec(r2, cols[n], rows[m]));
    }
    assert(render_grid(r1, cols, rows) =~~= render_grid(r2, cols, rows));
}

impl Renderer {
    /// Every cached entry agrees with the evaluator on its key, and the
    /// settings lie in the evaluator's accepted windows.
    pub closed spec fn wf(self) -> bool {
        &&& self.cache.wf()
        &&& 1 <= self.maxiter <= MAXITER_BOUND
        &&& 1 <= self.threshold <= THRESHOLD_BOUND
        &&& forall|q: Quaternion|
            #[trigger] self.cache@.contains_key(q) ==> self.cache@[q] == escape_spec(
                self.rule,
                q@,
                self.threshold as int,
                self.maxiter as nat,
            )
    }

    /// A rasterizer with the given rule, mode, iteration bound and
    /// threshold, and an empty cache.
    pub fn new(rule: EscapeRule, mode: Mode, maxiter: usize, threshold: i64) -> (r: Renderer)
        requires
            1 <= maxiter <= MAXITER_BOUND,
            1 <= threshold <= THRESHOLD_BOUND,
        ensures
            r.wf(),
            r.rule == rule,
            r.mode == mode,
            r.maxiter == maxiter,
            r.threshold == threshold,
    {
        Renderer { rule, mode, maxiter, threshold, cache: Cache::new() }
    }

    /// The glyph for the point `(x, y, 0, 0)`, memoized through the cache.
    pub fn render_pixel(&mut self, x: i64, y: i64) -> (g: char)
        requires
            old(self).wf(),
            -COORD_BOUND <= x <= COORD_BOUND,
            -COORD_BOUND <= y <= COORD_BOUND,
        ensures
            final(self).wf(),
            same_settings(*final(self), *old(self)),
            g == pixel_spec(*old(self), x, y),
    {
        let q = Quaternion::new(x, y, 0, 0);
        let rule = self.rule;
        let maxiter = self.maxiter;
        let threshold = self.threshold;
        let compute = |qq: Quaternion| -> (res: EvalResult)
            requires
                qm_bounded(qq@, COORD_BOUND as int),
            ensures
                res == escape_spec(rule, qq@, threshold as int, maxiter as nat),
            { escape_time(rule, qq, maxiter, threshold) };
        let res = self.cache.lookup_or_compute(q, compute);
        proof {
            lemma_escape_bounds(rule, q@, threshold as int, 0, maxiter as nat);
        }
        glyph_for(self.mode, res, maxiter)
    }

    /// One rendered line: the glyphs of the points `(xs[n], y, 0, 0)` in
    /// column order.
    pub fn render_row(&mut self, xs: &Vec<i64>, y: i64) -> (row: String)
        requires
            old(self).wf(),
            forall|n: int| 0 <= n < xs@.len() ==> -COORD_BOUND <= #[trigger] xs@[n] <= COORD_BOUND,
            -COORD_BOUND <= y <= COORD_BOUND,
        ensures
            final(self).wf(),
            same_settings(*final(self), *old(self)),
            row@.len() == xs@.len(),
            forall|n: int|
                0 <= n < xs@.len() ==> row@[n] == pixel_spec(*old(self), #[trigger] xs@[n], y),
    {
        let mut row = String::new();
        let mut idx: usize = 0;
        while idx < xs.len()
            invariant
                self.wf(),
                same_settings(*self, *old(self)),
                forall|n: int|
                    0 <= n < xs@.len() ==> -COORD_BOUND <= #[trigger] xs@[n] <= COORD_BOUND,
                -COORD_BOUND <= y <= COORD_BOUND,
                idx <= xs@.len(),
                row@.len() == idx,
                forall|n: int|
                    0 <= n < idx ==> row@[n] == pixel_spec(*old(self), #[trigger] xs@[n], y),
            decreases xs@.len() - idx,
        {
            let g = self.render_pixel(xs[idx], y);
            proof {
                lemma_glyph_charset(
                    old(self).mode,
                    escape_spec(
                        old(self).rule,
                        qm(xs@[idx as int] as int, y as int, 0, 0),
                        old(self).threshold as int,
                        old(self).maxiter as nat,
                    ),
                    old(self).maxiter as int,
                );
            }
            push_glyph(&mut row, g);
            idx = idx + 1;
        }
        row
    }

    /// The rendered grid for the forward walk of `xs` (columns, left to
    /// right) and the reverse walk of `ys` (rows, top to bottom): line `m`,
    /// column `n` holds the pixel at the `n`-th column and `m`-th row
    /// coordinate, whatever order the cells were computed in.
    pub fn render(&mut self, xs: StepRange, ys: StepRange) -> (screen: Vec<String>)
        requires
            old(self).wf(),
            xs.wf(),
            ys.wf(),
        ensures
            final(self).wf(),
            same_settings(*final(self), *old(self)),
            screen@.len() == rev_seq(ys.start as int, ys.stop as int, ys.step as int).len(),
            forall|m: int|
                0 <= m < screen@.len() ==> (#[trigger] screen@[m])@.len() == fwd_seq(
                    xs.start as int,
                    xs.stop as int,
                    xs.step as int,
                ).len(),
            forall|m: int, n: int|
                0 <= m < screen@.len() && 0 <= n < fwd_seq(
                    xs.start as int,
                    xs.stop as int,
                    xs.step as int,
                ).len() ==> (#[trigger] screen@[m]@[n]) == pixel_spec(
                    *old(self),
                    fwd_seq(xs.start as int, xs.stop as int, xs.step as int)[n],
                    rev_seq(ys.start as int, ys.stop as int, ys.step as int)[m],
                ),
            Seq::new(screen@.len(), |m: int| screen@[m]@) == render_grid(
                *old(self),
                fwd_seq(xs.start as int, xs.stop as int, xs.step as int),
                rev_seq(ys.start as int, ys.stop as int, ys.step as int),
            ),
    {
        let ghost cols_s = fwd_seq(xs.start as int, xs.stop as int, xs.step as int);
        let ghost rows_s = rev_seq(ys.start as int, ys.stop as int, ys.step as int);
        let mut xs = xs;
        let mut ys = ys;
        proof {
            lemma_fwd_seq_range(xs.start as int, xs.stop as int, xs.step as int);
            lemma_rev_seq_range(ys.start as int, ys.stop as int, ys.step as int);
        }
        let cols = xs.collect_forward();
        let rows = ys.collect_reverse();
        let mut screen: Vec<String> = Vec::new();
        let mut m: usize = 0;
        while m < rows.len()
            invariant
                self.wf(),
                same_settings(*self, *old(self)),
                cols@ == cols_s,
                rows@ == rows_s,
                forall|n: int|
                    0 <= n < cols@.len() ==> -COORD_BOUND <= #[trigger] cols@[n] <= COORD_BOUND,
                forall|n: int|
                    0 <= n < rows@.len() ==> -COORD_BOUND <= #[trigger] rows@[n] <= COORD_BOUND,
                m <= rows@.len(),
                screen@.len() == m,
                forall|p: int|
                    0 <= p < m ==> (#[trigger] screen@[p])@.len() == cols_s.len(),
                forall|p: int, n: int|
                    0 <= p < m && 0 <= n < cols_s.len() ==> (#[trigger] screen@[p]@[n])
                        == pixel_spec(*old(self), cols_s[n], rows_s[p]),
            decreases rows@.len() - m,
        {
            let row = self.render_row(&cols, rows[m]);
            screen.push(row);
            m = m + 1;
        }
        proof {
            assert(Seq::new(screen@.len(), |p: int| screen@[p]@) =~~= render_grid(
                *old(self),
                cols_s,
                rows_s,
            ));
        }
        screen
    }
}

} // verus!
