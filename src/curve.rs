//! Rasterizing the temperature curve into a map from pixel column to pixel row.
use std::collections::BTreeMap;
use vstd::prelude::*;

verus! {

broadcast use vstd::laws_cmp::group_laws_cmp;

/// Largest magnitude of a coordinate handed to the rasterizer.
pub const COORD_LIMIT: i64 = 0x100_0000_0000;

pub open spec fn in_limit(v: int) -> bool {
    -COORD_LIMIT <= v <= COORD_LIMIT
}

pub open spec fn min_int(a: int, b: int) -> int {
    if a <= b { a } else { b }
}

pub open spec fn max_int(a: int, b: int) -> int {
    if a <= b { b } else { a }
}

/// Every column between `a` and `b` (in either order) has a row.
pub open spec fn covers(m: Map<i64, i64>, a: int, b: int) -> bool {
    forall|c: i64| min_int(a, b) <= c <= max_int(a, b) ==> #[trigger] m.contains_key(c)
}

/// Inserts one pixel of a line; a later pixel in the same column replaces an earlier one.
fn plot(graph: &mut BTreeMap<i64, i64>, x: i64, y: i64)
    ensures
        final(graph)@ == old(graph)@.insert(x, y),
{
    graph.insert(x, y);
}

/// Entries of `m` at columns outside `[lo, hi]` are those of `before`.
pub open spec fn unchanged_outside(
    before: Map<i64, i64>,
    m: Map<i64, i64>,
    lo: int,
    hi: int,
) -> bool {
    forall|c: i64|
        #![trigger m.contains_key(c)]
        #![trigger before.contains_key(c)]
        !(lo <= c <= hi) ==> {
            &&& m.contains_key(c) == before.contains_key(c)
            &&& before.contains_key(c) ==> m[c] == before[c]
        }
}

/// Every column with a row in `before` still has one in `m`.
pub open spec fn keeps_columns(before: Map<i64, i64>, m: Map<i64, i64>) -> bool {
    forall|c: i64| #[trigger] before.contains_key(c) ==> m.contains_key(c)
}

/// Rows of neighbouring columns in `[lo, hi]` differ by at most `k`.
pub open spec fn adjacent_within(m: Map<i64, i64>, lo: int, hi: int, k: int) -> bool {
    forall|c: i64| lo <= c < hi ==> -k <= #[trigger] m[(c + 1) as i64] - m[c] <= k
}

/// The most rows a line `dx` columns wide and `dy` rows high climbs per column: `dy / dx`
/// rounded up.
pub open spec fn slope_step(dx: int, dy: int) -> int {
    if dx == 0 {
        0
    } else {
        (dy + dx - 1) / dx
    }
}

/// Every row of `m` lies within the coordinate limit.
pub open spec fn rows_bounded(m: Map<i64, i64>) -> bool {
    forall|c: i64| #[trigger] m.contains_key(c) ==> in_limit(m[c] as int)
}

/// Coverage of two overlapping column ranges joins up.
pub proof fn lemma_covers_join(m: Map<i64, i64>, a: int, b: int, c: int)
    requires
        covers(m, a, b),
        covers(m, b, c),
    ensures
        covers(m, a, c),
{
}

/// Entries of `m` at columns in `[lo, hi]` lie in rows `[rlo, rhi]`.
pub open spec fn rows_within(m: Map<i64, i64>, lo: int, hi: int, rlo: int, rhi: int) -> bool {
    forall|c: i64| lo <= c <= hi && #[trigger] m.contains_key(c) ==> rlo <= m[c] <= rhi
}

/// The map after walking the rest of a line: pixel at `a` along the major axis and `b`
/// along the minor one, error term `err`, up to `a1`; the minor coordinate steps toward
/// `up` each time the error drops below zero.
pub open spec fn trace_spec(
    m: Map<i64, i64>,
    a: int,
    b: int,
    err: int,
    a1: int,
    da: int,
    db: int,
    up: bool,
    steep: bool,
) -> Map<i64, i64>
    decreases a1 + 1 - a,
{
    if a > a1 {
        m
    } else {
        let m2 = if steep {
            m.insert(b as i64, a as i64)
        } else {
            m.insert(a as i64, b as i64)
        };
        let e = err - db;
        if e < 0 {
            trace_spec(m2, a + 1, if up { b + 1 } else { b - 1 }, e + da, a1, da, db, up, steep)
        } else {
            trace_spec(m2, a + 1, b, e, a1, da, db, up, steep)
        }
    }
}

/// The map after the line from `(x0, y0)` to `(x1, y1)` is drawn into `m`, walked from its
/// lower end along its longer axis.
pub open spec fn line_spec(m: Map<i64, i64>, x0: int, y0: int, x1: int, y1: int) -> Map<i64, i64> {
    let dx = if x1 >= x0 { x1 - x0 } else { x0 - x1 };
    let dy = if y1 >= y0 { y1 - y0 } else { y0 - y1 };
    if dy > dx {
        if y0 <= y1 {
            trace_spec(m, y0, x0, (y1 - y0) / 2, y1, y1 - y0, dx, x0 < x1, true)
        } else {
            trace_spec(m, y1, x1, (y0 - y1) / 2, y0, y0 - y1, dx, x1 < x0, true)
        }
    } else {
        if x0 <= x1 {
            trace_spec(m, x0, y0, (x1 - x0) / 2, x1, x1 - x0, dy, y0 < y1, false)
        } else {
            trace_spec(m, x1, y1, (x0 - x1) / 2, x0, x0 - x1, dy, y1 < y0, false)
        }
    }
}

/// Walks a line along its major axis `a` from `a0` to `a1`, stepping the minor axis `b`
/// from `b0` toward `b1` with an integer error term; `steep` says whether `a` runs down
/// the rows (then the pixel is `(b, a)`) or along the columns (then it is `(a, b)`).
fn trace(graph: &mut BTreeMap<i64, i64>, a0: i64, b0: i64, a1: i64, b1: i64, steep: bool)
    requires
        in_limit(a0 as int),
        in_limit(a1 as int),
        in_limit(b0 as int),
        in_limit(b1 as int),
        a0 <= a1,
        (if b1 >= b0 { b1 - b0 } else { b0 - b1 }) <= a1 - a0,
    ensures
        steep ==> covers(final(graph)@, b0 as int, b1 as int),
        steep ==> rows_within(
            final(graph)@,
            min_int(b0 as int, b1 as int),
            max_int(b0 as int, b1 as int),
            a0 as int,
            a1 as int,
        ),
        steep ==> unchanged_outside(
            old(graph)@,
            final(graph)@,
            min_int(b0 as int, b1 as int),
            max_int(b0 as int, b1 as int),
        ),
        !steep ==> covers(final(graph)@, a0 as int, a1 as int),
        !steep ==> rows_within(
            final(graph)@,
            a0 as int,
            a1 as int,
            min_int(b0 as int, b1 as int),
            max_int(b0 as int, b1 as int),
        ),
        !steep ==> unchanged_outside(old(graph)@, final(graph)@, a0 as int, a1 as int),
        steep ==> adjacent_within(
            final(graph)@,
            min_int(b0 as int, b1 as int),
            max_int(b0 as int, b1 as int),
            slope_step((if b1 >= b0 { b1 - b0 } else { b0 - b1 }) as int, (a1 - a0) as int),
        ),
        !steep ==> adjacent_within(
            final(graph)@,
            a0 as int,
            a1 as int,
            slope_step((a1 - a0) as int, (if b1 >= b0 { b1 - b0 } else { b0 - b1 }) as int),
        ),
        final(graph)@ == trace_spec(
            old(graph)@,
            a0 as int,
            b0 as int,
            (a1 - a0) / 2,
            a1 as int,
            (a1 - a0) as int,
            (if b1 >= b0 { b1 - b0 } else { b0 - b1 }) as int,
            b0 < b1,
            steep,
        ),
{
    let da: i64 = a1 - a0;
    let db: i64 = if b1 >= b0 { b1 - b0 } else { b0 - b1 };
    let up: bool = b0 < b1;
    let mut a: i64 = a0;
    let mut b: i64 = b0;
    let mut err: i64 = da / 2;
    let ghost mut k: int = 0;
    let ghost mut lo: int = a0 as int;
    let ghost mut hi: int = a0 - 1;
    if steep {
        proof {
            lo = b0 as int;
            hi = b0 - 1;
        }
    }
    let ghost blo = min_int(b0 as int, b1 as int);
    let ghost bhi = max_int(b0 as int, b1 as int);
    let ghost bound: int = if steep {
        slope_step(db as int, da as int)
    } else {
        slope_step(da as int, db as int)
    };
    let ghost mut run_start: int = a0 as int;
    let ghost mut err_s: int = err as int;
    let ghost mut last_b: int = b0 as int;
    while a <= a1
        invariant
            in_limit(a0 as int),
            in_limit(a1 as int),
            in_limit(b0 as int),
            in_limit(b1 as int),
            da == a1 - a0,
            db == (if b1 >= b0 { b1 - b0 } else { b0 - b1 }),
            db <= da,
            up == (b0 < b1),
            blo == min_int(b0 as int, b1 as int),
            bhi == max_int(b0 as int, b1 as int),
            a0 <= a <= a1 + 1,
            0 <= err,
            err < da || (da == 0 && err == 0),
            b == (if up { b0 + k } else { b0 - k }),
            k * da == err - da / 2 + (a - a0) * db,
            0 <= k,
            a == a0 ==> k == 0,
            a <= a1 ==> k <= db,
            a > a1 ==> lo == blo || !steep,
            a > a1 ==> hi == bhi || !steep,
            !steep ==> lo == a0 && hi == a - 1,
            steep && a == a0 ==> lo == b0 && hi == b0 - 1,
            steep && a > a0 ==> blo <= lo <= hi <= bhi,
            steep && a > a0 && up ==> lo == b0 && (hi == b || hi == b - 1),
            steep && a > a0 && !up ==> hi == b0 && (lo == b || lo == b + 1),
            forall|c: i64| lo <= c <= hi ==> #[trigger] graph@.contains_key(c),
            steep ==> rows_within(graph@, lo, hi, a0 as int, a1 as int),
            !steep ==> rows_within(graph@, lo, hi, blo, bhi),
            unchanged_outside(old(graph)@, graph@, lo, hi),
            bound == (if steep {
                slope_step(db as int, da as int)
            } else {
                slope_step(da as int, db as int)
            }),
            adjacent_within(graph@, lo, hi, bound),
            !steep && a > a0 ==> graph@[(a - 1) as i64] == last_b,
            !steep && a > a0 ==> (b == last_b || b == last_b + (if up { 1int } else { -1 })),
            !steep && db == 0 ==> b == b0 && last_b == b0,
            steep ==> a0 <= run_start <= a,
            steep ==> err + (a - run_start) * db == err_s,
            steep ==> 0 <= err_s && (err_s < da || da == 0),
            steep && a > run_start ==> graph@[b] == a - 1,
            steep && a > a0 && up ==> (a > run_start ==> hi == b) && (a == run_start ==> hi == b - 1),
            steep && a > a0 && !up ==> (a > run_start ==> lo == b) && (a == run_start ==> lo == b + 1),
            steep && run_start > a0 ==> k >= 1 && graph@[(if up { b - 1 } else { b + 1 }) as i64]
                == run_start - 1,
            steep && run_start == a0 ==> k == 0,
            trace_spec(
                old(graph)@,
                a0 as int,
                b0 as int,
                (a1 - a0) / 2,
                a1 as int,
                da as int,
                db as int,
                up,
                steep,
            ) == trace_spec(graph@, a as int, b as int, err as int, a1 as int, da as int, db as int, up, steep),
        decreases a1 + 1 - a,
    {
        proof {
            if a == a1 && da > 0 {
                assert((k - db) * da == err - da / 2) by (nonlinear_arith)
                    requires
                        k * da == err - da / 2 + da * db,
                ;
                assert(k - db < 1) by (nonlinear_arith)
                    requires
                        (k - db) * da == err - da / 2,
                        err < da,
                        da > 0,
                        da / 2 >= 0,
                ;
                assert(k - db > -1) by (nonlinear_arith)
                    requires
                        (k - db) * da == err - da / 2,
                        err >= 0,
                        da > 0,
                        da / 2 * 2 <= da,
                ;
            }
            assert(blo <= b <= bhi);
        }
        let ghost pre = *graph;
        if steep {
            plot(graph, b, a);
        } else {
            plot(graph, a, b);
        }
        proof {
            let col: int = if steep { b as int } else { a as int };
            let row: int = if steep { a as int } else { b as int };
            let old_lo = lo;
            let old_hi = hi;
            assert(graph@ == pre@.insert(col as i64, row as i64));
            if steep && a == a0 {
                lo = col;
                hi = col;
            } else {
                lo = min_int(lo, col);
                hi = max_int(hi, col);
            }
            assert forall|c: i64| !(lo <= c <= hi) implies {
                &&& #[trigger] graph@.contains_key(c) == old(graph)@.contains_key(c)
                &&& old(graph)@.contains_key(c) ==> graph@[c] == old(graph)@[c]
            } by {
                assert(pre@.contains_key(c) == old(graph)@.contains_key(c));
            }
            if steep {
                if a > run_start {
                    assert((a - run_start) * db <= err_s);
                    if db > 0 {
                        assert(a - run_start + 1 <= (da + db - 1) as int / db as int) by (nonlinear_arith)
                            requires
                                (a - run_start) * db <= err_s,
                                err_s < da,
                                db > 0,
                        ;
                    }
                }
                if db > 0 {
                    assert(bound >= 1) by (nonlinear_arith)
                        requires
                            bound == (da + db - 1) as int / db as int,
                            db > 0,
                            da >= db,
                    ;
                }
            } else {
                if db > 0 {
                    assert(bound >= 1) by (nonlinear_arith)
                        requires
                            bound == (db + da - 1) as int / da as int,
                            da >= db,
                            db > 0,
                    ;
                }
            }
            assert forall|c: i64| lo <= c < hi implies -bound <= #[trigger] graph@[(c + 1) as i64]
                - graph@[c] <= bound by {
                if c != col && c + 1 != col {
                    assert(pre@[(c + 1) as i64] == graph@[(c + 1) as i64]);
                    assert(pre@[c] == graph@[c]);
                    assert(old_lo <= c < old_hi);
                    assert(-bound <= pre@[(c + 1) as i64] - pre@[c] <= bound);
                } else if !steep {
                    assert(c + 1 == col);
                    assert(graph@[c] == last_b);
                    assert(graph@[(c + 1) as i64] == b);
                    if db == 0 {
                        assert(b == last_b);
                    } else {
                        assert(bound >= 1);
                    }
                } else if up {
                    assert(c + 1 == col);
                    assert(run_start > a0);
                    assert(graph@[c] == run_start - 1);
                    assert(graph@[(c + 1) as i64] == a);
                    assert(db >= 1);
                    assert(a - run_start + 1 <= bound);
                } else {
                    assert(c == col);
                    assert(run_start > a0);
                    assert(graph@[(c + 1) as i64] == run_start - 1);
                    assert(graph@[c] == a);
                    assert(db >= 1);
                    assert(a - run_start + 1 <= bound);
                }
            }
        }
        a = a + 1;
        proof {
            assert((a - a0) * db == (a - 1 - a0) * db + db) by (nonlinear_arith);
        }
        let ghost plotted_b = b as int;
        err = err - db;
        proof {
            last_b = plotted_b;
            assert((a - run_start) * db == (a - 1 - run_start) * db + db) by (nonlinear_arith);
        }
        if err < 0 {
            b = if up { b + 1 } else { b - 1 };
            err = err + da;
            proof {
                assert((k + 1) * da == k * da + da) by (nonlinear_arith);
                k = k + 1;
                run_start = a as int;
                err_s = err as int;
            }
        }
        proof {
            if a <= a1 {
                assert((a - a0) * db <= da * db) by (nonlinear_arith)
                    requires
                        a - a0 <= da,
                        db >= 0,
                ;
                assert(k * da < (db + 1) * da) by (nonlinear_arith)
                    requires
                        k * da == err - da / 2 + (a - a0) * db,
                        (a - a0) * db <= da * db,
                        err < da,
                        da / 2 >= 0,
                ;
                assert(k <= db) by (nonlinear_arith)
                    requires
                        k * da < (db + 1) * da,
                        da > 0,
                ;
            }
        }
    }
}

/// Draws the line from `(x0, y0)` to `(x1, y1)` into the column-to-row map, one row per
/// column visited; where the line is steeper than diagonal, the last pixel of a column
/// (walking down from the upper end) is the one kept. Every column between the ends gets a
/// row, within the ends' rows, and neighbouring columns' rows differ by at most the slope
/// rounded up.
pub fn draw_line(graph: &mut BTreeMap<i64, i64>, x0: i64, y0: i64, x1: i64, y1: i64)
    requires
        in_limit(x0 as int),
        in_limit(y0 as int),
        in_limit(x1 as int),
        in_limit(y1 as int),
    ensures
        covers(final(graph)@, x0 as int, x1 as int),
        rows_within(
            final(graph)@,
            min_int(x0 as int, x1 as int),
            max_int(x0 as int, x1 as int),
            min_int(y0 as int, y1 as int),
            max_int(y0 as int, y1 as int),
        ),
        unchanged_outside(
            old(graph)@,
            final(graph)@,
            min_int(x0 as int, x1 as int),
            max_int(x0 as int, x1 as int),
        ),
        keeps_columns(old(graph)@, final(graph)@),
        rows_bounded(old(graph)@) ==> rows_bounded(final(graph)@),
        adjacent_within(
            final(graph)@,
            min_int(x0 as int, x1 as int),
            max_int(x0 as int, x1 as int),
            slope_step(
                (if x1 >= x0 { x1 - x0 } else { x0 - x1 }) as int,
                (if y1 >= y0 { y1 - y0 } else { y0 - y1 }) as int,
            ),
        ),
        final(graph)@ == line_spec(old(graph)@, x0 as int, y0 as int, x1 as int, y1 as int),
{
    let dx: i64 = if x1 >= x0 { x1 - x0 } else { x0 - x1 };
    let dy: i64 = if y1 >= y0 { y1 - y0 } else { y0 - y1 };
    if dy > dx {
        if y0 <= y1 {
            trace(graph, y0, x0, y1, x1, true);
        } else {
            trace(graph, y1, x1, y0, x0, true);
        }
    } else {
        if x0 <= x1 {
            trace(graph, x0, y0, x1, y1, false);
        } else {
            trace(graph, x1, y1, x0, y0, false);
        }
    }
}

/// Nearest integer to `num / den`, halves rounded away from zero.
pub open spec fn round_div(num: int, den: int) -> int
    recommends
        den > 0,
{
    if num >= 0 {
        (2 * num + den) / (2 * den)
    } else {
        -((-2 * num + den) / (2 * den))
    }
}

pub proof fn lemma_round_div_bounds(num: int, den: int, lo: int, hi: int)
    requires
        den > 0,
        lo * den <= num <= hi * den,
    ensures
        lo <= round_div(num, den) <= hi,
{
    if num >= 0 {
        assert((2 * num + den) / (2 * den) <= hi) by (nonlinear_arith)
            requires
                num <= hi * den,
                den > 0,
                num >= 0,
        ;
        assert((2 * num + den) / (2 * den) >= lo) by (nonlinear_arith)
            requires
                lo * den <= num,
                den > 0,
                num >= 0,
        ;
    } else {
        assert((-2 * num + den) / (2 * den) <= -lo) by (nonlinear_arith)
            requires
                lo * den <= num,
                den > 0,
                num < 0,
        ;
        assert((-2 * num + den) / (2 * den) >= -hi) by (nonlinear_arith)
            requires
                num <= hi * den,
                den > 0,
                num < 0,
        ;
    }
}

pub(crate) fn round_div_exec(num: i128, den: i128) -> (r: i128)
    requires
        den > 0,
        -0x1000_0000_0000_0000_0000_0000 < num < 0x1000_0000_0000_0000_0000_0000,
        den < 0x1000_0000_0000_0000_0000_0000,
    ensures
        r == round_div(num as int, den as int),
{
    if num >= 0 {
        (2 * num + den) / (2 * den)
    } else {
        let neg: i128 = 0 - num;
        0 - (2 * neg + den) / (2 * den)
    }
}

/// `r` is the integer square root of `n`.
pub open spec fn is_isqrt(n: int, r: int) -> bool {
    0 <= r && r * r <= n < (r + 1) * (r + 1)
}

pub open spec fn isqrt(n: int) -> int {
    choose|r: int| is_isqrt(n, r)
}

proof fn lemma_isqrt_unique(n: int, r: int)
    requires
        is_isqrt(n, r),
    ensures
        isqrt(n) == r,
{
    assert(exists|s: int| is_isqrt(n, s));
    let s = isqrt(n);
    if s < r {
        assert((s + 1) * (s + 1) <= r * r) by (nonlinear_arith)
            requires
                0 <= s < r,
        ;
    } else if s > r {
        assert((r + 1) * (r + 1) <= s * s) by (nonlinear_arith)
            requires
                0 <= r < s,
        ;
    }
}

/// Integer square root by bisection.
pub fn integer_sqrt(n: u64) -> (r: u64)
    ensures
        is_isqrt(n as int, r as int),
        r == isqrt(n as int),
{
    let mut lo: u64 = 0;
    let mut hi: u64 = 0x1_0000_0000;
    assert(hi * hi > n) by (nonlinear_arith)
        requires
            hi == 0x1_0000_0000u64,
            n <= u64::MAX,
    ;
    while hi - lo > 1
        invariant
            lo < hi <= 0x1_0000_0000,
            lo * lo <= n,
            hi * hi > n,
        decreases hi - lo,
    {
        let mid: u64 = lo + (hi - lo) / 2;
        assert(mid * mid <= 0xffff_ffff * 0xffff_ffff) by (nonlinear_arith)
            requires
                mid < 0x1_0000_0000u64,
        ;
        if mid * mid <= n {
            lo = mid;
        } else {
            hi = mid;
        }
    }
    proof {
        lemma_isqrt_unique(n as int, lo as int);
    }
    lo
}

/// Sub-pixel resolution of curve control points: one pixel is this many units.
pub const SUBPIXEL: i64 = 256;

/// Largest magnitude of a control point coordinate, in sub-pixel units.
pub const CONTROL_LIMIT: i64 = 0x80_0000;

/// One cubic Bézier piece of a fitted curve; coordinates in sub-pixel units.
#[derive(Clone, Copy, Debug, PartialEq, Eq)]
pub struct CurveSegment {
    pub start: (i64, i64),
    pub control_a: (i64, i64),
    pub control_b: (i64, i64),
    pub end: (i64, i64),
}

pub open spec fn control_in_limit(p: (i64, i64)) -> bool {
    -CONTROL_LIMIT <= p.0 <= CONTROL_LIMIT && -CONTROL_LIMIT <= p.1 <= CONTROL_LIMIT
}

impl CurveSegment {
    pub open spec fn in_limit(&self) -> bool {
        control_in_limit(self.start) && control_in_limit(self.control_a) && control_in_limit(
            self.control_b,
        ) && control_in_limit(self.end)
    }
}

/// Squared distance of two control points.
pub open spec fn dist2(p: (i64, i64), q: (i64, i64)) -> int {
    (p.0 - q.0) * (p.0 - q.0) + (p.1 - q.1) * (p.1 - q.1)
}

/// Length of the control polygon, each edge rounded down to whole sub-pixel units: a cheap
/// upper bound (up to that rounding) of the arc length.
pub open spec fn length_bound(seg: CurveSegment) -> int {
    isqrt(dist2(seg.start, seg.control_a)) + isqrt(dist2(seg.control_a, seg.control_b)) + isqrt(
        dist2(seg.control_b, seg.end),
    )
}

/// Number of straight pieces for a curve whose length bound is `len` sub-pixel units:
/// `round(sqrt((l * l + 800) / 8))` for the length `l` in pixels, and at least one.
pub open spec fn sample_count(len: int) -> int {
    let q = (len * len + 800 * SUBPIXEL * SUBPIXEL) / (2 * SUBPIXEL * SUBPIXEL);
    let m = (isqrt(q) + 1) / 2;
    if m < 1 {
        1
    } else {
        m
    }
}

/// Numerator of one coordinate of the curve at parameter `i / n`, over `n * n * n`.
pub open spec fn bezier_num(p0: int, p1: int, p2: int, p3: int, n: int, i: int) -> int {
    let u = n - i;
    p0 * (u * u * u) + 3 * p1 * (u * u * i) + 3 * p2 * (u * i * i) + p3 * (i * i * i)
}

/// The pixel the curve passes at parameter `i / n`, rounded to the nearest pixel.
pub open spec fn sample_point(seg: CurveSegment, n: int, i: int) -> (int, int) {
    let den = n * n * n * SUBPIXEL;
    (
        round_div(
            bezier_num(
                seg.start.0 as int,
                seg.control_a.0 as int,
                seg.control_b.0 as int,
                seg.end.0 as int,
                n,
                i,
            ),
            den,
        ),
        round_div(
            bezier_num(
                seg.start.1 as int,
                seg.control_a.1 as int,
                seg.control_b.1 as int,
                seg.end.1 as int,
                n,
                i,
            ),
            den,
        ),
    )
}

proof fn lemma_weights(n: int, i: int)
    requires
        0 <= i <= n,
    ensures
        (n - i) * (n - i) * (n - i) >= 0,
        (n - i) * (n - i) * i >= 0,
        (n - i) * i * i >= 0,
        i * i * i >= 0,
        (n - i) * (n - i) * (n - i) + 3 * ((n - i) * (n - i) * i) + 3 * ((n - i) * i * i) + i * i
            * i == n * n * n,
{
    let u = n - i;
    assert(u * u * u >= 0) by (nonlinear_arith)
        requires
            u >= 0,
    ;
    assert(u * u * i >= 0) by (nonlinear_arith)
        requires
            u >= 0,
            i >= 0,
    ;
    assert(u * i * i >= 0) by (nonlinear_arith)
        requires
            u >= 0,
            i >= 0,
    ;
    assert(i * i * i >= 0) by (nonlinear_arith)
        requires
            i >= 0,
    ;
    assert(u * u * u + 3 * (u * u * i) + 3 * (u * i * i) + i * i * i == (u + i) * (u + i) * (u
        + i)) by (nonlinear_arith);
}

proof fn lemma_term_bound(p: int, w: int, c: int)
    requires
        -c <= p <= c,
        w >= 0,
    ensures
        -c * w <= p * w <= c * w,
{
    assert(-c * w <= p * w <= c * w) by (nonlinear_arith)
        requires
            -c <= p <= c,
            w >= 0,
    ;
}

/// Largest number of straight pieces a segment within the control limit is cut into.
pub const MAX_SAMPLES: i64 = 0x40000;

fn bezier_num_exec(p0: i64, p1: i64, p2: i64, p3: i64, n: i64, i: i64) -> (r: i128)
    requires
        -CONTROL_LIMIT <= p0 <= CONTROL_LIMIT,
        -CONTROL_LIMIT <= p1 <= CONTROL_LIMIT,
        -CONTROL_LIMIT <= p2 <= CONTROL_LIMIT,
        -CONTROL_LIMIT <= p3 <= CONTROL_LIMIT,
        0 <= i <= n <= MAX_SAMPLES,
    ensures
        r == bezier_num(p0 as int, p1 as int, p2 as int, p3 as int, n as int, i as int),
        -CONTROL_LIMIT * (n * n * n) <= r <= CONTROL_LIMIT * (n * n * n),
{
    let u: i128 = (n - i) as i128;
    let t: i128 = i as i128;
    proof {
        lemma_weights(n as int, i as int);
        assert(u * u * u <= 0x40000 * 0x40000 * 0x40000) by (nonlinear_arith)
            requires
                0 <= u <= 0x40000,
        ;
        assert(u * u * t <= 0x40000 * 0x40000 * 0x40000) by (nonlinear_arith)
            requires
                0 <= u <= 0x40000,
                0 <= t <= 0x40000,
        ;
        assert(u * t * t <= 0x40000 * 0x40000 * 0x40000) by (nonlinear_arith)
            requires
                0 <= u <= 0x40000,
                0 <= t <= 0x40000,
        ;
        assert(t * t * t <= 0x40000 * 0x40000 * 0x40000) by (nonlinear_arith)
            requires
                0 <= t <= 0x40000,
        ;
        assert(0 <= u * u <= 0x40000 * 0x40000) by (nonlinear_arith)
            requires
                0 <= u <= 0x40000,
        ;
        assert(0 <= u * t <= 0x40000 * 0x40000) by (nonlinear_arith)
            requires
                0 <= u <= 0x40000,
                0 <= t <= 0x40000,
        ;
        assert(0 <= t * t <= 0x40000 * 0x40000) by (nonlinear_arith)
            requires
                0 <= t <= 0x40000,
        ;
    }
    let w0: i128 = u * u * u;
    let w1: i128 = u * u * t;
    let w2: i128 = u * t * t;
    let w3: i128 = t * t * t;
    proof {
        let c = CONTROL_LIMIT as int;
        lemma_term_bound(p0 as int, w0 as int, c);
        lemma_term_bound(p1 as int, w1 as int, c);
        lemma_term_bound(p2 as int, w2 as int, c);
        lemma_term_bound(p3 as int, w3 as int, c);
        assert(c * w0 <= c * 0x40000 * 0x40000 * 0x40000) by (nonlinear_arith)
            requires
                0 <= w0 <= 0x40000 * 0x40000 * 0x40000,
                c > 0,
        ;
        assert(c * w1 <= c * 0x40000 * 0x40000 * 0x40000) by (nonlinear_arith)
            requires
                0 <= w1 <= 0x40000 * 0x40000 * 0x40000,
                c > 0,
        ;
        assert(c * w2 <= c * 0x40000 * 0x40000 * 0x40000) by (nonlinear_arith)
            requires
                0 <= w2 <= 0x40000 * 0x40000 * 0x40000,
                c > 0,
        ;
        assert(c * w3 <= c * 0x40000 * 0x40000 * 0x40000) by (nonlinear_arith)
            requires
                0 <= w3 <= 0x40000 * 0x40000 * 0x40000,
                c > 0,
        ;
        assert(c * (w0 + 3 * w1 + 3 * w2 + w3) == c * (n * n * n)) by {
            assert(w0 + 3 * w1 + 3 * w2 + w3 == n * n * n);
        }
        assert(c * (w0 + 3 * w1 + 3 * w2 + w3) == c * w0 + 3 * (c * w1) + 3 * (c * w2) + c * w3)
            by (nonlinear_arith);
    }
    assert(-0x80_0000 * 0x40000 * 0x40000 * 0x40000 <= (p0 as int) * w0 <= 0x80_0000 * 0x40000
        * 0x40000 * 0x40000);
    assert(-0x80_0000 * 0x40000 * 0x40000 * 0x40000 <= (p1 as int) * w1 <= 0x80_0000 * 0x40000
        * 0x40000 * 0x40000);
    assert(-0x80_0000 * 0x40000 * 0x40000 * 0x40000 <= (p2 as int) * w2 <= 0x80_0000 * 0x40000
        * 0x40000 * 0x40000);
    assert(-0x80_0000 * 0x40000 * 0x40000 * 0x40000 <= (p3 as int) * w3 <= 0x80_0000 * 0x40000
        * 0x40000 * 0x40000);
    let t0: i128 = (p0 as i128) * w0;
    let t1: i128 = (p1 as i128) * w1;
    let t2: i128 = (p2 as i128) * w2;
    let t3: i128 = (p3 as i128) * w3;
    let r: i128 = t0 + 3 * t1 + 3 * t2 + t3;
    proof {
        assert(3 * (p1 as int) * w1 == 3 * ((p1 as int) * w1)) by (nonlinear_arith);
        assert(3 * (p2 as int) * w2 == 3 * ((p2 as int) * w2)) by (nonlinear_arith);
        assert(u * u * u == (n - i) * (n - i) * (n - i));
    }
    r
}

fn sample(seg: &CurveSegment, n: i64, i: i64) -> (r: (i64, i64))
    requires
        seg.in_limit(),
        0 <= i <= n <= MAX_SAMPLES,
        n >= 1,
    ensures
        r.0 == sample_point(*seg, n as int, i as int).0,
        r.1 == sample_point(*seg, n as int, i as int).1,
        -0x8000 <= r.0 <= 0x8000,
        -0x8000 <= r.1 <= 0x8000,
{
    let nx = bezier_num_exec(seg.start.0, seg.control_a.0, seg.control_b.0, seg.end.0, n, i);
    let ny = bezier_num_exec(seg.start.1, seg.control_a.1, seg.control_b.1, seg.end.1, n, i);
    let nn: i128 = n as i128;
    proof {
        assert(1 <= nn * nn <= 0x40000 * 0x40000) by (nonlinear_arith)
            requires
                1 <= nn <= 0x40000,
        ;
        assert(1 <= nn * nn * nn <= 0x40000 * 0x40000 * 0x40000) by (nonlinear_arith)
            requires
                1 <= nn <= 0x40000,
        ;
    }
    let n3: i128 = nn * nn * nn;
    assert(n3 * 256 <= 0x40000 * 0x40000 * 0x40000 * 256);
    let den: i128 = n3 * (SUBPIXEL as i128);
    let x = round_div_exec(nx, den);
    let y = round_div_exec(ny, den);
    proof {
        lemma_round_div_bounds(nx as int, den as int, -0x8000, 0x8000);
        lemma_round_div_bounds(ny as int, den as int, -0x8000, 0x8000);
    }
    (x as i64, y as i64)
}

proof fn lemma_sample_ends(seg: CurveSegment, n: int)
    requires
        n >= 1,
    ensures
        sample_point(seg, n, 0) == (round_div(seg.start.0 as int, SUBPIXEL as int), round_div(
            seg.start.1 as int,
            SUBPIXEL as int,
        )),
        sample_point(seg, n, n) == (round_div(seg.end.0 as int, SUBPIXEL as int), round_div(
            seg.end.1 as int,
            SUBPIXEL as int,
        )),
{
    let n3 = n * n * n;
    assert(n3 > 0) by (nonlinear_arith)
        requires
            n >= 1,
            n3 == n * n * n,
    ;
    assert(n3 * SUBPIXEL == n * n * n * SUBPIXEL);
    lemma_scaled_round(seg.start.0 as int, n3);
    lemma_scaled_round(seg.start.1 as int, n3);
    lemma_scaled_round(seg.end.0 as int, n3);
    lemma_scaled_round(seg.end.1 as int, n3);
    assert(bezier_num(
        seg.start.0 as int,
        seg.control_a.0 as int,
        seg.control_b.0 as int,
        seg.end.0 as int,
        n,
        0,
    ) == seg.start.0 * n3) by (nonlinear_arith)
        requires
            n3 == n * n * n,
    ;
    assert(bezier_num(
        seg.start.1 as int,
        seg.control_a.1 as int,
        seg.control_b.1 as int,
        seg.end.1 as int,
        n,
        0,
    ) == seg.start.1 * n3) by (nonlinear_arith)
        requires
            n3 == n * n * n,
    ;
    assert(bezier_num(
        seg.start.0 as int,
        seg.control_a.0 as int,
        seg.control_b.0 as int,
        seg.end.0 as int,
        n,
        n,
    ) == seg.end.0 * n3) by (nonlinear_arith)
        requires
            n3 == n * n * n,
    ;
    assert(bezier_num(
        seg.start.1 as int,
        seg.control_a.1 as int,
        seg.control_b.1 as int,
        seg.end.1 as int,
        n,
        n,
    ) == seg.end.1 * n3) by (nonlinear_arith)
        requires
            n3 == n * n * n,
    ;
}

proof fn lemma_scaled_round(p: int, k: int)
    requires
        k > 0,
    ensures
        round_div(p * k, k * SUBPIXEL) == round_div(p, SUBPIXEL as int),
{
    let d = SUBPIXEL as int;
    if p >= 0 {
        assert(p * k >= 0) by (nonlinear_arith)
            requires
                p >= 0,
                k > 0,
        ;
        assert(2 * (p * k) + k * d == k * (2 * p + d)) by (nonlinear_arith);
        assert(2 * (k * d) == k * (2 * d)) by (nonlinear_arith);
        vstd::arithmetic::div_mod::lemma_div_multiples_vanish_quotient(k, 2 * p + d, 2 * d);
    } else {
        assert(p * k < 0) by (nonlinear_arith)
            requires
                p < 0,
                k > 0,
        ;
        assert(-2 * (p * k) + k * d == k * (-2 * p + d)) by (nonlinear_arith);
        assert(2 * (k * d) == k * (2 * d)) by (nonlinear_arith);
        vstd::arithmetic::div_mod::lemma_div_multiples_vanish_quotient(k, -2 * p + d, 2 * d);
    }
}

fn length_bound_exec(seg: &CurveSegment) -> (r: u64)
    requires
        seg.in_limit(),
    ensures
        r == length_bound(*seg),
        r <= 3 * 0x200_0000,
{
    let a = edge_length(seg.start, seg.control_a);
    let b = edge_length(seg.control_a, seg.control_b);
    let c = edge_length(seg.control_b, seg.end);
    a + b + c
}

fn edge_length(p: (i64, i64), q: (i64, i64)) -> (r: u64)
    requires
        control_in_limit(p),
        control_in_limit(q),
    ensures
        r == isqrt(dist2(p, q)),
        r <= 0x200_0000,
{
    let dx: i64 = p.0 - q.0;
    let dy: i64 = p.1 - q.1;
    proof {
        assert(0 <= dx * dx <= 0x100_0000 * 0x100_0000) by (nonlinear_arith)
            requires
                -0x100_0000 <= dx <= 0x100_0000,
        ;
        assert(0 <= dy * dy <= 0x100_0000 * 0x100_0000) by (nonlinear_arith)
            requires
                -0x100_0000 <= dy <= 0x100_0000,
        ;
    }
    let d2: u64 = (dx * dx) as u64 + (dy * dy) as u64;
    let r = integer_sqrt(d2);
    proof {
        if r > 0x200_0000 {
            assert(r * r > 0x200_0000 * 0x200_0000) by (nonlinear_arith)
                requires
                    r > 0x200_0000,
            ;
        }
    }
    r
}

fn sample_count_exec(len: u64) -> (n: i64)
    requires
        len <= 3 * 0x200_0000,
    ensures
        n == sample_count(len as int),
        1 <= n <= MAX_SAMPLES,
{
    proof {
        assert(len * len <= 3 * 0x200_0000 * 3 * 0x200_0000) by (nonlinear_arith)
            requires
                len <= 3 * 0x200_0000,
        ;
    }
    let q: u64 = (len * len + 800 * 256 * 256) / (2 * 256 * 256);
    let s = integer_sqrt(q);
    proof {
        let x = len * len + 800 * 256 * 256;
        assert(x <= 0x20_0000_0000 * 0x2_0000);
        assert(q <= 0x20_0000_0000) by (nonlinear_arith)
            requires
                q == x / 0x2_0000,
                x <= 0x20_0000_0000 * 0x2_0000,
                x >= 0,
        ;
        if s > 0x5_b000 {
            assert(s * s > 0x5_b000 * 0x5_b000) by (nonlinear_arith)
                requires
                    s > 0x5_b000,
            ;
        }
    }
    let m: u64 = (s + 1) / 2;
    if m < 1 {
        1
    } else {
        m as i64
    }
}

/// The lines between samples `i - 1` and `i`, `i`, ... up to `n` of `seg`, drawn in turn.
pub open spec fn sample_lines(m: Map<i64, i64>, seg: CurveSegment, n: int, i: int) -> Map<i64, i64>
    decreases n + 1 - i,
{
    if i > n || i < 1 {
        m
    } else {
        let p = sample_point(seg, n, i - 1);
        let q = sample_point(seg, n, i);
        sample_lines(line_spec(m, p.0, p.1, q.0, q.1), seg, n, i + 1)
    }
}

/// The map after one cubic piece is rasterized into `m`: its first sample plotted, then the
/// lines between consecutive samples, `sample_count(length_bound(seg))` of them.
pub open spec fn cubic_spec(m: Map<i64, i64>, seg: CurveSegment) -> Map<i64, i64> {
    let n = sample_count(length_bound(seg));
    let p0 = sample_point(seg, n, 0);
    sample_lines(m.insert(p0.0 as i64, p0.1 as i64), seg, n, 1)
}

/// The map after the pieces from the `k`th on are rasterized into `m`, those beyond the
/// control limit left out.
pub open spec fn curve_spec(m: Map<i64, i64>, segs: Seq<CurveSegment>, k: int) -> Map<i64, i64>
    decreases segs.len() - k,
{
    if k < 0 || k >= segs.len() {
        m
    } else {
        curve_spec(if segs[k].in_limit() { cubic_spec(m, segs[k]) } else { m }, segs, k + 1)
    }
}

/// Samples one cubic piece at `sample_count` + 1 evenly spaced parameters, rounds each
/// sample to the nearest pixel, and joins consecutive samples with lines into `graph`.
pub fn collect_cubic_bezier_curve_points(seg: &CurveSegment, graph: &mut BTreeMap<i64, i64>)
    requires
        seg.in_limit(),
    ensures
        covers(
            final(graph)@,
            round_div(seg.start.0 as int, SUBPIXEL as int),
            round_div(seg.end.0 as int, SUBPIXEL as int),
        ),
        keeps_columns(old(graph)@, final(graph)@),
        rows_bounded(old(graph)@) ==> rows_bounded(final(graph)@),
        final(graph)@ == cubic_spec(old(graph)@, *seg),
{
    let len = length_bound_exec(seg);
    let n = sample_count_exec(len);
    proof {
        lemma_sample_ends(*seg, n as int);
    }
    let mut prev = sample(seg, n, 0);
    let ghost first = prev.0 as int;
    let mut i: i64 = 1;
    plot(graph, prev.0, prev.1);
    assert(graph@ == old(graph)@.insert(
        sample_point(*seg, n as int, 0).0 as i64,
        sample_point(*seg, n as int, 0).1 as i64,
    ));
    while i <= n
        invariant
            seg.in_limit(),
            1 <= n <= MAX_SAMPLES,
            1 <= i <= n + 1,
            prev.0 == sample_point(*seg, n as int, i - 1).0,
            prev.1 == sample_point(*seg, n as int, i - 1).1,
            -0x8000 <= prev.0 <= 0x8000,
            -0x8000 <= prev.1 <= 0x8000,
            first == round_div(seg.start.0 as int, SUBPIXEL as int),
            covers(graph@, first, prev.0 as int),
            keeps_columns(old(graph)@, graph@),
            rows_bounded(old(graph)@) ==> rows_bounded(graph@),
            n == sample_count(length_bound(*seg)),
            cubic_spec(old(graph)@, *seg) == sample_lines(graph@, *seg, n as int, i as int),
        decreases n + 1 - i,
    {
        let next = sample(seg, n, i);
        let ghost before = graph@;
        draw_line(graph, prev.0, prev.1, next.0, next.1);
        proof {
            assert(covers(graph@, first, prev.0 as int));
            lemma_covers_join(graph@, first, prev.0 as int, next.0 as int);
        }
        prev = next;
        i = i + 1;
    }
}


proof fn lemma_covers_kept(m1: Map<i64, i64>, m2: Map<i64, i64>, a: int, b: int)
    requires
        covers(m1, a, b),
        keeps_columns(m1, m2),
    ensures
        covers(m2, a, b),
{
    assert forall|c: i64| min_int(a, b) <= c <= max_int(a, b) implies #[trigger] m2.contains_key(
        c,
    ) by {
        assert(m1.contains_key(c));
    }
}

/// Each piece ends where the next one starts.
pub open spec fn chained(segs: Seq<CurveSegment>) -> bool {
    forall|k: int| 0 <= k < segs.len() - 1 ==> #[trigger] segs[k].end == segs[k + 1].start
}

pub open spec fn all_in_limit(segs: Seq<CurveSegment>) -> bool {
    forall|k: int| 0 <= k < segs.len() ==> #[trigger] segs[k].in_limit()
}

/// The pixel column a control point falls in.
pub open spec fn pixel_of(v: i64) -> int {
    round_div(v as int, SUBPIXEL as int)
}

/// Rasterizes a fitted curve, piece by piece, into a map from pixel column to pixel row.
/// Pieces beyond the control limit are left out. For a curve of chained pieces within the
/// limit, every column from the curve's first pixel to its last has a row.
pub fn rasterize_curve(segments: &Vec<CurveSegment>) -> (graph: BTreeMap<i64, i64>)
    ensures
        segments@.len() == 0 ==> graph@ == Map::<i64, i64>::empty(),
        segments@.len() > 0 && all_in_limit(segments@) && chained(segments@) ==> covers(
            graph@,
            pixel_of(segments@[0].start.0),
            pixel_of(segments@[segments@.len() - 1].end.0),
        ),
        rows_bounded(graph@),
        graph@ == curve_spec(Map::<i64, i64>::empty(), segments@, 0),
{
    let mut graph: BTreeMap<i64, i64> = BTreeMap::new();
    let mut k: usize = 0;
    while k < segments.len()
        invariant
            0 <= k <= segments@.len(),
            k == 0 ==> graph@ == Map::<i64, i64>::empty(),
            rows_bounded(graph@),
            curve_spec(Map::<i64, i64>::empty(), segments@, 0) == curve_spec(
                graph@,
                segments@,
                k as int,
            ),
            k > 0 && all_in_limit(segments@) && chained(segments@) ==> covers(
                graph@,
                pixel_of(segments@[0].start.0),
                pixel_of(segments@[k - 1].end.0),
            ),
        decreases segments@.len() - k,
    {
        let seg = &segments[k];
        if control_in_limit_exec(seg.start) && control_in_limit_exec(seg.control_a)
            && control_in_limit_exec(seg.control_b) && control_in_limit_exec(seg.end) {
            let ghost before = graph@;
            collect_cubic_bezier_curve_points(seg, &mut graph);
            proof {
                if k > 0 && all_in_limit(segments@) && chained(segments@) {
                    lemma_covers_kept(
                        before,
                        graph@,
                        pixel_of(segments@[0].start.0),
                        pixel_of(segments@[k - 1].end.0),
                    );
                    assert(segments@[k - 1].end == segments@[k as int].start);
                    lemma_covers_join(
                        graph@,
                        pixel_of(segments@[0].start.0),
                        pixel_of(segments@[k as int].start.0),
                        pixel_of(segments@[k as int].end.0),
                    );
                }
            }
        } else {
            proof {
                assert(!segments@[k as int].in_limit());
            }
        }
        k = k + 1;
    }
    graph
}

fn control_in_limit_exec(p: (i64, i64)) -> (r: bool)
    ensures
        r == control_in_limit(p),
{
    -CONTROL_LIMIT <= p.0 && p.0 <= CONTROL_LIMIT && -CONTROL_LIMIT <= p.1 && p.1 <= CONTROL_LIMIT
}

pub open spec fn points_in_limit(points: Seq<(i64, i64)>) -> bool {
    forall|k: int| 0 <= k < points.len() ==> in_limit(#[trigger] points[k].0 as int) && in_limit(
        points[k].1 as int,
    )
}

/// The anchors run left to right.
pub open spec fn sorted_x(points: Seq<(i64, i64)>) -> bool {
    forall|i: int, j: int| 0 <= i <= j < points.len() ==> #[trigger] points[i].0 <= #[trigger] points[j].0
}

/// The columns from anchor `k` up to, not including, anchor `k + 1` hold rows between the two
/// anchors' rows, and neighbouring ones differ by at most the piece's slope rounded up.
pub open spec fn piece_holds(m: Map<i64, i64>, p: (i64, i64), q: (i64, i64)) -> bool {
    &&& forall|c: i64|
        p.0 <= c < q.0 ==> min_int(p.1 as int, q.1 as int) <= #[trigger] m[c] <= max_int(
            p.1 as int,
            q.1 as int,
        )
    &&& adjacent_within(
        m,
        p.0 as int,
        q.0 - 1,
        slope_step(
            (if q.0 >= p.0 { q.0 - p.0 } else { p.0 - q.0 }) as int,
            (if q.1 >= p.1 { q.1 - p.1 } else { p.1 - q.1 }) as int,
        ),
    )
}

/// Rasterizes straight lines between consecutive anchor points. Every column from the first
/// anchor to the last has a row, and so does every column between two consecutive anchors.
pub fn rasterize_polyline(points: &Vec<(i64, i64)>) -> (graph: BTreeMap<i64, i64>)
    requires
        points_in_limit(points@),
    ensures
        points@.len() == 0 ==> graph@ == Map::<i64, i64>::empty(),
        points@.len() > 0 ==> covers(
            graph@,
            points@[0].0 as int,
            points@[points@.len() - 1].0 as int,
        ),
        forall|k: int|
            0 <= k < points@.len() - 1 ==> covers(
                graph@,
                #[trigger] points@[k].0 as int,
                points@[k + 1].0 as int,
            ),
        rows_bounded(graph@),
        sorted_x(points@) && points@.len() > 0 ==> forall|c: i64|
            #[trigger] graph@.contains_key(c) ==> points@[0].0 <= c <= points@[points@.len() - 1].0,
        sorted_x(points@) ==> forall|k: int|
            0 <= k < points@.len() - 1 ==> piece_holds(graph@, #[trigger] points@[k], points@[k + 1]),
{
    let mut graph: BTreeMap<i64, i64> = BTreeMap::new();
    if points.len() == 0 {
        return graph;
    }
    proof {
        assert(in_limit(points@[0].0 as int));
        assert(in_limit(points@[0].1 as int));
    }
    plot(&mut graph, points[0].0, points[0].1);
    let mut k: usize = 1;
    while k < points.len()
        invariant
            points_in_limit(points@),
            rows_bounded(graph@),
            1 <= k <= points@.len(),
            covers(graph@, points@[0].0 as int, points@[k - 1].0 as int),
            forall|i: int|
                0 <= i < k - 1 ==> covers(
                    graph@,
                    #[trigger] points@[i].0 as int,
                    points@[i + 1].0 as int,
                ),
            sorted_x(points@) ==> forall|c: i64|
                #[trigger] graph@.contains_key(c) ==> points@[0].0 <= c <= points@[k - 1].0,
            sorted_x(points@) ==> forall|i: int|
                0 <= i < k - 1 ==> piece_holds(graph@, #[trigger] points@[i], points@[i + 1]),
        decreases points@.len() - k,
    {
        let ghost before = graph@;
        let p = points[k - 1];
        let q = points[k];
        proof {
            assert(in_limit(points@[k - 1].0 as int));
            assert(in_limit(points@[k as int].0 as int));
        }
        draw_line(&mut graph, p.0, p.1, q.0, q.1);
        proof {
            lemma_covers_kept(before, graph@, points@[0].0 as int, points@[k - 1].0 as int);
            lemma_covers_join(
                graph@,
                points@[0].0 as int,
                points@[k - 1].0 as int,
                points@[k as int].0 as int,
            );
            assert forall|i: int| 0 <= i < k implies covers(
                graph@,
                #[trigger] points@[i].0 as int,
                points@[i + 1].0 as int,
            ) by {
                if i < k - 1 {
                    lemma_covers_kept(before, graph@, points@[i].0 as int, points@[i + 1].0 as int);
                }
            }
            if sorted_x(points@) {
                let lo = points@[k - 1].0;
                assert(points@[0].0 <= lo);
                assert(lo <= points@[k as int].0);
                assert forall|c: i64| #[trigger] graph@.contains_key(c) implies points@[0].0 <= c
                    <= points@[k as int].0 by {
                    if !(lo <= c <= points@[k as int].0) {
                        assert(before.contains_key(c));
                    }
                }
                assert forall|i: int| 0 <= i < k implies piece_holds(
                    graph@,
                    #[trigger] points@[i],
                    points@[i + 1],
                ) by {
                    if i < k - 1 {
                        assert(points@[i + 1].0 <= lo);
                        assert forall|c: i64| points@[i].0 <= c < points@[i + 1].0 implies min_int(
                            points@[i].1 as int,
                            points@[i + 1].1 as int,
                        ) <= #[trigger] graph@[c] <= max_int(
                            points@[i].1 as int,
                            points@[i + 1].1 as int,
                        ) by {
                            assert(covers(before, points@[i].0 as int, points@[i + 1].0 as int));
                            assert(before.contains_key(c));
                            assert(graph@.contains_key(c));
                            assert(graph@[c] == before[c]);
                        }
                        let b = slope_step(
                            (if points@[i + 1].0 >= points@[i].0 {
                                points@[i + 1].0 - points@[i].0
                            } else {
                                points@[i].0 - points@[i + 1].0
                            }) as int,
                            (if points@[i + 1].1 >= points@[i].1 {
                                points@[i + 1].1 - points@[i].1
                            } else {
                                points@[i].1 - points@[i + 1].1
                            }) as int,
                        );
                        assert forall|c: i64| points@[i].0 <= c < points@[i + 1].0 - 1 implies -b
                            <= #[trigger] graph@[(c + 1) as i64] - graph@[c] <= b by {
                            assert(covers(before, points@[i].0 as int, points@[i + 1].0 as int));
                            assert(before.contains_key(c));
                            assert(before.contains_key((c + 1) as i64));
                            assert(graph@.contains_key(c));
                            assert(graph@.contains_key((c + 1) as i64));
                            assert(graph@[c] == before[c]);
                            assert(graph@[(c + 1) as i64] == before[(c + 1) as i64]);
                            assert(-b <= before[(c + 1) as i64] - before[c] <= b);
                        }
                    } else {
                        assert(i == k - 1);
                        assert forall|c: i64| points@[i].0 <= c < points@[i + 1].0 implies min_int(
                            points@[i].1 as int,
                            points@[i + 1].1 as int,
                        ) <= #[trigger] graph@[c] <= max_int(
                            points@[i].1 as int,
                            points@[i + 1].1 as int,
                        ) by {
                            assert(graph@.contains_key(c));
                        }
                    }
                }
            }
        }
        k = k + 1;
    }
    graph
}

} // verus!
