//! Brush and marker shapes, rasterised as integer offsets around the origin.
//!
//! A shape of a given size is a finite sequence of `(dx, dy)` offsets, none
//! of them twice. The caller adds each offset to a centre and clips or
//! clamps the sum before it writes a pixel. Circles are traced with the
//! integer midpoint method: one octant is walked from `(0, r)` towards the
//! diagonal. The outline takes the mirror images of every point of the
//! walk; the filled circle takes, for every row, the full span between the
//! two points of the outline in that row.
use vstd::prelude::*;

verus! {

/// The shapes a brush or a particle marker can take.
#[derive(Debug, Clone, Copy, PartialEq, Eq, Structural)]
pub enum Shape {
    CircleOutline,
    CircleFill,
    SquareCentered,
}

/// How far the lattice point `(x, y)` lies outside the circle of radius `r`,
/// measured in squared distance. Negative inside the circle.
pub open spec fn excess(r: int, x: int, y: int) -> int {
    x * x + y * y - r * r
}

/// The error term of the midpoint walk at `(x, y)`.
///
/// It is `3 - 2r` at the start `(0, r)`, grows by `4x + 6` on a step that
/// keeps `y`, and by `4(x - y) + 14` on a step that lowers `y`
/// (see [`lemma_decision_steps`]).
pub open spec fn decision(r: int, x: int, y: int) -> int {
    2 * excess(r, x, y) + 4 * x - 6 * y + 4 * r + 3
}

/// The row the walk moves to when it leaves column `x` at row `y`.
pub open spec fn next_y(r: int, x: int, y: int) -> int {
    if decision(r, x, y) < 0 {
        y
    } else {
        y - 1
    }
}

/// The absolute value of an integer.
pub open spec fn magnitude(q: int) -> int {
    if q < 0 {
        -q
    } else {
        q
    }
}

/// The mirror images of the octant point `(x, y)` with `0 <= x <= y`, each
/// once: eight of them, or four where the point lies on an axis or on the
/// diagonal.
pub open spec fn mirrors(x: int, y: int) -> Seq<(int, int)> {
    if x == 0 {
        seq![(0, y), (0, -y), (y, 0), (-y, 0)]
    } else if x == y {
        seq![(x, x), (-x, x), (x, -x), (-x, -x)]
    } else {
        seq![(x, y), (-x, y), (x, -y), (-x, -y), (y, x), (-y, x), (y, -x), (-y, -x)]
    }
}

/// What the octant point `(x, y)` adds to an outline: its mirror images, as
/// long as the walk has not crossed the diagonal. Beyond the diagonal the
/// walk only meets mirror images of points it has been at.
pub open spec fn outline_points(x: int, y: int) -> Seq<(int, int)> {
    if x <= y {
        mirrors(x, y)
    } else {
        Seq::empty()
    }
}

/// The offsets `(x1, y), (x1 + 1, y), .., (x2 - 1, y)`; empty when `x2 <= x1`.
pub open spec fn span(x1: int, x2: int, y: int) -> Seq<(int, int)> {
    Seq::new(
        if x1 < x2 {
            (x2 - x1) as nat
        } else {
            0
        },
        |i: int| (x1 + i, y),
    )
}

/// Row `q` from `-w` to `w`, both ends included.
pub open spec fn row(w: int, q: int) -> Seq<(int, int)> {
    span(-w, w + 1, q)
}

/// Rows `q` and `-q` from `-w` to `w`; one row where `q` is zero.
pub open spec fn row_pair(w: int, q: int) -> Seq<(int, int)> {
    if q == 0 {
        row(w, 0)
    } else {
        row(w, q) + row(w, -q)
    }
}

/// What the octant point `(x, y)` adds to a filled circle. Until the walk
/// crosses the diagonal, rows `x` and `-x` are filled as far as `y`. Where
/// the walk leaves row `y` for the next one, rows `y` and `-y` are filled as
/// far as `x`, the widest the walk has been in that row.
pub open spec fn fill_rows(r: int, x: int, y: int) -> Seq<(int, int)> {
    (if x <= y {
        row_pair(y, x)
    } else {
        Seq::empty()
    }) + (if x < y && next_y(r, x, y) < y {
        row_pair(x, y)
    } else {
        Seq::empty()
    })
}

/// The outline offsets drawn from the octant point `(x, y)` to the end of the walk.
pub open spec fn outline_from(r: int, x: int, y: int) -> Seq<(int, int)>
    decreases y - x + 1,
{
    if x < y {
        outline_points(x, y) + outline_from(r, x + 1, next_y(r, x, y))
    } else {
        outline_points(x, y)
    }
}

/// The fill offsets drawn from the octant point `(x, y)` to the end of the walk.
pub open spec fn fill_from(r: int, x: int, y: int) -> Seq<(int, int)>
    decreases y - x + 1,
{
    if x < y {
        fill_rows(r, x, y) + fill_from(r, x + 1, next_y(r, x, y))
    } else {
        fill_rows(r, x, y)
    }
}

/// Every offset of `[-half, half) x [-half, half)`, row by row.
pub open spec fn square(half: int) -> Seq<(int, int)> {
    Seq::new(
        if half > 0 {
            (4 * half * half) as nat
        } else {
            0
        },
        |i: int| (i % (2 * half) - half, i / (2 * half) - half),
    )
}

/// A sequence of machine offsets read as mathematical ones.
pub open spec fn offsets_of(v: Seq<(i32, i32)>) -> Seq<(int, int)> {
    v.map_values(|p: (i32, i32)| (p.0 as int, p.1 as int))
}

/// What holds of every octant point `(x, y)` that the walk for radius `r` visits.
pub open spec fn on_arc(r: int, x: int, y: int) -> bool {
    &&& 1 <= r
    &&& 0 <= x <= y + 1
    &&& 0 <= y <= r
    &&& x == 0 ==> y == r
    &&& excess(r, x, y) <= r + 1
    &&& excess(r, x, y) >= y - 2 * r + 1
    &&& excess(r, x, y) + 2 * y + 1 > 0
    &&& x > 0 ==> excess(r, x, y) >= y - 2 * r + 2
}

/// How the excess changes from one lattice point to a neighbour.
pub proof fn lemma_excess_steps(r: int, x: int, y: int)
    ensures
        excess(r, x + 1, y) == excess(r, x, y) + 2 * x + 1,
        excess(r, x + 1, y - 1) == excess(r, x, y) + 2 * x - 2 * y + 2,
        excess(r, x, y + 1) == excess(r, x, y) + 2 * y + 1,
        excess(r, 0, r) == 0,
{
    assert((x + 1) * (x + 1) == x * x + 2 * x + 1) by (nonlinear_arith);
    assert((y - 1) * (y - 1) == y * y - 2 * y + 1) by (nonlinear_arith);
    assert((y + 1) * (y + 1) == y * y + 2 * y + 1) by (nonlinear_arith);
    assert(0 * 0 == 0) by (nonlinear_arith);
}

/// The error term can be carried along the walk by additions alone.
pub proof fn lemma_decision_steps(r: int, x: int, y: int)
    ensures
        decision(r, 0, r) == 3 - 2 * r,
        decision(r, x + 1, y) == decision(r, x, y) + 4 * x + 6,
        decision(r, x + 1, y - 1) == decision(r, x, y) + 4 * (x - (y - 1)) + 10,
{
    lemma_excess_steps(r, x, y);
}

/// While the walk is above the diagonal it stays in the upper third of the circle.
pub proof fn lemma_arc_is_high(r: int, x: int, y: int)
    requires
        on_arc(r, x, y),
        x < y,
    ensures
        3 * y >= 2 * r + 1,
{
    if 3 * y <= 2 * r {
        assert(x * x <= (y - 1) * (y - 1)) by (nonlinear_arith)
            requires
                0 <= x <= y - 1,
        ;
        assert(false) by (nonlinear_arith)
            requires
                (y - 1) * (y - 1) + y * y - r * r >= y - 2 * r + 1,
                3 * y <= 2 * r,
                1 <= y,
                1 <= r,
        ;
    }
}

/// Every step of the walk keeps it on the arc.
pub proof fn lemma_arc_step(r: int, x: int, y: int)
    requires
        on_arc(r, x, y),
        x < y,
    ensures
        on_arc(r, x + 1, next_y(r, x, y)),
{
    lemma_excess_steps(r, x, y);
    lemma_arc_is_high(r, x, y);
}

/// The walk starts on the arc.
pub proof fn lemma_arc_start(r: int)
    requires
        1 <= r,
    ensures
        on_arc(r, 0, r),
{
    lemma_excess_steps(r, 0, r);
}

/// Appends one offset.
fn push_offset(out: &mut Vec<(i32, i32)>, dx: i32, dy: i32)
    ensures
        offsets_of(final(out)@) == offsets_of(old(out)@).push((dx as int, dy as int)),
{
    out.push((dx, dy));
    assert(offsets_of(out@) =~= offsets_of(old(out)@).push((dx as int, dy as int)));
}

/// Appends row `q` from `-w` to `w`.
fn push_row(out: &mut Vec<(i32, i32)>, w: i32, q: i32)
    requires
        0 <= w,
    ensures
        offsets_of(final(out)@) == offsets_of(old(out)@) + row(w as int, q as int),
{
    let ghost before = offsets_of(out@);
    let mut x: i32 = -w;
    assert(offsets_of(out@) =~= before + span(-w as int, x as int, q as int));
    while x < w
        invariant
            -w <= x <= w,
            offsets_of(out@) == before + span(-w as int, x as int, q as int),
        decreases w - x,
    {
        push_offset(out, x, q);
        x = x + 1;
        assert(offsets_of(out@) =~= before + span(-w as int, x as int, q as int));
    }
    push_offset(out, w, q);
    assert(offsets_of(out@) =~= before + row(w as int, q as int));
}

/// Appends rows `q` and `-q` from `-w` to `w`.
fn push_row_pair(out: &mut Vec<(i32, i32)>, w: i32, q: i32)
    requires
        0 <= w,
        0 <= q,
    ensures
        offsets_of(final(out)@) == offsets_of(old(out)@) + row_pair(w as int, q as int),
{
    let ghost before = offsets_of(out@);
    push_row(out, w, q);
    if q != 0 {
        push_row(out, w, -q);
    }
    assert(offsets_of(out@) =~= before + row_pair(w as int, q as int));
}

/// Appends the mirror images of the octant point `(x, y)`.
fn push_mirrors(out: &mut Vec<(i32, i32)>, x: i32, y: i32)
    requires
        0 <= x <= y,
    ensures
        offsets_of(final(out)@) == offsets_of(old(out)@) + mirrors(x as int, y as int),
{
    let ghost before = offsets_of(out@);
    if x == 0 {
        push_offset(out, 0, y);
        push_offset(out, 0, -y);
        push_offset(out, y, 0);
        push_offset(out, -y, 0);
    } else if x == y {
        push_offset(out, x, x);
        push_offset(out, -x, x);
        push_offset(out, x, -x);
        push_offset(out, -x, -x);
    } else {
        push_offset(out, x, y);
        push_offset(out, -x, y);
        push_offset(out, x, -y);
        push_offset(out, -x, -y);
        push_offset(out, y, x);
        push_offset(out, -y, x);
        push_offset(out, y, -x);
        push_offset(out, -y, -x);
    }
    assert(offsets_of(out@) =~= before + mirrors(x as int, y as int));
}

fn draw_outline(size: i32) -> (out: Vec<(i32, i32)>)
    requires
        1 <= size,
    ensures
        offsets_of(out@) == outline_from(size as int, 0, size as int),
{
    let ghost r = size as int;
    let mut out: Vec<(i32, i32)> = Vec::new();
    let mut x: i32 = 0;
    let mut y: i32 = size;
    let mut d: i64 = 3 - 2 * (size as i64);
    proof {
        lemma_arc_start(r);
        lemma_decision_steps(r, 0, r);
        assert(offsets_of(out@) + outline_from(r, 0, r) =~= outline_from(r, 0, r));
    }
    while x < y
        invariant
            r == size,
            on_arc(r, x as int, y as int),
            d == decision(r, x as int, y as int),
            offsets_of(out@) + outline_from(r, x as int, y as int) == outline_from(r, 0, r),
        decreases y - x + 1,
    {
        proof {
            lemma_arc_step(r, x as int, y as int);
            lemma_decision_steps(r, x as int, y as int);
        }
        let ghost before = offsets_of(out@);
        let ghost here = outline_points(x as int, y as int);
        let ghost rest = outline_from(r, x + 1, next_y(r, x as int, y as int));
        push_mirrors(&mut out, x, y);
        if d < 0 {
            d = d + 4 * (x as i64) + 6;
        } else {
            y = y - 1;
            d = d + 4 * ((x - y) as i64) + 10;
        }
        x = x + 1;
        assert(before + (here + rest) =~= offsets_of(out@) + rest);
    }
    let ghost before = offsets_of(out@);
    if x == y {
        push_mirrors(&mut out, x, y);
    }
    assert(offsets_of(out@) =~= before + outline_from(r, x as int, y as int));
    out
}

fn draw_fill(size: i32) -> (out: Vec<(i32, i32)>)
    requires
        1 <= size,
    ensures
        offsets_of(out@) == fill_from(size as int, 0, size as int),
{
    let ghost r = size as int;
    let mut out: Vec<(i32, i32)> = Vec::new();
    let mut x: i32 = 0;
    let mut y: i32 = size;
    let mut d: i64 = 3 - 2 * (size as i64);
    proof {
        lemma_arc_start(r);
        lemma_decision_steps(r, 0, r);
        assert(offsets_of(out@) + fill_from(r, 0, r) =~= fill_from(r, 0, r));
    }
    while x < y
        invariant
            r == size,
            on_arc(r, x as int, y as int),
            d == decision(r, x as int, y as int),
            offsets_of(out@) + fill_from(r, x as int, y as int) == fill_from(r, 0, r),
        decreases y - x + 1,
    {
        proof {
            lemma_arc_step(r, x as int, y as int);
            lemma_decision_steps(r, x as int, y as int);
        }
        let ghost before = offsets_of(out@);
        let ghost here = fill_rows(r, x as int, y as int);
        let ghost rest = fill_from(r, x + 1, next_y(r, x as int, y as int));
        push_row_pair(&mut out, y, x);
        if d < 0 {
            d = d + 4 * (x as i64) + 6;
            assert(offsets_of(out@) =~= before + here);
        } else {
            push_row_pair(&mut out, x, y);
            assert(offsets_of(out@) =~= before + here);
            y = y - 1;
            d = d + 4 * ((x - y) as i64) + 10;
        }
        x = x + 1;
        assert(before + (here + rest) =~= offsets_of(out@) + rest);
    }
    let ghost before = offsets_of(out@);
    if x == y {
        push_row_pair(&mut out, y, x);
    }
    assert(offsets_of(out@) =~= before + fill_from(r, x as int, y as int));
    out
}

fn draw_square(size: i32) -> (out: Vec<(i32, i32)>)
    requires
        1 <= size,
    ensures
        offsets_of(out@) == square(size as int / 2),
{
    let half: i32 = size / 2;
    let ghost h = half as int;
    let mut out: Vec<(i32, i32)> = Vec::new();
    if half == 0 {
        assert(offsets_of(out@) =~= square(h));
        return out;
    }
    let mut y_off: i32 = -half;
    assert((y_off + h) * (2 * h) == 0) by (nonlinear_arith)
        requires
            y_off + h == 0,
    ;
    while y_off < half
        invariant
            h == half,
            0 < h,
            -h <= y_off <= h,
            offsets_of(out@).len() == (y_off + h) * (2 * h),
            forall|i: int| 0 <= i < offsets_of(out@).len() ==> offsets_of(out@)[i] == square(h)[i],
        decreases half - y_off,
    {
        let mut x_off: i32 = -half;
        while x_off < half
            invariant
                h == half,
                0 < h,
                -h <= y_off < h,
                -h <= x_off <= h,
                offsets_of(out@).len() == (y_off + h) * (2 * h) + (x_off + h),
                forall|i: int|
                    0 <= i < offsets_of(out@).len() ==> offsets_of(out@)[i] == square(h)[i],
            decreases half - x_off,
        {
            proof {
                lemma_square_cell(h, y_off + h, x_off + h);
            }
            push_offset(&mut out, x_off, y_off);
            x_off = x_off + 1;
        }
        y_off = y_off + 1;
        assert((y_off + h) * (2 * h) == (y_off - 1 + h) * (2 * h) + 2 * h) by (nonlinear_arith);
    }
    assert((y_off + h) * (2 * h) == 4 * h * h) by (nonlinear_arith)
        requires
            y_off == h,
    ;
    assert(offsets_of(out@) =~= square(h));
    out
}

/// Cell `col` of row `row` sits at index `row * 2h + col` of the square.
proof fn lemma_square_cell(h: int, row: int, col: int)
    requires
        0 < h,
        0 <= row < 2 * h,
        0 <= col < 2 * h,
    ensures
        0 <= row * (2 * h) + col < 4 * h * h,
        (row * (2 * h) + col) % (2 * h) == col,
        (row * (2 * h) + col) / (2 * h) == row,
{
    let w = 2 * h;
    vstd::arithmetic::div_mod::lemma_fundamental_div_mod_converse(row * w + col, w, row, col);
    assert(row * w + col < 4 * h * h) by (nonlinear_arith)
        requires
            0 <= row < w,
            0 <= col < w,
            w == 2 * h,
    ;
    assert(0 <= row * w + col) by (nonlinear_arith)
        requires
            0 <= row,
            0 <= col,
            0 < w,
    ;
    assert(row * w == w * row) by (nonlinear_arith);
}

/// An element lies in a concatenation exactly when it lies in one of the parts.
proof fn lemma_concat_contains(a: Seq<(int, int)>, b: Seq<(int, int)>, e: (int, int))
    ensures
        (a + b).contains(e) <==> a.contains(e) || b.contains(e),
{
    if a.contains(e) {
        let i = choose|i: int| 0 <= i < a.len() && a[i] == e;
        assert((a + b)[i] == e);
    }
    if b.contains(e) {
        let i = choose|i: int| 0 <= i < b.len() && b[i] == e;
        assert((a + b)[a.len() + i] == e);
    }
    if (a + b).contains(e) {
        let i = choose|i: int| 0 <= i < (a + b).len() && (a + b)[i] == e;
        if i < a.len() {
            assert(a[i] == e);
        } else {
            assert(b[i - a.len()] == e);
        }
    }
}

proof fn lemma_span_contains(x1: int, x2: int, y: int, p: int, q: int)
    ensures
        span(x1, x2, y).contains((p, q)) <==> q == y && x1 <= p < x2,
{
    let s = span(x1, x2, y);
    if q == y && x1 <= p < x2 {
        assert(s[p - x1] == (p, q));
    }
    if s.contains((p, q)) {
        let i = choose|i: int| 0 <= i < s.len() && s[i] == (p, q);
        assert(s[i] == (x1 + i, y));
    }
}

proof fn lemma_span_distinct(x1: int, x2: int, y: int)
    ensures
        span(x1, x2, y).no_duplicates(),
{
}

proof fn lemma_row_pair_contains(w: int, q: int, a: int, b: int)
    requires
        0 <= q,
    ensures
        row_pair(w, q).contains((a, b)) <==> magnitude(b) == q && -w <= a <= w,
{
    lemma_span_contains(-w, w + 1, q, a, b);
    lemma_span_contains(-w, w + 1, -q, a, b);
    lemma_concat_contains(row(w, q), row(w, -q), (a, b));
}

proof fn lemma_row_pair_distinct(w: int, q: int)
    requires
        0 <= q,
    ensures
        row_pair(w, q).no_duplicates(),
{
    lemma_span_distinct(-w, w + 1, q);
    lemma_span_distinct(-w, w + 1, -q);
    if q != 0 {
        vstd::seq_lib::lemma_no_dup_in_concat(row(w, q), row(w, -q));
    }
}

/// Which offsets the octant point `(x, y)` adds to a filled circle.
proof fn lemma_fill_rows_contains(r: int, x: int, y: int, a: int, b: int)
    requires
        0 <= x,
        0 <= y,
    ensures
        fill_rows(r, x, y).contains((a, b)) <==> (x <= y && magnitude(b) == x && -y <= a <= y) || (
        x < y && next_y(r, x, y) < y && magnitude(b) == y && -x <= a <= x),
{
    let first = if x <= y {
        row_pair(y, x)
    } else {
        Seq::empty()
    };
    let second = if x < y && next_y(r, x, y) < y {
        row_pair(x, y)
    } else {
        Seq::empty()
    };
    lemma_row_pair_contains(y, x, a, b);
    lemma_row_pair_contains(x, y, a, b);
    lemma_concat_contains(first, second, (a, b));
}

proof fn lemma_fill_rows_distinct(r: int, x: int, y: int)
    requires
        0 <= x,
        0 <= y,
    ensures
        fill_rows(r, x, y).no_duplicates(),
{
    let first = if x <= y {
        row_pair(y, x)
    } else {
        Seq::empty()
    };
    let second = if x < y && next_y(r, x, y) < y {
        row_pair(x, y)
    } else {
        Seq::empty()
    };
    lemma_row_pair_distinct(y, x);
    lemma_row_pair_distinct(x, y);
    assert forall|i: int, j: int| 0 <= i < first.len() && 0 <= j < second.len() implies first[i]
        != second[j] by {
        assert(first.contains(first[i]));
        assert(second.contains(second[j]));
        lemma_row_pair_contains(y, x, first[i].0, first[i].1);
        lemma_row_pair_contains(x, y, second[j].0, second[j].1);
    }
    vstd::seq_lib::lemma_no_dup_in_concat(first, second);
}

/// One step of the definition of [`fill_from`], read as a statement on membership.
proof fn lemma_fill_from_contains(r: int, x: int, y: int, p: int, q: int)
    ensures
        fill_from(r, x, y).contains((p, q)) <==> fill_rows(r, x, y).contains((p, q)) || (x < y
            && fill_from(r, x + 1, next_y(r, x, y)).contains((p, q))),
{
    if x < y {
        lemma_concat_contains(fill_rows(r, x, y), fill_from(r, x + 1, next_y(r, x, y)), (p, q));
    }
}

/// From `(x, y)` on, the walk fills only rows between `x` and `y`.
proof fn lemma_fill_window(r: int, x: int, y: int, p: int, q: int)
    requires
        0 <= x,
        0 <= y,
        fill_from(r, x, y).contains((p, q)),
    ensures
        x <= magnitude(q) <= y,
    decreases y - x + 1,
{
    lemma_fill_from_contains(r, x, y, p, q);
    lemma_fill_rows_contains(r, x, y, p, q);
    if !fill_rows(r, x, y).contains((p, q)) {
        lemma_fill_window(r, x + 1, next_y(r, x, y), p, q);
    }
}

/// From `(x, y)` on, the walk fills no offset twice.
proof fn lemma_fill_distinct(r: int, x: int, y: int)
    requires
        0 <= x,
        0 <= y,
    ensures
        fill_from(r, x, y).no_duplicates(),
    decreases y - x + 1,
{
    lemma_fill_rows_distinct(r, x, y);
    if x < y {
        let here = fill_rows(r, x, y);
        let rest = fill_from(r, x + 1, next_y(r, x, y));
        lemma_fill_distinct(r, x + 1, next_y(r, x, y));
        assert forall|i: int, j: int| 0 <= i < here.len() && 0 <= j < rest.len() implies here[i]
            != rest[j] by {
            assert(here.contains(here[i]));
            assert(rest.contains(rest[j]));
            lemma_fill_rows_contains(r, x, y, here[i].0, here[i].1);
            lemma_fill_window(r, x + 1, next_y(r, x, y), rest[j].0, rest[j].1);
        }
        vstd::seq_lib::lemma_no_dup_in_concat(here, rest);
    }
}

/// The mirror images of `(x, y)` are the offsets that are `x` from one
/// axis and `y` from the other.
proof fn lemma_mirrors_contains(x: int, y: int, a: int, b: int)
    requires
        0 <= x <= y,
    ensures
        mirrors(x, y).contains((a, b)) <==> (magnitude(a) == x && magnitude(b) == y) || (
        magnitude(a) == y && magnitude(b) == x),
{
    let m = mirrors(x, y);
    if m.contains((a, b)) {
        let i = choose|i: int| 0 <= i < m.len() && m[i] == (a, b);
        assert(m[i] == (a, b));
    }
    if (magnitude(a) == x && magnitude(b) == y) || (magnitude(a) == y && magnitude(b) == x) {
        if x == 0 || x == y {
            assert(m[0] == (a, b) || m[1] == (a, b) || m[2] == (a, b) || m[3] == (a, b));
        } else {
            assert(m[0] == (a, b) || m[1] == (a, b) || m[2] == (a, b) || m[3] == (a, b) || m[4]
                == (a, b) || m[5] == (a, b) || m[6] == (a, b) || m[7] == (a, b));
        }
    }
}

proof fn lemma_mirrors_distinct(x: int, y: int)
    requires
        0 <= x <= y,
        1 <= y,
    ensures
        mirrors(x, y).no_duplicates(),
{
    let m = mirrors(x, y);
    assert forall|i: int, j: int| 0 <= i < m.len() && 0 <= j < m.len() && i != j implies m[i]
        != m[j] by {
        if x == 0 || x == y {
            assert(m.len() == 4);
        } else {
            assert(m.len() == 8);
        }
    }
}

/// One step of the definition of [`outline_from`], read as a statement on membership.
proof fn lemma_outline_from_contains(r: int, x: int, y: int, p: int, q: int)
    ensures
        outline_from(r, x, y).contains((p, q)) <==> outline_points(x, y).contains((p, q)) || (x
            < y && outline_from(r, x + 1, next_y(r, x, y)).contains((p, q))),
{
    if x < y {
        lemma_concat_contains(
            outline_points(x, y),
            outline_from(r, x + 1, next_y(r, x, y)),
            (p, q),
        );
    }
}

/// From `(x, y)` on, no offset of the outline is nearer than `x` to an axis.
proof fn lemma_outline_window(r: int, x: int, y: int, p: int, q: int)
    requires
        0 <= x,
        outline_from(r, x, y).contains((p, q)),
    ensures
        x <= magnitude(p),
        x <= magnitude(q),
    decreases y - x + 1,
{
    lemma_outline_from_contains(r, x, y, p, q);
    if outline_points(x, y).contains((p, q)) {
        lemma_mirrors_contains(x, y, p, q);
    } else {
        lemma_outline_window(r, x + 1, next_y(r, x, y), p, q);
    }
}

/// From `(x, y)` on, the walk puts no offset into the outline twice.
proof fn lemma_outline_distinct(r: int, x: int, y: int)
    requires
        0 <= x,
        0 <= y,
        x == 0 ==> 1 <= y,
    ensures
        outline_from(r, x, y).no_duplicates(),
    decreases y - x + 1,
{
    if x <= y {
        lemma_mirrors_distinct(x, y);
    }
    if x < y {
        let here = outline_points(x, y);
        let rest = outline_from(r, x + 1, next_y(r, x, y));
        lemma_outline_distinct(r, x + 1, next_y(r, x, y));
        assert forall|i: int, j: int| 0 <= i < here.len() && 0 <= j < rest.len() implies here[i]
            != rest[j] by {
            assert(here.contains(here[i]));
            assert(rest.contains(rest[j]));
            lemma_mirrors_contains(x, y, here[i].0, here[i].1);
            lemma_outline_window(r, x + 1, next_y(r, x, y), rest[j].0, rest[j].1);
        }
        vstd::seq_lib::lemma_no_dup_in_concat(here, rest);
    }
}

proof fn lemma_square_distinct(half: int)
    ensures
        square(half).no_duplicates(),
{
    if half > 0 {
        let w = 2 * half;
        let s = square(half);
        assert forall|i: int, j: int| 0 <= i < s.len() && 0 <= j < s.len() && i != j implies s[i]
            != s[j] by {
            vstd::arithmetic::div_mod::lemma_fundamental_div_mod(i, w);
            vstd::arithmetic::div_mod::lemma_fundamental_div_mod(j, w);
        }
    }
}

proof fn lemma_square_below(a: int, b: int)
    requires
        0 <= b,
        a * a < (b + 1) * (b + 1),
    ensures
        -b <= a <= b,
{
    if a > b {
        assert(a * a >= (b + 1) * (b + 1)) by (nonlinear_arith)
            requires
                a >= b + 1,
                b + 1 >= 0,
        ;
    }
    if a < -b {
        assert(a * a >= (b + 1) * (b + 1)) by (nonlinear_arith)
            requires
                -a >= b + 1,
                b + 1 >= 0,
        ;
    }
}

proof fn lemma_square_bounded(a: int, b: int)
    requires
        -b <= a <= b,
    ensures
        a * a <= b * b,
{
    assert(a * a <= b * b) by (nonlinear_arith)
        requires
            -b <= a <= b,
    ;
}

proof fn lemma_square_of_magnitude(q: int)
    ensures
        magnitude(q) * magnitude(q) == q * q,
{
    assert((-q) * (-q) == q * q) by (nonlinear_arith);
}


/// From `(x, y)` on, every offset of the disc of radius `r` in a row between
/// `x` and `y` is drawn.
proof fn lemma_fill_covers_from(r: int, x: int, y: int, p: int, q: int)
    requires
        on_arc(r, x, y),
        x <= magnitude(q) <= y,
        p * p + q * q <= r * r,
    ensures
        fill_from(r, x, y).contains((p, q)),
    decreases y - x + 1,
{
    let k = magnitude(q);
    lemma_square_of_magnitude(q);
    lemma_excess_steps(r, x, y);
    lemma_fill_from_contains(r, x, y, p, q);
    lemma_fill_rows_contains(r, x, y, p, q);
    if k == x {
        lemma_square_below(p, y);
    } else if k == y && next_y(r, x, y) < y {
        lemma_arc_is_high(r, x, y);
        lemma_square_below(p, x);
    } else {
        lemma_arc_step(r, x, y);
        lemma_fill_covers_from(r, x + 1, next_y(r, x, y), p, q);
    }
}

/// From `(x, y)` on, nothing is drawn as far as `r + 1` from the centre.
proof fn lemma_fill_within_from(r: int, x: int, y: int, p: int, q: int)
    requires
        on_arc(r, x, y),
        fill_from(r, x, y).contains((p, q)),
    ensures
        p * p + q * q < (r + 1) * (r + 1),
    decreases y - x + 1,
{
    lemma_fill_from_contains(r, x, y, p, q);
    lemma_fill_rows_contains(r, x, y, p, q);
    if fill_rows(r, x, y).contains((p, q)) {
        lemma_square_of_magnitude(q);
        if magnitude(q) == x && -y <= p <= y {
            lemma_square_bounded(p, y);
        } else {
            lemma_square_bounded(p, x);
        }
        assert((r + 1) * (r + 1) == r * r + 2 * r + 1) by (nonlinear_arith);
    } else {
        lemma_arc_step(r, x, y);
        lemma_fill_within_from(r, x + 1, next_y(r, x, y), p, q);
    }
}

/// From `(x, y)` on, every offset of the outline lies less than one cell
/// from the circle of radius `r`.
proof fn lemma_outline_near_from(r: int, x: int, y: int, p: int, q: int)
    requires
        on_arc(r, x, y),
        outline_from(r, x, y).contains((p, q)),
    ensures
        (r - 1) * (r - 1) <= p * p + q * q < (r + 1) * (r + 1),
    decreases y - x + 1,
{
    lemma_outline_from_contains(r, x, y, p, q);
    if outline_points(x, y).contains((p, q)) {
        lemma_mirrors_contains(x, y, p, q);
        lemma_square_of_magnitude(p);
        lemma_square_of_magnitude(q);
        assert((r + 1) * (r + 1) == r * r + 2 * r + 1) by (nonlinear_arith);
        assert((r - 1) * (r - 1) == r * r - 2 * r + 1) by (nonlinear_arith);
    } else {
        lemma_arc_step(r, x, y);
        lemma_outline_near_from(r, x + 1, next_y(r, x, y), p, q);
    }
}

/// Half the width of row `k` of the filled circle, seen from the octant
/// point `(x, y)` with `x <= k <= y`: the row is filled from `-w` to `w`.
///
/// Row `k` gets its width either when the walk reaches column `k`, from the
/// row the walk is in at that moment, or when the walk leaves row `k`, from
/// the column it has reached.
pub open spec fn fill_half_width_from(r: int, x: int, y: int, k: int) -> int
    decreases y - x + 1,
{
    if k == x {
        y
    } else if x < y && !(k == y && next_y(r, x, y) < y) {
        fill_half_width_from(r, x + 1, next_y(r, x, y), k)
    } else {
        x
    }
}

/// Half the width of row `q` of the filled circle of radius `r`.
pub open spec fn fill_half_width(r: int, q: int) -> int {
    fill_half_width_from(r, 0, r, magnitude(q))
}

/// From `(x, y)` on, a row between `x` and `y` is filled exactly as far as
/// its half width.
proof fn lemma_fill_row_from(r: int, x: int, y: int, p: int, q: int)
    requires
        0 <= x,
        0 <= y,
        x <= magnitude(q) <= y,
    ensures
        fill_from(r, x, y).contains((p, q)) <==> magnitude(p) <= fill_half_width_from(
            r,
            x,
            y,
            magnitude(q),
        ),
    decreases y - x + 1,
{
    let k = magnitude(q);
    lemma_fill_from_contains(r, x, y, p, q);
    lemma_fill_rows_contains(r, x, y, p, q);
    if k == x || (k == y && next_y(r, x, y) < y) {
        if x < y && fill_from(r, x + 1, next_y(r, x, y)).contains((p, q)) {
            lemma_fill_window(r, x + 1, next_y(r, x, y), p, q);
        }
    } else {
        lemma_fill_row_from(r, x + 1, next_y(r, x, y), p, q);
    }
}

/// Whether an offset belongs to the outline depends only on how far it is
/// from the two axes, whichever is which.
proof fn lemma_outline_symmetric_from(r: int, x: int, y: int, p: int, q: int, a: int, b: int)
    requires
        0 <= x,
        (magnitude(a) == magnitude(p) && magnitude(b) == magnitude(q)) || (magnitude(a)
            == magnitude(q) && magnitude(b) == magnitude(p)),
        outline_from(r, x, y).contains((p, q)),
    ensures
        outline_from(r, x, y).contains((a, b)),
    decreases y - x + 1,
{
    lemma_outline_from_contains(r, x, y, p, q);
    lemma_outline_from_contains(r, x, y, a, b);
    if outline_points(x, y).contains((p, q)) {
        lemma_mirrors_contains(x, y, p, q);
        lemma_mirrors_contains(x, y, a, b);
    } else {
        lemma_outline_symmetric_from(r, x + 1, next_y(r, x, y), p, q, a, b);
    }
}

/// No shape has an offset twice.
pub proof fn offsets_are_distinct(shape: Shape, size: int)
    ensures
        shape.offsets(size).no_duplicates(),
{
    if size >= 1 {
        match shape {
            Shape::CircleOutline => lemma_outline_distinct(size, 0, size),
            Shape::CircleFill => lemma_fill_distinct(size, 0, size),
            Shape::SquareCentered => lemma_square_distinct(size / 2),
        }
    }
}

/// A filled circle covers the disc of its radius: every offset within
/// distance `r` of the centre is drawn.
pub proof fn filled_circle_covers_disc(r: int, p: int, q: int)
    requires
        1 <= r,
        p * p + q * q <= r * r,
    ensures
        Shape::CircleFill.offsets(r).contains((p, q)),
{
    lemma_arc_start(r);
    lemma_square_of_magnitude(q);
    let k = magnitude(q);
    if k > r {
        assert(k * k > r * r) by (nonlinear_arith)
            requires
                k > r,
                r >= 1,
        ;
        assert(p * p >= 0) by (nonlinear_arith);
    }
    lemma_fill_covers_from(r, 0, r, p, q);
}

/// A filled circle is made of full rows: row `q` runs from minus its half
/// width to its half width, both ends included, for every `q` from `-r` to `r`.
pub proof fn filled_circle_is_made_of_rows(r: int, p: int, q: int)
    requires
        1 <= r,
    ensures
        Shape::CircleFill.offsets(r).contains((p, q)) <==> magnitude(q) <= r && magnitude(p)
            <= fill_half_width(r, q),
{
    if magnitude(q) <= r {
        lemma_fill_row_from(r, 0, r, p, q);
    } else if fill_from(r, 0, r).contains((p, q)) {
        lemma_fill_window(r, 0, r, p, q);
    }
}

/// A circle outline is its own mirror image in both axes and both diagonals.
pub proof fn circle_outline_is_symmetric(r: int, p: int, q: int)
    requires
        1 <= r,
        Shape::CircleOutline.offsets(r).contains((p, q)),
    ensures
        Shape::CircleOutline.offsets(r).contains((-p, q)),
        Shape::CircleOutline.offsets(r).contains((p, -q)),
        Shape::CircleOutline.offsets(r).contains((q, p)),
{
    lemma_outline_symmetric_from(r, 0, r, p, q, -p, q);
    lemma_outline_symmetric_from(r, 0, r, p, q, p, -q);
    lemma_outline_symmetric_from(r, 0, r, p, q, q, p);
}

/// A filled circle draws nothing as far as `r + 1` from the centre.
pub proof fn filled_circle_within_next_radius(r: int, p: int, q: int)
    requires
        1 <= r,
        Shape::CircleFill.offsets(r).contains((p, q)),
    ensures
        p * p + q * q < (r + 1) * (r + 1),
{
    lemma_arc_start(r);
    lemma_fill_within_from(r, 0, r, p, q);
}

/// A circle outline stays within one cell of the circle: every offset of it
/// is at least `r - 1` and less than `r + 1` from the centre.
pub proof fn circle_outline_is_near_circle(r: int, p: int, q: int)
    requires
        1 <= r,
        Shape::CircleOutline.offsets(r).contains((p, q)),
    ensures
        (r - 1) * (r - 1) <= p * p + q * q < (r + 1) * (r + 1),
{
    lemma_arc_start(r);
    lemma_outline_near_from(r, 0, r, p, q);
}

impl Shape {
    /// The offsets that make up this shape at the given size, in drawing
    /// order, each of them once. A size below 1 has no offsets.
    pub open spec fn offsets(self, size: int) -> Seq<(int, int)> {
        if size < 1 {
            Seq::empty()
        } else {
            match self {
                Shape::CircleOutline => outline_from(size, 0, size),
                Shape::CircleFill => fill_from(size, 0, size),
                Shape::SquareCentered => square(size / 2),
            }
        }
    }

    /// The shape that follows this one when the brush is cycled.
    pub open spec fn successor(self) -> Shape {
        match self {
            Shape::CircleOutline => Shape::CircleFill,
            Shape::CircleFill => Shape::SquareCentered,
            Shape::SquareCentered => Shape::CircleOutline,
        }
    }

    /// Rasterises the shape: returns one offset from the centre for every
    /// pixel it covers, in drawing order, none of them twice. Nothing is
    /// drawn for a size below 1.
    pub fn draw(self, size: i32) -> (out: Vec<(i32, i32)>)
        ensures
            offsets_of(out@) == self.offsets(size as int),
            offsets_of(out@).no_duplicates(),
    {
        proof {
            offsets_are_distinct(self, size as int);
        }
        if size < 1 {
            let out: Vec<(i32, i32)> = Vec::new();
            assert(offsets_of(out@) =~= Seq::<(int, int)>::empty());
            return out;
        }
        match self {
            Shape::CircleOutline => draw_outline(size),
            Shape::CircleFill => draw_fill(size),
            Shape::SquareCentered => draw_square(size),
        }
    }

    /// Cycles to the next brush shape.
    pub fn next(self) -> (s: Shape)
        ensures
            s == self.successor(),
    {
        match self {
            Shape::CircleOutline => Shape::CircleFill,
            Shape::CircleFill => Shape::SquareCentered,
            Shape::SquareCentered => Shape::CircleOutline,
        }
    }
}

} // verus!
