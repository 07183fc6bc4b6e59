use vstd::prelude::*;

verus! {

/// Cells of the cube lattice: each coordinate in `-2..=2`.
pub type Cell = (i32, i32, i32);

/// A pair of lattice indices; what they mean depends on the shape.
pub type Slot = (u32, u32);

/// The `i`-th cell of the cube in lattice order: `x` outermost, then `y`,
/// then `z`.
pub open spec fn cube_cell(i: int) -> Cell {
    ((i / 25 - 2) as i32, ((i / 5) % 5 - 2) as i32, (i % 5 - 2) as i32)
}

pub open spec fn cube_lattice() -> Seq<Cell> {
    Seq::new(125, |i: int| cube_cell(i))
}

/// Rings `1..=m` of the tower, ring `h` holding the slots `(h, 0) .. (h, h-1)`.
pub open spec fn tower_rings(m: nat) -> Seq<Slot>
    decreases m,
{
    if m == 0 {
        Seq::empty()
    } else {
        tower_rings((m - 1) as nat) + Seq::new(m, |n: int| (m as u32, n as u32))
    }
}

/// The torus as `(major step, minor step)` pairs, `n` in `0..16` and `k` in
/// `0..8`, in the nesting order that `major_outer` picks.
pub open spec fn torus_slots(major_outer: bool) -> Seq<Slot> {
    Seq::new(
        128,
        |i: int|
            if major_outer {
                ((i / 8) as u32, (i % 8) as u32)
            } else {
                ((i % 16) as u32, (i / 16) as u32)
            },
    )
}

/// Whether the bits of `k` are a subset of those of `n`.
pub open spec fn in_gasket(n: u32, k: u32) -> bool {
    n & k == k
}

/// The columns `0..m` of gasket row `n` that the subset rule keeps.
pub open spec fn gasket_row(n: u32, m: nat) -> Seq<Slot>
    decreases m,
{
    if m == 0 {
        Seq::empty()
    } else {
        let prev = gasket_row(n, (m - 1) as nat);
        if in_gasket(n, (m - 1) as u32) {
            prev.push((n, (m - 1) as u32))
        } else {
            prev
        }
    }
}

/// Rows `0..m` of the gasket, row `n` offering the columns `0..=n`.
pub open spec fn gasket_rows(m: nat) -> Seq<Slot>
    decreases m,
{
    if m == 0 {
        Seq::empty()
    } else {
        gasket_rows((m - 1) as nat) + gasket_row((m - 1) as u32, m)
    }
}

/// The 125 cells of the cube in lattice order.
pub fn cube_cells() -> (r: Vec<Cell>)
    ensures
        r@ == cube_lattice(),
{
    let mut v: Vec<Cell> = Vec::new();
    let mut i: i32 = 0;
    while i < 125
        invariant
            0 <= i <= 125,
            v@ == Seq::new(i as nat, |j: int| cube_cell(j)),
        decreases 125 - i,
    {
        v.push((i / 25 - 2, (i / 5) % 5 - 2, i % 5 - 2));
        i = i + 1;
        assert(v@ =~= Seq::new(i as nat, |j: int| cube_cell(j)));
    }
    v
}

/// The 136 slots of the polygon tower: ring `h` in `1..=16` holds `h` points.
pub fn polygon_tower() -> (r: Vec<Slot>)
    ensures
        r@ == tower_rings(16),
        r@.len() == 136,
{
    let mut v: Vec<Slot> = Vec::new();
    let mut h: u32 = 1;
    while h <= 16
        invariant
            1 <= h <= 17,
            v@ == tower_rings((h - 1) as nat),
        decreases 17 - h,
    {
        let mut n: u32 = 0;
        while n < h
            invariant
                1 <= h <= 16,
                0 <= n <= h,
                v@ == tower_rings((h - 1) as nat) + Seq::new(n as nat, |j: int| (h, j as u32)),
            decreases h - n,
        {
            v.push((h, n));
            n = n + 1;
            assert(v@ =~= tower_rings((h - 1) as nat) + Seq::new(n as nat, |j: int| (h, j as u32)));
        }
        assert(tower_rings(h as nat) == tower_rings((h - 1) as nat) + Seq::new(
            h as nat,
            |j: int| (h, j as u32),
        ));
        h = h + 1;
    }
    proof {
        lemma_tower_len(16);
    }
    v
}

/// Tower rings `1..=m` hold `m (m + 1) / 2` slots.
pub proof fn lemma_tower_len(m: nat)
    ensures
        2 * tower_rings(m).len() == m * (m + 1),
    decreases m,
{
    if m > 0 {
        let k = (m - 1) as nat;
        lemma_tower_len(k);
        assert(tower_rings(m).len() == tower_rings(k).len() + m);
        let len_k = tower_rings(k).len();
        assert(2 * (len_k + m) == m * (m + 1)) by (nonlinear_arith)
            requires
                2 * len_k == k * (k + 1),
                m == k + 1,
        ;
    } else {
        assert(tower_rings(m).len() == 0);
    }
}

/// The 128 slots of the torus; `major_outer` picks which loop is outermost.
pub fn torus(major_outer: bool) -> (r: Vec<Slot>)
    ensures
        r@ == torus_slots(major_outer),
        r@.len() == 128,
{
    let mut v: Vec<Slot> = Vec::new();
    let mut i: u32 = 0;
    while i < 128
        invariant
            0 <= i <= 128,
            v@ == torus_slots(major_outer).take(i as int),
        decreases 128 - i,
    {
        if major_outer {
            v.push((i / 8, i % 8));
        } else {
            v.push((i % 16, i / 16));
        }
        i = i + 1;
        assert(v@ =~= torus_slots(major_outer).take(i as int));
    }
    assert(v@ =~= torus_slots(major_outer));
    v
}

/// The gasket slots `(n, k)`: rows `n` in `0..16`, columns `k` in `0..=n`,
/// kept where the bits of `k` are a subset of those of `n`.
pub fn sierpinski_gasket() -> (r: Vec<Slot>)
    ensures
        r@ == gasket_rows(16),
        r@.len() <= 136,
{
    let mut v: Vec<Slot> = Vec::new();
    let mut n: u32 = 0;
    while n < 16
        invariant
            0 <= n <= 16,
            v@ == gasket_rows(n as nat),
        decreases 16 - n,
    {
        let mut k: u32 = 0;
        while k <= n
            invariant
                0 <= n < 16,
                0 <= k <= n + 1,
                v@ == gasket_rows(n as nat) + gasket_row(n, k as nat),
            decreases n + 1 - k,
        {
            if n & k == k {
                v.push((n, k));
            }
            k = k + 1;
            assert(v@ =~= gasket_rows(n as nat) + gasket_row(n, k as nat));
        }
        n = n + 1;
    }
    proof {
        lemma_gasket_len(16);
        lemma_tower_len(16);
    }
    v
}

pub proof fn lemma_gasket_row_len(n: u32, m: nat)
    ensures
        gasket_row(n, m).len() <= m,
    decreases m,
{
    if m > 0 {
        lemma_gasket_row_len(n, (m - 1) as nat);
    }
}

/// Gasket rows `0..m` hold no more slots than tower rings `1..=m`.
pub proof fn lemma_gasket_len(m: nat)
    ensures
        gasket_rows(m).len() <= tower_rings(m).len(),
    decreases m,
{
    if m > 0 {
        lemma_gasket_len((m - 1) as nat);
        lemma_gasket_row_len((m - 1) as u32, m);
    }
}


pub open spec fn abs(v: int) -> int {
    if v < 0 {
        -v
    } else {
        v
    }
}

/// Every coordinate of `c` lies in `-2..=2`.
pub open spec fn in_box(c: Cell) -> bool {
    -2 <= c.0 <= 2 && -2 <= c.1 <= 2 && -2 <= c.2 <= 2
}

pub open spec fn manhattan(c: Cell) -> int {
    abs(c.0 as int) + abs(c.1 as int) + abs(c.2 as int)
}

/// Which stretch of `(-pi, pi]` the azimuth `atan2(y, x)` falls in:
/// `0` below the x axis, `1` at zero (the positive x axis and the origin),
/// `2` above the x axis, `3` at `pi` (the negative x axis).
pub open spec fn azimuth_band(x: int, y: int) -> int {
    if y < 0 {
        0
    } else if y == 0 && x >= 0 {
        1
    } else if y > 0 {
        2
    } else {
        3
    }
}

/// `atan2(ay, ax) < atan2(by, bx)`, decided exactly: by band, and inside an
/// open half plane by the sign of the cross product.
pub open spec fn azimuth_lt(ax: int, ay: int, bx: int, by: int) -> bool {
    let ba = azimuth_band(ax, ay);
    let bb = azimuth_band(bx, by);
    ba < bb || (ba == bb && (ba == 0 || ba == 2) && ax * by - ay * bx > 0)
}

/// The build order of the cube: by Manhattan norm, then by `z`, then by
/// azimuth, all ascending.
pub open spec fn cube_lt(a: Cell, b: Cell) -> bool {
    manhattan(a) < manhattan(b) || (manhattan(a) == manhattan(b) && (a.2 < b.2 || (a.2
        == b.2 && azimuth_lt(a.0 as int, a.1 as int, b.0 as int, b.1 as int))))
}

/// `s` is strictly increasing in the build order.
pub open spec fn cube_sorted(s: Seq<Cell>) -> bool {
    forall|i: int, j: int| 0 <= i < j < s.len() ==> cube_lt(#[trigger] s[i], #[trigger] s[j])
}

proof fn lemma_cube_lt_irreflexive(a: Cell)
    ensures
        !cube_lt(a, a),
{
}

proof fn lemma_half_plane_transitive(ax: int, ay: int, bx: int, by: int, cx: int, cy: int)
    requires
        ay != 0 && by != 0 && cy != 0,
        (ay > 0) == (by > 0) && (by > 0) == (cy > 0),
        ax * by - ay * bx > 0,
        bx * cy - by * cx > 0,
    ensures
        ax * cy - ay * cx > 0,
{
    if ay > 0 {
        assert(ax * by * cy > bx * ay * cy) by (nonlinear_arith)
            requires
                ax * by - ay * bx > 0,
                cy > 0,
        ;
        assert(bx * cy * ay > cx * by * ay) by (nonlinear_arith)
            requires
                bx * cy - by * cx > 0,
                ay > 0,
        ;
        assert(ax * by * cy > cx * by * ay) by (nonlinear_arith)
            requires
                ax * by * cy > bx * ay * cy,
                bx * cy * ay > cx * by * ay,
        ;
        assert(ax * cy - ay * cx > 0) by (nonlinear_arith)
            requires
                ax * by * cy > cx * by * ay,
                by > 0,
        ;
    } else {
        assert(ax * by * cy < bx * ay * cy) by (nonlinear_arith)
            requires
                ax * by - ay * bx > 0,
                cy < 0,
        ;
        assert(bx * cy * ay < cx * by * ay) by (nonlinear_arith)
            requires
                bx * cy - by * cx > 0,
                ay < 0,
        ;
        assert(ax * by * cy < cx * by * ay) by (nonlinear_arith)
            requires
                ax * by * cy < bx * ay * cy,
                bx * cy * ay < cx * by * ay,
        ;
        assert(ax * cy - ay * cx > 0) by (nonlinear_arith)
            requires
                ax * by * cy < cx * by * ay,
                by < 0,
        ;
    }
}

proof fn lemma_cube_lt_transitive(a: Cell, b: Cell, c: Cell)
    requires
        cube_lt(a, b),
        cube_lt(b, c),
    ensures
        cube_lt(a, c),
{
    let (ax, ay, bx, by, cx, cy) = (a.0 as int, a.1 as int, b.0 as int, b.1 as int, c.0 as int, c.1 as int);
    if manhattan(a) == manhattan(c) && a.2 == c.2 && azimuth_band(ax, ay) == azimuth_band(bx, by)
        && azimuth_band(bx, by) == azimuth_band(cx, cy) {
        let band = azimuth_band(ax, ay);
        if band == 0 || band == 2 {
            lemma_half_plane_transitive(ax, ay, bx, by, cx, cy);
        }
    }
}

/// Two cells that neither precedes are the same cell.
proof fn lemma_cube_lt_total(a: Cell, b: Cell)
    requires
        in_box(a),
        in_box(b),
        !cube_lt(a, b),
        !cube_lt(b, a),
    ensures
        a == b,
{
    let (ax, ay, bx, by) = (a.0 as int, a.1 as int, b.0 as int, b.1 as int);
    assert(abs(ax) + abs(ay) == abs(bx) + abs(by));
    let band = azimuth_band(ax, ay);
    assert(band == azimuth_band(bx, by));
    if band == 0 || band == 2 {
        assert(ax * by - ay * bx == 0);
        assert(ax == bx && ay == by) by (nonlinear_arith)
            requires
                ax * by - ay * bx == 0,
                abs(ax) + abs(ay) == abs(bx) + abs(by),
                (ay > 0 && by > 0) || (ay < 0 && by < 0),
                -2 <= ax <= 2,
                -2 <= bx <= 2,
                -2 <= ay <= 2,
                -2 <= by <= 2,
                abs(ax) == if ax < 0 { -ax } else { ax },
                abs(bx) == if bx < 0 { -bx } else { bx },
                abs(ay) == if ay < 0 { -ay } else { ay },
                abs(by) == if by < 0 { -by } else { by },
        ;
    }
}

proof fn lemma_cube_cells_in_box_and_distinct()
    ensures
        forall|i: int| 0 <= i < 125 ==> in_box(#[trigger] cube_cell(i)),
        forall|i: int, j: int|
            0 <= i < 125 && 0 <= j < 125 && i != j ==> #[trigger] cube_cell(i) != #[trigger] cube_cell(j),
{
    assert forall|i: int, j: int|
        0 <= i < 125 && 0 <= j < 125 && i != j implies #[trigger] cube_cell(i) != #[trigger] cube_cell(j) by {
        assert(i == 25 * (i / 25) + 5 * ((i / 5) % 5) + i % 5);
        assert(j == 25 * (j / 25) + 5 * ((j / 5) % 5) + j % 5);
    }
}

proof fn lemma_insert_contains<A>(s: Seq<A>, pos: int, v: A)
    requires
        0 <= pos <= s.len(),
    ensures
        forall|x: A| #[trigger] s.insert(pos, v).contains(x) <==> (s.contains(x) || x == v),
{
    s.insert_ensures(pos, v);
    let t = s.insert(pos, v);
    assert forall|x: A| t.contains(x) implies (s.contains(x) || x == v) by {
        let k = choose|k: int| 0 <= k < t.len() && t[k] == x;
        if k < pos {
            assert(s[k] == x);
        } else if k > pos {
            assert(s[k - 1] == x);
        }
    }
    assert forall|x: A| (s.contains(x) || x == v) implies t.contains(x) by {
        if x == v {
            assert(t[pos] == x);
        } else {
            let k = choose|k: int| 0 <= k < s.len() && s[k] == x;
            if k < pos {
                assert(t[k] == x);
            } else {
                assert(t[k + 1] == x);
            }
        }
    }
}

/// Whether cell `a` comes before cell `b` in the cube's build order.
pub fn cube_before(a: Cell, b: Cell) -> (r: bool)
    requires
        in_box(a),
        in_box(b),
    ensures
        r == cube_lt(a, b),
{
    let ma = abs_of(a.0) + abs_of(a.1) + abs_of(a.2);
    let mb = abs_of(b.0) + abs_of(b.1) + abs_of(b.2);
    if ma != mb {
        return ma < mb;
    }
    if a.2 != b.2 {
        return a.2 < b.2;
    }
    let band_a = azimuth_band_of(a.0, a.1);
    let band_b = azimuth_band_of(b.0, b.1);
    if band_a != band_b {
        return band_a < band_b;
    }
    assert(-4 <= a.0 * b.1 <= 4 && -4 <= a.1 * b.0 <= 4) by (nonlinear_arith)
        requires
            in_box(a),
            in_box(b),
    ;
    (band_a == 0 || band_a == 2) && a.0 * b.1 - a.1 * b.0 > 0
}

fn abs_of(v: i32) -> (r: i32)
    requires
        -2 <= v <= 2,
    ensures
        r == abs(v as int),
{
    if v < 0 {
        -v
    } else {
        v
    }
}

fn azimuth_band_of(x: i32, y: i32) -> (r: i32)
    ensures
        r == azimuth_band(x as int, y as int),
{
    if y < 0 {
        0
    } else if y == 0 && x >= 0 {
        1
    } else if y > 0 {
        2
    } else {
        3
    }
}

/// The 125 cells of the cube. In lattice order, or, when `build_order` is
/// set, sorted into the build order (Manhattan norm, then `z`, then azimuth).
pub fn cube(build_order: bool) -> (r: Vec<Cell>)
    ensures
        r@.len() == 125,
        !build_order ==> r@ == cube_lattice(),
        build_order ==> cube_sorted(r@),
        build_order ==> forall|c: Cell| #[trigger] r@.contains(c) <==> cube_lattice().contains(c),
{
    let cells = cube_cells();
    if !build_order {
        return cells;
    }
    proof {
        lemma_cube_cells_in_box_and_distinct();
    }
    let mut r: Vec<Cell> = Vec::new();
    let mut i: usize = 0;
    while i < cells.len()
        invariant
            cells@ == cube_lattice(),
            0 <= i <= 125,
            r@.len() == i,
            cube_sorted(r@),
            forall|j: int| 0 <= j < r@.len() ==> in_box(#[trigger] r@[j]),
            forall|c: Cell| #[trigger] r@.contains(c) <==> cells@.take(i as int).contains(c),
        decreases 125 - i,
    {
        let c = cells[i];
        assert(in_box(c));
        assert(!r@.contains(c)) by {
            if r@.contains(c) {
                let k = choose|k: int| 0 <= k < i && cells@.take(i as int)[k] == c;
                assert(cube_cell(k) == cube_cell(i as int));
            }
        }
        let mut pos: usize = r.len();
        while pos > 0 && cube_before(c, r[pos - 1])
            invariant
                0 <= pos <= r@.len(),
                in_box(c),
                forall|j: int| 0 <= j < r@.len() ==> in_box(#[trigger] r@[j]),
                forall|j: int| pos <= j < r@.len() ==> cube_lt(c, #[trigger] r@[j]),
            decreases pos,
        {
            pos = pos - 1;
        }
        proof {
            if pos > 0 {
                let last = r@[pos - 1];
                assert(r@.contains(last));
                if !cube_lt(last, c) {
                    lemma_cube_lt_total(last, c);
                }
                assert forall|j: int| 0 <= j < pos implies cube_lt(#[trigger] r@[j], c) by {
                    if j < pos - 1 {
                        lemma_cube_lt_transitive(r@[j], last, c);
                    }
                }
            }
            lemma_insert_contains(r@, pos as int, c);
            r@.insert_ensures(pos as int, c);
            assert(cells@.take(i as int + 1) =~= cells@.take(i as int).push(c));
        }
        let ghost before = r@;
        r.insert(pos, c);
        proof {
            assert forall|a: int, b: int| 0 <= a < b < r@.len() implies cube_lt(
                #[trigger] r@[a],
                #[trigger] r@[b],
            ) by {
                if b < pos {
                    assert(r@[a] == before[a] && r@[b] == before[b]);
                } else if b == pos {
                    assert(r@[a] == before[a]);
                } else if a < pos {
                    assert(r@[a] == before[a] && r@[b] == before[b - 1]);
                } else if a == pos {
                    assert(r@[b] == before[b - 1]);
                } else {
                    assert(r@[a] == before[a - 1] && r@[b] == before[b - 1]);
                }
            }
            let prefix = cells@.take(i as int);
            assert(prefix.insert(i as int, c) =~= cells@.take(i as int + 1));
            lemma_insert_contains(prefix, i as int, c);
        }
        i = i + 1;
    }
    assert(cells@.take(125) =~= cells@);
    r
}

proof fn lemma_concat_contains<A>(a: Seq<A>, b: Seq<A>, x: A)
    ensures
        (a + b).contains(x) <==> (a.contains(x) || b.contains(x)),
{
    let s = a + b;
    if s.contains(x) {
        let k = choose|k: int| 0 <= k < s.len() && s[k] == x;
        if k < a.len() {
            assert(a[k] == x);
        } else {
            assert(b[k - a.len()] == x);
        }
    }
    if a.contains(x) {
        let k = choose|k: int| 0 <= k < a.len() && a[k] == x;
        assert(s[k] == x);
    }
    if b.contains(x) {
        let k = choose|k: int| 0 <= k < b.len() && b[k] == x;
        assert(s[k + a.len()] == x);
    }
}

proof fn lemma_gasket_row_contains(n: u32, m: nat, p: Slot)
    ensures
        gasket_row(n, m).contains(p) <==> (p.0 == n && p.1 < m && in_gasket(n, p.1)),
    decreases m,
{
    if m > 0 {
        let prev = gasket_row(n, (m - 1) as nat);
        lemma_gasket_row_contains(n, (m - 1) as nat, p);
        if in_gasket(n, (m - 1) as u32) {
            let last = (n, (m - 1) as u32);
            lemma_concat_contains(prev, seq![last], p);
            assert(prev.push(last) =~= prev + seq![last]);
            assert(seq![last].contains(p) <==> p == last) by {
                if p == last {
                    assert(seq![last][0] == p);
                }
            }
        }
    }
}

proof fn lemma_gasket_rows_contains(m: nat, p: Slot)
    requires
        m <= 16,
    ensures
        gasket_rows(m).contains(p) <==> (p.0 < m && p.1 <= p.0 && in_gasket(p.0, p.1)),
    decreases m,
{
    if m > 0 {
        let n = (m - 1) as u32;
        lemma_gasket_rows_contains((m - 1) as nat, p);
        lemma_concat_contains(gasket_rows((m - 1) as nat), gasket_row(n, m), p);
        lemma_gasket_row_contains(n, m, p);
    }
}

/// The gasket holds the slot `(n, k)` of its triangle (rows `0..16`, columns
/// `0..=n`) exactly when the bits of `k` are a subset of those of `n`, and
/// holds no slot outside that triangle.
pub proof fn lemma_gasket_membership(n: u32, k: u32)
    ensures
        gasket_rows(16).contains((n, k)) <==> (n < 16 && k <= n && n & k == k),
{
    lemma_gasket_rows_contains(16, (n, k));
}

/// The cube's build order is a single sequence: any two orderings of the
/// lattice's cells that are strictly increasing in the build order are equal,
/// so a sorted cube always comes out the same.
pub proof fn lemma_cube_build_order_unique(p: Seq<Cell>, q: Seq<Cell>)
    requires
        cube_sorted(p),
        cube_sorted(q),
        p.len() == q.len(),
        forall|c: Cell| #[trigger] p.contains(c) <==> cube_lattice().contains(c),
        forall|c: Cell| #[trigger] q.contains(c) <==> cube_lattice().contains(c),
    ensures
        p == q,
{
    assert forall|i: int| 0 <= i < p.len() implies p[i] == q[i] by {
        lemma_cube_orders_agree_at(p, q, i);
    }
    assert(p =~= q);
}

proof fn lemma_cube_orders_agree_at(p: Seq<Cell>, q: Seq<Cell>, i: int)
    requires
        cube_sorted(p),
        cube_sorted(q),
        p.len() == q.len(),
        forall|c: Cell| #[trigger] p.contains(c) <==> cube_lattice().contains(c),
        forall|c: Cell| #[trigger] q.contains(c) <==> cube_lattice().contains(c),
        0 <= i < p.len(),
    ensures
        p[i] == q[i],
    decreases i,
{
    if i > 0 {
        assert forall|k: int| 0 <= k < i implies p[k] == q[k] by {
            lemma_cube_orders_agree_at(p, q, k);
        }
    }
    if p[i] != q[i] {
        assert(p.contains(p[i]));
        assert(q.contains(q[i]));
        assert(q.contains(p[i]));
        assert(p.contains(q[i]));
        let j = choose|j: int| 0 <= j < q.len() && q[j] == p[i];
        let k = choose|k: int| 0 <= k < p.len() && p[k] == q[i];
        if j < i {
            assert(p[j] == q[j]);
            lemma_cube_lt_irreflexive(p[i]);
        }
        if k < i {
            assert(p[k] == q[k]);
            lemma_cube_lt_irreflexive(q[i]);
        }
        assert(cube_lt(p[i], p[k]));
        assert(cube_lt(q[i], q[j]));
        lemma_cube_lt_transitive(p[i], q[i], p[i]);
        lemma_cube_lt_irreflexive(p[i]);
    }
}

} // verus!
