//! Scan patterns: ordered lists of world positions to visit.
use vstd::prelude::*;

verus! {

/// Largest world coordinate on either axis.
pub const WORLD_MAX: u32 = 1023;

/// A coordinate forced into `[0, WORLD_MAX]`.
pub open spec fn clamp_coord(v: int) -> u32 {
    if v < 0 {
        0
    } else if v > 1023 {
        1023
    } else {
        v as u32
    }
}

/// The world position `(cx + a * s, cy + b * s)`, clamped on both axes.
pub open spec fn lattice_pos(cx: int, cy: int, s: int, a: int, b: int) -> (u32, u32) {
    (clamp_coord(cx + a * s), clamp_coord(cy + b * s))
}

/// Right edge of ring `r`, top to bottom.
pub open spec fn right_edge(cx: int, cy: int, s: int, r: int) -> Seq<(u32, u32)> {
    Seq::new((2 * r + 1) as nat, |k: int| lattice_pos(cx, cy, s, r, k - r))
}

/// Bottom edge of ring `r`, right to left, without the corner the right edge holds.
pub open spec fn bottom_edge(cx: int, cy: int, s: int, r: int) -> Seq<(u32, u32)> {
    Seq::new((2 * r) as nat, |k: int| lattice_pos(cx, cy, s, r - 1 - k, r))
}

/// Left edge of ring `r`, bottom to top, without the corner the bottom edge holds.
pub open spec fn left_edge(cx: int, cy: int, s: int, r: int) -> Seq<(u32, u32)> {
    Seq::new((2 * r) as nat, |k: int| lattice_pos(cx, cy, s, -r, r - 1 - k))
}

/// Top edge of ring `r`, left to right, without either corner.
pub open spec fn top_edge(cx: int, cy: int, s: int, r: int) -> Seq<(u32, u32)> {
    Seq::new((2 * r - 1) as nat, |k: int| lattice_pos(cx, cy, s, k - r + 1, -r))
}

/// Ring `r >= 1` of a square spiral around `(cx, cy)` with spacing `s`.
pub open spec fn ring_spec(cx: int, cy: int, s: int, r: int) -> Seq<(u32, u32)> {
    right_edge(cx, cy, s, r) + bottom_edge(cx, cy, s, r) + left_edge(cx, cy, s, r) + top_edge(
        cx,
        cy,
        s,
        r,
    )
}

/// A spiral: the clamped center, then rings `1..=n` in order.
pub open spec fn spiral_spec(cx: int, cy: int, s: int, n: nat) -> Seq<(u32, u32)>
    decreases n,
{
    if n == 0 {
        seq![(clamp_coord(cx), clamp_coord(cy))]
    } else {
        spiral_spec(cx, cy, s, (n - 1) as nat) + ring_spec(cx, cy, s, n as int)
    }
}

fn clamp_world(v: i128) -> (r: u32)
    ensures
        r == clamp_coord(v as int),
{
    if v < 0 {
        0
    } else if v > 1023 {
        1023
    } else {
        v as u32
    }
}

/// Appends `(x, y)` clamped to the world bounds.
pub fn push_clamped(positions: &mut Vec<(u32, u32)>, x: i128, y: i128)
    ensures
        final(positions)@ == old(positions)@.push((clamp_coord(x as int), clamp_coord(y as int))),
{
    positions.push((clamp_world(x), clamp_world(y)));
}

/// Appends ring `ring` of the spiral around `(cx, cy)` to `positions`.
fn push_ring(positions: &mut Vec<(u32, u32)>, cx: u32, cy: u32, step: u32, ring: u32)
    requires
        ring >= 1,
    ensures
        final(positions)@ == old(positions)@ + ring_spec(cx as int, cy as int, step as int, ring as int),
{
    let ghost pre = positions@;
    let ghost (gx, gy, gs, gr) = (cx as int, cy as int, step as int, ring as int);
    let s = step as i128;
    let x = cx as i128;
    let y = cy as i128;
    let r = ring as i128;
    // Right edge, top to bottom.
    let mut j: i128 = -r;
    while j <= r
        invariant
            -r <= j <= r + 1,
            s == gs, x == gx, y == gy, r == gr, 1 <= gr <= u32::MAX, 0 <= gs <= u32::MAX,
            0 <= gx <= u32::MAX, 0 <= gy <= u32::MAX,
            positions@ == pre + Seq::new((j + r) as nat, |k: int| lattice_pos(gx, gy, gs, gr, k - gr)),
        decreases r + 1 - j,
    {
        proof {
            assert(0 <= r * s <= u32::MAX * u32::MAX) by (nonlinear_arith)
                requires 1 <= r <= u32::MAX, 0 <= s <= u32::MAX;
            assert(-u32::MAX * u32::MAX <= j * s <= u32::MAX * u32::MAX) by (nonlinear_arith)
                requires -r <= j <= r, r <= u32::MAX, 0 <= s <= u32::MAX;
        }
        push_clamped(positions, x + r * s, y + j * s);
        assert(positions@ =~= pre + Seq::new((j + 1 + r) as nat, |k: int| lattice_pos(gx, gy, gs, gr, k - gr)));
        j = j + 1;
    }
    let ghost pre = positions@;
    assert(pre =~= old(positions)@ + right_edge(gx, gy, gs, gr));
    // Bottom edge, right to left, skipping the corner.
    let mut i: i128 = r - 1;
    while i >= -r
        invariant
            -r - 1 <= i <= r - 1,
            s == gs, x == gx, y == gy, r == gr, 1 <= gr <= u32::MAX, 0 <= gs <= u32::MAX,
            0 <= gx <= u32::MAX, 0 <= gy <= u32::MAX,
            positions@ == pre + Seq::new((r - 1 - i) as nat, |k: int| lattice_pos(gx, gy, gs, gr - 1 - k, gr)),
        decreases i + r + 1,
    {
        proof {
            assert(0 <= r * s <= u32::MAX * u32::MAX) by (nonlinear_arith)
                requires 1 <= r <= u32::MAX, 0 <= s <= u32::MAX;
            assert(-u32::MAX * u32::MAX <= i * s <= u32::MAX * u32::MAX) by (nonlinear_arith)
                requires -r <= i <= r, r <= u32::MAX, 0 <= s <= u32::MAX;
        }
        push_clamped(positions, x + i * s, y + r * s);
        assert(positions@ =~= pre + Seq::new((r - i) as nat, |k: int| lattice_pos(gx, gy, gs, gr - 1 - k, gr)));
        i = i - 1;
    }
    let ghost pre2 = positions@;
    assert(pre2 =~= pre + bottom_edge(gx, gy, gs, gr));
    // Left edge, bottom to top, skipping the corner.
    let mut j: i128 = r - 1;
    while j >= -r
        invariant
            -r - 1 <= j <= r - 1,
            s == gs, x == gx, y == gy, r == gr, 1 <= gr <= u32::MAX, 0 <= gs <= u32::MAX,
            0 <= gx <= u32::MAX, 0 <= gy <= u32::MAX,
            positions@ == pre2 + Seq::new((r - 1 - j) as nat, |k: int| lattice_pos(gx, gy, gs, -gr, gr - 1 - k)),
        decreases j + r + 1,
    {
        proof {
            assert(0 <= r * s <= u32::MAX * u32::MAX) by (nonlinear_arith)
                requires 1 <= r <= u32::MAX, 0 <= s <= u32::MAX;
            assert(-u32::MAX * u32::MAX <= j * s <= u32::MAX * u32::MAX) by (nonlinear_arith)
                requires -r <= j <= r, r <= u32::MAX, 0 <= s <= u32::MAX;
        }
        assert((-r) * s == -(r * s)) by (nonlinear_arith);
        push_clamped(positions, x - r * s, y + j * s);
        assert(positions@ =~= pre2 + Seq::new((r - j) as nat, |k: int| lattice_pos(gx, gy, gs, -gr, gr - 1 - k)));
        j = j - 1;
    }
    let ghost pre3 = positions@;
    assert(pre3 =~= pre2 + left_edge(gx, gy, gs, gr));
    // Top edge, left to right, skipping both corners.
    let mut i: i128 = -r + 1;
    while i < r
        invariant
            -r + 1 <= i <= r,
            s == gs, x == gx, y == gy, r == gr, 1 <= gr <= u32::MAX, 0 <= gs <= u32::MAX,
            0 <= gx <= u32::MAX, 0 <= gy <= u32::MAX,
            positions@ == pre3 + Seq::new((i + r - 1) as nat, |k: int| lattice_pos(gx, gy, gs, k - gr + 1, -gr)),
        decreases r - i,
    {
        proof {
            assert(0 <= r * s <= u32::MAX * u32::MAX) by (nonlinear_arith)
                requires 1 <= r <= u32::MAX, 0 <= s <= u32::MAX;
            assert(-u32::MAX * u32::MAX <= i * s <= u32::MAX * u32::MAX) by (nonlinear_arith)
                requires -r <= i <= r, r <= u32::MAX, 0 <= s <= u32::MAX;
        }
        assert((-r) * s == -(r * s)) by (nonlinear_arith);
        push_clamped(positions, x + i * s, y - r * s);
        assert(positions@ =~= pre3 + Seq::new((i + r) as nat, |k: int| lattice_pos(gx, gy, gs, k - gr + 1, -gr)));
        i = i + 1;
    }
    assert(positions@ =~= pre3 + top_edge(gx, gy, gs, gr));
    assert(positions@ =~= old(positions)@ + ring_spec(gx, gy, gs, gr));
}

/// Ring `ring` of a spiral around `(cx, cy)`: exactly `8 * ring` positions,
/// clockwise from the top of the right edge.
pub fn spiral_ring_positions(cx: u32, cy: u32, step: u32, ring: u32) -> (r: Vec<(u32, u32)>)
    requires
        ring >= 1,
    ensures
        r@ == ring_spec(cx as int, cy as int, step as int, ring as int),
{
    let mut positions = Vec::new();
    push_ring(&mut positions, cx, cy, step, ring);
    assert(positions@ =~= ring_spec(cx as int, cy as int, step as int, ring as int));
    positions
}

/// A square spiral around `(cx, cy)`: the center, then rings `1..=max_rings`.
pub fn spiral_scan_positions(cx: u32, cy: u32, step: u32, max_rings: u32) -> (r: Vec<(u32, u32)>)
    ensures
        r@ == spiral_spec(cx as int, cy as int, step as int, max_rings as nat),
{
    let mut positions = Vec::new();
    push_clamped(&mut positions, cx as i128, cy as i128);
    assert(positions@ =~= spiral_spec(cx as int, cy as int, step as int, 0));
    let mut ring: u32 = 0;
    while ring < max_rings
        invariant
            ring <= max_rings,
            positions@ == spiral_spec(cx as int, cy as int, step as int, ring as nat),
        decreases max_rings - ring,
    {
        ring = ring + 1;
        push_ring(&mut positions, cx, cy, step, ring);
    }
    positions
}

/// A spiral around the middle of the world with twice the usual spacing.
pub fn wide_spiral_positions(max_rings: u32) -> (r: Vec<(u32, u32)>)
    ensures
        r@ == spiral_spec(512, 512, 50, max_rings as nat),
{
    spiral_scan_positions(512, 512, 50, max_rings)
}

/// Element `i` of the regular grid: 32 columns and 32 rows, 30 apart, from 30.
pub open spec fn grid_pos(i: int) -> (u32, u32) {
    ((30 + 30 * (i % 32)) as u32, (30 + 30 * (i / 32)) as u32)
}

/// The regular grid over the world, row by row.
pub open spec fn grid_spec() -> Seq<(u32, u32)> {
    Seq::new(1024, |i: int| grid_pos(i))
}

/// Regular grid across the world: `30..=970` on both axes, step 30, row-major.
pub fn grid_scan_positions() -> (r: Vec<(u32, u32)>)
    ensures
        r@ == grid_spec(),
{
    let step: u32 = 30;
    let mut positions = Vec::new();
    let mut row: u32 = 0;
    let mut y: u32 = 30;
    while y <= 970
        invariant
            row <= 32,
            step == 30,
            y == 30 + 30 * row,
            positions@ == Seq::new((row * 32) as nat, |i: int| grid_pos(i)),
        decreases 1000 - y,
    {
        let mut col: u32 = 0;
        let mut x: u32 = 30;
        while x <= 970
            invariant
                row < 32,
                col <= 32,
                step == 30,
                y == 30 + 30 * row,
                x == 30 + 30 * col,
                positions@ == Seq::new((row * 32 + col) as nat, |i: int| grid_pos(i)),
            decreases 1000 - x,
        {
            proof {
                let n = row * 32 + col;
                assert(n % 32 == col && n / 32 == row) by (nonlinear_arith)
                    requires n == row * 32 + col, 0 <= col < 32, 0 <= row;
            }
            positions.push((x, y));
            assert(positions@ =~= Seq::new((row * 32 + col + 1) as nat, |i: int| grid_pos(i)));
            x = x + step;
            col = col + 1;
        }
        y = y + step;
        row = row + 1;
    }
    assert(positions@ =~= grid_spec());
    positions
}

/// `s` with every element that already occurred earlier removed.
pub open spec fn dedup_first<T>(s: Seq<T>) -> Seq<T>
    decreases s.len(),
{
    if s.len() == 0 {
        s
    } else if s.drop_last().contains(s.last()) {
        dedup_first(s.drop_last())
    } else {
        dedup_first(s.drop_last()).push(s.last())
    }
}

proof fn lemma_push_contains<T>(s: Seq<T>, v: T)
    ensures
        forall|x: T| s.push(v).contains(x) <==> (s.contains(x) || x == v),
{
    assert forall|x: T| s.push(v).contains(x) <==> (s.contains(x) || x == v) by {
        if s.contains(x) {
            let i = choose|i: int| 0 <= i < s.len() && s[i] == x;
            assert(s.push(v)[i] == x);
        }
        if x == v {
            assert(s.push(v)[s.len() as int] == x);
        }
        if s.push(v).contains(x) && x != v {
            let i = choose|i: int| 0 <= i < s.len() + 1 && s.push(v)[i] == x;
            assert(s[i] == x);
        }
    }
}

pub proof fn lemma_dedup_contains<T>(s: Seq<T>)
    ensures
        forall|x: T| dedup_first(s).contains(x) <==> s.contains(x),
    decreases s.len(),
{
    if s.len() > 0 {
        let p = s.drop_last();
        lemma_dedup_contains(p);
        assert(s =~= p.push(s.last()));
        lemma_push_contains(p, s.last());
        lemma_push_contains(dedup_first(p), s.last());
        if p.contains(s.last()) {
            assert(dedup_first(s) == dedup_first(p));
        } else {
            assert(dedup_first(s) == dedup_first(p).push(s.last()));
        }
        assert forall|x: T| dedup_first(s).contains(x) <==> s.contains(x) by {
            assert(dedup_first(p).contains(x) <==> p.contains(x));
            assert(p.push(s.last()).contains(x) <==> (p.contains(x) || x == s.last()));
            assert(dedup_first(p).push(s.last()).contains(x) <==> (dedup_first(p).contains(x)
                || x == s.last()));
        }
    }
}

pub proof fn lemma_dedup_no_duplicates<T>(s: Seq<T>)
    ensures
        dedup_first(s).no_duplicates(),
    decreases s.len(),
{
    if s.len() > 0 {
        lemma_dedup_no_duplicates(s.drop_last());
        lemma_dedup_contains(s.drop_last());
    }
}

/// Deduplicating a longer sequence keeps the deduplicated prefix in front.
pub proof fn lemma_dedup_prefix<T>(a: Seq<T>, b: Seq<T>)
    ensures
        dedup_first(a).len() <= dedup_first(a + b).len(),
        dedup_first(a + b).subrange(0, dedup_first(a).len() as int) == dedup_first(a),
    decreases b.len(),
{
    if b.len() == 0 {
        assert(a + b =~= a);
    } else {
        let b2 = b.drop_last();
        lemma_dedup_prefix(a, b2);
        assert((a + b).drop_last() =~= a + b2);
        let d2 = dedup_first(a + b2);
        assert(d2.push((a + b).last()).subrange(0, dedup_first(a).len() as int) =~= d2.subrange(
            0,
            dedup_first(a).len() as int,
        ));
    }
}

/// A sequence without repeats is its own deduplication.
pub proof fn lemma_dedup_distinct<T>(s: Seq<T>)
    requires
        s.no_duplicates(),
    ensures
        dedup_first(s) == s,
    decreases s.len(),
{
    if s.len() > 0 {
        let p = s.drop_last();
        assert(p.no_duplicates());
        lemma_dedup_distinct(p);
        assert(!p.contains(s.last()));
        assert(s =~= p.push(s.last()));
    }
}

fn contains_pos(v: &Vec<(u32, u32)>, p: (u32, u32)) -> (r: bool)
    ensures
        r == v@.contains(p),
{
    let mut i: usize = 0;
    while i < v.len()
        invariant
            i <= v.len(),
            forall|k: int| 0 <= k < i ==> v@[k] != p,
        decreases v.len() - i,
    {
        if v[i].0 == p.0 && v[i].1 == p.1 {
            return true;
        }
        i = i + 1;
    }
    false
}

/// Appends `p` unless `out` already holds it; `out` stays the deduplication
/// of everything offered so far.
pub(crate) fn push_unique(out: &mut Vec<(u32, u32)>, p: (u32, u32), Ghost(raw): Ghost<Seq<(u32, u32)>>)
    requires
        old(out)@ == dedup_first(raw),
    ensures
        final(out)@ == dedup_first(raw.push(p)),
{
    proof {
        lemma_dedup_contains(raw);
        assert(raw.push(p).drop_last() =~= raw);
    }
    if !contains_pos(out, p) {
        out.push(p);
    }
}

/// Ring `level` of the spiral around `c`: the clamped center itself for level 0.
pub open spec fn ring_level(c: (u32, u32), s: int, level: int) -> Seq<(u32, u32)> {
    if level == 0 {
        seq![(clamp_coord(c.0 as int), clamp_coord(c.1 as int))]
    } else {
        ring_spec(c.0 as int, c.1 as int, s, level)
    }
}

/// Ring `level` of the first `m` centers, one center after another.
pub open spec fn level_seq(centers: Seq<(u32, u32)>, s: int, level: int, m: nat) -> Seq<(u32, u32)>
    decreases m,
{
    if m == 0 {
        seq![]
    } else {
        level_seq(centers, s, level, (m - 1) as nat) + ring_level(centers[m - 1], s, level)
    }
}

/// Rings `0..n` of all centers, grouped by ring level.
pub open spec fn levels_seq(centers: Seq<(u32, u32)>, s: int, n: nat) -> Seq<(u32, u32)>
    decreases n,
{
    if n == 0 {
        seq![]
    } else {
        levels_seq(centers, s, (n - 1) as nat) + level_seq(centers, s, n - 1, centers.len())
    }
}

/// Spirals around all centers, interleaved by ring level, first occurrences only.
pub open spec fn interleaved_spec(centers: Seq<(u32, u32)>, s: int, max_rings: nat) -> Seq<(u32, u32)> {
    dedup_first(levels_seq(centers, s, max_rings + 1))
}

/// Interleaves spirals of `max_rings` rings around each center by ring level:
/// ring 0 of every center, then ring 1 of every center, and so on, each
/// position kept at its first occurrence only.
pub fn interleave_spirals(centers: &Vec<(u32, u32)>, step: u32, max_rings: u32) -> (r: Vec<(u32, u32)>)
    ensures
        r@ == interleaved_spec(centers@, step as int, max_rings as nat),
        r@.no_duplicates(),
{
    let mut out: Vec<(u32, u32)> = Vec::new();
    let ghost mut raw: Seq<(u32, u32)> = seq![];
    let mut level: u64 = 0;
    while level <= max_rings as u64
        invariant
            level <= max_rings as u64 + 1,
            raw == levels_seq(centers@, step as int, level as nat),
            out@ == dedup_first(raw),
        decreases max_rings as u64 + 1 - level,
    {
        let mut j: usize = 0;
        while j < centers.len()
            invariant
                level <= max_rings as u64,
                j <= centers.len(),
                raw == levels_seq(centers@, step as int, level as nat) + level_seq(
                    centers@,
                    step as int,
                    level as int,
                    j as nat,
                ),
                out@ == dedup_first(raw),
            decreases centers.len() - j,
        {
            let (cx, cy) = centers[j];
            let ring = if level == 0 {
                let mut v = Vec::new();
                push_clamped(&mut v, cx as i128, cy as i128);
                v
            } else {
                spiral_ring_positions(cx, cy, step, level as u32)
            };
            assert(ring@ =~= ring_level(centers@[j as int], step as int, level as int));
            let ghost base = raw;
            let mut k: usize = 0;
            while k < ring.len()
                invariant
                    k <= ring.len(),
                    raw == base + ring@.take(k as int),
                    out@ == dedup_first(raw),
                decreases ring.len() - k,
            {
                push_unique(&mut out, ring[k], Ghost(raw));
                proof {
                    raw = raw.push(ring@[k as int]);
                    assert(raw =~= base + ring@.take(k + 1));
                }
                k = k + 1;
            }
            assert(ring@.take(ring@.len() as int) =~= ring@);
            j = j + 1;
            assert(raw =~= levels_seq(centers@, step as int, level as nat) + level_seq(
                centers@,
                step as int,
                level as int,
                j as nat,
            ));
        }
        level = level + 1;
    }
    proof {
        lemma_dedup_no_duplicates(raw);
    }
    out
}

/// The nine fixed centers of the multi-spiral, in visiting order: middle,
/// the four corners, then the four edge midpoints.
pub open spec fn multi_centers() -> Seq<(u32, u32)> {
    seq![
        (512, 512),
        (150, 150),
        (874, 150),
        (150, 874),
        (874, 874),
        (512, 150),
        (150, 512),
        (874, 512),
        (512, 874),
    ]
}

/// Nine interleaved spirals in a 3x3 layout covering the whole world.
pub fn multi_spiral_positions(step: u32, max_rings: u32) -> (r: Vec<(u32, u32)>)
    ensures
        r@ == interleaved_spec(multi_centers(), step as int, max_rings as nat),
        r@.no_duplicates(),
{
    let centers: Vec<(u32, u32)> = vec![
        (512, 512),
        (150, 150),
        (874, 150),
        (150, 874),
        (874, 874),
        (512, 150),
        (150, 512),
        (874, 512),
        (512, 874),
    ];
    assert(centers@ =~= multi_centers());
    interleave_spirals(&centers, step, max_rings)
}

/// Lattice offset (in units of the spacing) of element `i` of ring `r`.
pub open spec fn ring_offset(r: int, i: int) -> (int, int) {
    if i < 2 * r + 1 {
        (r, i - r)
    } else if i < 4 * r + 1 {
        (r - 1 - (i - 2 * r - 1), r)
    } else if i < 6 * r + 1 {
        (-r, r - 1 - (i - 4 * r - 1))
    } else {
        (i - 6 * r - 1 - r + 1, -r)
    }
}

proof fn lemma_ring_index(cx: int, cy: int, s: int, r: int, i: int)
    requires
        r >= 1,
        0 <= i < 8 * r,
    ensures
        ring_spec(cx, cy, s, r)[i] == lattice_pos(cx, cy, s, ring_offset(r, i).0, ring_offset(r, i).1),
        -r <= ring_offset(r, i).0 <= r,
        -r <= ring_offset(r, i).1 <= r,
{
    let a = right_edge(cx, cy, s, r);
    let b = bottom_edge(cx, cy, s, r);
    let c = left_edge(cx, cy, s, r);
    let d = top_edge(cx, cy, s, r);
    assert(ring_spec(cx, cy, s, r) == a + b + c + d);
    if i < 2 * r + 1 {
        assert((a + b + c + d)[i] == a[i]);
    } else if i < 4 * r + 1 {
        assert((a + b + c + d)[i] == b[i - (2 * r + 1)]);
    } else if i < 6 * r + 1 {
        assert((a + b + c + d)[i] == c[i - (4 * r + 1)]);
    } else {
        assert((a + b + c + d)[i] == d[i - (6 * r + 1)]);
    }
}

proof fn lemma_scaled_offset(c: int, s: int, r: int, a: int)
    requires
        s >= 1,
        -r <= a <= r,
        0 <= c - r * s,
        c + r * s <= 1023,
    ensures
        clamp_coord(c + a * s) == c + a * s,
{
    assert(-(r * s) <= a * s <= r * s) by (nonlinear_arith)
        requires s >= 1, -r <= a <= r;
}

/// Ring `r` of a spiral holds exactly `8 * r` positions, all inside the world.
/// Where the spacing is positive and the ring's square lies inside the world,
/// no position occurs twice. A spiral starts with its (clamped) center and
/// holds `1 + 4 * n * (n + 1)` positions for `n` rings.
pub proof fn lemma_ring_positions(cx: int, cy: int, s: int, r: int)
    requires
        r >= 1,
    ensures
        ring_spec(cx, cy, s, r).len() == 8 * r,
        forall|i: int|
            0 <= i < 8 * r ==> #[trigger] ring_spec(cx, cy, s, r)[i].0 <= 1023
                && ring_spec(cx, cy, s, r)[i].1 <= 1023,
        s >= 1 && 0 <= cx - r * s && cx + r * s <= 1023 && 0 <= cy - r * s && cy + r * s <= 1023
            ==> ring_spec(cx, cy, s, r).no_duplicates(),
        spiral_spec(cx, cy, s, r as nat)[0] == (clamp_coord(cx), clamp_coord(cy)),
        spiral_spec(cx, cy, s, r as nat).len() == 1 + 4 * r * (r + 1),
{
    let ring = ring_spec(cx, cy, s, r);
    assert forall|i: int| 0 <= i < 8 * r implies #[trigger] ring[i].0 <= 1023 && ring[i].1 <= 1023 by {
        lemma_ring_index(cx, cy, s, r, i);
    }
    if s >= 1 && 0 <= cx - r * s && cx + r * s <= 1023 && 0 <= cy - r * s && cy + r * s <= 1023 {
        assert forall|i: int, j: int| 0 <= i < ring.len() && 0 <= j < ring.len() && i != j implies ring[i]
            != ring[j] by {
            lemma_ring_index(cx, cy, s, r, i);
            lemma_ring_index(cx, cy, s, r, j);
            let (ai, bi) = ring_offset(r, i);
            let (aj, bj) = ring_offset(r, j);
            lemma_scaled_offset(cx, s, r, ai);
            lemma_scaled_offset(cx, s, r, aj);
            lemma_scaled_offset(cy, s, r, bi);
            lemma_scaled_offset(cy, s, r, bj);
            assert(ai != aj || bi != bj);
            if ai != aj {
                assert(ai * s != aj * s) by (nonlinear_arith)
                    requires s >= 1, ai != aj;
            } else {
                assert(bi * s != bj * s) by (nonlinear_arith)
                    requires s >= 1, bi != bj;
            }
        }
    }
    lemma_spiral_shape(cx, cy, s, r as nat);
}

proof fn lemma_spiral_shape(cx: int, cy: int, s: int, n: nat)
    ensures
        spiral_spec(cx, cy, s, n)[0] == (clamp_coord(cx), clamp_coord(cy)),
        spiral_spec(cx, cy, s, n).len() == 1 + 4 * n * (n + 1),
    decreases n,
{
    if n > 0 {
        lemma_spiral_shape(cx, cy, s, (n - 1) as nat);
        let p = spiral_spec(cx, cy, s, (n - 1) as nat);
        assert((p + ring_spec(cx, cy, s, n as int))[0] == p[0]);
        assert(ring_spec(cx, cy, s, n as int).len() == 8 * n);
        let m = (n - 1) as nat;
        assert(p.len() == 1 + 4 * m * (m + 1));
        assert(1 + 4 * m * (m + 1) + 8 * n == 1 + 4 * n * (n + 1)) by (nonlinear_arith)
            requires m == n - 1;
        assert(spiral_spec(cx, cy, s, n) == p + ring_spec(cx, cy, s, n as int));
    } else {
        assert(4 * n * (n + 1) == 0) by (nonlinear_arith) requires n == 0;
    }
}

/// The grid is a 32 x 32 lattice with spacing 30 from 30 to 970 on both axes,
/// row by row, with no position twice.
pub proof fn lemma_grid_lattice()
    ensures
        grid_spec().len() == 1024,
        grid_spec().no_duplicates(),
        forall|i: int|
            0 <= i < 1024 ==> 30 <= #[trigger] grid_spec()[i].0 <= 970 && 30 <= grid_spec()[i].1 <= 970,
        forall|i: int|
            0 <= i < 1024 && i % 32 != 31 ==> #[trigger] grid_spec()[i + 1].0 == grid_spec()[i].0 + 30
                && grid_spec()[i + 1].1 == grid_spec()[i].1,
{
    let g = grid_spec();
    assert forall|i: int, j: int| 0 <= i < g.len() && 0 <= j < g.len() && i != j implies g[i] != g[j] by {
        assert(i == 32 * (i / 32) + i % 32);
        assert(j == 32 * (j / 32) + j % 32);
    }
    assert forall|i: int| 0 <= i < 1024 && i % 32 != 31 implies #[trigger] g[i + 1].0 == g[i].0 + 30
        && g[i + 1].1 == g[i].1 by {
        assert((i + 1) % 32 == i % 32 + 1 && (i + 1) / 32 == i / 32);
    }
}

proof fn lemma_level0_centers(centers: Seq<(u32, u32)>, s: int, m: nat)
    requires
        m <= centers.len(),
        forall|k: int| 0 <= k < centers.len() ==> #[trigger] centers[k].0 <= 1023 && centers[k].1 <= 1023,
    ensures
        level_seq(centers, s, 0, m) == centers.take(m as int),
    decreases m,
{
    if m > 0 {
        lemma_level0_centers(centers, s, (m - 1) as nat);
        assert(centers.take(m as int) =~= centers.take(m - 1).push(centers[m - 1]));
        assert(ring_level(centers[m - 1], s, 0) =~= seq![centers[m - 1]]);
    }
}

/// Interleaved spirals start with their centers, in the order given, when the
/// centers are distinct and inside the world; no position ever repeats.
pub proof fn lemma_interleaved_centers_first(centers: Seq<(u32, u32)>, s: int, max_rings: nat)
    requires
        centers.no_duplicates(),
        forall|k: int| 0 <= k < centers.len() ==> #[trigger] centers[k].0 <= 1023 && centers[k].1 <= 1023,
    ensures
        interleaved_spec(centers, s, max_rings).len() >= centers.len(),
        interleaved_spec(centers, s, max_rings).take(centers.len() as int) == centers,
        interleaved_spec(centers, s, max_rings).no_duplicates(),
{
    lemma_level0_centers(centers, s, centers.len());
    assert(centers.take(centers.len() as int) =~= centers);
    let first = levels_seq(centers, s, 1);
    assert(levels_seq(centers, s, 0) == Seq::<(u32, u32)>::empty());
    assert(first =~= level_seq(centers, s, 0, centers.len()));
    lemma_dedup_distinct(first);
    lemma_levels_prefix(centers, s, max_rings + 1);
    let all = levels_seq(centers, s, max_rings + 1);
    let rest = all.subrange(first.len() as int, all.len() as int);
    assert(all =~= first + rest);
    lemma_dedup_prefix(first, rest);
    lemma_dedup_no_duplicates(all);
}

proof fn lemma_levels_prefix(centers: Seq<(u32, u32)>, s: int, n: nat)
    requires
        n >= 1,
    ensures
        levels_seq(centers, s, n).len() >= levels_seq(centers, s, 1).len(),
        levels_seq(centers, s, n).take(levels_seq(centers, s, 1).len() as int) == levels_seq(centers, s, 1),
    decreases n,
{
    if n > 1 {
        lemma_levels_prefix(centers, s, (n - 1) as nat);
        let p = levels_seq(centers, s, (n - 1) as nat);
        let q = level_seq(centers, s, n - 1, centers.len());
        let k = levels_seq(centers, s, 1).len() as int;
        assert((p + q).take(k) =~= p.take(k));
    }
}

/// The multi-spiral starts with its nine centers in their fixed order, and no
/// position repeats.
pub proof fn lemma_multi_spiral_centers_first(step: int, max_rings: nat)
    ensures
        interleaved_spec(multi_centers(), step, max_rings).len() >= 9,
        interleaved_spec(multi_centers(), step, max_rings).take(9) == multi_centers(),
        interleaved_spec(multi_centers(), step, max_rings).no_duplicates(),
{
    let c = multi_centers();
    assert(c.no_duplicates()) by {
        assert forall|i: int, j: int| 0 <= i < 9 && 0 <= j < 9 && i != j implies c[i] != c[j] by {
        }
    }
    lemma_interleaved_centers_first(c, step, max_rings);
}

/// The drag moves of ring `r` of a drag spiral: one step right, up
/// `2r - 1`, left `2r`, down `2r`, right `2r`, then one step up to reach the
/// next ring unless this ring is the last.
pub open spec fn drag_ring(r: int, last: bool) -> Seq<(i32, i32)> {
    seq![(1i32, 0i32)] + Seq::new((2 * r - 1) as nat, |k: int| (0i32, -1i32)) + Seq::new(
        (2 * r) as nat,
        |k: int| (-1i32, 0i32),
    ) + Seq::new((2 * r) as nat, |k: int| (0i32, 1i32)) + Seq::new((2 * r) as nat, |k: int| (1i32, 0i32))
        + if last {
        seq![]
    } else {
        seq![(0i32, -1i32)]
    }
}

/// The first `n` rings of a drag spiral of `max_rings` rings, after the
/// initial `(0, 0)` that scans the current position.
pub open spec fn drag_steps_spec(n: nat, max_rings: nat) -> Seq<(i32, i32)>
    decreases n,
{
    if n == 0 {
        seq![(0i32, 0i32)]
    } else {
        drag_steps_spec((n - 1) as nat, max_rings) + drag_ring(n as int, n == max_rings)
    }
}

fn push_repeat(steps: &mut Vec<(i32, i32)>, step: (i32, i32), count: u64)
    ensures
        final(steps)@ == old(steps)@ + Seq::new(count as nat, |k: int| step),
{
    let mut i: u64 = 0;
    while i < count
        invariant
            i <= count,
            steps@ == old(steps)@ + Seq::new(i as nat, |k: int| step),
        decreases count - i,
    {
        steps.push(step);
        i = i + 1;
        assert(steps@ =~= old(steps)@ + Seq::new(i as nat, |k: int| step));
    }
}

/// Relative drag moves of a spiral, each axis -1, 0 or 1; the first move
/// `(0, 0)` scans the current position.
pub fn spiral_drag_steps(max_rings: u32) -> (r: Vec<(i32, i32)>)
    ensures
        r@ == drag_steps_spec(max_rings as nat, max_rings as nat),
{
    let mut steps: Vec<(i32, i32)> = Vec::new();
    steps.push((0, 0));
    assert(steps@ =~= drag_steps_spec(0, max_rings as nat));
    let mut ring: u32 = 0;
    while ring < max_rings
        invariant
            ring <= max_rings,
            steps@ == drag_steps_spec(ring as nat, max_rings as nat),
        decreases max_rings - ring,
    {
        ring = ring + 1;
        let ghost pre = steps@;
        let r = ring as u64;
        steps.push((1, 0));
        push_repeat(&mut steps, (0, -1), 2 * r - 1);
        push_repeat(&mut steps, (-1, 0), 2 * r);
        push_repeat(&mut steps, (0, 1), 2 * r);
        push_repeat(&mut steps, (1, 0), 2 * r);
        if ring < max_rings {
            steps.push((0, -1));
        }
        assert(steps@ =~= pre + drag_ring(ring as int, ring == max_rings));
    }
    steps
}

} // verus!
