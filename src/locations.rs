//! The known-locations list: one `kingdom,x,y` (or legacy `x,y`) per line,
//! and the interleaved spirals around those locations.
use vstd::prelude::*;
use crate::pattern::{
    dedup_first, grid_scan_positions, grid_spec, interleave_spirals, interleaved_spec,
    lemma_dedup_no_duplicates, lemma_grid_lattice, push_unique,
};
use crate::text::{chars_of, parse_u32, parse_u32_range, split_on, split_ranges, trim, trim_range};

verus! {

/// The location on one line: blank lines and `#` comments give none, as do
/// lines with other than two or three fields or a field that is no `u32`.
pub open spec fn parse_location_line(line: Seq<char>) -> Option<(u32, u32)> {
    let t = trim(line);
    if t.len() == 0 || t[0] == '#' {
        None
    } else {
        let parts = split_on(t, ',');
        if parts.len() == 3 || parts.len() == 2 {
            let xs = if parts.len() == 3 { parts[1] } else { parts[0] };
            let ys = if parts.len() == 3 { parts[2] } else { parts[1] };
            match (parse_u32(trim(xs)), parse_u32(trim(ys))) {
                (Some(x), Some(y)) => Some((x, y)),
                _ => None,
            }
        } else {
            None
        }
    }
}

/// The locations of `lines`, in order, one for each line that holds one.
pub open spec fn line_points(lines: Seq<Seq<char>>) -> Seq<(u32, u32)>
    decreases lines.len(),
{
    if lines.len() == 0 {
        seq![]
    } else {
        let p = line_points(lines.drop_last());
        match parse_location_line(lines.last()) {
            Some(q) => p.push(q),
            None => p,
        }
    }
}

/// The distinct locations of a known-locations text, in order of first occurrence.
pub open spec fn known_locations(s: Seq<char>) -> Seq<(u32, u32)> {
    dedup_first(line_points(split_on(s, '\n')))
}

fn parse_line_range(v: &Vec<char>, lo: usize, hi: usize) -> (r: Option<(u32, u32)>)
    requires
        lo <= hi <= v.len(),
    ensures
        r == parse_location_line(v@.subrange(lo as int, hi as int)),
{
    let (a, b) = trim_range(v, lo, hi);
    if a == b || v[a] == '#' {
        return None;
    }
    let parts = split_ranges(v, a, b, ',');
    if parts.len() != 3 && parts.len() != 2 {
        return None;
    }
    let (xr, yr) = if parts.len() == 3 {
        (parts[1], parts[2])
    } else {
        (parts[0], parts[1])
    };
    let (xa, xb) = trim_range(v, xr.0, xr.1);
    let (ya, yb) = trim_range(v, yr.0, yr.1);
    let x = parse_u32_range(v, xa, xb);
    let y = parse_u32_range(v, ya, yb);
    match (x, y) {
        (Some(x), Some(y)) => Some((x, y)),
        _ => None,
    }
}

/// Reads a known-locations text: one `kingdom,x,y` or legacy `x,y` per line,
/// fields trimmed; blank lines, `#` comments and malformed lines are skipped.
/// Each `(x, y)` is kept at its first occurrence only.
pub fn parse_known_locations(contents: &str) -> (r: Vec<(u32, u32)>)
    ensures
        r@ == known_locations(contents@),
        r@.no_duplicates(),
{
    let v = chars_of(contents);
    let lines = split_ranges(&v, 0, v.len(), '\n');
    let ghost all = split_on(v@.subrange(0, v@.len() as int), '\n');
    assert(v@.subrange(0, v@.len() as int) =~= contents@);
    let mut out: Vec<(u32, u32)> = Vec::new();
    let mut k: usize = 0;
    while k < lines.len()
        invariant
            lines@.len() == all.len(),
            k <= lines.len(),
            all == split_on(contents@, '\n'),
            forall|j: int|
                0 <= j < lines@.len() ==> #[trigger] lines@[j].0 <= lines@[j].1 <= v@.len() && v@.subrange(
                    lines@[j].0 as int,
                    lines@[j].1 as int,
                ) == all[j],
            out@ == dedup_first(line_points(all.take(k as int))),
        decreases lines.len() - k,
    {
        let (lo, hi) = lines[k];
        let p = parse_line_range(&v, lo, hi);
        assert(all.take(k + 1).drop_last() =~= all.take(k as int));
        match p {
            Some(q) => {
                push_unique(&mut out, q, Ghost(line_points(all.take(k as int))));
            },
            None => {},
        }
        k = k + 1;
    }
    assert(all.take(lines@.len() as int) =~= all);
    proof {
        lemma_dedup_no_duplicates(line_points(all));
    }
    out
}

/// Spirals around the known locations, interleaved by ring level. Without a
/// text (`None`: no file, or it could not be read), or when it names no
/// location, the regular grid instead.
pub fn known_spiral_positions(contents: Option<&str>, step: u32, max_rings: u32) -> (r: Vec<(u32, u32)>)
    ensures
        r@ == match contents {
            None => grid_spec(),
            Some(c) => if known_locations(c@).len() == 0 {
                grid_spec()
            } else {
                interleaved_spec(known_locations(c@), step as int, max_rings as nat)
            },
        },
        r@.no_duplicates(),
{
    proof {
        lemma_grid_lattice();
    }
    let centers = match contents {
        Some(text) => parse_known_locations(text),
        None => {
            return grid_scan_positions();
        },
    };
    if centers.len() == 0 {
        return grid_scan_positions();
    }
    interleave_spirals(&centers, step, max_rings)
}

} // verus!
