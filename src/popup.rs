//! Coordinates read from the text of the target's popup, such as
//! `"Mercenary Exchange (K:111 X:506 Y:638)"`.
use vstd::prelude::*;
use crate::text::{chars_of, digit_run, digit_run_end, find_from, occurs_at, parse_u32, parse_u32_range};

verus! {

/// Index of the first occurrence of `p` in `s`.
pub open spec fn first_occurrence(s: Seq<char>, p: Seq<char>) -> int {
    choose|i: int| occurs_at(s, p, i) && forall|j: int| 0 <= j < i ==> !occurs_at(s, p, j)
}

/// The number spelled by the digits right after the first occurrence of `p`
/// in `s`; none if `p` does not occur, no digit follows, or it exceeds `u32`.
pub open spec fn number_after(s: Seq<char>, p: Seq<char>) -> Option<u32> {
    if exists|i: int| occurs_at(s, p, i) {
        let rest = s.subrange(first_occurrence(s, p) + p.len(), s.len() as int);
        parse_u32(rest.take(digit_run(rest) as int))
    } else {
        None
    }
}

/// The number right after the first occurrence of `prefix` in `text`.
pub fn extract_number_after(text: &str, prefix: &str) -> (r: Option<u32>)
    ensures
        r == number_after(text@, prefix@),
{
    let v = chars_of(text);
    let p = chars_of(prefix);
    let idx = match find_from(&v, &p) {
        Some(i) => i,
        None => {
            return None;
        },
    };
    proof {
        let f = first_occurrence(v@, p@);
        assert(occurs_at(v@, p@, f) && forall|j: int| 0 <= j < f ==> !occurs_at(v@, p@, j));
        if f < idx {
        } else if f > idx {
        }
        assert(f == idx);
    }
    let start = idx + p.len();
    let end = digit_run_end(&v, start);
    let ghost rest = v@.subrange(start as int, v@.len() as int);
    assert(rest.take(digit_run(rest) as int) =~= v@.subrange(start as int, end as int));
    parse_u32_range(&v, start, end)
}

/// Kingdom, x and y from popup text holding `K:<n>`, `X:<n>` and `Y:<n>`.
pub fn parse_popup_coords(text: &str) -> (r: Option<(u32, u32, u32)>)
    ensures
        r == match (number_after(text@, "K:"@), number_after(text@, "X:"@), number_after(text@, "Y:"@)) {
            (Some(k), Some(x), Some(y)) => Some((k, x, y)),
            _ => None,
        },
{
    let k = extract_number_after(text, "K:");
    let x = extract_number_after(text, "X:");
    let y = extract_number_after(text, "Y:");
    match (k, x, y) {
        (Some(k), Some(x), Some(y)) => Some((k, x, y)),
        _ => None,
    }
}

} // verus!
