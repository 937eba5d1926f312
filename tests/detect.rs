use mercy::detect::{
    best_in_surface, deduplicate_matches, keep_better, min_surface, normalize_edges, prepared_size, red_settles,
    sort_matches, split_channels, template_fits, to_full_frame, Cascade, Channel, TemplateMatch, DEDUP_DISTANCE,
    MATCH_THRESHOLD,
};

fn m(x: u32, y: u32, score: i32) -> TemplateMatch {
    TemplateMatch { x, y, score }
}

#[test]
fn cascade_stops_after_red_without_candidates() {
    let red = vec![500_000, 970_000, 979_999, -20_000, 0, 1];
    let c = Cascade::start(&red, 3, 2);
    assert!(c.candidates.is_empty());
    assert_eq!(c.next_channel(), None);
    assert!(c.finish(4, 4).is_empty());
}

#[test]
fn cascade_narrows_through_all_channels() {
    // 3 x 2 surfaces; positions 1 and 5 pass red.
    let red = vec![0, 990_000, 0, 0, 0, 999_000];
    let mut c = Cascade::start(&red, 3, 2);
    assert_eq!(c.candidates, vec![m(1, 0, 990_000), m(2, 1, 999_000)]);
    assert_eq!(c.next_channel(), Some(Channel::Green));
    c.apply(&vec![0, 985_000, 0, 0, 0, 999_500]);
    assert_eq!(c.candidates, vec![m(1, 0, 985_000), m(2, 1, 999_000)]);
    assert_eq!(c.next_channel(), Some(Channel::Blue));
    c.apply(&vec![0, 995_000, 0, 0, 0, 981_000]);
    assert_eq!(c.next_channel(), Some(Channel::Edge));
    c.apply(&vec![0, 990_000, 0, 0, 0, 900_000]);
    assert_eq!(c.candidates, vec![m(1, 0, 985_000)]);
    assert_eq!(c.next_channel(), None);
    assert_eq!(c.finish(10, 6), vec![m(6, 3, 985_000)]);
}

#[test]
fn cascade_ends_when_a_channel_empties_it() {
    let red = vec![990_000];
    let mut c = Cascade::start(&red, 1, 1);
    c.apply(&vec![100]);
    assert!(c.candidates.is_empty());
    assert_eq!(c.next_channel(), None);
}

#[test]
fn sort_is_descending_and_stable() {
    let v = vec![m(1, 0, 5), m(2, 0, 9), m(3, 0, 5), m(4, 0, 7)];
    assert_eq!(sort_matches(&v), vec![m(2, 0, 9), m(4, 0, 7), m(1, 0, 5), m(3, 0, 5)]);
}

#[test]
fn dedup_keeps_best_of_close_matches() {
    let v = vec![m(100, 100, 981_000), m(120, 130, 995_000), m(100, 300, 990_000), m(139, 100, 999_000)];
    let r = deduplicate_matches(&v, DEDUP_DISTANCE);
    assert_eq!(r, vec![m(139, 100, 999_000), m(100, 300, 990_000)]);
    for i in 0..r.len() {
        for j in 0..r.len() {
            if i != j {
                assert!(r[i].x.abs_diff(r[j].x) >= 40 || r[i].y.abs_diff(r[j].y) >= 40);
            }
        }
    }
}

#[test]
fn dedup_keeps_matches_apart_on_one_axis() {
    let v = vec![m(100, 100, 5), m(140, 100, 4), m(100, 139, 3)];
    assert_eq!(deduplicate_matches(&v, 40), vec![m(100, 100, 5), m(140, 100, 4)]);
    assert!(deduplicate_matches(&vec![], 40).is_empty());
}

#[test]
fn best_is_first_maximum_row_major() {
    let s = vec![1, 7, 3, 7, 2, 0];
    assert_eq!(best_in_surface(&s, 3, 2), m(1, 0, 7));
    let s = vec![-5, -9];
    assert_eq!(best_in_surface(&s, 1, 2), m(0, 0, -5));
}

#[test]
fn min_of_four_surfaces() {
    assert_eq!(min_surface(&vec![5, 1], &vec![3, 9], &vec![4, 9], &vec![6, -2]), vec![3, -2]);
}

#[test]
fn keep_better_needs_strictly_greater() {
    assert_eq!(keep_better(None, m(1, 1, 3)), Some(m(1, 1, 3)));
    assert_eq!(keep_better(Some(m(0, 0, 3)), m(1, 1, 3)), Some(m(0, 0, 3)));
    assert_eq!(keep_better(Some(m(0, 0, 3)), m(1, 1, 4)), Some(m(1, 1, 4)));
}

#[test]
fn red_below_threshold_settles() {
    assert!(red_settles(MATCH_THRESHOLD - 1));
    assert!(!red_settles(MATCH_THRESHOLD));
}

#[test]
fn edges_scale_to_own_maximum() {
    assert_eq!(normalize_edges(&vec![0, 50, 100, 200]), vec![0, 63, 127, 255]);
    assert_eq!(normalize_edges(&vec![0, 0]), vec![0, 0]);
    assert!(normalize_edges(&vec![]).is_empty());
}

#[test]
fn channels_are_split() {
    let (r, g, b) = split_channels(&vec![1, 2, 3, 4, 5, 6]);
    assert_eq!(r, vec![1, 4]);
    assert_eq!(g, vec![2, 5]);
    assert_eq!(b, vec![3, 6]);
}

#[test]
fn small_templates_are_refused() {
    assert_eq!(prepared_size(48, 36), Some((48, 36)));
    assert_eq!(prepared_size(9, 36), None);
    assert_eq!(prepared_size(10, 10), Some((10, 10)));
}

#[test]
fn template_must_be_smaller_than_image() {
    assert!(template_fits(48, 36, 1700, 940));
    assert!(!template_fits(1700, 36, 1700, 940));
}

#[test]
fn crop_offsets_back_to_frame() {
    assert_eq!(to_full_frame(m(10, 20, 7)), m(170, 80, 7));
}
