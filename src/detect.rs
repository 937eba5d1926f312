//! Candidate filtering of the detection engine. Correlation surfaces are
//! computed elsewhere; here they arrive row-major with scores in millionths
//! (1_000_000 is a perfect match), and are narrowed channel by channel.
use vstd::prelude::*;

verus! {

/// Score every channel must reach: 0.98, in millionths.
pub const MATCH_THRESHOLD: i32 = 980_000;

/// Game viewport inside the screenshot, without minimap, bars and panels.
pub const VIEWPORT_LEFT: u32 = 160;
pub const VIEWPORT_TOP: u32 = 60;
pub const VIEWPORT_RIGHT: u32 = 1860;
pub const VIEWPORT_BOTTOM: u32 = 1000;

/// Downscale factor applied before matching (1: full size).
pub const SCALE_DOWN: u32 = 1;

/// Smallest template side, after downscaling, worth correlating.
pub const MIN_TEMPLATE_SIDE: u32 = 10;

/// Matches closer than this on both axes, in pixels, count as one.
pub const DEDUP_DISTANCE: u32 = 40;

/// A match position in pixels and its score in millionths.
#[derive(Debug, Clone, Copy, PartialEq, Eq, Structural)]
pub struct TemplateMatch {
    pub x: u32,
    pub y: u32,
    pub score: i32,
}

/// Splits interleaved RGB bytes into the red, green and blue planes.
pub fn split_channels(rgb: &Vec<u8>) -> (r: (Vec<u8>, Vec<u8>, Vec<u8>))
    requires
        rgb@.len() % 3 == 0,
    ensures
        r.0@.len() == rgb@.len() / 3,
        r.1@.len() == rgb@.len() / 3,
        r.2@.len() == rgb@.len() / 3,
        forall|i: int|
            0 <= i < rgb@.len() / 3 ==> #[trigger] r.0@[i] == rgb@[3 * i] && r.1@[i] == rgb@[3 * i + 1]
                && r.2@[i] == rgb@[3 * i + 2],
{
    let len = rgb.len();
    let n = len / 3;
    let mut red: Vec<u8> = Vec::new();
    let mut green: Vec<u8> = Vec::new();
    let mut blue: Vec<u8> = Vec::new();
    let mut i: usize = 0;
    while i < n
        invariant
            n == rgb@.len() / 3,
            len == rgb@.len(),
            rgb@.len() % 3 == 0,
            i <= n,
            red@.len() == i && green@.len() == i && blue@.len() == i,
            forall|k: int|
                0 <= k < i ==> #[trigger] red@[k] == rgb@[3 * k] && green@[k] == rgb@[3 * k + 1]
                    && blue@[k] == rgb@[3 * k + 2],
        decreases n - i,
    {
        assert(3 * i + 2 < rgb@.len());
        red.push(rgb[3 * i]);
        green.push(rgb[3 * i + 1]);
        blue.push(rgb[3 * i + 2]);
        i = i + 1;
    }
    (red, green, blue)
}

/// Largest value of `s`, and at least 1.
pub open spec fn max_at_least_one(s: Seq<u16>) -> int
    decreases s.len(),
{
    if s.len() == 0 {
        1
    } else {
        let m = max_at_least_one(s.drop_last());
        if s.last() as int > m {
            s.last() as int
        } else {
            m
        }
    }
}

/// Gradient magnitudes scaled so the image's own maximum becomes 255.
pub fn normalize_edges(grad: &Vec<u16>) -> (r: Vec<u8>)
    ensures
        r@.len() == grad@.len(),
        forall|i: int|
            0 <= i < grad@.len() ==> #[trigger] r@[i] == grad@[i] as int * 255 / max_at_least_one(grad@),
{
    let mut m: u16 = 1;
    let mut i: usize = 0;
    while i < grad.len()
        invariant
            i <= grad.len(),
            m == max_at_least_one(grad@.take(i as int)),
        decreases grad.len() - i,
    {
        assert(grad@.take(i + 1).drop_last() =~= grad@.take(i as int));
        if grad[i] > m {
            m = grad[i];
        }
        i = i + 1;
    }
    assert(grad@.take(i as int) =~= grad@);
    proof {
        lemma_max_bounds(grad@);
    }
    let mut out: Vec<u8> = Vec::new();
    let mut i: usize = 0;
    while i < grad.len()
        invariant
            i <= grad.len(),
            m == max_at_least_one(grad@),
            1 <= m,
            forall|k: int| 0 <= k < grad@.len() ==> grad@[k] <= m,
            out@.len() == i,
            forall|k: int| 0 <= k < i ==> #[trigger] out@[k] == grad@[k] as int * 255 / m as int,
        decreases grad.len() - i,
    {
        let v = grad[i] as u32 * 255 / m as u32;
        assert(v <= 255) by (nonlinear_arith)
            requires v == grad@[i as int] as int * 255 / m as int, grad@[i as int] <= m, 1 <= m;
        out.push(v as u8);
        i = i + 1;
    }
    out
}

proof fn lemma_max_bounds(s: Seq<u16>)
    ensures
        1 <= max_at_least_one(s) <= u16::MAX,
        forall|k: int| 0 <= k < s.len() ==> s[k] <= max_at_least_one(s),
    decreases s.len(),
{
    if s.len() > 0 {
        lemma_max_bounds(s.drop_last());
        assert forall|k: int| 0 <= k < s.len() implies s[k] <= max_at_least_one(s) by {
            if k < s.len() - 1 {
                assert(s[k] == s.drop_last()[k]);
            }
        }
    }
}

/// Size of a template after downscaling, or none when a side falls below
/// the smallest useful size.
pub fn prepared_size(width: u32, height: u32) -> (r: Option<(u32, u32)>)
    ensures
        r == if width / SCALE_DOWN < MIN_TEMPLATE_SIDE || height / SCALE_DOWN < MIN_TEMPLATE_SIDE {
            None
        } else {
            Some(((width / SCALE_DOWN) as u32, (height / SCALE_DOWN) as u32))
        },
{
    let w = width / SCALE_DOWN;
    let h = height / SCALE_DOWN;
    if w < MIN_TEMPLATE_SIDE || h < MIN_TEMPLATE_SIDE {
        None
    } else {
        Some((w, h))
    }
}

/// Whether a template can slide over an image: strictly smaller on both axes.
pub fn template_fits(template_w: u32, template_h: u32, image_w: u32, image_h: u32) -> (r: bool)
    ensures
        r == (template_w < image_w && template_h < image_h),
{
    template_w < image_w && template_h < image_h
}

/// Positions `0..n` of a row-major surface of width `w` that reach the threshold.
pub open spec fn above_threshold(surface: Seq<i32>, w: int, n: nat) -> Seq<TemplateMatch>
    decreases n,
{
    if n == 0 {
        seq![]
    } else {
        let p = above_threshold(surface, w, (n - 1) as nat);
        let i = n - 1;
        if surface[i] >= MATCH_THRESHOLD {
            p.push(TemplateMatch { x: (i % w) as u32, y: (i / w) as u32, score: surface[i] })
        } else {
            p
        }
    }
}

/// Candidates after one more channel: each score lowered to the channel's
/// score at its position, those under the threshold dropped.
pub open spec fn narrowed(cands: Seq<TemplateMatch>, surface: Seq<i32>, w: int) -> Seq<TemplateMatch>
    decreases cands.len(),
{
    if cands.len() == 0 {
        seq![]
    } else {
        let p = narrowed(cands.drop_last(), surface, w);
        let c = cands.last();
        let ch = surface[c.y * w + c.x];
        let s = if ch < c.score { ch } else { c.score };
        if s >= MATCH_THRESHOLD {
            p.push(TemplateMatch { x: c.x, y: c.y, score: s })
        } else {
            p
        }
    }
}

/// Whether every candidate lies on a `w` by `h` surface.
pub open spec fn on_surface(cands: Seq<TemplateMatch>, w: int, h: int) -> bool {
    forall|k: int| 0 <= k < cands.len() ==> #[trigger] cands[k].x < w && cands[k].y < h
}

/// The cascade of channels for one template: red first, then green, blue
/// and edges, each narrowing the candidates; a channel is asked for only
/// while candidates remain.
pub struct Cascade {
    pub candidates: Vec<TemplateMatch>,
    /// Channels applied so far: 1 after red, 4 after edges.
    pub stage: u32,
    pub width: u32,
    pub height: u32,
}

/// A channel that the cascade asks for next.
#[derive(Debug, Clone, Copy, PartialEq, Eq, Structural)]
pub enum Channel {
    Green,
    Blue,
    Edge,
}

impl Cascade {
    pub open spec fn wf(&self) -> bool {
        &&& 1 <= self.stage <= 4
        &&& on_surface(self.candidates@, self.width as int, self.height as int)
        &&& forall|k: int| 0 <= k < self.candidates@.len() ==> #[trigger] self.candidates@[k].score >= MATCH_THRESHOLD
    }

    /// The channel asked for next, if any.
    pub open spec fn next_channel_spec(&self) -> Option<Channel> {
        if self.candidates@.len() == 0 || self.stage >= 4 {
            None
        } else if self.stage == 1 {
            Some(Channel::Green)
        } else if self.stage == 2 {
            Some(Channel::Blue)
        } else {
            Some(Channel::Edge)
        }
    }

    /// Starts from the red channel's surface: every position reaching the
    /// threshold is a candidate. Where none does, no other channel is ever
    /// asked for and the cascade ends empty.
    pub fn start(red: &Vec<i32>, width: u32, height: u32) -> (r: Cascade)
        requires
            red@.len() == width as int * height as int,
        ensures
            r.wf(),
            r.stage == 1,
            r.width == width && r.height == height,
            r.candidates@ == above_threshold(red@, width as int, red@.len()),
            (forall|i: int| 0 <= i < red@.len() ==> #[trigger] red@[i] < MATCH_THRESHOLD) ==> r.next_channel_spec()
                is None && r.candidates@.len() == 0,
    {
        let mut out: Vec<TemplateMatch> = Vec::new();
        let mut i: usize = 0;
        while i < red.len()
            invariant
                i <= red.len(),
                red@.len() == width as int * height as int,
                out@ == above_threshold(red@, width as int, i as nat),
                on_surface(out@, width as int, height as int),
                forall|k: int| 0 <= k < out@.len() ==> #[trigger] out@[k].score >= MATCH_THRESHOLD,
                (forall|k: int| 0 <= k < red@.len() ==> #[trigger] red@[k] < MATCH_THRESHOLD) ==> out@.len() == 0,
            decreases red.len() - i,
        {
            if red[i] >= MATCH_THRESHOLD {
                let ghost gi = i as int;
                proof {
                    assert(0 < width) by (nonlinear_arith)
                        requires gi < width as int * height as int, 0 <= gi;
                    let gw = width as int;
                    let gh = height as int;
                    assert(gi / gw < gh) by (nonlinear_arith)
                        requires gi < gw * gh, 0 <= gi, 0 < gw;
                    assert(gi % gw < gw) by (nonlinear_arith)
                        requires 0 < gw;
                }
                out.push(TemplateMatch { x: (i % width as usize) as u32, y: (i / width as usize) as u32, score: red[i] });
            }
            i = i + 1;
        }
        Cascade { candidates: out, stage: 1, width, height }
    }

    /// The channel to compute next, or none when the cascade has ended.
    pub fn next_channel(&self) -> (r: Option<Channel>)
        ensures
            r == self.next_channel_spec(),
    {
        if self.candidates.len() == 0 || self.stage >= 4 {
            None
        } else if self.stage == 1 {
            Some(Channel::Green)
        } else if self.stage == 2 {
            Some(Channel::Blue)
        } else {
            Some(Channel::Edge)
        }
    }

    /// Applies the surface of the channel asked for.
    pub fn apply(&mut self, surface: &Vec<i32>)
        requires
            old(self).wf(),
            old(self).next_channel_spec() is Some,
            surface@.len() == old(self).width as int * old(self).height as int,
        ensures
            final(self).wf(),
            final(self).stage == old(self).stage + 1,
            final(self).width == old(self).width && final(self).height == old(self).height,
            final(self).candidates@ == narrowed(old(self).candidates@, surface@, old(self).width as int),
    {
        let w = self.width;
        let h = self.height;
        let n = surface.len();
        let mut out: Vec<TemplateMatch> = Vec::new();
        let mut k: usize = 0;
        while k < self.candidates.len()
            invariant
                k <= self.candidates.len(),
                w == self.width && h == self.height,
                surface@.len() == w as int * h as int,
                n == surface@.len(),
                on_surface(self.candidates@, w as int, h as int),
                out@ == narrowed(self.candidates@.take(k as int), surface@, w as int),
                on_surface(out@, w as int, h as int),
                forall|j: int| 0 <= j < out@.len() ==> #[trigger] out@[j].score >= MATCH_THRESHOLD,
            decreases self.candidates.len() - k,
        {
            let c = self.candidates[k];
            assert(self.candidates@.take(k + 1).drop_last() =~= self.candidates@.take(k as int));
            let ghost (cx, cy) = (c.x as int, c.y as int);
            proof {
                assert(cy * w + cx < w as int * h as int) by (nonlinear_arith)
                    requires 0 <= cx < w, 0 <= cy < h;
                assert(0 <= cy * w + cx) by (nonlinear_arith)
                    requires 0 <= cx, 0 <= cy, 0 <= w;
            }
            let ch = surface[c.y as usize * w as usize + c.x as usize];
            let s = if ch < c.score { ch } else { c.score };
            if s >= MATCH_THRESHOLD {
                out.push(TemplateMatch { x: c.x, y: c.y, score: s });
            }
            k = k + 1;
        }
        assert(self.candidates@.take(self.candidates@.len() as int) =~= self.candidates@);
        self.candidates = out;
        self.stage = self.stage + 1;
    }
}

/// Where `x` goes in `s`, sorted by descending score: after every element
/// scoring at least as much, so that equal scores keep their order.
pub open spec fn insert_pos(s: Seq<TemplateMatch>, x: TemplateMatch) -> int
    decreases s.len(),
{
    if s.len() == 0 {
        0
    } else if s[0].score < x.score {
        0
    } else {
        1 + insert_pos(s.drop_first(), x)
    }
}

/// `s` sorted by descending score, equal scores in input order.
pub open spec fn sort_by_score(s: Seq<TemplateMatch>) -> Seq<TemplateMatch>
    decreases s.len(),
{
    if s.len() == 0 {
        s
    } else {
        let p = sort_by_score(s.drop_last());
        p.insert(insert_pos(p, s.last()), s.last())
    }
}

proof fn lemma_insert_pos(s: Seq<TemplateMatch>, x: TemplateMatch, k: int)
    requires
        0 <= k <= s.len(),
        forall|j: int| 0 <= j < k ==> #[trigger] s[j].score >= x.score,
        k == s.len() || s[k].score < x.score,
    ensures
        insert_pos(s, x) == k,
    decreases k,
{
    if k > 0 {
        let t = s.drop_first();
        assert forall|j: int| 0 <= j < k - 1 implies #[trigger] t[j].score >= x.score by {
            assert(t[j] == s[j + 1]);
        }
        if k < s.len() {
            assert(t[k - 1] == s[k]);
        }
        lemma_insert_pos(t, x, k - 1);
    }
}

/// Whether scores never rise along `s`.
pub open spec fn descending(s: Seq<TemplateMatch>) -> bool {
    forall|i: int, j: int| 0 <= i < j < s.len() ==> #[trigger] s[i].score >= #[trigger] s[j].score
}

/// Sorting by score gives descending scores and keeps the elements.
pub proof fn lemma_sort_by_score(s: Seq<TemplateMatch>)
    ensures
        descending(sort_by_score(s)),
        sort_by_score(s).to_multiset() == s.to_multiset(),
    decreases s.len(),
{
    if s.len() > 0 {
        let p = sort_by_score(s.drop_last());
        let x = s.last();
        lemma_sort_by_score(s.drop_last());
        lemma_insert_pos_bounds(p, x);
        let k = insert_pos(p, x);
        let q = p.insert(k, x);
        assert forall|i: int, j: int| 0 <= i < j < q.len() implies #[trigger] q[i].score >= #[trigger] q[j].score by {
            if j < k {
                assert(q[i] == p[i] && q[j] == p[j]);
            } else if j == k {
                assert(q[i] == p[i]);
            } else if i < k {
                assert(q[i] == p[i] && q[j] == p[j - 1]);
            } else if i == k {
                assert(q[j] == p[j - 1]);
            } else {
                assert(q[i] == p[i - 1] && q[j] == p[j - 1]);
            }
        }
        assert(s =~= s.drop_last().push(x));
        vstd::seq_lib::to_multiset_build(s.drop_last(), x);
        vstd::seq_lib::to_multiset_insert(p, k, x);
    }
}

proof fn lemma_insert_pos_bounds(s: Seq<TemplateMatch>, x: TemplateMatch)
    requires
        descending(s),
    ensures
        0 <= insert_pos(s, x) <= s.len(),
        forall|j: int| 0 <= j < insert_pos(s, x) ==> #[trigger] s[j].score >= x.score,
        forall|j: int| insert_pos(s, x) <= j < s.len() ==> #[trigger] s[j].score < x.score,
    decreases s.len(),
{
    if s.len() > 0 {
        let t = s.drop_first();
        assert forall|i: int, j: int| 0 <= i < j < t.len() implies #[trigger] t[i].score >= #[trigger] t[j].score by {
            assert(t[i] == s[i + 1] && t[j] == s[j + 1]);
        }
        lemma_insert_pos_bounds(t, x);
        if s[0].score < x.score {
            assert forall|j: int| 0 <= j < s.len() implies #[trigger] s[j].score < x.score by {
                if j > 0 {
                    assert(s[0].score >= s[j].score);
                }
            }
        } else {
            assert forall|j: int| 0 <= j < insert_pos(s, x) implies #[trigger] s[j].score >= x.score by {
                if j > 0 {
                    assert(s[j] == t[j - 1]);
                }
            }
            assert forall|j: int| insert_pos(s, x) <= j < s.len() implies #[trigger] s[j].score < x.score by {
                assert(s[j] == t[j - 1]);
            }
        }
    }
}

/// Sorts by descending score; equal scores keep their order.
pub fn sort_matches(matches: &Vec<TemplateMatch>) -> (r: Vec<TemplateMatch>)
    ensures
        r@ == sort_by_score(matches@),
        descending(r@),
        r@.to_multiset() == matches@.to_multiset(),
{
    proof {
        lemma_sort_by_score(matches@);
    }
    let mut out: Vec<TemplateMatch> = Vec::new();
    let mut i: usize = 0;
    while i < matches.len()
        invariant
            i <= matches.len(),
            out@ == sort_by_score(matches@.take(i as int)),
        decreases matches.len() - i,
    {
        let m = matches[i];
        let mut k: usize = 0;
        while k < out.len() && out[k].score >= m.score
            invariant
                k <= out.len(),
                forall|j: int| 0 <= j < k ==> #[trigger] out@[j].score >= m.score,
            decreases out.len() - k,
        {
            k = k + 1;
        }
        proof {
            lemma_insert_pos(out@, m, k as int);
            assert(matches@.take(i + 1).drop_last() =~= matches@.take(i as int));
        }
        out.insert(k, m);
        i = i + 1;
    }
    assert(matches@.take(i as int) =~= matches@);
    out
}

/// Whether two matches are closer than `d` on both axes.
pub open spec fn too_close(a: TemplateMatch, b: TemplateMatch, d: int) -> bool {
    let dx = if a.x >= b.x { a.x - b.x } else { b.x - a.x };
    let dy = if a.y >= b.y { a.y - b.y } else { b.y - a.y };
    dx < d && dy < d
}

/// Greedy choice over `s` in order: an element is kept unless it is too
/// close to one kept before it.
pub open spec fn greedy_keep(s: Seq<TemplateMatch>, d: int) -> Seq<TemplateMatch>
    decreases s.len(),
{
    if s.len() == 0 {
        s
    } else {
        let p = greedy_keep(s.drop_last(), d);
        if exists|k: int| 0 <= k < p.len() && too_close(#[trigger] p[k], s.last(), d) {
            p
        } else {
            p.push(s.last())
        }
    }
}

/// Whether any two elements of `s` are at least `d` apart on some axis.
pub open spec fn spread_out(s: Seq<TemplateMatch>, d: int) -> bool {
    forall|i: int, j: int| 0 <= i < s.len() && 0 <= j < s.len() && i != j ==> !too_close(#[trigger] s[i], #[trigger] s[j], d)
}

proof fn lemma_greedy_spread(s: Seq<TemplateMatch>, d: int)
    ensures
        spread_out(greedy_keep(s, d), d),
    decreases s.len(),
{
    if s.len() > 0 {
        let p = greedy_keep(s.drop_last(), d);
        lemma_greedy_spread(s.drop_last(), d);
        if !(exists|k: int| 0 <= k < p.len() && too_close(#[trigger] p[k], s.last(), d)) {
            let q = p.push(s.last());
            assert forall|i: int, j: int| 0 <= i < q.len() && 0 <= j < q.len() && i != j implies !too_close(
                #[trigger] q[i],
                #[trigger] q[j],
                d,
            ) by {
                if i == p.len() {
                    assert(!too_close(p[j], s.last(), d));
                } else if j == p.len() {
                    assert(!too_close(p[i], s.last(), d));
                } else {
                    assert(q[i] == p[i] && q[j] == p[j]);
                }
            }
        }
    }
}

fn close_to_any(kept: &Vec<TemplateMatch>, m: TemplateMatch, d: u32) -> (r: bool)
    ensures
        r == exists|k: int| 0 <= k < kept@.len() && too_close(#[trigger] kept@[k], m, d as int),
{
    let mut k: usize = 0;
    while k < kept.len()
        invariant
            k <= kept.len(),
            forall|j: int| 0 <= j < k ==> !too_close(#[trigger] kept@[j], m, d as int),
        decreases kept.len() - k,
    {
        let e = kept[k];
        let dx = if m.x >= e.x { m.x - e.x } else { e.x - m.x };
        let dy = if m.y >= e.y { m.y - e.y } else { e.y - m.y };
        if dx < d && dy < d {
            assert(too_close(kept@[k as int], m, d as int));
            return true;
        }
        k = k + 1;
    }
    false
}

/// Keeps the best matches that stand apart: sorted by descending score, each
/// match is dropped when it lies closer than `min_distance` on both axes to
/// one kept before it. Any two kept matches are at least `min_distance`
/// apart on some axis.
pub fn deduplicate_matches(matches: &Vec<TemplateMatch>, min_distance: u32) -> (r: Vec<TemplateMatch>)
    ensures
        r@ == greedy_keep(sort_by_score(matches@), min_distance as int),
        spread_out(r@, min_distance as int),
{
    let sorted = sort_matches(matches);
    let mut kept: Vec<TemplateMatch> = Vec::new();
    let mut i: usize = 0;
    while i < sorted.len()
        invariant
            i <= sorted.len(),
            kept@ == greedy_keep(sorted@.take(i as int), min_distance as int),
        decreases sorted.len() - i,
    {
        let m = sorted[i];
        assert(sorted@.take(i + 1).drop_last() =~= sorted@.take(i as int));
        if !close_to_any(&kept, m, min_distance) {
            kept.push(m);
        }
        i = i + 1;
    }
    assert(sorted@.take(i as int) =~= sorted@);
    proof {
        lemma_greedy_spread(sorted@, min_distance as int);
    }
    kept
}

/// A match moved from a template's top-left corner to its center.
pub open spec fn centered(m: TemplateMatch, template_w: int, template_h: int) -> TemplateMatch {
    TemplateMatch { x: (m.x + template_w / 2) as u32, y: (m.y + template_h / 2) as u32, score: m.score }
}

impl Cascade {
    /// The surviving candidates, moved to the template's center and sorted by
    /// descending score.
    pub fn finish(&self, template_w: u32, template_h: u32) -> (r: Vec<TemplateMatch>)
        requires
            self.wf(),
            self.width as int + template_w as int <= u32::MAX,
            self.height as int + template_h as int <= u32::MAX,
        ensures
            r@ == sort_by_score(self.candidates@.map_values(|m: TemplateMatch| centered(m, template_w as int, template_h as int))),
    {
        let mut moved: Vec<TemplateMatch> = Vec::new();
        let mut k: usize = 0;
        while k < self.candidates.len()
            invariant
                self.wf(),
                self.width as int + template_w as int <= u32::MAX,
                self.height as int + template_h as int <= u32::MAX,
                k <= self.candidates.len(),
                moved@ == self.candidates@.take(k as int).map_values(|m: TemplateMatch| centered(m, template_w as int, template_h as int)),
            decreases self.candidates.len() - k,
        {
            let c = self.candidates[k];
            moved.push(TemplateMatch { x: c.x + template_w / 2, y: c.y + template_h / 2, score: c.score });
            assert(moved@ =~= self.candidates@.take(k + 1).map_values(|m: TemplateMatch| centered(m, template_w as int, template_h as int)));
            k = k + 1;
        }
        assert(self.candidates@.take(k as int) =~= self.candidates@);
        sort_matches(&moved)
    }
}

/// A position of the downscaled viewport crop in full-screenshot pixels.
pub open spec fn to_frame(x: int, y: int) -> (int, int) {
    (x * SCALE_DOWN + VIEWPORT_LEFT, y * SCALE_DOWN + VIEWPORT_TOP)
}

/// A match of the viewport crop, moved to full-screenshot coordinates.
pub fn to_full_frame(m: TemplateMatch) -> (r: TemplateMatch)
    requires
        to_frame(m.x as int, m.y as int).0 <= u32::MAX,
        to_frame(m.x as int, m.y as int).1 <= u32::MAX,
    ensures
        r.x == to_frame(m.x as int, m.y as int).0,
        r.y == to_frame(m.x as int, m.y as int).1,
        r.score == m.score,
{
    TemplateMatch { x: m.x * SCALE_DOWN + VIEWPORT_LEFT, y: m.y * SCALE_DOWN + VIEWPORT_TOP, score: m.score }
}

/// Whether index `i` holds the first maximum of `s`.
pub open spec fn is_first_max(s: Seq<i32>, i: int) -> bool {
    &&& 0 <= i < s.len()
    &&& forall|j: int| 0 <= j < s.len() ==> #[trigger] s[j] <= s[i]
    &&& forall|j: int| 0 <= j < i ==> #[trigger] s[j] < s[i]
}

/// The best position of a surface: its first maximum in row-major order.
pub fn best_in_surface(surface: &Vec<i32>, width: u32, height: u32) -> (r: TemplateMatch)
    requires
        surface@.len() == width as int * height as int,
        surface@.len() > 0,
    ensures
        exists|i: int|
            is_first_max(surface@, i) && r == (TemplateMatch { x: (i % width as int) as u32, y: (i / width as int) as u32, score: surface@[i] }),
{
    let mut best: usize = 0;
    let mut i: usize = 1;
    while i < surface.len()
        invariant
            1 <= i <= surface.len(),
            is_first_max(surface@.take(i as int), best as int),
        decreases surface.len() - i,
    {
        if surface[i] > surface[best] {
            best = i;
        }
        proof {
            let t = surface@.take(i + 1);
            assert forall|j: int| 0 <= j < t.len() implies #[trigger] t[j] <= t[best as int] by {
                if j < i {
                    assert(t[j] == surface@.take(i as int)[j]);
                }
            }
            assert forall|j: int| 0 <= j < best implies #[trigger] t[j] < t[best as int] by {
                assert(t[j] == surface@.take(i as int)[j]);
            }
        }
        i = i + 1;
    }
    assert(surface@.take(i as int) =~= surface@);
    let ghost gi = best as int;
    let ghost gw = width as int;
    let ghost gh = height as int;
    proof {
        assert(0 < gw) by (nonlinear_arith)
            requires gi < gw * gh, 0 <= gi, 0 <= gh;
        assert(gi / gw < gh) by (nonlinear_arith)
            requires gi < gw * gh, 0 <= gi, 0 < gw;
        assert(gi % gw < gw) by (nonlinear_arith)
            requires 0 < gw;
    }
    TemplateMatch { x: (best % width as usize) as u32, y: (best / width as usize) as u32, score: surface[best] }
}

/// The position-wise minimum of four surfaces of one size.
pub fn min_surface(a: &Vec<i32>, b: &Vec<i32>, c: &Vec<i32>, d: &Vec<i32>) -> (r: Vec<i32>)
    requires
        b@.len() == a@.len() && c@.len() == a@.len() && d@.len() == a@.len(),
    ensures
        r@.len() == a@.len(),
        forall|i: int|
            0 <= i < a@.len() ==> {
                &&& #[trigger] r@[i] <= a@[i] && r@[i] <= b@[i] && r@[i] <= c@[i] && r@[i] <= d@[i]
                &&& r@[i] == a@[i] || r@[i] == b@[i] || r@[i] == c@[i] || r@[i] == d@[i]
            },
{
    let mut out: Vec<i32> = Vec::new();
    let mut i: usize = 0;
    while i < a.len()
        invariant
            b@.len() == a@.len() && c@.len() == a@.len() && d@.len() == a@.len(),
            i <= a.len(),
            out@.len() == i,
            forall|k: int|
                0 <= k < i ==> {
                    &&& #[trigger] out@[k] <= a@[k] && out@[k] <= b@[k] && out@[k] <= c@[k] && out@[k] <= d@[k]
                    &&& out@[k] == a@[k] || out@[k] == b@[k] || out@[k] == c@[k] || out@[k] == d@[k]
                },
        decreases a.len() - i,
    {
        let mut m = a[i];
        if b[i] < m {
            m = b[i];
        }
        if c[i] < m {
            m = c[i];
        }
        if d[i] < m {
            m = d[i];
        }
        out.push(m);
        i = i + 1;
    }
    out
}

/// Whether the red channel's best score already settles a template's best
/// match, without the other channels: it stays under the threshold.
pub fn red_settles(best_red_score: i32) -> (r: bool)
    ensures
        r == (best_red_score < MATCH_THRESHOLD),
{
    best_red_score < MATCH_THRESHOLD
}

/// The running best match after considering `cand`: a candidate replaces the
/// best only with a strictly greater score.
pub fn keep_better(best: Option<TemplateMatch>, cand: TemplateMatch) -> (r: Option<TemplateMatch>)
    ensures
        r == match best {
            Some(b) => if cand.score <= b.score { Some(b) } else { Some(cand) },
            None => Some(cand),
        },
{
    match best {
        Some(b) => {
            if cand.score <= b.score {
                Some(b)
            } else {
                Some(cand)
            }
        },
        None => Some(cand),
    }
}

} // verus!
