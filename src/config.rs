//! Scanner configuration and the checks on its textual values.
use vstd::prelude::*;
use vstd::string::StrSliceExecFns;
use crate::text::{chars_of, parse_u32, parse_u32_range, split_on, split_ranges, trim, trim_range};

verus! {

/// Why a configuration could not be built.
#[derive(Debug, Clone, PartialEq, Eq)]
pub enum ConfigError {
    /// A required setting is absent; holds its name.
    MissingEnv(String),
    /// The kingdom list is empty or holds a piece that is no `u32`; holds the piece.
    InvalidKingdoms(String),
}

/// Settings of one scanner process.
#[derive(Debug, Clone)]
pub struct Config {
    pub kingdoms: Vec<u32>,
    pub auth_token: String,
    pub tb_email: String,
    pub tb_password: String,
    pub listen_addr: String,
    pub chromium_path: Option<String>,
    /// Run the browser without a window.
    pub headless: bool,
    /// Name of the tile searched for in the popup.
    pub search_target: String,
    /// Write screenshots of every scan step to disk.
    pub debug_screenshots: bool,
    /// Wait after each navigation, in milliseconds.
    pub navigate_delay_ms: u64,
    /// Scan pattern: "single", "multi", "wide", "known" or "grid".
    pub scan_pattern: String,
    /// Ring count overriding the pattern's default.
    pub scan_rings: Option<u32>,
    /// Path of the append-only exchange log.
    pub exchange_log: String,
    /// Path of the known-locations list for the "known" pattern.
    pub known_locations_file: Option<String>,
    /// Coverage percentage for the "known" pattern, `1..=100`.
    pub known_coverage: u32,
    /// Most detection tasks running at once.
    pub max_detect_tasks: usize,
}

/// The kingdoms of a comma-separated list, each piece trimmed; `None` if a
/// piece is no `u32`.
pub open spec fn kingdoms_of(pieces: Seq<Seq<char>>) -> Option<Seq<u32>>
    decreases pieces.len(),
{
    if pieces.len() == 0 {
        Some(seq![])
    } else {
        match (kingdoms_of(pieces.drop_last()), parse_u32(trim(pieces.last()))) {
            (Some(p), Some(k)) => Some(p.push(k)),
            _ => None,
        }
    }
}

/// Reads the kingdom list `"111, 112,113"`. An empty list and a piece that is
/// no `u32` are refused, the latter naming the untrimmed piece.
pub fn parse_kingdoms(text: &str) -> (r: Result<Vec<u32>, ConfigError>)
    ensures
        match kingdoms_of(split_on(text@, ',')) {
            Some(ks) => if ks.len() == 0 {
                r is Err
            } else {
                r matches Ok(v) && v@ == ks
            },
            None => r matches Err(ConfigError::InvalidKingdoms(_)),
        },
{
    let v = chars_of(text);
    assert(v@.len() == text@.len());
    let parts = split_ranges(&v, 0, v.len(), ',');
    let ghost all = split_on(v@.subrange(0, v@.len() as int), ',');
    assert(v@.subrange(0, v@.len() as int) =~= text@);
    let mut out: Vec<u32> = Vec::new();
    let mut k: usize = 0;
    while k < parts.len()
        invariant
            parts@.len() == all.len(),
            k <= parts.len(),
            all == split_on(text@, ','),
            forall|j: int|
                0 <= j < parts@.len() ==> #[trigger] parts@[j].0 <= parts@[j].1 <= v@.len() && v@.subrange(
                    parts@[j].0 as int,
                    parts@[j].1 as int,
                ) == all[j],
            kingdoms_of(all.take(k as int)) == Some(out@),
            v@ == text@,
        decreases parts.len() - k,
    {
        let (lo, hi) = parts[k];
        let (a, b) = trim_range(&v, lo, hi);
        assert(all.take(k + 1).drop_last() =~= all.take(k as int));
        match parse_u32_range(&v, a, b) {
            Some(n) => {
                out.push(n);
            },
            None => {
                proof {
                    lemma_kingdoms_prefix_none(all, k as nat + 1);
                }
                return Err(ConfigError::InvalidKingdoms(text.substring_char(lo, hi).to_owned()));
            },
        }
        k = k + 1;
    }
    assert(all.take(parts@.len() as int) =~= all);
    if out.len() == 0 {
        return Err(ConfigError::InvalidKingdoms(String::new()));
    }
    Ok(out)
}

proof fn lemma_kingdoms_prefix_none(all: Seq<Seq<char>>, n: nat)
    requires
        n <= all.len(),
        kingdoms_of(all.take(n as int)) is None,
    ensures
        kingdoms_of(all) is None,
    decreases all.len() - n,
{
    if n < all.len() {
        assert(all.take(n as int + 1).drop_last() =~= all.take(n as int));
        lemma_kingdoms_prefix_none(all, n + 1);
    } else {
        assert(all.take(n as int) =~= all);
    }
}

/// Whether a yes/no setting is on: `"1"` or `"true"` in any letter case.
pub open spec fn flag_on(s: Seq<char>) -> bool {
    s == seq!['1'] || (s.len() == 4 && lower_ascii(s[0]) == 't' && lower_ascii(s[1]) == 'r'
        && lower_ascii(s[2]) == 'u' && lower_ascii(s[3]) == 'e')
}

/// `c` with an ASCII capital letter made small.
pub open spec fn lower_ascii(c: char) -> char {
    if 'A' <= c && c <= 'Z' {
        ((c as u32) + 32) as char
    } else {
        c
    }
}

fn to_lower_ascii(c: char) -> (r: char)
    ensures
        r == lower_ascii(c),
{
    if 'A' <= c && c <= 'Z' {
        ((c as u8) + 32) as char
    } else {
        c
    }
}

/// Reads a yes/no setting.
pub fn parse_flag(text: &str) -> (r: bool)
    ensures
        r == flag_on(text@),
{
    let v = chars_of(text);
    if v.len() == 1 {
        assert(v[0] == '1' ==> v@ =~= seq!['1']);
        return v[0] == '1';
    }
    if v.len() != 4 {
        return false;
    }
    to_lower_ascii(v[0]) == 't' && to_lower_ascii(v[1]) == 'r' && to_lower_ascii(v[2]) == 'u'
        && to_lower_ascii(v[3]) == 'e'
}

/// The "known" pattern's coverage, forced into `1..=100`.
pub fn clamp_coverage(pct: u32) -> (r: u32)
    ensures
        r == if pct < 1 { 1 } else if pct > 100 { 100 } else { pct },
{
    if pct < 1 {
        1
    } else if pct > 100 {
        100
    } else {
        pct
    }
}

/// Whether an `authorization` header value carries `token` as a bearer
/// token: exactly `"Bearer "` followed by the token.
pub fn bearer_matches(header: &str, token: &str) -> (r: bool)
    ensures
        r == (header@ == "Bearer "@ + token@),
{
    let h = chars_of(header);
    let p = chars_of("Bearer ");
    let t = chars_of(token);
    let ghost want = p@ + t@;
    if h.len() < p.len() || h.len() - p.len() != t.len() {
        assert(h@.len() != want.len());
        return false;
    }
    let mut i: usize = 0;
    while i < h.len()
        invariant
            h@ == header@ && p@ == "Bearer "@ && t@ == token@,
            want == p@ + t@,
            h@.len() == want.len(),
            i <= h.len(),
            forall|k: int| 0 <= k < i ==> h@[k] == want[k],
        decreases h.len() - i,
    {
        let c = if i < p.len() { p[i] } else { t[i - p.len()] };
        assert(c == want[i as int]);
        if h[i] != c {
            return false;
        }
        i = i + 1;
    }
    assert(h@ =~= want);
    true
}

} // verus!
