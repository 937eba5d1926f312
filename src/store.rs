//! The exchange store: found target locations per kingdom, deduplicated over
//! a five-minute window, and the time each kingdom was last scanned.
use vstd::prelude::*;
use std::collections::HashMap;
use crate::config::Config;
use crate::phase::ScannerPhase;

verus! {

broadcast use vstd::std_specs::hash::group_hash_axioms;

/// How long a found location blocks the same location from being stored
/// again: five minutes, in milliseconds.
pub const DEDUP_WINDOW_MS: i64 = 300_000;

/// The current time in milliseconds since the Unix epoch.
/// Relies on `chrono::Utc::now` and `DateTime::timestamp_millis`; nothing is
/// promised of the value.
#[verifier::external_body]
pub(crate) fn now_millis() -> (r: i64) {
    chrono::Utc::now().timestamp_millis()
}

/// A found instance of the target.
#[derive(Debug, Clone)]
pub struct MercExchange {
    pub kingdom: u32,
    pub x: u32,
    pub y: u32,
    /// When it was found or last seen, in milliseconds since the Unix epoch.
    pub found_at: i64,
    /// How long the scan took to find it, in milliseconds.
    pub scan_duration_ms: Option<u64>,
    /// Coordinates read from the popup (`true`) or estimated by calibration.
    pub confirmed: bool,
    /// Screenshot taken after clicking the match (PNG bytes).
    pub screenshot_png: Option<Vec<u8>>,
}

/// Whether stored `e` blocks storing `n` at time `now`: same kingdom and
/// position, found less than five minutes before.
pub open spec fn blocks(e: MercExchange, n: MercExchange, now: int) -> bool {
    e.kingdom == n.kingdom && e.x == n.x && e.y == n.y && now - e.found_at < DEDUP_WINDOW_MS
}

/// Adding `n` at time `now`: whether it is stored, and the exchanges after.
pub open spec fn add_spec(exs: Seq<MercExchange>, n: MercExchange, now: int) -> (bool, Seq<MercExchange>) {
    if exists|i: int| 0 <= i < exs.len() && blocks(#[trigger] exs[i], n, now) {
        (false, exs)
    } else {
        (true, exs.push(n))
    }
}

/// The exchanges not in `kingdom`, in order.
pub open spec fn without_kingdom(exs: Seq<MercExchange>, kingdom: u32) -> Seq<MercExchange>
    decreases exs.len(),
{
    if exs.len() == 0 {
        exs
    } else if exs.last().kingdom == kingdom {
        without_kingdom(exs.drop_last(), kingdom)
    } else {
        without_kingdom(exs.drop_last(), kingdom).push(exs.last())
    }
}

/// Whether `e` lies at `(kingdom, x, y)`.
pub open spec fn at_position(e: MercExchange, kingdom: u32, x: u32, y: u32) -> bool {
    e.kingdom == kingdom && e.x == x && e.y == y
}

/// Whether `a` and `b` hold exchanges at the same kingdoms and positions, in order.
pub open spec fn same_places(a: Seq<MercExchange>, b: Seq<MercExchange>) -> bool {
    &&& a.len() == b.len()
    &&& forall|j: int|
        0 <= j < a.len() ==> #[trigger] a[j].kingdom == b[j].kingdom && a[j].x == b[j].x && a[j].y == b[j].y
}

/// Whether index `i` holds the kingdom's latest exchange: the last of those
/// found most recently.
pub open spec fn is_latest(exs: Seq<MercExchange>, kingdom: u32, i: int) -> bool {
    &&& 0 <= i < exs.len()
    &&& exs[i].kingdom == kingdom
    &&& forall|j: int|
        0 <= j < exs.len() && #[trigger] exs[j].kingdom == kingdom ==> exs[j].found_at <= exs[i].found_at
            && (j > i ==> exs[j].found_at < exs[i].found_at)
}

/// The shared state of one scanner.
pub struct AppStateInner {
    pub phase: ScannerPhase,
    pub current_kingdom: Option<u32>,
    pub exchanges: Vec<MercExchange>,
    pub config: Config,
    /// When each kingdom was last scanned, in milliseconds since the Unix epoch.
    pub last_kingdom_scan: HashMap<u32, i64>,
    /// Last screenshot taken, for diagnostics.
    pub last_screenshot: Option<Vec<u8>>,
}

impl AppStateInner {
    /// Whether `self` and `o` agree on everything but the exchanges.
    pub open spec fn same_but_exchanges(&self, o: &AppStateInner) -> bool {
        &&& self.phase == o.phase
        &&& self.current_kingdom == o.current_kingdom
        &&& self.config == o.config
        &&& self.last_kingdom_scan@ == o.last_kingdom_scan@
        &&& self.last_screenshot == o.last_screenshot
    }

    /// A fresh state: idle, nothing found, nothing scanned.
    pub fn new(config: Config) -> (r: Self)
        ensures
            r.phase == ScannerPhase::Idle,
            r.current_kingdom is None,
            r.exchanges@.len() == 0,
            r.config == config,
            r.last_kingdom_scan@ == Map::<u32, i64>::empty(),
            r.last_screenshot is None,
    {
        AppStateInner {
            phase: ScannerPhase::Idle,
            current_kingdom: None,
            exchanges: Vec::new(),
            config,
            last_kingdom_scan: HashMap::new(),
            last_screenshot: None,
        }
    }

    /// Stores `exchange` as found at `now` unless the same kingdom and
    /// position was found less than five minutes before; says whether it was stored.
    pub fn add_exchange_at(&mut self, exchange: MercExchange, now: i64) -> (r: bool)
        ensures
            (r, final(self).exchanges@) == add_spec(old(self).exchanges@, exchange, now as int),
            final(self).same_but_exchanges(old(self)),
    {
        let mut i: usize = 0;
        while i < self.exchanges.len()
            invariant
                i <= self.exchanges.len(),
                forall|j: int| 0 <= j < i ==> !blocks(#[trigger] self.exchanges@[j], exchange, now as int),
            decreases self.exchanges.len() - i,
        {
            let e = &self.exchanges[i];
            if e.kingdom == exchange.kingdom && e.x == exchange.x && e.y == exchange.y && (now as i128)
                - (e.found_at as i128) < DEDUP_WINDOW_MS as i128 {
                assert(blocks(self.exchanges@[i as int], exchange, now as int));
                return false;
            }
            i = i + 1;
        }
        self.exchanges.push(exchange);
        true
    }

    /// Stores `exchange` unless the same kingdom and position was found less
    /// than five minutes ago, judged by the clock; says whether it was stored.
    pub fn add_exchange(&mut self, exchange: MercExchange) -> (r: bool)
        ensures
            exists|now: int| (r, final(self).exchanges@) == add_spec(old(self).exchanges@, exchange, now),
            final(self).same_but_exchanges(old(self)),
    {
        let now = now_millis();
        self.add_exchange_at(exchange, now)
    }

    /// Whether there are as many exchanges as configured kingdoms.
    pub fn is_full(&self) -> (r: bool)
        ensures
            r == (self.exchanges@.len() >= self.config.kingdoms@.len()),
    {
        self.exchanges.len() >= self.config.kingdoms.len()
    }

    /// When `kingdom` was last scanned.
    pub fn last_scan_time(&self, kingdom: u32) -> (r: Option<i64>)
        ensures
            r == (if self.last_kingdom_scan@.contains_key(kingdom) {
                Some(self.last_kingdom_scan@[kingdom])
            } else {
                None
            }),
    {
        match self.last_kingdom_scan.get(&kingdom) {
            Some(t) => Some(*t),
            None => None,
        }
    }

    /// Records that `kingdom` was scanned at `now`.
    pub fn set_last_scan_time_at(&mut self, kingdom: u32, now: i64)
        ensures
            final(self).last_kingdom_scan@ == old(self).last_kingdom_scan@.insert(kingdom, now),
            final(self).exchanges@ == old(self).exchanges@,
            final(self).phase == old(self).phase,
    {
        self.last_kingdom_scan.insert(kingdom, now);
    }

    /// Records that `kingdom` was scanned just now.
    pub fn set_last_scan_time(&mut self, kingdom: u32)
        ensures
            final(self).last_kingdom_scan@.contains_key(kingdom),
            final(self).last_kingdom_scan@.remove(kingdom) == old(self).last_kingdom_scan@.remove(kingdom),
            final(self).exchanges@ == old(self).exchanges@,
            final(self).phase == old(self).phase,
    {
        let now = now_millis();
        self.set_last_scan_time_at(kingdom, now);
        assert(final(self).last_kingdom_scan@.remove(kingdom) =~= old(self).last_kingdom_scan@.remove(kingdom));
    }

    /// Position of the kingdom's most recently found exchange; among equally
    /// recent ones, the last stored.
    pub fn exchange_for_kingdom(&self, kingdom: u32) -> (r: Option<(u32, u32)>)
        ensures
            r is None <==> forall|j: int| 0 <= j < self.exchanges@.len() ==> #[trigger] self.exchanges@[j].kingdom != kingdom,
            r matches Some(p) ==> exists|i: int| is_latest(self.exchanges@, kingdom, i) && p == (self.exchanges@[i].x, self.exchanges@[i].y),
    {
        let mut best: Option<usize> = None;
        let mut i: usize = 0;
        while i < self.exchanges.len()
            invariant
                i <= self.exchanges.len(),
                best is None <==> forall|j: int| 0 <= j < i ==> #[trigger] self.exchanges@[j].kingdom != kingdom,
                best matches Some(b) ==> b < i && is_latest(self.exchanges@.take(i as int), kingdom, b as int),
            decreases self.exchanges.len() - i,
        {
            let e = &self.exchanges[i];
            let ghost s = self.exchanges@.take(i + 1);
            assert(self.exchanges@.take(i as int) =~= s.drop_last());
            if e.kingdom == kingdom {
                match best {
                    Some(b) => {
                        if e.found_at >= self.exchanges[b].found_at {
                            best = Some(i);
                        }
                    },
                    None => {
                        best = Some(i);
                    },
                }
            }
            proof {
                if let Some(b) = best {
                    assert forall|j: int| 0 <= j < s.len() && #[trigger] s[j].kingdom == kingdom implies s[j].found_at
                        <= s[b as int].found_at && (j > b ==> s[j].found_at < s[b as int].found_at) by {
                        if j < i {
                            assert(s[j] == self.exchanges@.take(i as int)[j]);
                        }
                    }
                }
            }
            i = i + 1;
        }
        assert(self.exchanges@.take(i as int) =~= self.exchanges@);
        match best {
            Some(b) => Some((self.exchanges[b].x, self.exchanges[b].y)),
            None => None,
        }
    }

    /// Marks the first exchange at `(kingdom, x, y)` as seen at `now`.
    pub fn refresh_exchange_at(&mut self, kingdom: u32, x: u32, y: u32, now: i64)
        ensures
            final(self).same_but_exchanges(old(self)),
            final(self).exchanges@.len() == old(self).exchanges@.len(),
            same_places(final(self).exchanges@, old(self).exchanges@),
            (forall|j: int| 0 <= j < old(self).exchanges@.len() ==> !at_position(#[trigger] old(self).exchanges@[j], kingdom, x, y))
                ==> final(self).exchanges@ == old(self).exchanges@,
            forall|i: int|
                0 <= i < old(self).exchanges@.len() && at_position(old(self).exchanges@[i], kingdom, x, y)
                    && (forall|j: int| 0 <= j < i ==> !at_position(#[trigger] old(self).exchanges@[j], kingdom, x, y))
                    ==> {
                    &&& final(self).exchanges@[i].found_at == now
                    &&& final(self).exchanges@[i].kingdom == old(self).exchanges@[i].kingdom
                    &&& final(self).exchanges@[i].x == old(self).exchanges@[i].x
                    &&& final(self).exchanges@[i].y == old(self).exchanges@[i].y
                    &&& final(self).exchanges@[i].confirmed == old(self).exchanges@[i].confirmed
                    &&& final(self).exchanges@[i].scan_duration_ms == old(self).exchanges@[i].scan_duration_ms
                    &&& final(self).exchanges@[i].screenshot_png == old(self).exchanges@[i].screenshot_png
                    &&& forall|j: int| 0 <= j < old(self).exchanges@.len() && j != i ==> #[trigger] final(self).exchanges@[j] == old(self).exchanges@[j]
                },
    {
        let mut i: usize = 0;
        while i < self.exchanges.len()
            invariant
                i <= self.exchanges.len(),
                forall|j: int| 0 <= j < i ==> !at_position(#[trigger] self.exchanges@[j], kingdom, x, y),
            ensures
                i <= self.exchanges.len(),
                forall|j: int| 0 <= j < i ==> !at_position(#[trigger] self.exchanges@[j], kingdom, x, y),
                i < self.exchanges.len() ==> at_position(self.exchanges@[i as int], kingdom, x, y),
            decreases self.exchanges.len() - i,
        {
            if self.exchanges[i].kingdom == kingdom && self.exchanges[i].x == x && self.exchanges[i].y == y {
                break;
            }
            i = i + 1;
        }
        if i < self.exchanges.len() {
            self.exchanges[i].found_at = now;
            assert(forall|j: int| 0 <= j < i ==> !at_position(#[trigger] old(self).exchanges@[j], kingdom, x, y));
        } else {
            assert(self.exchanges@ == old(self).exchanges@);
        }
    }

    /// Marks the first exchange at `(kingdom, x, y)` as seen just now.
    pub fn refresh_exchange(&mut self, kingdom: u32, x: u32, y: u32)
        ensures
            final(self).same_but_exchanges(old(self)),
            final(self).exchanges@.len() == old(self).exchanges@.len(),
            same_places(final(self).exchanges@, old(self).exchanges@),
    {
        let now = now_millis();
        self.refresh_exchange_at(kingdom, x, y, now);
    }

    /// Removes every exchange of `kingdom`.
    pub fn remove_exchange(&mut self, kingdom: u32)
        ensures
            final(self).exchanges@ == without_kingdom(old(self).exchanges@, kingdom),
            final(self).same_but_exchanges(old(self)),
    {
        let mut rest: Vec<MercExchange> = Vec::new();
        std::mem::swap(&mut rest, &mut self.exchanges);
        let ghost orig = rest@;
        let mut kept: Vec<MercExchange> = Vec::new();
        let ghost mut n: int = 0;
        while rest.len() > 0
            invariant
                0 <= n <= orig.len(),
                rest@ == orig.skip(n),
                kept@ == without_kingdom(orig.take(n), kingdom),
            decreases rest.len(),
        {
            let e = rest.remove(0);
            proof {
                assert(orig.take(n + 1).drop_last() =~= orig.take(n));
                assert(e == orig[n]);
            }
            if e.kingdom != kingdom {
                kept.push(e);
            }
            proof {
                n = n + 1;
                assert(rest@ =~= orig.skip(n));
            }
        }
        assert(orig.take(n) =~= orig);
        self.exchanges = kept;
    }
}

/// The five-minute window: once an exchange found at `t1` has been stored in
/// a store holding nothing found after `t1`, the same kingdom and position
/// added again before `t1` plus five minutes is refused and the store is left
/// as it was, while added at `t1` plus five minutes or later it is stored.
pub proof fn lemma_dedup_window(
    exs: Seq<MercExchange>,
    e: MercExchange,
    again: MercExchange,
    t1: int,
    t2: int,
    t3: int,
)
    requires
        forall|i: int| 0 <= i < exs.len() ==> #[trigger] exs[i].found_at <= t1,
        e.found_at == t1,
        add_spec(exs, e, t1).0,
        again.kingdom == e.kingdom && again.x == e.x && again.y == e.y,
        t1 <= t2 < t1 + DEDUP_WINDOW_MS,
        t3 >= t1 + DEDUP_WINDOW_MS,
    ensures
        add_spec(add_spec(exs, e, t1).1, again, t2) == (false, add_spec(exs, e, t1).1),
        add_spec(add_spec(exs, e, t1).1, again, t3).0,
        add_spec(add_spec(exs, e, t1).1, again, t3).1.len() == exs.len() + 2,
{
    let s1 = add_spec(exs, e, t1).1;
    assert(s1 == exs.push(e));
    assert(blocks(s1[exs.len() as int], again, t2));
    assert forall|i: int| 0 <= i < s1.len() implies !blocks(#[trigger] s1[i], again, t3) by {
        if i < exs.len() {
            assert(s1[i] == exs[i]);
        }
    }
}

} // verus!
