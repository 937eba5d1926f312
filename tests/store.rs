use mercy::config::Config;
use mercy::phase::ScannerPhase;
use mercy::store::{AppStateInner, MercExchange, DEDUP_WINDOW_MS};

fn config(kingdoms: Vec<u32>) -> Config {
    Config {
        kingdoms,
        auth_token: String::new(),
        tb_email: String::new(),
        tb_password: String::new(),
        listen_addr: String::from("0.0.0.0:8090"),
        chromium_path: None,
        headless: false,
        search_target: String::from("Mercenary Exchange Core"),
        debug_screenshots: false,
        navigate_delay_ms: 750,
        scan_pattern: String::from("grid"),
        scan_rings: None,
        exchange_log: String::from("exchanges.jsonl"),
        known_locations_file: None,
        known_coverage: 80,
        max_detect_tasks: 4,
    }
}

fn exchange(kingdom: u32, x: u32, y: u32, found_at: i64) -> MercExchange {
    MercExchange { kingdom, x, y, found_at, scan_duration_ms: None, confirmed: true, screenshot_png: None }
}

#[test]
fn new_state_is_idle_and_empty() {
    let s = AppStateInner::new(config(vec![111]));
    assert_eq!(s.phase, ScannerPhase::Idle);
    assert!(s.exchanges.is_empty());
    assert_eq!(s.last_scan_time(111), None);
}

#[test]
fn same_exchange_within_window_is_refused() {
    let mut s = AppStateInner::new(config(vec![111]));
    let t = 1_000_000;
    assert!(s.add_exchange_at(exchange(111, 5, 6, t), t));
    assert!(!s.add_exchange_at(exchange(111, 5, 6, t + 60_000), t + 60_000));
    assert_eq!(s.exchanges.len(), 1);
    assert!(!s.add_exchange_at(exchange(111, 5, 6, t), t + DEDUP_WINDOW_MS - 1));
    assert_eq!(s.exchanges.len(), 1);
    assert!(s.add_exchange_at(exchange(111, 5, 6, t + DEDUP_WINDOW_MS), t + DEDUP_WINDOW_MS));
    assert_eq!(s.exchanges.len(), 2);
}

#[test]
fn other_position_is_stored() {
    let mut s = AppStateInner::new(config(vec![111, 112]));
    assert!(s.add_exchange_at(exchange(111, 5, 6, 0), 0));
    assert!(s.add_exchange_at(exchange(111, 5, 7, 0), 0));
    assert!(s.add_exchange_at(exchange(112, 5, 6, 0), 0));
    assert_eq!(s.exchanges.len(), 3);
    assert!(s.is_full());
}

#[test]
fn add_exchange_with_clock_stores_fresh_one() {
    let mut s = AppStateInner::new(config(vec![111]));
    assert!(s.add_exchange(exchange(111, 1, 2, 0)));
    assert_eq!(s.exchanges.len(), 1);
}

#[test]
fn latest_exchange_of_kingdom() {
    let mut s = AppStateInner::new(config(vec![111]));
    s.add_exchange_at(exchange(111, 1, 1, 100), 100);
    s.add_exchange_at(exchange(111, 2, 2, 300), 300);
    s.add_exchange_at(exchange(112, 9, 9, 900), 900);
    s.add_exchange_at(exchange(111, 3, 3, 300), 300);
    assert_eq!(s.exchange_for_kingdom(111), Some((3, 3)));
    assert_eq!(s.exchange_for_kingdom(112), Some((9, 9)));
    assert_eq!(s.exchange_for_kingdom(113), None);
}

#[test]
fn refresh_touches_first_match_only() {
    let mut s = AppStateInner::new(config(vec![111]));
    s.add_exchange_at(exchange(111, 1, 1, 100), 100);
    s.add_exchange_at(exchange(111, 2, 2, 100), 100);
    s.refresh_exchange_at(111, 2, 2, 5000);
    assert_eq!(s.exchanges[0].found_at, 100);
    assert_eq!(s.exchanges[1].found_at, 5000);
    s.refresh_exchange_at(111, 7, 7, 9000);
    assert_eq!(s.exchanges[0].found_at, 100);
    assert_eq!(s.exchanges[1].found_at, 5000);
}

#[test]
fn remove_drops_whole_kingdom() {
    let mut s = AppStateInner::new(config(vec![111, 112]));
    s.add_exchange_at(exchange(111, 1, 1, 0), 0);
    s.add_exchange_at(exchange(112, 2, 2, 0), 0);
    s.add_exchange_at(exchange(111, 3, 3, 0), 0);
    s.remove_exchange(111);
    assert_eq!(s.exchanges.len(), 1);
    assert_eq!(s.exchanges[0].kingdom, 112);
}

#[test]
fn last_scan_time_round_trip() {
    let mut s = AppStateInner::new(config(vec![111]));
    s.set_last_scan_time_at(111, 42);
    assert_eq!(s.last_scan_time(111), Some(42));
    s.set_last_scan_time(112);
    assert!(s.last_scan_time(112).is_some());
}
