use tickflow::orderbook::{
    check_delta, deserialize, OrderBook, OrderbookMessage, PriceSize,
};

fn level(price: u64, size: u64) -> PriceSize {
    PriceSize { price, size }
}

fn delta(
    first: i64,
    last: i64,
    prev: Option<i64>,
    bids: Vec<PriceSize>,
    asks: Vec<PriceSize>,
) -> OrderbookMessage {
    OrderbookMessage {
        event_type: "depthUpdate".to_string(),
        time: 1_700_000_000_000,
        symbol: "BTCUSDT".to_string(),
        first_update_id: first,
        last_update_id: last,
        bids,
        asks,
        prev_last_update_id: prev,
    }
}

#[test]
fn synthetic_book_delta_yields_expected_bids() {
    // A 3-level synthetic book: bids 100/1 and 99/2, asks 101/1 and 102/2.
    let seed = delta(
        1,
        10,
        None,
        vec![level(100, 1), level(99, 2)],
        vec![level(101, 1), level(102, 2)],
    );
    assert!(check_delta(&seed));
    let mut book = OrderBook::new_from_update(seed);
    assert!(book.is_valid);
    assert_eq!(book.bids, vec![level(100, 1), level(99, 2)]);
    assert_eq!(book.asks, vec![level(101, 1), level(102, 2)]);

    // A correctly sequenced delta: bid 100 size to 0, bid 98 size 3 added.
    let upd = delta(11, 20, Some(10), vec![level(100, 0), level(98, 3)], vec![]);
    assert!(check_delta(&upd));
    book.update(upd);
    assert!(book.is_valid);
    assert_eq!(book.bids, vec![level(99, 2), level(98, 3)]);
    assert_eq!(book.asks, vec![level(101, 1), level(102, 2)]);
    assert_eq!(book.last_update_id, 20);
}

#[test]
fn out_of_sequence_delta_clears_validity_but_still_applies() {
    let seed = delta(1, 10, None, vec![level(100, 1)], vec![level(101, 1)]);
    let mut book = OrderBook::new_from_update(seed);
    assert!(book.is_valid);

    // prev_last_update_id does not match the book's last_update_id.
    let bad = delta(30, 40, Some(25), vec![level(99, 5)], vec![]);
    book.update(bad);
    assert!(!book.is_valid);
    // The id window and time still move to the delta's values.
    assert_eq!(book.first_update_id, 30);
    assert_eq!(book.last_update_id, 40);
    assert_eq!(book.time, 1_700_000_000_000);
    // The level landed regardless.
    assert_eq!(book.bids, vec![level(100, 1), level(99, 5)]);

    // The book never heals by itself: a later orderly delta keeps it invalid.
    let good = delta(41, 50, Some(40), vec![], vec![]);
    book.update(good);
    assert!(!book.is_valid);
}

#[test]
fn implicit_sequencing_uses_first_update_id() {
    let seed = delta(1, 10, None, vec![level(100, 1)], vec![level(101, 1)]);
    let mut book = OrderBook::new_from_update(seed);
    // Without prev_last_update_id, last + 1 must equal the delta's first id.
    let good = delta(11, 15, None, vec![level(100, 2)], vec![]);
    book.update(good);
    assert!(book.is_valid);
    assert_eq!(book.bids, vec![level(100, 2)]);

    let gap = delta(17, 20, None, vec![], vec![]);
    book.update(gap);
    assert!(!book.is_valid);
}

#[test]
fn sides_stay_sorted_and_free_of_zero_levels() {
    let seed = delta(
        1,
        10,
        None,
        vec![level(95, 1), level(105, 2), level(100, 3)],
        vec![level(210, 1), level(190, 2), level(200, 3)],
    );
    let mut book = OrderBook::new_from_update(seed);
    assert_eq!(book.bids, vec![level(105, 2), level(100, 3), level(95, 1)]);
    assert_eq!(book.asks, vec![level(190, 2), level(200, 3), level(210, 1)]);

    let upd = delta(
        11,
        12,
        Some(10),
        vec![level(100, 0), level(101, 7)],
        vec![level(195, 4), level(210, 0)],
    );
    book.update(upd);
    assert_eq!(book.bids, vec![level(105, 2), level(101, 7), level(95, 1)]);
    assert_eq!(book.asks, vec![level(190, 2), level(195, 4), level(200, 3)]);
    for side in [&book.bids, &book.asks] {
        for l in side.iter() {
            assert!(l.size > 0);
        }
    }
}

#[test]
fn default_book_is_empty_and_invalid() {
    let book = OrderBook::default();
    assert!(book.is_empty());
    assert!(!book.is_valid);
    assert_eq!(book.last_update_id, 0);
}

#[test]
fn to_features_none_iff_a_side_is_empty() {
    let seed = delta(1, 10, None, vec![level(100, 1)], vec![]);
    let book = OrderBook::new_from_update(seed);
    assert!(book.to_features(10).is_none());

    let seed = delta(1, 10, None, vec![], vec![level(101, 1)]);
    let book = OrderBook::new_from_update(seed);
    assert!(book.to_features(10).is_none());

    let seed = delta(1, 10, None, vec![level(100, 1)], vec![level(101, 1)]);
    let book = OrderBook::new_from_update(seed);
    assert!(book.to_features(10).is_some());
}

#[test]
fn to_features_exact_values() {
    // Bids 105/1 and 95/1; asks 200/5; tick 10.
    let seed = delta(
        1,
        10,
        None,
        vec![level(105, 1), level(95, 1)],
        vec![level(200, 5)],
    );
    let book = OrderBook::new_from_update(seed);
    let f = book.to_features(10).unwrap();
    assert_eq!(f.bid_total, 2);
    assert_eq!(f.ask_total, 5);
    assert_eq!(f.bid_notional, 200);
    assert_eq!(f.ask_notional, 1000);
    // Weighted bid price: round(200 / (2 * 10)) * 10 = 100; best bid 105;
    // distance (105 - 100) / 10 ticks, scaled by 1_000_000.
    assert_eq!(f.num_ticks_from_best_bid, 500_000);
    // Weighted ask price: round(1000 / (5 * 10)) * 10 = 200 = best ask.
    assert_eq!(f.num_ticks_from_best_ask, 0);
    // 2 / 5, scaled by 1_000_000.
    assert_eq!(f.bids_asks_ratio, 400_000);
}

#[test]
fn buy_heavy_book_has_nonnegative_bid_tick_distance() {
    // The best bid always sits at or above the weighted average of the bids,
    // up to tick rounding; with a tick of 1 the distance is never negative.
    let seed = delta(
        1,
        10,
        None,
        vec![level(100, 1), level(90, 9)],
        vec![level(101, 1)],
    );
    let book = OrderBook::new_from_update(seed);
    let f = book.to_features(1).unwrap();
    // Weighted bid price: round(910 / 10) = 91; distance 9 ticks.
    assert_eq!(f.num_ticks_from_best_bid, 9_000_000);
    assert!(f.num_ticks_from_best_bid >= 0);
}

#[test]
fn deserialize_parses_levels_into_atoms() {
    let rows = vec![
        vec!["100.0".to_string(), "1".to_string()],
        vec!["99.5".to_string(), "0.25".to_string()],
    ];
    let levels = deserialize(&rows).unwrap();
    assert_eq!(
        levels,
        vec![
            level(10_000_000_000, 100_000_000),
            level(9_950_000_000, 25_000_000),
        ]
    );
}

#[test]
fn deserialize_rejects_bad_rows() {
    let short = vec![vec!["100.0".to_string()]];
    assert!(deserialize(&short).is_none());
    let junk = vec![vec!["100.0".to_string(), "abc".to_string()]];
    assert!(deserialize(&junk).is_none());
}

#[test]
fn check_delta_rejects_duplicate_prices() {
    let dup = delta(1, 2, None, vec![level(100, 1), level(100, 2)], vec![]);
    assert!(!check_delta(&dup));
    let ok = delta(1, 2, None, vec![level(100, 1), level(99, 2)], vec![]);
    assert!(check_delta(&ok));
}
