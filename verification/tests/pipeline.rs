use rust_decimal::prelude::ToPrimitive;
use rust_decimal::Decimal;
use std::str::FromStr;
use tickflow::data_handling::{FeatureDataFrame, Observation};
use tickflow::decimal::parse_decimal_atoms;
use tickflow::numeric::{isqrt_u128, round_to_nearest_tick};
use tickflow::orderbook::{OrderBook, OrderbookMessage, PriceSize};
use tickflow::trades::Trade;

fn small_book() -> OrderBook {
    OrderBook::new_from_update(OrderbookMessage {
        event_type: "depthUpdate".to_string(),
        time: 0,
        symbol: "BTCUSDT".to_string(),
        first_update_id: 1,
        last_update_id: 1,
        bids: vec![PriceSize { price: 100, size: 2 }],
        asks: vec![PriceSize { price: 110, size: 2 }],
        prev_last_update_id: None,
    })
}

fn trade(i: i64, price: u64, qty: u64, maker: bool) -> Trade {
    Trade {
        event_type: "trade".to_string(),
        event_time: i,
        trade_time: i,
        symbol: "BTCUSDT".to_string(),
        trade_id: i,
        price,
        quantity: qty,
        x: None,
        buyer_is_the_market_maker: maker,
    }
}

#[test]
fn parse_decimal_atoms_exact_values() {
    assert_eq!(parse_decimal_atoms("0.01"), Some(1_000_000));
    assert_eq!(parse_decimal_atoms("1"), Some(100_000_000));
    assert_eq!(parse_decimal_atoms("27123.5"), Some(2_712_350_000_000));
    assert_eq!(parse_decimal_atoms("27123.50000000"), Some(2_712_350_000_000));
    assert_eq!(parse_decimal_atoms("0.00000001"), Some(1));
    // Digits past the eighth fractional place must be zero.
    assert_eq!(parse_decimal_atoms("0.000000010"), Some(1));
    assert_eq!(parse_decimal_atoms("0.000000011"), None);
    // Leading zeros are fine.
    assert_eq!(parse_decimal_atoms("007"), Some(700_000_000));
}

#[test]
fn parse_decimal_atoms_rejects_malformed_strings() {
    assert_eq!(parse_decimal_atoms(""), None);
    assert_eq!(parse_decimal_atoms("."), None);
    assert_eq!(parse_decimal_atoms("1."), None);
    assert_eq!(parse_decimal_atoms(".5"), None);
    assert_eq!(parse_decimal_atoms("1.2.3"), None);
    assert_eq!(parse_decimal_atoms("-1"), None);
    assert_eq!(parse_decimal_atoms("1e3"), None);
    // Too large for the fixed-point range.
    assert_eq!(parse_decimal_atoms("99999999"), None);
}

#[test]
fn parse_decimal_atoms_matches_reference_decimal() {
    let scale = Decimal::from(100_000_000u64);
    for s in ["0.01", "1", "27123.5", "0.00012345", "42.4242", "12345.6789"] {
        let expected = (Decimal::from_str(s).unwrap() * scale).to_u64().unwrap();
        assert_eq!(parse_decimal_atoms(s), Some(expected), "input {}", s);
    }
}

#[test]
fn round_to_nearest_tick_half_away_from_zero() {
    assert_eq!(round_to_nearest_tick(25, 10), 30);
    assert_eq!(round_to_nearest_tick(24, 10), 20);
    assert_eq!(round_to_nearest_tick(-25, 10), -30);
    assert_eq!(round_to_nearest_tick(-24, 10), -20);
    assert_eq!(round_to_nearest_tick(0, 10), 0);
    assert_eq!(round_to_nearest_tick(100, 10), 100);
}

#[test]
fn isqrt_exact_values() {
    assert_eq!(isqrt_u128(0), 0);
    assert_eq!(isqrt_u128(1), 1);
    assert_eq!(isqrt_u128(3), 1);
    assert_eq!(isqrt_u128(4), 2);
    assert_eq!(isqrt_u128(99), 9);
    assert_eq!(isqrt_u128(100), 10);
    assert_eq!(isqrt_u128(1 << 100), 1 << 50);
}

#[test]
fn observe_skips_trades_against_an_empty_side() {
    let empty_side = OrderBook::default();
    let mut df = FeatureDataFrame::new_empty();
    assert!(!df.observe(&trade(1, 100, 1, false), &empty_side, 10));
    assert_eq!(df.data.len(), 0);
    assert!(df.observe(&trade(1, 100, 1, false), &small_book(), 10));
    assert_eq!(df.data.len(), 1);
    let row = &df.data[0];
    assert_eq!(row.timestamp, 1);
    assert_eq!(row.price, 100);
    assert_eq!(row.net_qty, 1);
    assert_eq!(row.notional, 100);
    assert!(!row.has_rolling_features());
    assert!(!row.has_target());
}

#[test]
fn observe_signs_net_quantity_by_aggressor() {
    let book = small_book();
    let mut df = FeatureDataFrame::new_empty();
    df.observe(&trade(1, 100, 7, false), &book, 10);
    df.observe(&trade(2, 100, 7, true), &book, 10);
    assert_eq!(df.data[0].net_qty, 7);
    assert_eq!(df.data[1].net_qty, -7);
    assert_eq!(df.data[1].notional, 700);
}

#[test]
fn rolling_fields_appear_after_a_full_window() {
    let book = small_book();
    let mut df = FeatureDataFrame::new_empty();
    for i in 0..7i64 {
        df.observe(&trade(i, 100 + i as u64, 1, false), &book, 10);
    }
    df.recompute_rolling(3);
    for i in 0..3 {
        assert!(!df.data[i].has_rolling_features(), "row {}", i);
    }
    for i in 3..7 {
        assert!(df.data[i].has_rolling_features(), "row {}", i);
    }
    // Row 3 is computed from rows [0, 3): prices 100, 101, 102, net 1 each.
    let row = &df.data[3];
    assert_eq!(row.rolling_qty, Some(3));
    assert_eq!(row.mean_qty, Some(1));
    assert_eq!(row.qty_std, Some(0));
    assert_eq!(row.mean_price, Some(101));
    // Variance of 100, 101, 102 is round(2 / 3) = 1; floor sqrt is 1.
    assert_eq!(row.price_std, Some(1));
    assert_eq!(row.rolling_qty_abs, Some(3));
}

#[test]
fn rolling_recompute_is_idempotent() {
    let book = small_book();
    let mut df = FeatureDataFrame::new_empty();
    for i in 0..9i64 {
        df.observe(&trade(i, 100, 1, i % 2 == 0), &book, 10);
    }
    df.recompute_rolling(4);
    let once = df.data.clone();
    df.recompute_rolling(4);
    assert_eq!(df.data, once);
}

#[test]
fn rolling_rows_depend_only_on_their_window() {
    let book = small_book();
    let mut df = FeatureDataFrame::new_empty();
    for i in 0..6i64 {
        df.observe(&trade(i, 100 + i as u64, 2, false), &book, 10);
    }
    df.recompute_rolling(3);
    let row4 = df.data[4];

    // A log that agrees on rows [1, 4] but differs elsewhere gives row 4 the
    // same rolling values.
    let mut other = FeatureDataFrame::new_empty();
    for i in 0..6i64 {
        let price = if (1..=4).contains(&i) { 100 + i as u64 } else { 999 };
        other.observe(&trade(i, price, 2, false), &book, 10);
    }
    other.recompute_rolling(3);
    assert_eq!(other.data[4].rolling_qty, row4.rolling_qty);
    assert_eq!(other.data[4].mean_price, row4.mean_price);
    assert_eq!(other.data[4].price_std, row4.price_std);
}

#[test]
fn thousand_and_one_trades_fill_index_thousand_only() {
    let book = small_book();
    let mut df = FeatureDataFrame::new_empty();
    for i in 0..1001i64 {
        assert!(df.observe(&trade(i, 100, 1, false), &book, 10));
    }
    assert_eq!(df.data.len(), 1001);
    df.recompute_rolling(1000);
    assert!(df.data[1000].has_rolling_features());
    assert!(!df.data[999].has_rolling_features());
}

#[test]
fn targets_skip_rows_without_a_full_forward_window() {
    let book = small_book();
    let mut df = FeatureDataFrame::new_empty();
    for i in 0..5i64 {
        df.observe(&trade(i, 100 + i as u64, 1, false), &book, 10);
    }
    df.assign_target(10, 3);
    // Rows 0..=2 have a full forward window of 3 rows; rows 3 and 4 do not.
    assert!(df.data[0].has_target());
    assert!(df.data[1].has_target());
    assert!(df.data[2].has_target());
    assert!(!df.data[3].has_target());
    assert!(!df.data[4].has_target());
}

#[test]
fn target_measures_excursion_in_scaled_ticks() {
    let book = small_book();
    let mut df = FeatureDataFrame::new_empty();
    // Prices 100, 130, 90 with window 3 and tick 10: for row 0 the window
    // high is 130 and low is 90, so the target is 3 - 1 = 2 ticks.
    for (i, p) in [100u64, 130, 90].iter().enumerate() {
        df.observe(&trade(i as i64, *p, 1, false), &book, 10);
    }
    df.assign_target(10, 3);
    assert_eq!(df.data[0].target, Some(2_000_000));
}

#[test]
fn drop_na_filters_keep_order_without_reordering() {
    let book = small_book();
    let mut df = FeatureDataFrame::new_empty();
    for i in 0..6i64 {
        df.observe(&trade(i, 100 + i as u64, 1, false), &book, 10);
    }
    df.recompute_rolling(2);
    df.assign_target(10, 2);
    let mut with_rolling = df.clone();
    with_rolling.drop_na_without_target();
    // Rows 2..6 carry rolling fields.
    assert_eq!(with_rolling.data.len(), 4);
    let prices: Vec<u64> = with_rolling.data.iter().map(|o| o.price).collect();
    assert_eq!(prices, vec![102, 103, 104, 105]);

    let mut train = df.clone();
    train.drop_na_with_target();
    // Of those, rows 2..=4 also carry a target.
    assert_eq!(train.data.len(), 3);
    let prices: Vec<u64> = train.data.iter().map(|o| o.price).collect();
    assert_eq!(prices, vec![102, 103, 104]);
}

#[test]
fn training_vector_lists_the_columns_in_order() {
    let book = small_book();
    let mut df = FeatureDataFrame::new_empty();
    for i in 0..3i64 {
        df.observe(&trade(i, 100, 2, false), &book, 10);
    }
    df.recompute_rolling(2);
    let row: &Observation = &df.data[2];
    assert!(row.has_rolling_features());
    let v = row.to_training_data();
    assert_eq!(v.len(), 18);
    assert_eq!(v[0], row.timestamp as i128);
    assert_eq!(v[1], row.price as i128);
    assert_eq!(v[2], row.net_qty);
    assert_eq!(v[3], row.notional);
    assert_eq!(v[11], row.rolling_qty.unwrap());
    assert_eq!(v[17], row.rolling_qty_abs.unwrap());
}
