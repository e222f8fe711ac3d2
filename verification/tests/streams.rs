use tickflow::exchange_info::{Filter, Symbol};
use tickflow::requests::{BinanceAssetType, DataRequest, FuturesType, Stream};

fn empty_filter() -> Filter {
    Filter {
        filter_type: String::new(),
        max_price: None,
        min_price: None,
        tick_size: None,
        max_qty: None,
        min_qty: None,
        step_size: None,
        limit: None,
        notional: None,
        multiplier_decimal: None,
        multiplier_down: None,
        multiplier_up: None,
    }
}

fn symbol_with_filters(filters: Vec<Filter>) -> Symbol {
    Symbol {
        base_asset: "BTC".to_string(),
        base_asset_precision: 8,
        contract_type: "PERPETUAL".to_string(),
        delivery_date: 0,
        filters,
        liquidation_fee: String::new(),
        maint_margin_percent: String::new(),
        margin_asset: "USDT".to_string(),
        market_take_bound: String::new(),
        onboard_date: 0,
        order_types: vec![],
        pair: "BTCUSDT".to_string(),
        price_precision: 2,
        quantity_precision: 3,
        quote_asset: "USDT".to_string(),
        quote_precision: 8,
        required_margin_percent: String::new(),
        settle_plan: 0,
        status: "TRADING".to_string(),
        symbol: "BTCUSDT".to_string(),
        time_in_force: vec![],
        trigger_protect: String::new(),
        underlying_sub_type: vec![],
        underlying_type: "COIN".to_string(),
    }
}

#[test]
fn tick_size_comes_from_the_first_price_filter() {
    let mut other = empty_filter();
    other.filter_type = "LOT_SIZE".to_string();
    other.tick_size = Some("9.9".to_string());
    let mut pf = empty_filter();
    pf.filter_type = "PRICE_FILTER".to_string();
    pf.tick_size = Some("0.10".to_string());
    let sym = symbol_with_filters(vec![other, pf]);
    assert_eq!(sym.get_tick_size(), Some(10_000_000));
}

#[test]
fn tick_size_is_none_without_a_price_filter() {
    let sym = symbol_with_filters(vec![empty_filter()]);
    assert_eq!(sym.get_tick_size(), None);

    let mut pf = empty_filter();
    pf.filter_type = "PRICE_FILTER".to_string();
    let sym = symbol_with_filters(vec![pf]);
    assert_eq!(sym.get_tick_size(), None);

    let mut pf = empty_filter();
    pf.filter_type = "PRICE_FILTER".to_string();
    pf.tick_size = Some("abc".to_string());
    let sym = symbol_with_filters(vec![pf]);
    assert_eq!(sym.get_tick_size(), None);
}

#[test]
fn channel_identifiers_lowercase_the_symbol() {
    let t = Stream::Trade("BTCUSDT".to_string());
    assert_eq!(t.channel_string(), "btcusdt@trade");
    let d = Stream::Depth("BTCUSDT".to_string(), 100);
    assert_eq!(d.channel_string(), "btcusdt@depth@100ms");
    let b = Stream::BookTicker("EthUsdt".to_string());
    assert_eq!(b.channel_string(), "ethusdt@bookTicker");
}

#[test]
fn base_url_lists_per_asset_class() {
    let spot = BinanceAssetType::Spot.get_ws_base_url_list();
    assert_eq!(
        spot,
        vec![
            "wss://stream.binance.com:9443".to_string(),
            "wss://stream.binance.com:443".to_string(),
        ]
    );
    let usdm = BinanceAssetType::Futures(FuturesType::USDMargined).get_ws_base_url_list();
    assert_eq!(usdm.len(), 2);
    let coinm = BinanceAssetType::Futures(FuturesType::CoinMargined).get_ws_base_url_list();
    assert_eq!(coinm, vec!["wss://dstream.binance.com".to_string()]);
    let options = BinanceAssetType::Options.get_ws_base_url_list();
    assert_eq!(options.len(), 1);
}

#[test]
fn subscribe_message_lists_the_channels() {
    let req = DataRequest::new(
        BinanceAssetType::Futures(FuturesType::USDMargined),
        vec![
            Stream::Trade("BTCUSDT".to_string()),
            Stream::Depth("BTCUSDT".to_string(), 100),
        ],
    );
    assert_eq!(
        req.get_subscribe_message(),
        "{\"method\":\"SUBSCRIBE\",\"params\":[\"btcusdt@trade\",\"btcusdt@depth@100ms\"],\"id\":1}"
    );
}

#[test]
fn ws_urls_combine_base_path_and_channels() {
    let req = DataRequest::new(
        BinanceAssetType::Futures(FuturesType::USDMargined),
        vec![
            Stream::Trade("BTCUSDT".to_string()),
            Stream::Depth("BTCUSDT".to_string(), 100),
        ],
    );
    let urls = req.get_ws_urls();
    assert_eq!(urls.len(), 2);
    // url normalization strips the stray leading space of the first base.
    assert_eq!(
        urls[0],
        "wss://fstream.binance.com/stream?streams=btcusdt@trade/btcusdt@depth@100ms"
    );
    assert_eq!(
        urls[1],
        "wss://fstream-auth.binance.com/stream?streams=btcusdt@trade/btcusdt@depth@100ms"
    );
}

#[test]
fn coin_margined_request_uses_the_single_endpoint() {
    let req = DataRequest::new(
        BinanceAssetType::Futures(FuturesType::CoinMargined),
        vec![Stream::Trade("BTCUSD_PERP".to_string())],
    );
    let urls = req.get_ws_urls();
    assert_eq!(
        urls,
        vec!["wss://dstream.binance.com/stream?streams=btcusd_perp@trade".to_string()]
    );
}
