use oanda_client::add;
use oanda_client::client::Client;
use oanda_client::decimal::{parse_decimal, Decimal};
use oanda_client::instruments::{Instrument, Instruments};
use oanda_client::orders::{OrderFillTransaction, OrderRequest, PostOrderResponse};
use oanda_client::positions::{Long, OnePosition, Position, Short};
use oanda_client::pricing::{Ask, Bid, Price, Pricing, Tick, TickError};

fn snapshot(bid: &str, ask: &str, time: &str) -> Pricing {
    Pricing {
        prices: vec![Price {
            asks: vec![Ask { liquidity: 1000000, price: ask.to_string() }],
            bids: vec![Bid { liquidity: 1000000, price: bid.to_string() }],
            instrument: "EUR_USD".to_string(),
            status: "tradeable".to_string(),
            time: time.to_string(),
            ..Price::default()
        }],
    }
}

fn instrument(name: &str, precision: i64) -> Instrument {
    Instrument { name: name.to_string(), display_name: name.replace('_', "/"), display_precision: precision, ..Instrument::default() }
}

fn as_f64(d: Decimal) -> f64 {
    d.mantissa as f64 / 10f64.powi(d.scale as i32)
}

#[test]
fn it_works() {
    let result = add(2, 2);
    assert_eq!(result, 4);
}

#[test]
fn tick_of_eur_usd_snapshot() {
    let p = snapshot("1.1000", "1.1002", "2024-01-01T00:00:00.000000000Z");
    let t = p.get_tick().unwrap();
    assert_eq!(t, Tick { time: 1704067200000, bid: 11000, ask: 11002, scale: 4 });
    assert_eq!(t.time(), 1704067200);
    assert_eq!(t.price(), Decimal { mantissa: 110010, scale: 5 });
    assert!((as_f64(t.price()) - 1.1001).abs() < 1e-12);
    assert_eq!(t.spread(), Decimal { mantissa: -2, scale: 4 });
    assert!((as_f64(t.spread()) + 0.0002).abs() < 1e-12);
    assert_eq!(t.buy_price(), Decimal { mantissa: 11002, scale: 4 });
    assert_eq!(t.sell_price(), Decimal { mantissa: 11000, scale: 4 });
    assert!((as_f64(t.sell_price()) - 1.1).abs() < 1e-12);
}

#[test]
fn tick_aligns_scales() {
    let p = snapshot("1.5", "1.625", "2024-01-01T00:00:01.250Z");
    let t = p.get_tick().unwrap();
    assert_eq!(t, Tick { time: 1704067201250, bid: 1500, ask: 1625, scale: 3 });
    assert_eq!(t.time(), 1704067201);
    assert_eq!(t.price(), Decimal { mantissa: 15625, scale: 4 });
    assert_eq!(t.spread(), Decimal { mantissa: -125, scale: 3 });
}

#[test]
fn tick_time_with_offset() {
    let p = snapshot("1", "2", "2024-01-01T01:00:00+01:00");
    let t = p.get_tick().unwrap();
    assert_eq!(t.time(), 1704067200);
}

#[test]
fn tick_time_rounds_down_before_epoch() {
    let t = Tick { time: -1, bid: 0, ask: 0, scale: 0 };
    assert_eq!(t.time(), -1);
    let t = Tick { time: -1000, bid: 0, ask: 0, scale: 0 };
    assert_eq!(t.time(), -1);
    let t = Tick { time: -1001, bid: 0, ask: 0, scale: 0 };
    assert_eq!(t.time(), -2);
    let t = Tick { time: 1999, bid: 0, ask: 0, scale: 0 };
    assert_eq!(t.time(), 1);
}

#[test]
fn tick_fails_without_prices() {
    let p = Pricing { prices: vec![] };
    assert_eq!(p.get_tick(), Err(TickError::NoPrices));
    assert_eq!(p.tick_at(Some(0)), Err(TickError::NoPrices));
}

#[test]
fn tick_fails_without_bids() {
    let mut p = snapshot("1.1", "1.2", "2024-01-01T00:00:00Z");
    p.prices[0].bids.clear();
    assert_eq!(p.get_tick(), Err(TickError::NoBids));
}

#[test]
fn tick_fails_without_asks() {
    let mut p = snapshot("1.1", "1.2", "2024-01-01T00:00:00Z");
    p.prices[0].asks.clear();
    assert_eq!(p.get_tick(), Err(TickError::NoAsks));
}

#[test]
fn tick_fails_on_bad_timestamp() {
    let p = snapshot("1.1", "1.2", "yesterday");
    assert_eq!(p.get_tick(), Err(TickError::BadTime));
    let p = snapshot("1.1", "1.2", "2024-01-01 00:00:00");
    assert_eq!(p.get_tick(), Err(TickError::BadTime));
    assert_eq!(p.tick_at(None), Err(TickError::BadTime));
}

#[test]
fn tick_fails_on_bad_prices() {
    let p = snapshot("abc", "1.2", "2024-01-01T00:00:00Z");
    assert_eq!(p.get_tick(), Err(TickError::BadBid));
    let p = snapshot("1.1", "1.2.3", "2024-01-01T00:00:00Z");
    assert_eq!(p.get_tick(), Err(TickError::BadAsk));
}

#[test]
fn tick_at_given_time() {
    let p = snapshot("-0.25", "+0.5", "not read");
    assert_eq!(p.tick_at(Some(42)), Ok(Tick { time: 42, bid: -25, ask: 50, scale: 2 }));
}

#[test]
fn decimal_texts() {
    assert_eq!(parse_decimal("1.1000"), Some(Decimal { mantissa: 11000, scale: 4 }));
    assert_eq!(parse_decimal("-0.5"), Some(Decimal { mantissa: -5, scale: 1 }));
    assert_eq!(parse_decimal("+3"), Some(Decimal { mantissa: 3, scale: 0 }));
    assert_eq!(parse_decimal(".5"), Some(Decimal { mantissa: 5, scale: 1 }));
    assert_eq!(parse_decimal("5."), Some(Decimal { mantissa: 5, scale: 0 }));
    assert_eq!(parse_decimal("999999999999999999"), Some(Decimal { mantissa: 999999999999999999, scale: 0 }));
    assert_eq!(parse_decimal(".000000000000000001"), Some(Decimal { mantissa: 1, scale: 18 }));
    assert_eq!(parse_decimal("0.000000000000000001"), None);
    assert_eq!(parse_decimal("1000000000000000000"), None);
    assert_eq!(parse_decimal(""), None);
    assert_eq!(parse_decimal("."), None);
    assert_eq!(parse_decimal("-"), None);
    assert_eq!(parse_decimal("1e5"), None);
    assert_eq!(parse_decimal("1.2.3"), None);
    assert_eq!(parse_decimal(" 1"), None);
    assert_eq!(parse_decimal("--1"), None);
}

#[test]
fn tradeable_status() {
    let p = snapshot("1.1", "1.2", "2024-01-01T00:00:00Z");
    assert!(p.is_tradeable());
    let mut q = p.clone();
    q.prices[0].status = "non-tradeable".to_string();
    assert!(!q.is_tradeable());
    assert!(!Pricing { prices: vec![] }.is_tradeable());
}

#[test]
fn empty_legs_and_positions() {
    let l = Long::empty();
    assert_eq!(l.units, "0");
    assert_eq!(l.pl, "0");
    assert_eq!(l.resettable_pl, "0");
    assert_eq!(l.unrealized_pl, "0");
    assert_eq!(l.average_price, None);
    assert_eq!(l.trade_ids, None);
    let s = Short::empty();
    assert_eq!(s.units, "0");
    assert_eq!(s.trade_ids, None);
    let p = Position::empty("EUR_USD".to_string());
    assert_eq!(p.instrument, "EUR_USD");
    assert_eq!(p.long, Long::empty());
    assert_eq!(p.short, Short::empty());
    assert_eq!(p.pl, "0");
    let o = OnePosition::new("GBP_USD".to_string());
    assert_eq!(o.last_transaction_id, "");
    assert_eq!(o.position, Position::empty("GBP_USD".to_string()));
}

#[test]
fn market_order_fields() {
    let r = OrderRequest::market("-100".to_string(), "EUR_USD".to_string());
    assert_eq!(r.order.units, "-100");
    assert_eq!(r.order.instrument, "EUR_USD");
    assert_eq!(r.order.time_in_force, "FOK");
    assert_eq!(r.order.type_field, "MARKET");
    assert_eq!(r.order.position_fill, "DEFAULT");
    assert_eq!(OrderRequest::new_market("-100".to_string(), "EUR_USD".to_string()), r);
}

#[test]
fn market_order_json() {
    let r = OrderRequest::market("100".to_string(), "EUR_USD".to_string());
    assert_eq!(
        r.to_string(),
        "{\"order\":{\"units\":\"100\",\"instrument\":\"EUR_USD\",\"timeInForce\":\"FOK\",\"type\":\"MARKET\",\"positionFill\":\"DEFAULT\"}}"
    );
}

#[test]
fn market_order_round_trip() {
    let r = OrderRequest::market("-2.5".to_string(), "US30_\"USD\"".to_string());
    let v: serde_json::Value = serde_json::from_str(&r.to_string()).unwrap();
    let o = &v["order"];
    assert_eq!(o["units"].as_str(), Some("-2.5"));
    assert_eq!(o["instrument"].as_str(), Some("US30_\"USD\""));
    assert_eq!(o["timeInForce"].as_str(), Some("FOK"));
    assert_eq!(o["type"].as_str(), Some("MARKET"));
    assert_eq!(o["positionFill"].as_str(), Some("DEFAULT"));
}

#[test]
fn order_without_fill_is_not_filled() {
    let r = PostOrderResponse { last_transaction_id: "7".to_string(), ..PostOrderResponse::default() };
    assert!(!r.is_filled());
    let f = PostOrderResponse { order_fill_transaction: Some(OrderFillTransaction::default()), ..r.clone() };
    assert!(f.is_filled());
}

#[test]
fn urls() {
    let c = Client::new("https://api.example".to_string(), "001-1".to_string(), "SECRET".to_string());
    assert_eq!(c.token(), "SECRET");
    assert_eq!(c.instruments_url(), "https://api.example/v3/accounts/001-1/instruments");
    assert_eq!(
        c.instruments_from_url(&vec!["EUR_USD".to_string(), "USD_JPY".to_string()]),
        "https://api.example/v3/accounts/001-1/instruments?instruments=EUR_USD,USD_JPY"
    );
    assert_eq!(c.instruments_from_url(&vec![]), "https://api.example/v3/accounts/001-1/instruments?instruments=");
    assert_eq!(c.pricing_url("EUR_USD"), "https://api.example/v3/accounts/001-1/pricing?instruments=EUR_USD");
    assert_eq!(c.position_url("EUR_USD"), "https://api.example/v3/accounts/001-1/positions/EUR_USD");
    assert_eq!(c.open_positions_url(), "https://api.example/v3/accounts/001-1/openPositions");
    assert_eq!(c.orders_url(), "https://api.example/v3/accounts/001-1/orders");
}

#[test]
fn instruments_fetch_fills_cache() {
    let mut c = Client::new("u".to_string(), "a".to_string(), "t".to_string());
    let fetched = Instruments { instruments: vec![instrument("EUR_USD", 5)], last_transaction_id: "42".to_string() };
    let r = c.store_instruments(Some(fetched.clone()));
    assert_eq!(r.unwrap().last_transaction_id, "42");
    assert_eq!(c.instruments.len(), 1);
    assert_eq!(c.instruments.get("EUR_USD"), Some(&instrument("EUR_USD", 5)));
    assert_eq!(c.instruments.get("USD_JPY"), None);
}

#[test]
fn failed_fetch_leaves_cache() {
    let mut c = Client::new("u".to_string(), "a".to_string(), "t".to_string());
    c.store_instruments(Some(Instruments { instruments: vec![instrument("EUR_USD", 5)], last_transaction_id: "1".to_string() }));
    assert_eq!(c.store_instruments(None), None);
    assert_eq!(c.instruments.len(), 1);
}

#[test]
fn two_fetches_merge_into_cache() {
    let mut c = Client::new("u".to_string(), "a".to_string(), "t".to_string());
    c.store_instruments(Some(Instruments {
        instruments: vec![instrument("EUR_USD", 5), instrument("GBP_USD", 5)],
        last_transaction_id: "1".to_string(),
    }));
    c.store_instruments(Some(Instruments {
        instruments: vec![instrument("USD_JPY", 3)],
        last_transaction_id: "2".to_string(),
    }));
    assert_eq!(c.instruments.len(), 3);
    assert_eq!(c.instruments.get("EUR_USD"), Some(&instrument("EUR_USD", 5)));
    assert_eq!(c.instruments.get("GBP_USD"), Some(&instrument("GBP_USD", 5)));
    assert_eq!(c.instruments.get("USD_JPY"), Some(&instrument("USD_JPY", 3)));
    c.store_instruments(Some(Instruments {
        instruments: vec![instrument("EUR_USD", 4), instrument("EUR_USD", 6)],
        last_transaction_id: "3".to_string(),
    }));
    assert_eq!(c.instruments.len(), 3);
    assert_eq!(c.instruments.get("EUR_USD"), Some(&instrument("EUR_USD", 6)));
}

#[test]
fn cache_copy_of_instrument() {
    let i = instrument("EUR_USD", 5);
    assert_eq!(i.copy(), i);
}
