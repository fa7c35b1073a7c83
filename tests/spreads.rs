use option_spreads::chain::{Instrument, MarketData, OptionData, OptionSide, Quote};
use option_spreads::engine::{
    bear_call_spread, bull_put_spread, credit_spreads, BearCallSpreadParams, SpreadError,
};
use option_spreads::ranking::sort_by_rank;
use option_spreads::scoring::{is_favourable, score_spread, CreditSpread, LOT_SIZE};

fn market(ltp: Option<u64>, bid: Option<u64>, ask: Option<u64>) -> MarketData {
    MarketData {
        ltp,
        volume: None,
        oi: None,
        close_price: None,
        bid_price: bid,
        bid_qty: None,
        ask_price: ask,
        ask_qty: None,
        prev_oi: None,
    }
}

fn leg(m: MarketData) -> Option<OptionData> {
    Some(OptionData { instrument_key: String::from("NSE_FO|1"), market_data: Some(m) })
}

fn entry(strike: u64, spot: u64, call: Option<MarketData>, put: Option<MarketData>) -> Instrument {
    Instrument {
        expiry: String::from("2024-06-27"),
        strike_price: Some(strike),
        underlying_key: String::from("NSE_INDEX|Nifty 50"),
        underlying_spot_price: Some(spot),
        call_options: call.and_then(leg),
        put_options: put.and_then(leg),
    }
}

fn call(strike: u64, spot: u64, ltp: u64) -> Instrument {
    entry(strike, spot, Some(market(Some(ltp), Some(ltp), Some(ltp))), None)
}

fn put(strike: u64, spot: u64, ltp: u64) -> Instrument {
    entry(strike, spot, None, Some(market(Some(ltp), Some(ltp), Some(ltp))))
}

fn flags(bid_ask: bool, risk: bool, sort: bool) -> BearCallSpreadParams {
    BearCallSpreadParams {
        bid_ask_spread: bid_ask,
        risk_reward_ratio: risk,
        breakeven_percentage_sort: sort,
    }
}

fn none() -> BearCallSpreadParams {
    flags(false, false, false)
}

#[test]
fn end_to_end_bear_call() {
    let chain = vec![
        entry(10500, 10000, Some(market(Some(300), Some(290), Some(310))), None),
        entry(11000, 10000, Some(market(Some(100), Some(90), Some(110))), None),
    ];
    let r = bear_call_spread(&chain, &none()).unwrap();
    assert_eq!(
        r,
        vec![CreditSpread {
            sell_strike: 10500,
            buy_strike: 11000,
            spread: 12500,
            net_credit: 5000,
            max_profit: 5000,
            max_loss: 7500,
            breakeven: 10700,
            breakeven_percentage: Some(700),
            type_: OptionSide::Call,
        }]
    );
}

#[test]
fn end_to_end_bull_put() {
    let chain = vec![put(9000, 10000, 50), put(9500, 10000, 200), put(10500, 10000, 700)];
    let r = bull_put_spread(&chain, &none()).unwrap();
    assert_eq!(
        r,
        vec![CreditSpread {
            sell_strike: 9500,
            buy_strike: 9000,
            spread: 12500,
            net_credit: 3750,
            max_profit: 3800,
            max_loss: 8800,
            breakeven: 8900,
            breakeven_percentage: Some(1100),
            type_: OptionSide::Put,
        }]
    );
}

#[test]
fn at_the_money_strike_excluded() {
    let both = |strike: u64| {
        entry(strike, 10000, Some(market(Some(100), None, None)), Some(market(Some(100), None, None)))
    };
    let chain = vec![both(10000), both(10100)];
    assert!(bear_call_spread(&chain, &none()).unwrap().is_empty());
    let chain = vec![both(9900), both(10000)];
    assert!(bull_put_spread(&chain, &none()).unwrap().is_empty());
    let chain = vec![both(9900), both(10000), both(10100), both(10200)];
    let calls = bear_call_spread(&chain, &none()).unwrap();
    assert_eq!(calls.len(), 1);
    assert_eq!((calls[0].sell_strike, calls[0].buy_strike), (10100, 10200));
    assert!(bull_put_spread(&chain, &none()).unwrap().is_empty());
}

#[test]
fn every_pair_sells_the_nearer_strike() {
    let chain = vec![call(11500, 10000, 50), call(10500, 10000, 300), call(11000, 10000, 100)];
    let r = bear_call_spread(&chain, &none()).unwrap();
    let pairs: Vec<(u64, u64)> = r.iter().map(|c| (c.sell_strike, c.buy_strike)).collect();
    assert_eq!(pairs, vec![(10500, 11000), (10500, 11500), (11000, 11500)]);
    let chain = vec![put(8500, 10000, 50), put(9500, 10000, 300), put(9000, 10000, 100)];
    let r = bull_put_spread(&chain, &none()).unwrap();
    let pairs: Vec<(u64, u64)> = r.iter().map(|c| (c.sell_strike, c.buy_strike)).collect();
    assert_eq!(pairs, vec![(9500, 9000), (9500, 8500), (9000, 8500)]);
    assert!(r.iter().all(|c| c.type_ == OptionSide::Put));
}

#[test]
fn equal_strikes_are_not_paired() {
    let chain = vec![call(10500, 10000, 300), call(10500, 10000, 250), call(11000, 10000, 100)];
    let r = bear_call_spread(&chain, &none()).unwrap();
    let credits: Vec<(u64, u64, i128)> =
        r.iter().map(|c| (c.sell_strike, c.buy_strike, c.net_credit)).collect();
    assert_eq!(credits, vec![(10500, 11000, 5000), (10500, 11000, 3750)]);
}

#[test]
fn profit_plus_loss_against_width() {
    let chain = vec![call(10500, 10000, 305), call(11000, 10000, 100)];
    let c = bear_call_spread(&chain, &none()).unwrap()[0];
    assert_eq!(c.net_credit, 5125);
    assert_eq!(c.max_profit, 5200);
    assert_eq!(c.max_loss, 7400);
    assert_eq!(c.max_profit + c.max_loss, c.spread + 100);
    let chain = vec![call(10500, 10000, 300), call(11000, 10000, 100)];
    let c = bear_call_spread(&chain, &none()).unwrap()[0];
    assert_eq!(c.max_profit + c.max_loss, c.spread);
}

#[test]
fn distance_is_truncated() {
    let chain = vec![call(102000, 99953, 300), call(103000, 99953, 0)];
    let c = bear_call_spread(&chain, &none()).unwrap()[0];
    assert_eq!(c.breakeven, 102300);
    assert_eq!(c.breakeven_percentage, Some(234));
    let chain = vec![call(30500, 30000, 150), call(31000, 30000, 0)];
    let c = bear_call_spread(&chain, &none()).unwrap()[0];
    assert_eq!(c.breakeven, 30700);
    assert_eq!(c.breakeven_percentage, Some(233));
}

#[test]
fn breakeven_rounds_up() {
    let chain = vec![call(10500, 10000, 210), call(11000, 10000, 100)];
    let c = bear_call_spread(&chain, &none()).unwrap()[0];
    assert_eq!(c.breakeven, 10700);
    let chain = vec![put(9500, 10000, 210), put(9000, 10000, 100)];
    let c = bull_put_spread(&chain, &none()).unwrap()[0];
    assert_eq!(c.breakeven, 8900);
}

#[test]
fn zero_spot_has_no_distance() {
    let chain = vec![call(10500, 0, 300), call(11000, 0, 100)];
    let c = bear_call_spread(&chain, &none()).unwrap()[0];
    assert_eq!(c.breakeven_percentage, None);
}

#[test]
fn risk_screen_never_adds() {
    let chain = vec![call(10500, 10000, 300), call(11000, 10000, 100), call(11500, 10000, 250)];
    let off = bear_call_spread(&chain, &flags(false, false, false)).unwrap();
    let on = bear_call_spread(&chain, &flags(false, true, false)).unwrap();
    assert_eq!(off.len(), 3);
    assert!(on.len() <= off.len());
    let kept: Vec<(u64, u64)> = on.iter().map(|c| (c.sell_strike, c.buy_strike)).collect();
    assert_eq!(kept, vec![(10500, 11000)]);
    assert!(on.iter().all(|c| c.max_loss <= 3 * c.max_profit));
}

#[test]
fn sort_by_distance_descending() {
    let chain = vec![call(10500, 10000, 300), call(11000, 10000, 100), call(12000, 10000, 10)];
    let plain = bear_call_spread(&chain, &none()).unwrap();
    let order: Vec<(u64, u64)> = plain.iter().map(|c| (c.sell_strike, c.buy_strike)).collect();
    assert_eq!(order, vec![(10500, 11000), (10500, 12000), (11000, 12000)]);
    let sorted = bear_call_spread(&chain, &flags(false, false, true)).unwrap();
    let keys: Vec<Option<i128>> = sorted.iter().map(|c| c.breakeven_percentage).collect();
    assert_eq!(keys, vec![Some(1100), Some(800), Some(700)]);
    let order: Vec<(u64, u64)> = sorted.iter().map(|c| (c.sell_strike, c.buy_strike)).collect();
    assert_eq!(order, vec![(11000, 12000), (10500, 12000), (10500, 11000)]);
}

#[test]
fn sort_keeps_ties_in_order() {
    let mk = |sell: u64, pct: Option<i128>| CreditSpread {
        sell_strike: sell,
        buy_strike: sell + 100,
        spread: 0,
        net_credit: 0,
        max_profit: 0,
        max_loss: 0,
        breakeven: 0,
        breakeven_percentage: pct,
        type_: OptionSide::Call,
    };
    let input = vec![mk(1, Some(5)), mk(2, None), mk(3, Some(9)), mk(4, Some(5)), mk(5, Some(0))];
    let out = sort_by_rank(&input);
    let order: Vec<u64> = out.iter().map(|c| c.sell_strike).collect();
    assert_eq!(order, vec![3, 1, 4, 5, 2]);
}

#[test]
fn malformed_entry_fails_whole_chain() {
    let mut broken = call(11000, 10000, 100);
    broken.strike_price = None;
    let chain = vec![call(10500, 10000, 300), broken, call(11500, 10000, 50)];
    assert_eq!(bear_call_spread(&chain, &none()), Err(SpreadError::MalformedInput { entry: 1 }));
    let mut no_spot = put(9000, 10000, 100);
    no_spot.underlying_spot_price = None;
    let chain = vec![put(9500, 10000, 300), no_spot];
    assert_eq!(bull_put_spread(&chain, &none()), Err(SpreadError::MalformedInput { entry: 1 }));
}

#[test]
fn bid_ask_screen() {
    let chain = vec![
        entry(10500, 10000, Some(market(Some(300), Some(100), Some(400))), None),
        entry(11000, 10000, Some(market(Some(100), Some(90), Some(110))), None),
        entry(11500, 10000, Some(market(Some(50), None, Some(60))), None),
        entry(12000, 10000, Some(market(Some(20), Some(220), Some(20))), None),
    ];
    assert_eq!(bear_call_spread(&chain, &none()).unwrap().len(), 6);
    let r = bear_call_spread(&chain, &flags(true, false, false)).unwrap();
    let pairs: Vec<(u64, u64)> = r.iter().map(|c| (c.sell_strike, c.buy_strike)).collect();
    assert_eq!(pairs, vec![(11000, 12000)]);
}

#[test]
fn missing_quote_excluded_zero_ltp_kept() {
    let chain = vec![
        call(10500, 10000, 300),
        entry(11000, 10000, Some(market(None, Some(90), Some(110))), None),
        entry(11500, 10000, None, None),
        Instrument {
            expiry: String::from("2024-06-27"),
            strike_price: Some(11700),
            underlying_key: String::from("NSE_INDEX|Nifty 50"),
            underlying_spot_price: Some(10000),
            call_options: Some(OptionData { instrument_key: String::from("k"), market_data: None }),
            put_options: None,
        },
        call(12000, 10000, 0),
    ];
    let r = bear_call_spread(&chain, &none()).unwrap();
    let pairs: Vec<(u64, u64)> = r.iter().map(|c| (c.sell_strike, c.buy_strike)).collect();
    assert_eq!(pairs, vec![(10500, 12000)]);
    assert_eq!(r[0].net_credit, 7500);
}

#[test]
fn empty_chain_gives_no_spreads() {
    let chain: Vec<Instrument> = Vec::new();
    assert_eq!(bear_call_spread(&chain, &flags(true, true, true)), Ok(Vec::new()));
    assert_eq!(bull_put_spread(&chain, &flags(true, true, true)), Ok(Vec::new()));
}

#[test]
fn other_lot_size() {
    let chain = vec![call(10500, 10000, 300), call(11000, 10000, 100)];
    let c = credit_spreads(&chain, OptionSide::Call, &none(), 50).unwrap()[0];
    assert_eq!((c.spread, c.net_credit, c.max_profit, c.max_loss), (25000, 10000, 10000, 15000));
    assert_eq!(c.breakeven, 10700);
    assert_eq!(LOT_SIZE, 25);
}

#[test]
fn debit_pair_has_negative_credit() {
    let q = |strike: u64, ltp: u64| Quote { strike, spot: 10000, ltp, side: OptionSide::Call };
    let c = score_spread(q(10500, 100), q(11000, 305), 25);
    assert_eq!(c.net_credit, -5125);
    assert_eq!(c.max_profit, -5100);
    assert_eq!(c.max_loss, 17700);
    assert_eq!(c.breakeven, 10300);
    assert!(!is_favourable(&c));
}

#[test]
fn largest_values_do_not_overflow() {
    let q = |strike: u64, ltp: u64| Quote { strike, spot: u64::MAX, ltp, side: OptionSide::Call };
    let c = score_spread(q(0, u64::MAX), q(u64::MAX, 0), u32::MAX);
    assert_eq!(c.spread, u64::MAX as i128 * u32::MAX as i128);
    assert_eq!(c.net_credit, c.spread);
    assert!(is_favourable(&c));
}

#[test]
fn side_codes() {
    assert_eq!(OptionSide::Call.code(), "CE");
    assert_eq!(OptionSide::Put.code(), "PE");
}
