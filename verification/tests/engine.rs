use qiz_first::{Amount, BacktestEngine, ExecutionError, Order, OrderSide, TradeSide};

const SCALE: i128 = 100_000_000;
const MAX_UNITS: i128 = 1_000_000_000_000_000_000;

fn order(symbol: &str, timestamp: i64, price: i128, quantity: i128, side: OrderSide) -> Order {
    Order {
        symbol: symbol.to_string(),
        timestamp,
        price: Amount::from_units(price),
        quantity: Amount::from_units(quantity),
        side,
    }
}

#[test]
fn worked_example_buy_then_sell_all() {
    // capital 10000.00000000, commission rate 0.001
    let mut e = BacktestEngine::new(
        Amount::from_units(10_000 * SCALE),
        Amount::from_units(100_000),
    );
    // buy 10 units of "X" at price 100
    let r = e
        .execute_order(order("X", 1, 100 * SCALE, 10 * SCALE, OrderSide::Buy))
        .unwrap()
        .unwrap();
    // commission 1.00000000, total cost 1001.00000000
    assert_eq!(r.commission.units, 1 * SCALE);
    assert_eq!(e.get_cash().units, 8_999 * SCALE);
    let pos = e.get_position("X").unwrap();
    assert_eq!(pos.quantity.units, 10 * SCALE);
    assert_eq!(pos.average_price.units, 100 * SCALE);
    // sell all 10 at price 110: commission 1.10000000
    let r2 = e
        .execute_order(order("X", 2, 110 * SCALE, 10 * SCALE, OrderSide::Sell))
        .unwrap()
        .unwrap();
    assert_eq!(r2.commission.units, 110_000_000);
    // cash becomes 8999 + 1100 - 1.1 = 10097.90000000
    assert_eq!(e.get_cash().units, 10_097 * SCALE + 90_000_000);
    assert!(e.get_position("X").is_none());
    assert_eq!(e.get_trades().len(), 2);
}

#[test]
fn unaffordable_buy_is_rejected_without_mutation() {
    let mut e = BacktestEngine::new(Amount::from_units(10 * SCALE), Amount::from_units(100_000));
    let r = e
        .execute_order(order("X", 1, 100 * SCALE, 10 * SCALE, OrderSide::Buy))
        .unwrap();
    assert!(r.is_none());
    assert_eq!(e.get_cash().units, 10 * SCALE);
    assert!(e.get_position("X").is_none());
    assert_eq!(e.get_trades().len(), 0);
}

#[test]
fn oversized_sell_is_rejected_without_mutation() {
    let mut e = BacktestEngine::new(
        Amount::from_units(10_000 * SCALE),
        Amount::from_units(100_000),
    );
    e.execute_order(order("X", 1, 100 * SCALE, 2 * SCALE, OrderSide::Buy))
        .unwrap()
        .unwrap();
    let cash_before = e.get_cash();
    let r = e
        .execute_order(order("X", 2, 100 * SCALE, 3 * SCALE, OrderSide::Sell))
        .unwrap();
    assert!(r.is_none());
    assert_eq!(e.get_cash(), cash_before);
    assert_eq!(e.get_position("X").unwrap().quantity.units, 2 * SCALE);
    assert_eq!(e.get_trades().len(), 1);
}

#[test]
fn sell_of_unheld_symbol_is_rejected_and_leaves_no_entry() {
    let mut e = BacktestEngine::new(
        Amount::from_units(10_000 * SCALE),
        Amount::from_units(100_000),
    );
    let r = e
        .execute_order(order("Y", 1, 100 * SCALE, 1 * SCALE, OrderSide::Sell))
        .unwrap();
    assert!(r.is_none());
    assert!(e.get_position("Y").is_none());
    assert_eq!(e.get_trades().len(), 0);
}

#[test]
fn malformed_orders_are_hard_errors_and_mutate_nothing() {
    let mut e = BacktestEngine::new(
        Amount::from_units(10_000 * SCALE),
        Amount::from_units(100_000),
    );
    let r = e.execute_order(order("X", 1, 100 * SCALE, 0, OrderSide::Buy));
    assert_eq!(r.unwrap_err(), ExecutionError::InvalidOrder);
    let r2 = e.execute_order(order("X", 2, -100 * SCALE, 1 * SCALE, OrderSide::Sell));
    assert_eq!(r2.unwrap_err(), ExecutionError::InvalidOrder);
    let r3 = e.execute_order(order("X", 3, 0, 1 * SCALE, OrderSide::Buy));
    assert_eq!(r3.unwrap_err(), ExecutionError::InvalidOrder);
    assert_eq!(e.get_cash().units, 10_000 * SCALE);
    assert!(e.get_position("X").is_none());
    assert_eq!(e.get_trades().len(), 0);
}

#[test]
fn trade_log_counts_fills_in_call_order() {
    let mut e = BacktestEngine::new(
        Amount::from_units(10_000 * SCALE),
        Amount::from_units(100_000),
    );
    let mut fills = 0usize;
    let calls = [
        order("A", 1, 100 * SCALE, 10 * SCALE, OrderSide::Buy),
        order("A", 2, 100 * SCALE, 1_000 * SCALE, OrderSide::Buy), // unaffordable
        order("B", 3, 50 * SCALE, 4 * SCALE, OrderSide::Buy),
        order("A", 4, 110 * SCALE, 20 * SCALE, OrderSide::Sell), // oversized
        order("A", 5, 110 * SCALE, 10 * SCALE, OrderSide::Sell),
    ];
    for o in calls {
        if let Ok(Some(_)) = e.execute_order(o) {
            fills += 1;
        }
    }
    assert_eq!(fills, 3);
    let log = e.get_trades();
    assert_eq!(log.len(), 3);
    assert_eq!(log[0].timestamp, 1);
    assert_eq!(log[1].timestamp, 3);
    assert_eq!(log[2].timestamp, 5);
    assert_eq!(log[2].side, OrderSide::Sell);
}

#[test]
fn position_sold_to_zero_is_removed_not_kept_at_zero() {
    let mut e = BacktestEngine::new(
        Amount::from_units(10_000 * SCALE),
        Amount::from_units(0),
    );
    e.execute_order(order("X", 1, 100 * SCALE, 3 * SCALE, OrderSide::Buy))
        .unwrap()
        .unwrap();
    e.execute_order(order("X", 2, 100 * SCALE, 3 * SCALE, OrderSide::Sell))
        .unwrap()
        .unwrap();
    assert!(e.get_position("X").is_none());
    // partial sell keeps the entry with the remaining quantity
    e.execute_order(order("X", 3, 100 * SCALE, 3 * SCALE, OrderSide::Buy))
        .unwrap()
        .unwrap();
    e.execute_order(order("X", 4, 100 * SCALE, 1 * SCALE, OrderSide::Sell))
        .unwrap()
        .unwrap();
    assert_eq!(e.get_position("X").unwrap().quantity.units, 2 * SCALE);
}

#[test]
fn average_price_is_order_independent_for_exact_fills() {
    let run = |first: (i128, i128), second: (i128, i128)| -> i128 {
        let mut e = BacktestEngine::new(
            Amount::from_units(1_000_000 * SCALE),
            Amount::from_units(0),
        );
        e.execute_order(order("X", 1, first.0, first.1, OrderSide::Buy))
            .unwrap()
            .unwrap();
        e.execute_order(order("X", 2, second.0, second.1, OrderSide::Buy))
            .unwrap()
            .unwrap();
        e.get_position("X").unwrap().average_price.units
    };
    let a = (100 * SCALE, 10 * SCALE);
    let b = (130 * SCALE, 5 * SCALE);
    let one_way = run(a, b);
    let other_way = run(b, a);
    assert_eq!(one_way, other_way);
    // volume-weighted: (100*10 + 130*5) / 15 = 110
    assert_eq!(one_way, 110 * SCALE);
}

#[test]
fn commission_rounds_half_to_even() {
    // price 0.00000003, quantity 1, rate 0.5: fee 0.000000015 rounds to
    // the even neighbour 0.00000002
    let mut e = BacktestEngine::new(Amount::from_units(SCALE), Amount::from_units(SCALE / 2));
    let t = e
        .execute_order(order("X", 1, 3, SCALE, OrderSide::Buy))
        .unwrap()
        .unwrap();
    assert_eq!(t.commission.units, 2);
    // price 0.00000001, quantity 1, rate 0.5: fee 0.000000005 rounds down
    // to the even neighbour zero
    let mut e2 = BacktestEngine::new(Amount::from_units(SCALE), Amount::from_units(SCALE / 2));
    let t2 = e2
        .execute_order(order("X", 1, 1, SCALE, OrderSide::Buy))
        .unwrap()
        .unwrap();
    assert_eq!(t2.commission.units, 0);
}

#[test]
fn cash_follows_the_per_side_formula_with_rounding() {
    // rate 0.0015; buy 7 at 99.99999999
    let mut e = BacktestEngine::new(
        Amount::from_units(10_000 * SCALE),
        Amount::from_units(150_000),
    );
    let price = 99 * SCALE + 99_999_999;
    let t = e
        .execute_order(order("X", 1, price, 7 * SCALE, OrderSide::Buy))
        .unwrap()
        .unwrap();
    // notional = 699.99999993; fee = round(1.049999999895) = 1.04999999990
    // rounded at scale 8: 1.05000000
    assert_eq!(t.commission.units, 105_000_000);
    // total cost = round(699.99999993 + 1.05) = 701.04999993
    assert_eq!(e.get_cash().units, 10_000 * SCALE - 70_104_999_993);
    // sell 7 at the same price: proceeds 699.99999993 less the same fee
    let before = e.get_cash().units;
    let t2 = e
        .execute_order(order("X", 2, price, 7 * SCALE, OrderSide::Sell))
        .unwrap()
        .unwrap();
    assert_eq!(t2.commission.units, 105_000_000);
    assert_eq!(e.get_cash().units, before + 69_999_999_993 - 105_000_000);
}

#[test]
fn settlement_outside_the_numeric_range_is_a_hard_error() {
    // a commission far beyond the representable range
    let mut e = BacktestEngine::new(Amount::from_units(MAX_UNITS), Amount::from_units(MAX_UNITS));
    let r = e.execute_order(order("X", 1, MAX_UNITS, MAX_UNITS, OrderSide::Buy));
    assert_eq!(r.unwrap_err(), ExecutionError::Overflow);
    assert_eq!(e.get_cash().units, MAX_UNITS);
    assert_eq!(e.get_trades().len(), 0);

    // a position that would grow past the largest representable quantity
    let mut e2 = BacktestEngine::new(
        Amount::from_units(10_000 * SCALE),
        Amount::from_units(0),
    );
    e2.execute_order(order("X", 1, 1, MAX_UNITS, OrderSide::Buy))
        .unwrap()
        .unwrap();
    let r2 = e2.execute_order(order("X", 2, 1, MAX_UNITS, OrderSide::Buy));
    assert_eq!(r2.unwrap_err(), ExecutionError::Overflow);
    assert_eq!(e2.get_position("X").unwrap().quantity.units, MAX_UNITS);
}

#[test]
fn accessors_report_the_account_snapshot() {
    let e = BacktestEngine::new(Amount::from_units(5 * SCALE), Amount::zero());
    assert_eq!(e.get_cash(), Amount::from_units(5 * SCALE));
    assert!(e.get_trades().is_empty());
    assert!(e.get_position("X").is_none());
    let side = TradeSide::Buy;
    assert_ne!(side, TradeSide::Sell);
}

#[test]
fn many_tiny_fills_leave_no_cash_drift() {
    let mut e = BacktestEngine::new(Amount::from_units(1_000 * SCALE), Amount::zero());
    for t in 0..1_000i64 {
        let r = e
            .execute_order(order("X", t, SCALE, 1, OrderSide::Buy))
            .unwrap();
        assert!(r.is_some());
    }
    assert_eq!(e.get_cash().units, 1_000 * SCALE - 1_000);
    assert_eq!(e.get_position("X").unwrap().quantity.units, 1_000);
    for t in 0..1_000i64 {
        let r = e
            .execute_order(order("X", 1_000 + t, SCALE, 1, OrderSide::Sell))
            .unwrap();
        assert!(r.is_some());
    }
    // after unwinding every fill at the same price with no commission,
    // cash is back to the initial capital exactly
    assert_eq!(e.get_cash().units, 1_000 * SCALE);
    assert!(e.get_position("X").is_none());
    assert_eq!(e.get_trades().len(), 2_000);
}

#[test]
fn sell_proceeds_past_the_numeric_range_are_a_hard_error() {
    // start at the largest representable cash, buy cheaply, then sell at
    // the highest price: the proceeds would leave the range
    let mut e = BacktestEngine::new(Amount::from_units(MAX_UNITS), Amount::zero());
    e.execute_order(order("X", 1, SCALE, SCALE, OrderSide::Buy))
        .unwrap()
        .unwrap();
    let cash_before = e.get_cash();
    let r = e.execute_order(order("X", 2, MAX_UNITS, SCALE, OrderSide::Sell));
    assert_eq!(r.unwrap_err(), ExecutionError::Overflow);
    assert_eq!(e.get_cash(), cash_before);
    assert_eq!(e.get_position("X").unwrap().quantity.units, SCALE);
    assert_eq!(e.get_trades().len(), 1);
}
