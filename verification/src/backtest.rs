//! The ledger engine: a single-owner account state machine.
//!
//! `BacktestEngine::execute_order` is the one state transition.  Each call
//! validates the order, decides fill or rejection, settles cash, maintains
//! the weighted-average cost basis of the position book, removes positions
//! whose quantity reaches zero, and appends a record to the trade log.
//! Monetary arithmetic follows the fixed eight-digit scale of
//! [`crate::fixed`], rounded at every step.

use vstd::prelude::*;

verus! {

use crate::fixed::{
    Amount,
    MAX_AMOUNT_UNITS,
    SCALE_UNITS,
    SCALE_UNITS_SQUARED,
    representable,
    round_half_even,
    round_div,
    lemma_round_half_even_exact,
    divmod_nonneg,
    bankers_round_from_parts,
};
use vstd::arithmetic::div_mod::{
    lemma_fundamental_div_mod,
    lemma_div_is_ordered,
};

/// Which way an order trades.
#[derive(Clone, Copy, Debug, PartialEq, Eq, Structural)]
pub enum OrderSide {
    Buy,
    Sell,
}

/// A holding of one symbol: how much is held and the volume-weighted
/// average entry cost of the current holding.
#[derive(Debug)]
pub struct Position {
    pub symbol: String,
    pub quantity: Amount,
    pub average_price: Amount,
}

impl Clone for Position {
    fn clone(&self) -> (res: Position)
        ensures
            res == *self,
    {
        Position {
            symbol: self.symbol.clone(),
            quantity: self.quantity,
            average_price: self.average_price,
        }
    }
}

/// An execution request, consumed exactly once.
#[derive(Debug)]
pub struct Order {
    pub symbol: String,
    pub timestamp: i64,
    pub price: Amount,
    pub quantity: Amount,
    pub side: OrderSide,
}

impl Clone for Order {
    fn clone(&self) -> (res: Order)
        ensures
            res == *self,
    {
        Order {
            symbol: self.symbol.clone(),
            timestamp: self.timestamp,
            price: self.price,
            quantity: self.quantity,
            side: self.side,
        }
    }
}

/// An immutable record of a fill, appended to the trade log.
#[derive(Debug)]
pub struct Trade {
    pub timestamp: i64,
    pub symbol: String,
    pub price: Amount,
    pub quantity: Amount,
    pub commission: Amount,
    pub side: OrderSide,
}

impl Clone for Trade {
    fn clone(&self) -> (res: Trade)
        ensures
            res == *self,
    {
        Trade {
            timestamp: self.timestamp,
            symbol: self.symbol.clone(),
            price: self.price,
            quantity: self.quantity,
            commission: self.commission,
            side: self.side,
        }
    }
}

/// A hard error: the caller handed over a structurally invalid order, or
/// one whose settlement leaves the ledger's numeric range.  Soft
/// rejections (not enough cash, not enough holdings) are not errors.
#[derive(Clone, Copy, Debug, PartialEq, Eq, Structural)]
pub enum ExecutionError {
    /// Non-positive price or quantity.
    InvalidOrder,
    /// A settled value would leave the representable range of amounts.
    Overflow,
}

/// The account: cash, position book and trade log, owned exclusively.
#[derive(Debug)]
pub struct BacktestEngine {
    pub initial_capital: Amount,
    pub commission_rate: Amount,
    pub positions: Vec<Position>,
    pub cash: Amount,
    pub trades: Vec<Trade>,
}

// ---------------------------------------------------------------------
// The mathematical model: commission, total cost, cost basis and the
// position book as a sequence with unique symbols.
// ---------------------------------------------------------------------

/// `round(price * quantity * rate)` at the fixed scale: the fee charged on
/// the notional value of a fill.
pub open spec fn spec_commission_units(p: int, q: int, r: int) -> int {
    round_half_even(p * q * r, SCALE_UNITS_SQUARED as int)
}

/// `round(price * quantity + commission)`: what a buy must pay.
pub open spec fn spec_total_cost_units(p: int, q: int, r: int) -> int {
    round_half_even(p * q + spec_commission_units(p, q, r) * SCALE_UNITS, SCALE_UNITS as int)
}

/// `round(cash + price * quantity - commission)`: cash after a sell fill.
pub open spec fn spec_sell_cash_units(cash: int, p: int, q: int, r: int) -> int {
    round_half_even(
        cash * SCALE_UNITS + p * q - spec_commission_units(p, q, r) * SCALE_UNITS,
        SCALE_UNITS as int,
    )
}

/// `round(held * average + bought * price)`: the new cost-basis numerator
/// after a buy.
pub open spec fn spec_buy_numerator_units(q0: int, ap0: int, oq: int, op: int) -> int {
    round_half_even(q0 * ap0 + oq * op, SCALE_UNITS as int)
}

/// `round(numerator / new_quantity)`: the new weighted-average entry cost
/// after a buy.
pub open spec fn spec_buy_average_units(q0: int, ap0: int, oq: int, op: int) -> int {
    round_half_even(
        spec_buy_numerator_units(q0, ap0, oq, op) * SCALE_UNITS,
        q0 + oq,
    )
}

/// Structural validity of an order: strictly positive price and quantity.
pub open spec fn spec_order_valid(o: Order) -> bool {
    o.price.units > 0 && o.quantity.units > 0
}

/// Whether the book holds a position for `sym`.
pub open spec fn book_has(book: Seq<Position>, sym: Seq<char>) -> bool {
    exists|i: int| 0 <= i < book.len() && book[i].symbol@ == sym
}

/// The index of `sym`'s position; meaningful only while `book_has` holds
/// and the book's symbols are distinct.
pub open spec fn book_index(book: Seq<Position>, sym: Seq<char>) -> int {
    choose|i: int| 0 <= i < book.len() && book[i].symbol@ == sym
}

/// The held quantity of `sym`, in units; zero when nothing is held.
pub open spec fn book_quantity_units(book: Seq<Position>, sym: Seq<char>) -> int {
    if book_has(book, sym) {
        book[book_index(book, sym)].quantity.units as int
    } else {
        0
    }
}

/// The average entry cost of `sym`, in units; zero when nothing is held.
pub open spec fn book_average_units(book: Seq<Position>, sym: Seq<char>) -> int {
    if book_has(book, sym) {
        book[book_index(book, sym)].average_price.units as int
    } else {
        0
    }
}

/// No two entries of the book name the same symbol.
pub open spec fn book_symbols_distinct(book: Seq<Position>) -> bool {
    forall|i: int, j: int|
        0 <= i < j < book.len() ==> book[i].symbol@ != book[j].symbol@
}

/// Every entry holds a strictly positive, representable quantity and a
/// nonnegative, representable average price.  A position whose quantity
/// reaches zero is removed, never stored.
pub open spec fn book_entries_wf(book: Seq<Position>) -> bool {
    forall|i: int|
        0 <= i < book.len() ==> {
            &&& 0 < #[trigger] book[i].quantity.units <= MAX_AMOUNT_UNITS
            &&& 0 <= book[i].average_price.units <= MAX_AMOUNT_UNITS
        }
}

/// Every logged trade carries a positive price and quantity and a
/// nonnegative commission, all representable.
pub open spec fn trades_wf(log: Seq<Trade>) -> bool {
    forall|i: int|
        0 <= i < log.len() ==> {
            &&& 0 < #[trigger] log[i].price.units <= MAX_AMOUNT_UNITS
            &&& 0 < log[i].quantity.units <= MAX_AMOUNT_UNITS
            &&& 0 <= log[i].commission.units <= MAX_AMOUNT_UNITS
        }
}

/// The settlement of `order` against `cash`/`book` would leave the
/// representable range of amounts somewhere: in the commission, in the
/// grown position quantity, in the new average price, or in the cash
/// proceeds of a sell.
pub open spec fn spec_overflow(cash: int, book: Seq<Position>, order: Order, rate: int) -> bool {
    let p: int = order.price.units as int;
    let q: int = order.quantity.units as int;
    let c: int = spec_commission_units(p, q, rate);
    let sym: Seq<char> = order.symbol@;
    ||| c > MAX_AMOUNT_UNITS as int
    ||| (order.side == OrderSide::Buy && spec_total_cost_units(p, q, rate) <= cash && {
        let q0: int = book_quantity_units(book, sym);
        let ap0: int = book_average_units(book, sym);
        q0 + q > MAX_AMOUNT_UNITS as int
            || spec_buy_average_units(q0, ap0, q, p) > MAX_AMOUNT_UNITS as int
    })
    ||| (order.side == OrderSide::Sell && book_has(book, sym)
        && book_quantity_units(book, sym) >= q && {
        let nc: int = spec_sell_cash_units(cash, p, q, rate);
        nc > MAX_AMOUNT_UNITS as int || nc < -(MAX_AMOUNT_UNITS as int)
    })
}

/// The trade record a fill of `order` produces, with commission `c` units.
pub open spec fn spec_fill_trade(order: Order, c: int) -> Trade {
    Trade {
        timestamp: order.timestamp,
        symbol: order.symbol,
        price: order.price,
        quantity: order.quantity,
        commission: Amount { units: c as i128 },
        side: order.side,
    }
}

/// The position book after a buy fill of `order`: the symbol's entry grows
/// by the bought quantity and takes the new weighted-average entry cost; a
/// first buy appends a fresh entry.
pub open spec fn spec_buy_book(book: Seq<Position>, order: Order) -> Seq<Position> {
    let sym: Seq<char> = order.symbol@;
    let p: int = order.price.units as int;
    let q: int = order.quantity.units as int;
    let q0: int = book_quantity_units(book, sym);
    let ap0: int = book_average_units(book, sym);
    let ap1: int = spec_buy_average_units(q0, ap0, q, p);
    if book_has(book, sym) {
        let i: int = book_index(book, sym);
        book.update(
            i,
            Position {
                symbol: book[i].symbol,
                quantity: Amount { units: (q0 + q) as i128 },
                average_price: Amount { units: ap1 as i128 },
            },
        )
    } else {
        book.push(
            Position {
                symbol: order.symbol,
                quantity: Amount { units: q as i128 },
                average_price: Amount { units: ap1 as i128 },
            },
        )
    }
}

/// The position book after a sell fill of `order`: the symbol's entry
/// shrinks by the sold quantity, keeping its average entry cost; an entry
/// sold down to zero is removed entirely.
pub open spec fn spec_sell_book(book: Seq<Position>, order: Order) -> Seq<Position> {
    let sym: Seq<char> = order.symbol@;
    let q: int = order.quantity.units as int;
    let q0: int = book_quantity_units(book, sym);
    let i: int = book_index(book, sym);
    if q0 == q {
        book.remove(i)
    } else {
        book.update(
            i,
            Position {
                symbol: book[i].symbol,
                quantity: Amount { units: (q0 - q) as i128 },
                average_price: book[i].average_price,
            },
        )
    }
}

/// With distinct symbols, an entry for `sym` at `i` pins `book_index`.
pub proof fn lemma_book_index(book: Seq<Position>, sym: Seq<char>, i: int)
    requires
        book_symbols_distinct(book),
        0 <= i < book.len(),
        book[i].symbol@ == sym,
    ensures
        book_has(book, sym),
        book_index(book, sym) == i,
{
    assert(book_has(book, sym));
    let j: int = book_index(book, sym);
    if j < i {
        assert(book[j].symbol@ != book[i].symbol@);
    } else if j > i {
        assert(book[i].symbol@ != book[j].symbol@);
    }
}

/// `round(p * q * r)` at the fixed scale, computed in stages so that the
/// triple product never has to exist as one machine integer.
fn compute_commission(p: i128, q: i128, r: i128) -> (c: i128)
    requires
        0 < p <= MAX_AMOUNT_UNITS,
        0 < q <= MAX_AMOUNT_UNITS,
        0 <= r <= MAX_AMOUNT_UNITS,
    ensures
        c == spec_commission_units(p as int, q as int, r as int),
        0 <= c,
{
    proof {
        assert(p as int * q as int <= MAX_AMOUNT_UNITS as int * MAX_AMOUNT_UNITS as int
            && 0 < p as int * q as int) by (nonlinear_arith)
            requires
                0 < p as int <= MAX_AMOUNT_UNITS as int,
                0 < q as int <= MAX_AMOUNT_UNITS as int,
        ;
    }
    let n16: i128 = p * q;
    let (bq, br): (i128, i128) = divmod_nonneg(n16, SCALE_UNITS_SQUARED);
    proof {
        lemma_div_is_ordered(
            n16 as int,
            MAX_AMOUNT_UNITS as int * MAX_AMOUNT_UNITS as int,
            SCALE_UNITS_SQUARED as int,
        );
        assert(br as int * r as int <= SCALE_UNITS_SQUARED as int * MAX_AMOUNT_UNITS as int
            && 0 <= br as int * r as int) by (nonlinear_arith)
            requires
                0 <= br as int <= SCALE_UNITS_SQUARED as int,
                0 <= r as int <= MAX_AMOUNT_UNITS as int,
        ;
    }
    let t: i128 = br * r;
    let (tq, tr): (i128, i128) = divmod_nonneg(t, SCALE_UNITS_SQUARED);
    proof {
        lemma_div_is_ordered(
            t as int,
            SCALE_UNITS_SQUARED as int * MAX_AMOUNT_UNITS as int,
            SCALE_UNITS_SQUARED as int,
        );
        assert(bq as int * r as int
            <= 100_000_000_000_000_000_000 * MAX_AMOUNT_UNITS as int
            && 0 <= bq as int * r as int) by (nonlinear_arith)
            requires
                0 <= bq as int <= 100_000_000_000_000_000_000,
                0 <= r as int <= MAX_AMOUNT_UNITS as int,
        ;
    }
    let qq: i128 = bq * r + tq;
    let c: i128 = bankers_round_from_parts(qq, tr, SCALE_UNITS_SQUARED);
    proof {
        lemma_fundamental_div_mod(n16 as int, SCALE_UNITS_SQUARED as int);
        lemma_fundamental_div_mod(t as int, SCALE_UNITS_SQUARED as int);
        assert(p as int * q as int * r as int
            == qq as int * SCALE_UNITS_SQUARED as int + tr as int) by (nonlinear_arith)
            requires
                n16 as int == p as int * q as int,
                n16 as int == SCALE_UNITS_SQUARED as int * (bq as int) + br as int,
                t as int == br as int * r as int,
                t as int == SCALE_UNITS_SQUARED as int * (tq as int) + tr as int,
                qq as int == bq as int * r as int + tq as int,
        ;
    }
    c
}

impl BacktestEngine {
    /// The account's internal invariant.
    pub open spec fn wf(self) -> bool {
        &&& representable(self.initial_capital.units as int)
        &&& 0 <= self.commission_rate.units <= MAX_AMOUNT_UNITS
        &&& representable(self.cash.units as int)
        &&& book_symbols_distinct(self.positions@)
        &&& book_entries_wf(self.positions@)
        &&& trades_wf(self.trades@)
    }

    /// A fresh account: cash equals the initial capital, no positions,
    /// no trades.
    pub fn new(initial_capital: Amount, commission_rate: Amount) -> (res: BacktestEngine)
        requires
            representable(initial_capital.units as int),
            0 <= commission_rate.units <= MAX_AMOUNT_UNITS,
        ensures
            res.wf(),
            res.initial_capital == initial_capital,
            res.commission_rate == commission_rate,
            res.cash == initial_capital,
            res.positions@ == Seq::<Position>::empty(),
            res.trades@ == Seq::<Trade>::empty(),
    {
        BacktestEngine {
            initial_capital,
            commission_rate,
            positions: Vec::new(),
            cash: initial_capital,
            trades: Vec::new(),
        }
    }

    /// The one state transition: validate `order`, decide fill or
    /// rejection, settle cash, maintain the weighted-average cost basis,
    /// drop a position sold down to zero, and log the trade.
    ///
    /// Exactly three outcomes exist for a well-formed order: a hard error
    /// leaves the account untouched; a soft rejection (unaffordable buy,
    /// oversized sell) returns `Ok(None)` and leaves the account
    /// untouched; a fill updates cash, book and log together.
    pub fn execute_order(&mut self, order: Order) -> (res: Result<Option<Trade>, ExecutionError>)
        requires
            old(self).wf(),
            order.price.units <= MAX_AMOUNT_UNITS,
            order.quantity.units <= MAX_AMOUNT_UNITS,
        ensures
            final(self).wf(),
            final(self).initial_capital == old(self).initial_capital,
            final(self).commission_rate == old(self).commission_rate,
            // a malformed order is the first hard error, and the only
            // source of it
            !spec_order_valid(order) <==> res == Err::<Option<Trade>, ExecutionError>(
                ExecutionError::InvalidOrder,
            ),
            // a settlement that leaves the numeric range is the second,
            // and the only source of it
            spec_order_valid(order) ==> (res == Err::<Option<Trade>, ExecutionError>(
                ExecutionError::Overflow,
            ) <==> spec_overflow(
                old(self).cash.units as int,
                old(self).positions@,
                order,
                old(self).commission_rate.units as int,
            )),
            // hard errors never mutate anything
            res is Err ==> *final(self) == *old(self),
            // an unaffordable buy is rejected, mutating nothing
            (spec_order_valid(order) && order.side == OrderSide::Buy && !spec_overflow(
                old(self).cash.units as int,
                old(self).positions@,
                order,
                old(self).commission_rate.units as int,
            ) && spec_total_cost_units(
                order.price.units as int,
                order.quantity.units as int,
                old(self).commission_rate.units as int,
            ) > old(self).cash.units as int) ==> res == Ok::<Option<Trade>, ExecutionError>(None)
                && *final(self) == *old(self),
            // a sell beyond the held quantity is rejected, mutating nothing
            (spec_order_valid(order) && order.side == OrderSide::Sell && !spec_overflow(
                old(self).cash.units as int,
                old(self).positions@,
                order,
                old(self).commission_rate.units as int,
            ) && book_quantity_units(old(self).positions@, order.symbol@)
                < order.quantity.units as int) ==> res == Ok::<Option<Trade>, ExecutionError>(None)
                && *final(self) == *old(self),
            // a buy fill: cash drops by the total cost, the book takes the
            // new weighted-average entry, the trade is logged and returned
            (spec_order_valid(order) && order.side == OrderSide::Buy && !spec_overflow(
                old(self).cash.units as int,
                old(self).positions@,
                order,
                old(self).commission_rate.units as int,
            ) && spec_total_cost_units(
                order.price.units as int,
                order.quantity.units as int,
                old(self).commission_rate.units as int,
            ) <= old(self).cash.units as int) ==> {
                let c: int = spec_commission_units(
                    order.price.units as int,
                    order.quantity.units as int,
                    old(self).commission_rate.units as int,
                );
                &&& res == Ok::<Option<Trade>, ExecutionError>(Some(spec_fill_trade(order, c)))
                &&& final(self).cash.units as int == old(self).cash.units as int - spec_total_cost_units(
                    order.price.units as int,
                    order.quantity.units as int,
                    old(self).commission_rate.units as int,
                )
                &&& final(self).positions@ == spec_buy_book(old(self).positions@, order)
                &&& final(self).trades@ == old(self).trades@.push(spec_fill_trade(order, c))
            },
            // a sell fill: cash grows by the proceeds net of commission,
            // the entry shrinks or disappears, the trade is logged
            (spec_order_valid(order) && order.side == OrderSide::Sell && !spec_overflow(
                old(self).cash.units as int,
                old(self).positions@,
                order,
                old(self).commission_rate.units as int,
            ) && book_quantity_units(old(self).positions@, order.symbol@)
                >= order.quantity.units as int) ==> {
                let c: int = spec_commission_units(
                    order.price.units as int,
                    order.quantity.units as int,
                    old(self).commission_rate.units as int,
                );
                &&& res == Ok::<Option<Trade>, ExecutionError>(Some(spec_fill_trade(order, c)))
                &&& final(self).cash.units as int == spec_sell_cash_units(
                    old(self).cash.units as int,
                    order.price.units as int,
                    order.quantity.units as int,
                    old(self).commission_rate.units as int,
                )
                &&& final(self).positions@ == spec_sell_book(old(self).positions@, order)
                &&& final(self).trades@ == old(self).trades@.push(spec_fill_trade(order, c))
                // a position sold down to zero is absent, not kept at zero
                &&& (book_quantity_units(old(self).positions@, order.symbol@)
                    == order.quantity.units as int ==> !book_has(final(self).positions@, order.symbol@))
            },
    {
        if order.quantity.units <= 0 || order.price.units <= 0 {
            return Err(ExecutionError::InvalidOrder);
        }
        let ghost book0: Seq<Position> = self.positions@;
        let ghost sym: Seq<char> = order.symbol@;
        let p: i128 = order.price.units;
        let oq: i128 = order.quantity.units;
        let rate: i128 = self.commission_rate.units;
        let c: i128 = compute_commission(p, oq, rate);
        if c > MAX_AMOUNT_UNITS {
            return Err(ExecutionError::Overflow);
        }
        proof {
            assert(0 < p as int * oq as int
                <= MAX_AMOUNT_UNITS as int * MAX_AMOUNT_UNITS as int) by (nonlinear_arith)
                requires
                    0 < p as int <= MAX_AMOUNT_UNITS as int,
                    0 < oq as int <= MAX_AMOUNT_UNITS as int,
            ;
        }
        let tc: i128 = round_div(p * oq + c * SCALE_UNITS, SCALE_UNITS);
        let found: Option<usize> = find_index(&self.positions, &order.symbol);
        proof {
            match found {
                Some(i) => lemma_book_index(book0, sym, i as int),
                None => {},
            }
        }
        match order.side {
            OrderSide::Buy => {
                if tc > self.cash.units {
                    return Ok(None);
                }
                let (q0, ap0): (i128, i128) = match found {
                    Some(i) => (
                        self.positions[i].quantity.units,
                        self.positions[i].average_price.units,
                    ),
                    None => (0, 0),
                };
                let q1: i128 = q0 + oq;
                if q1 > MAX_AMOUNT_UNITS {
                    return Err(ExecutionError::Overflow);
                }
                proof {
                    assert(0 <= q0 as int * ap0 as int
                        <= MAX_AMOUNT_UNITS as int * MAX_AMOUNT_UNITS as int) by (nonlinear_arith)
                        requires
                            0 <= q0 as int <= MAX_AMOUNT_UNITS as int,
                            0 <= ap0 as int <= MAX_AMOUNT_UNITS as int,
                    ;
                }
                let numer: i128 = round_div(q0 * ap0 + oq * p, SCALE_UNITS);
                let ap1: i128 = round_div(numer * SCALE_UNITS, q1);
                if ap1 > MAX_AMOUNT_UNITS {
                    return Err(ExecutionError::Overflow);
                }
                let new_cash: i128 = self.cash.units - tc;
                match found {
                    Some(i) => {
                        let kept: String = self.positions[i].symbol.clone();
                        self.positions[i] = Position {
                            symbol: kept,
                            quantity: Amount { units: q1 },
                            average_price: Amount { units: ap1 },
                        };
                    },
                    None => {
                        self.positions.push(
                            Position {
                                symbol: order.symbol.clone(),
                                quantity: Amount { units: q1 },
                                average_price: Amount { units: ap1 },
                            },
                        );
                        proof {
                            assert forall|a: int, b: int|
                                0 <= a < b < self.positions@.len() implies self.positions@[a].symbol@
                                != self.positions@[b].symbol@ by {
                                if b == self.positions@.len() - 1 {
                                    assert(!book_has(book0, sym));
                                    assert(book0[a].symbol@ != sym);
                                }
                            }
                        }
                    },
                }
                self.cash = Amount { units: new_cash };
                let trade: Trade = Trade {
                    timestamp: order.timestamp,
                    symbol: order.symbol,
                    price: order.price,
                    quantity: order.quantity,
                    commission: Amount { units: c },
                    side: order.side,
                };
                self.trades.push(trade.clone());
                Ok(Some(trade))
            },
            OrderSide::Sell => {
                let i: usize = match found {
                    Some(i) => i,
                    None => {
                        return Ok(None);
                    },
                };
                let q0: i128 = self.positions[i].quantity.units;
                if q0 < oq {
                    return Ok(None);
                }
                let new_cash: i128 = round_div(
                    (self.cash.units - c) * SCALE_UNITS + p * oq,
                    SCALE_UNITS,
                );
                if new_cash > MAX_AMOUNT_UNITS || new_cash < -MAX_AMOUNT_UNITS {
                    return Err(ExecutionError::Overflow);
                }
                let q1: i128 = q0 - oq;
                if q1 == 0 {
                    self.positions.remove(i);
                    proof {
                        assert forall|a: int, b: int|
                            0 <= a < b < self.positions@.len() implies self.positions@[a].symbol@
                            != self.positions@[b].symbol@ by {}
                        assert forall|a: int| 0 <= a < self.positions@.len()
                            implies self.positions@[a].symbol@ != sym by {
                            if a < i as int {
                                assert(book0[a].symbol@ != book0[i as int].symbol@);
                            } else {
                                assert(book0[i as int].symbol@ != book0[a + 1].symbol@);
                            }
                        }
                    }
                } else {
                    let kept: String = self.positions[i].symbol.clone();
                    let avg_kept: Amount = self.positions[i].average_price;
                    self.positions[i] = Position {
                        symbol: kept,
                        quantity: Amount { units: q1 },
                        average_price: avg_kept,
                    };
                }
                self.cash = Amount { units: new_cash };
                let trade: Trade = Trade {
                    timestamp: order.timestamp,
                    symbol: order.symbol,
                    price: order.price,
                    quantity: order.quantity,
                    commission: Amount { units: c },
                    side: order.side,
                };
                self.trades.push(trade.clone());
                Ok(Some(trade))
            },
        }
    }

    /// The current cash balance.
    pub fn get_cash(&self) -> (res: Amount)
        ensures
            res == self.cash,
    {
        self.cash
    }

    /// The full ordered trade log.
    pub fn get_trades(&self) -> (res: &[Trade])
        ensures
            res@ == self.trades@,
    {
        self.trades.as_slice()
    }

    /// The position currently held for `symbol`, if any.
    pub fn get_position<'a>(&'a self, symbol: &str) -> (res: Option<&'a Position>)
        requires
            self.wf(),
        ensures
            match res {
                Some(pos) => {
                    &&& book_has(self.positions@, symbol@)
                    &&& *pos == self.positions@[book_index(self.positions@, symbol@)]
                },
                None => !book_has(self.positions@, symbol@),
            },
    {
        let key: String = symbol.to_owned();
        match find_index(&self.positions, &key) {
            Some(i) => {
                proof {
                    lemma_book_index(self.positions@, symbol@, i as int);
                }
                Some(&self.positions[i])
            },
            None => None,
        }
    }
}

/// The buy-side cash formula `round(cash - total_cost)`: both operands
/// already sit at the fixed scale, so the rounding is the identity and the
/// transition's `ensures` states the subtraction directly.
pub proof fn lemma_buy_cash_rounding_identity(cash: int, total_cost: int)
    ensures
        round_half_even((cash - total_cost) * SCALE_UNITS, SCALE_UNITS as int)
            == cash - total_cost,
{
    lemma_round_half_even_exact(cash - total_cost, SCALE_UNITS as int);
}

/// A first buy into a flat book sets the average entry cost to the order
/// price exactly, whenever the order's notional value is exact at the
/// fixed scale (no rounding remainder in `price * quantity`).
pub proof fn lemma_first_buy_average_is_price(q: int, p: int)
    requires
        0 < q,
        0 < p,
        (q * p) % (SCALE_UNITS as int) == 0,
    ensures
        spec_buy_average_units(0, 0, q, p) == p,
{
    let s: int = SCALE_UNITS as int;
    let k: int = (q * p) / s;
    lemma_fundamental_div_mod(q * p, s);
    assert(q * p == k * s);
    lemma_round_half_even_exact(k, s);
    assert(spec_buy_numerator_units(0, 0, q, p) == k);
    assert(k * s == p * q) by (nonlinear_arith)
        requires
            q * p == k * s,
    ;
    lemma_round_half_even_exact(p, q);
}

/// The weighted-average cost law: two buys of the same symbol into a flat
/// book end at the banker-rounded volume-weighted average of both fills,
/// whichever of the two came first — provided each fill's notional value
/// is exact at the fixed scale.  (With a rounding remainder in a notional,
/// the per-step rounding the ledger is specified to perform can move the
/// two orderings apart by a unit in the last place.)
pub proof fn lemma_average_price_order_independent(q1: int, p1: int, q2: int, p2: int)
    requires
        0 < q1,
        0 < p1,
        0 < q2,
        0 < p2,
        (q1 * p1) % (SCALE_UNITS as int) == 0,
        (q2 * p2) % (SCALE_UNITS as int) == 0,
    ensures
        spec_buy_average_units(q1, spec_buy_average_units(0, 0, q1, p1), q2, p2)
            == round_half_even(q1 * p1 + q2 * p2, q1 + q2),
        spec_buy_average_units(q2, spec_buy_average_units(0, 0, q2, p2), q1, p1)
            == round_half_even(q1 * p1 + q2 * p2, q1 + q2),
{
    let s: int = SCALE_UNITS as int;
    lemma_first_buy_average_is_price(q1, p1);
    lemma_first_buy_average_is_price(q2, p2);
    let k1: int = (q1 * p1) / s;
    let k2: int = (q2 * p2) / s;
    lemma_fundamental_div_mod(q1 * p1, s);
    lemma_fundamental_div_mod(q2 * p2, s);
    assert(q1 * p1 == k1 * s);
    assert(q2 * p2 == k2 * s);
    // first ordering: the blended numerator is exact, so the final
    // division sees the full sum of both notionals
    assert(q1 * p1 + q2 * p2 == (k1 + k2) * s) by (nonlinear_arith)
        requires
            q1 * p1 == k1 * s,
            q2 * p2 == k2 * s,
    ;
    lemma_round_half_even_exact(k1 + k2, s);
    assert(spec_buy_numerator_units(q1, p1, q2, p2) == k1 + k2);
    assert(spec_buy_numerator_units(q2, p2, q1, p1) == k1 + k2);
    assert((k1 + k2) * s == q1 * p1 + q2 * p2);
}

/// Linear search of the book for `symbol`.
fn find_index(book: &Vec<Position>, symbol: &String) -> (res: Option<usize>)
    ensures
        match res {
            Some(i) => i < book@.len() && book@[i as int].symbol@ == symbol@,
            None => !book_has(book@, symbol@),
        },
{
    let mut i: usize = 0;
    while i < book.len()
        invariant
            i <= book@.len(),
            forall|j: int| 0 <= j < i ==> book@[j].symbol@ != symbol@,
        decreases book@.len() - i,
    {
        if book[i].symbol == *symbol {
            return Some(i);
        }
        i += 1;
    }
    None
}


} // verus!
