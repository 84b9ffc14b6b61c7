use rapid_flow::engine::{Exchange, Transfers};
use rapid_flow::error::ErrorCode;
use rapid_flow::instructions::{
    cancel_order, initialize, place_order, settle_funds, CancelOrder, Initialize, PlaceOrder,
    SettleFunds,
};
use rapid_flow::state::{OpenOrders, Order, Pubkey, MAX_ORDERS};

fn key(n: u64) -> Pubkey {
    Pubkey::new(n, 0, 0, 0)
}

fn alice() -> Pubkey {
    key(10)
}

fn bob() -> Pubkey {
    key(11)
}

fn fresh() -> Exchange {
    Initialize {
        signer: key(1),
        base_mint: key(2),
        quote_mint: key(3),
        market: key(4),
        bids: key(5),
        asks: key(6),
        base_vault: key(7),
        quote_vault: key(8),
    }
    .initialize()
}

fn ledger(ex: &Exchange, owner: Pubkey) -> OpenOrders {
    *ex.open_orders.iter().find(|l| l.owner == owner).expect("ledger")
}

fn deposit_quote(n: u64) -> Transfers {
    Transfers { base_in: 0, quote_in: n, base_out: 0, quote_out: 0 }
}

fn deposit_base(n: u64) -> Transfers {
    Transfers { base_in: n, quote_in: 0, base_out: 0, quote_out: 0 }
}

fn totals(ex: &Exchange) -> (u128, u128) {
    let mut b: u128 = 0;
    let mut q: u128 = 0;
    for l in ex.open_orders.iter() {
        b += l.base_free as u128 + l.base_locked as u128;
        q += l.quote_free as u128 + l.quote_locked as u128;
    }
    (b, q)
}

/// Bob rests an ask of 5 at 100.
fn with_bob_ask() -> Exchange {
    let mut ex = fresh();
    assert_eq!(ex.place_order(bob(), false, 100, 5), Ok(deposit_base(5)));
    ex
}

#[test]
fn initialize_creates_empty_market() {
    let ex = fresh();
    assert_eq!(ex.market.authority, key(1));
    assert_eq!(ex.market.base_mint, key(2));
    assert_eq!(ex.market.quote_mint, key(3));
    assert_eq!(ex.market.next_order_id, 0);
    assert!(ex.bids.is_bid);
    assert!(!ex.asks.is_bid);
    assert_eq!(ex.bids.market, key(4));
    assert_eq!(ex.bids.orders.len(), 0);
    assert_eq!(ex.asks.orders.len(), 0);
    assert!(ex.open_orders.is_empty());
}

#[test]
fn partial_fill_keeps_maker_order() {
    let mut ex = with_bob_ask();
    assert_eq!(ex.place_order(alice(), true, 100, 3), Ok(deposit_quote(300)));
    assert_eq!(ex.asks.orders.len(), 1);
    assert_eq!(ex.asks.orders[0].size, 2);
    assert_eq!(ex.asks.orders[0].owner, bob());
    assert!(ex.bids.orders.is_empty());
    let a = ledger(&ex, alice());
    assert_eq!(a.base_free, 3);
    assert_eq!(a.quote_locked, 0);
    let b = ledger(&ex, bob());
    assert_eq!(b.base_locked, 2);
    assert_eq!(b.quote_free, 300);
}

#[test]
fn full_fill_removes_order() {
    let mut ex = with_bob_ask();
    assert_eq!(ex.place_order(alice(), true, 100, 5), Ok(deposit_quote(500)));
    assert!(ex.asks.orders.is_empty());
    assert!(ex.bids.orders.is_empty());
    let a = ledger(&ex, alice());
    assert_eq!(a.base_free, 5);
    assert_eq!(a.quote_locked, 0);
    let b = ledger(&ex, bob());
    assert_eq!(b.base_locked, 0);
    assert_eq!(b.quote_free, 500);
}

#[test]
fn cancel_refunds_to_custody() {
    let mut ex = fresh();
    assert_eq!(ex.place_order(alice(), true, 50, 2), Ok(deposit_quote(100)));
    assert_eq!(ledger(&ex, alice()).quote_locked, 100);
    let id = ex.bids.orders[0].order_id;
    let t = ex.cancel_order(alice(), id, true);
    assert_eq!(t, Ok(Transfers { base_in: 0, quote_in: 0, base_out: 0, quote_out: 100 }));
    assert!(ex.bids.orders.is_empty());
    let a = ledger(&ex, alice());
    assert_eq!(a.quote_locked, 0);
    assert_eq!(a.quote_free, 0);
}

#[test]
fn settle_twice_fails_second_time() {
    let mut ex = with_bob_ask();
    ex.place_order(alice(), true, 100, 5).unwrap();
    assert_eq!(ledger(&ex, alice()).base_free, 5);
    let t = ex.settle_funds(alice());
    assert_eq!(t, Ok(Transfers { base_in: 0, quote_in: 0, base_out: 5, quote_out: 0 }));
    assert_eq!(ledger(&ex, alice()).base_free, 0);
    assert_eq!(ex.settle_funds(alice()), Err(ErrorCode::NoFundsToSettle));
    assert_eq!(ledger(&ex, alice()).base_free, 0);
}

#[test]
fn cancel_unknown_order_fails() {
    let mut ex = with_bob_ask();
    let before = ex.asks.orders.clone();
    let ledgers = ex.open_orders.clone();
    assert_eq!(ex.cancel_order(bob(), 999, false), Err(ErrorCode::OrderNotFound));
    assert_eq!(ex.cancel_order(bob(), 0, true), Err(ErrorCode::OrderNotFound));
    assert_eq!(ex.asks.orders, before);
    assert_eq!(ex.open_orders, ledgers);
}

#[test]
fn cancel_by_other_is_unauthorized() {
    let mut ex = with_bob_ask();
    let id = ex.asks.orders[0].order_id;
    assert_eq!(ex.cancel_order(alice(), id, false), Err(ErrorCode::UnauthorizedAccess));
    assert_eq!(ex.asks.orders.len(), 1);
}

#[test]
fn cancel_with_short_ledger_is_insufficient() {
    let mut ex = fresh();
    ex.asks.orders.push(Order { order_id: 0, owner: bob(), price: 10, size: 4 });
    ex.open_orders.push(OpenOrders::new(bob()));
    ex.market.next_order_id = 1;
    assert_eq!(ex.cancel_order(bob(), 0, false), Err(ErrorCode::InsufficientFunds));
    assert_eq!(ex.asks.orders.len(), 1);
}

#[test]
fn bid_commitment_overflow() {
    let mut ex = fresh();
    assert_eq!(ex.place_order(alice(), true, u64::MAX, 2), Err(ErrorCode::MathOverflow));
    assert!(ex.open_orders.is_empty());
    assert!(ex.bids.orders.is_empty());
}

#[test]
fn free_balance_overflow_aborts() {
    let mut ex = fresh();
    ex.place_order(bob(), true, u64::MAX, 1).unwrap();
    ex.place_order(alice(), false, 1, 1).unwrap();
    assert_eq!(ledger(&ex, alice()).quote_free, u64::MAX);
    ex.place_order(bob(), true, u64::MAX, 1).unwrap();
    let ledgers = ex.open_orders.clone();
    assert_eq!(ex.place_order(alice(), false, 1, 1), Err(ErrorCode::MathOverflow));
    assert_eq!(ex.open_orders, ledgers);
    assert_eq!(ex.bids.orders.len(), 1);
    assert!(ex.asks.orders.is_empty());
}

#[test]
fn settle_without_ledger_fails() {
    let mut ex = fresh();
    assert_eq!(ex.settle_funds(alice()), Err(ErrorCode::NoFundsToSettle));
}

#[test]
fn full_book_refuses_order() {
    let mut ex = fresh();
    for i in 0..MAX_ORDERS as u64 {
        ex.place_order(alice(), true, 1 + i, 1).unwrap();
    }
    assert_eq!(ex.bids.orders.len(), MAX_ORDERS);
    let ledgers = ex.open_orders.clone();
    assert_eq!(ex.place_order(alice(), true, 5, 1), Err(ErrorCode::OrderBookFull));
    assert_eq!(ex.bids.orders.len(), MAX_ORDERS);
    assert_eq!(ex.open_orders, ledgers);
}

#[test]
fn books_stay_in_price_time_order() {
    let mut ex = fresh();
    for (p, s) in [(50u64, 1u64), (70, 2), (50, 3), (60, 4), (70, 5)] {
        ex.place_order(alice(), true, p, s).unwrap();
    }
    let bids: Vec<(u64, u64)> = ex.bids.orders.iter().map(|o| (o.price, o.size)).collect();
    assert_eq!(bids, vec![(70, 2), (70, 5), (60, 4), (50, 1), (50, 3)]);
    for (p, s) in [(90u64, 1u64), (80, 2), (90, 3), (85, 4), (80, 5)] {
        ex.place_order(bob(), false, p, s).unwrap();
    }
    let asks: Vec<(u64, u64)> = ex.asks.orders.iter().map(|o| (o.price, o.size)).collect();
    assert_eq!(asks, vec![(80, 2), (80, 5), (85, 4), (90, 1), (90, 3)]);
    let ids: Vec<u128> = ex.bids.orders.iter().map(|o| o.order_id).collect();
    assert_eq!(ids, vec![1, 4, 3, 0, 2]);
    assert_eq!(ex.market.next_order_id, 10);
}

#[test]
fn taker_walks_several_levels() {
    let mut ex = fresh();
    ex.place_order(bob(), false, 100, 2).unwrap();
    ex.place_order(bob(), false, 101, 2).unwrap();
    ex.place_order(bob(), false, 105, 2).unwrap();
    assert_eq!(ex.place_order(alice(), true, 102, 5), Ok(deposit_quote(510)));
    // Two levels cross; the 105 level does not, so 1 unit rests as a bid.
    assert_eq!(ex.asks.orders.len(), 1);
    assert_eq!(ex.asks.orders[0].price, 105);
    assert_eq!(ex.bids.orders.len(), 1);
    assert_eq!(ex.bids.orders[0].size, 1);
    assert_eq!(ex.bids.orders[0].price, 102);
    let a = ledger(&ex, alice());
    assert_eq!(a.base_free, 4);
    // 510 committed, 200 + 202 paid at the resting prices.
    assert_eq!(a.quote_locked, 108);
    let b = ledger(&ex, bob());
    assert_eq!(b.quote_free, 402);
    assert_eq!(b.base_locked, 2);
}

#[test]
fn ask_taker_sells_into_bids() {
    let mut ex = fresh();
    ex.place_order(bob(), true, 40, 3).unwrap();
    assert_eq!(ex.place_order(alice(), false, 35, 2), Ok(deposit_base(2)));
    assert_eq!(ex.bids.orders[0].size, 1);
    let a = ledger(&ex, alice());
    assert_eq!(a.base_locked, 0);
    assert_eq!(a.quote_free, 80);
    let b = ledger(&ex, bob());
    assert_eq!(b.quote_locked, 40);
    assert_eq!(b.base_free, 2);
}

#[test]
fn funds_are_conserved_over_a_session() {
    let mut ex = fresh();
    let mut custody_base: i128 = 0;
    let mut custody_quote: i128 = 0;
    let mut apply = |t: Transfers| {
        custody_base += t.base_in as i128 - t.base_out as i128;
        custody_quote += t.quote_in as i128 - t.quote_out as i128;
    };
    apply(ex.place_order(bob(), false, 100, 5).unwrap());
    apply(ex.place_order(bob(), false, 120, 5).unwrap());
    apply(ex.place_order(alice(), true, 110, 7).unwrap());
    apply(ex.place_order(alice(), true, 90, 1).unwrap());
    let id = ex.bids.orders.iter().find(|o| o.price == 90).unwrap().order_id;
    apply(ex.cancel_order(alice(), id, true).unwrap());
    apply(ex.settle_funds(bob()).unwrap());
    apply(ex.settle_funds(alice()).unwrap());
    let (b, q) = totals(&ex);
    assert_eq!(b as i128, custody_base);
    assert_eq!(q as i128, custody_quote);
}

#[test]
fn entry_points_delegate() {
    let init = Initialize {
        signer: key(1),
        base_mint: key(2),
        quote_mint: key(3),
        market: key(4),
        bids: key(5),
        asks: key(6),
        base_vault: key(7),
        quote_vault: key(8),
    };
    let ex = initialize(&init);
    let mut p = PlaceOrder { signer: alice(), exchange: ex };
    assert_eq!(place_order(&mut p, true, 10, 3), Ok(deposit_quote(30)));
    assert_eq!(p.place_order(false, 10, 1), Ok(deposit_base(1)));
    let mut c = CancelOrder { signer: alice(), exchange: p.exchange };
    let id = c.exchange.bids.orders[0].order_id;
    assert_eq!(c.exchange.bids.orders[0].size, 2);
    assert_eq!(
        cancel_order(&mut c, id, true),
        Ok(Transfers { base_in: 0, quote_in: 0, base_out: 0, quote_out: 20 })
    );
    assert_eq!(c.cancel_order(id, true), Err(ErrorCode::OrderNotFound));
    let mut s = SettleFunds { signer: alice(), exchange: c.exchange };
    assert_eq!(
        settle_funds(&mut s),
        Ok(Transfers { base_in: 0, quote_in: 0, base_out: 1, quote_out: 10 })
    );
    assert_eq!(s.settle_funds(), Err(ErrorCode::NoFundsToSettle));
}

#[test]
fn error_messages() {
    assert_eq!(ErrorCode::OrderNotFound.message(), "Order not found");
    assert_eq!(ErrorCode::NoFundsToSettle.message(), "No funds to settle");
    assert_eq!(ErrorCode::OrderBookFull.message(), "Order book is full");
}
