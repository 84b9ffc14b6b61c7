use vstd::prelude::*;

use crate::error::ErrorCode;
use crate::ledger::{
    apply_fill, checked_credit, checked_debit, copy_ledgers, credit, debit, fill_at, find_ledger,
    ledger_index, lemma_first_unique,
};
use crate::laws::{cancel_keeps_wf, place_keeps_wf, settle_keeps_wf, wf};
use crate::order_book::{insert_pos, order_index, BookView, OrderBook};
use crate::state::{Market, OpenOrders, Order, Pubkey, MAX_ORDERS};

verus! {

/// Asset movements an instruction asks the custody service to carry out,
/// between the calling participant's own custody and the market's.
#[derive(Clone, Copy, Debug, PartialEq, Eq, Structural)]
pub struct Transfers {
    /// Base moved from the participant into market custody.
    pub base_in: u64,
    /// Quote moved from the participant into market custody.
    pub quote_in: u64,
    /// Base moved from market custody to the participant.
    pub base_out: u64,
    /// Quote moved from market custody to the participant.
    pub quote_out: u64,
}

pub open spec fn no_transfers() -> Transfers {
    Transfers { base_in: 0, quote_in: 0, base_out: 0, quote_out: 0 }
}

/// The whole state of one market: its registry, both books and the
/// directory of participant ledgers.
pub struct Exchange {
    pub market: Market,
    pub bids: OrderBook,
    pub asks: OrderBook,
    /// One entry per participant, found by owner.
    pub open_orders: Vec<OpenOrders>,
}

pub struct ExchangeView {
    pub market: Market,
    pub bids: BookView,
    pub asks: BookView,
    pub ledgers: Seq<OpenOrders>,
}

impl View for Exchange {
    type V = ExchangeView;

    open spec fn view(&self) -> ExchangeView {
        ExchangeView {
            market: self.market,
            bids: self.bids@,
            asks: self.asks@,
            ledgers: self.open_orders@,
        }
    }
}

/// An incoming order at `price` trades with the resting order `head`.
pub open spec fn crosses(is_bid: bool, price: u64, head: Order) -> bool {
    if is_bid {
        price >= head.price
    } else {
        price <= head.price
    }
}

/// The book after its head has been filled by `m` base units.
pub open spec fn after_fill(book: Seq<Order>, m: nat) -> Seq<Order> {
    if m == book[0].size {
        book.drop_first()
    } else {
        book.update(0, Order { size: (book[0].size - m) as u64, ..book[0] })
    }
}

/// Walks the opposite `book` for an incoming order at `price` with
/// `remaining` base units left, owned by the ledger entry at `taker`.
/// Each step fills the head at the head's price, moves funds on both
/// ledgers (the taker's first), then shrinks or removes the head. Ends
/// with what is left unfilled, the book and the ledgers.
pub open spec fn cross(
    is_bid: bool,
    price: u64,
    taker: int,
    remaining: nat,
    book: Seq<Order>,
    ls: Seq<OpenOrders>,
) -> Result<(nat, Seq<Order>, Seq<OpenOrders>), ErrorCode>
    decreases remaining, book.len(),
{
    if remaining == 0 || book.len() == 0 || !crosses(is_bid, price, book[0]) {
        Ok((remaining, book, ls))
    } else {
        let head = book[0];
        let m: nat = if remaining <= head.size {
            remaining
        } else {
            head.size as nat
        };
        let v = head.price * m;
        if v > u64::MAX {
            Err(ErrorCode::MathOverflow)
        } else {
            match apply_fill(ls, taker, is_bid, m as int, v) {
                Err(e) => Err(e),
                Ok(ls1) => match ledger_index(ls1, head.owner) {
                    None => Err(ErrorCode::InsufficientFunds),
                    Some(k) => match apply_fill(ls1, k, !is_bid, m as int, v) {
                        Err(e) => Err(e),
                        Ok(ls2) => cross(
                            is_bid,
                            price,
                            taker,
                            (remaining - m) as nat,
                            after_fill(book, m),
                            ls2,
                        ),
                    },
                },
            }
        }
    }
}

pub proof fn lemma_cross_remaining(
    is_bid: bool,
    price: u64,
    taker: int,
    remaining: nat,
    book: Seq<Order>,
    ls: Seq<OpenOrders>,
)
    ensures
        cross(is_bid, price, taker, remaining, book, ls) is Ok ==> cross(
            is_bid,
            price,
            taker,
            remaining,
            book,
            ls,
        )->Ok_0.0 <= remaining,
    decreases remaining, book.len(),
{
    if remaining == 0 || book.len() == 0 || !crosses(is_bid, price, book[0]) {
    } else {
        let head = book[0];
        let m: nat = if remaining <= head.size {
            remaining
        } else {
            head.size as nat
        };
        let v = head.price * m;
        if v <= u64::MAX {
            if let Ok(ls1) = apply_fill(ls, taker, is_bid, m as int, v) {
                if let Some(k) = ledger_index(ls1, head.owner) {
                    if let Ok(ls2) = apply_fill(ls1, k, !is_bid, m as int, v) {
                        lemma_cross_remaining(
                            is_bid,
                            price,
                            taker,
                            (remaining - m) as nat,
                            after_fill(book, m),
                            ls2,
                        );
                    }
                }
            }
        }
    }
}

/// The directory with an empty entry for `owner` added if it had none.
pub open spec fn with_ledger(ls: Seq<OpenOrders>, owner: Pubkey) -> Seq<OpenOrders> {
    if ledger_index(ls, owner) is Some {
        ls
    } else {
        ls.push(OpenOrders::empty(owner))
    }
}

/// What the taker commits up front: quote for the whole size at its limit
/// price for a bid, the base size itself for an ask.
pub open spec fn commitment(is_bid: bool, price: u64, size: u64) -> int {
    if is_bid {
        price * size
    } else {
        size as int
    }
}

/// `l` with `amount` more locked in the committed asset.
pub open spec fn lock(l: OpenOrders, is_bid: bool, amount: int) -> Result<OpenOrders, ErrorCode> {
    if is_bid {
        match credit(l.quote_locked, amount) {
            Err(e) => Err(e),
            Ok(q) => Ok(OpenOrders { quote_locked: q, ..l }),
        }
    } else {
        match credit(l.base_locked, amount) {
            Err(e) => Err(e),
            Ok(b) => Ok(OpenOrders { base_locked: b, ..l }),
        }
    }
}

/// The exchange with the two books given by side: `own` for the incoming
/// order's side, `opp` for the other.
pub open spec fn with_books(
    ex: ExchangeView,
    is_bid: bool,
    own: Seq<Order>,
    opp: Seq<Order>,
) -> ExchangeView {
    if is_bid {
        ExchangeView {
            bids: BookView { orders: own, ..ex.bids },
            asks: BookView { orders: opp, ..ex.asks },
            ..ex
        }
    } else {
        ExchangeView {
            bids: BookView { orders: opp, ..ex.bids },
            asks: BookView { orders: own, ..ex.asks },
            ..ex
        }
    }
}

pub open spec fn deposit(is_bid: bool, amount: int) -> Transfers {
    if is_bid {
        Transfers { quote_in: amount as u64, ..no_transfers() }
    } else {
        Transfers { base_in: amount as u64, ..no_transfers() }
    }
}

/// Outcome of `signer` placing a limit order: commit collateral, cross the
/// opposite book, rest whatever is left in its own book under the next
/// order identifier.
pub open spec fn place_outcome(
    ex: ExchangeView,
    signer: Pubkey,
    is_bid: bool,
    price: u64,
    size: u64,
) -> Result<(ExchangeView, Transfers), ErrorCode> {
    let ls0 = with_ledger(ex.ledgers, signer);
    let t = ledger_index(ls0, signer)->Some_0;
    let amount = commitment(is_bid, price, size);
    let own_book = if is_bid {
        ex.bids
    } else {
        ex.asks
    };
    let own = own_book.orders;
    let opp = if is_bid {
        ex.asks.orders
    } else {
        ex.bids.orders
    };
    if amount > u64::MAX {
        Err(ErrorCode::MathOverflow)
    } else {
        match lock(ls0[t], is_bid, amount) {
            Err(e) => Err(e),
            Ok(l) => match cross(is_bid, price, t, size as nat, opp, ls0.update(t, l)) {
                Err(e) => Err(e),
                Ok((rem, opp2, ls2)) => {
                    let id = ex.market.next_order_id;
                    if rem == 0 {
                        Ok(
                            (
                                ExchangeView { ledgers: ls2, ..with_books(ex, is_bid, own, opp2) },
                                deposit(is_bid, amount),
                            ),
                        )
                    } else if own.len() >= MAX_ORDERS {
                        Err(ErrorCode::OrderBookFull)
                    } else if id == u128::MAX {
                        Err(ErrorCode::MathOverflow)
                    } else {
                        let o = Order { order_id: id, owner: signer, price, size: rem as u64 };
                        let own2 = own.insert(insert_pos(own_book.is_bid, own, price), o);
                        let ex2 = with_books(ex, is_bid, own2, opp2);
                        Ok(
                            (
                                ExchangeView {
                                    market: Market { next_order_id: (id + 1) as u128, ..ex.market },
                                    ledgers: ls2,
                                    ..ex2
                                },
                                deposit(is_bid, amount),
                            ),
                        )
                    }
                },
            },
        }
    }
}

/// What a cancelled order gives back: its quote at its price for a bid,
/// its base size for an ask.
pub open spec fn refund_of(is_bid: bool, o: Order) -> int {
    if is_bid {
        o.price * o.size
    } else {
        o.size as int
    }
}

/// `l` with `amount` less locked in the asset a resting order of that side
/// commits.
pub open spec fn unlock(l: OpenOrders, is_bid: bool, amount: int) -> Result<OpenOrders, ErrorCode> {
    if is_bid {
        match debit(l.quote_locked, amount) {
            Err(e) => Err(e),
            Ok(q) => Ok(OpenOrders { quote_locked: q, ..l }),
        }
    } else {
        match debit(l.base_locked, amount) {
            Err(e) => Err(e),
            Ok(b) => Ok(OpenOrders { base_locked: b, ..l }),
        }
    }
}

pub open spec fn withdrawal(is_bid: bool, amount: int) -> Transfers {
    if is_bid {
        Transfers { quote_out: amount as u64, ..no_transfers() }
    } else {
        Transfers { base_out: amount as u64, ..no_transfers() }
    }
}

/// Outcome of `signer` cancelling the order `order_id` on one side: the
/// order leaves the book and its collateral goes straight back to the
/// owner's custody.
pub open spec fn cancel_outcome(ex: ExchangeView, signer: Pubkey, order_id: u128, is_bid: bool) -> Result<
    (ExchangeView, Transfers),
    ErrorCode,
> {
    let book = if is_bid {
        ex.bids.orders
    } else {
        ex.asks.orders
    };
    match order_index(book, order_id) {
        None => Err(ErrorCode::OrderNotFound),
        Some(i) => {
            let o = book[i];
            let refund = refund_of(is_bid, o);
            if o.owner != signer {
                Err(ErrorCode::UnauthorizedAccess)
            } else if refund > u64::MAX {
                Err(ErrorCode::MathOverflow)
            } else {
                match ledger_index(ex.ledgers, signer) {
                    None => Err(ErrorCode::UnauthorizedAccess),
                    Some(k) => match unlock(ex.ledgers[k], is_bid, refund) {
                        Err(e) => Err(e),
                        Ok(l) => {
                            let other = if is_bid {
                                ex.asks.orders
                            } else {
                                ex.bids.orders
                            };
                            Ok(
                                (
                                    ExchangeView {
                                        ledgers: ex.ledgers.update(k, l),
                                        ..with_books(ex, is_bid, book.remove(i), other)
                                    },
                                    withdrawal(is_bid, refund),
                                ),
                            )
                        },
                    },
                }
            }
        },
    }
}

/// Outcome of `signer` withdrawing its free balances.
pub open spec fn settle_outcome(ex: ExchangeView, signer: Pubkey) -> Result<
    (ExchangeView, Transfers),
    ErrorCode,
> {
    match ledger_index(ex.ledgers, signer) {
        None => Err(ErrorCode::NoFundsToSettle),
        Some(k) => {
            let l = ex.ledgers[k];
            if l.base_free == 0 && l.quote_free == 0 {
                Err(ErrorCode::NoFundsToSettle)
            } else {
                Ok(
                    (
                        ExchangeView {
                            ledgers: ex.ledgers.update(
                                k,
                                OpenOrders { base_free: 0, quote_free: 0, ..l },
                            ),
                            ..ex
                        },
                        Transfers { base_out: l.base_free, quote_out: l.quote_free, ..no_transfers() },
                    ),
                )
            }
        },
    }
}

/// Crosses `book` for an incoming order at `price` with `size` base units,
/// owned by the entry at `taker`; returns what is left unfilled.
pub fn match_against(
    book: &mut OrderBook,
    ledgers: &mut Vec<OpenOrders>,
    is_bid: bool,
    price: u64,
    taker: usize,
    size: u64,
) -> (r: Result<u64, ErrorCode>)
    requires
        taker < old(ledgers).len(),
    ensures
        final(book).market == old(book).market,
        final(book).is_bid == old(book).is_bid,
        match cross(is_bid, price, taker as int, size as nat, old(book)@.orders, old(ledgers)@) {
            Ok((rem, b, ls)) => rem <= size && r == Ok::<u64, ErrorCode>(rem as u64)
                && final(book)@.orders == b && final(ledgers)@ == ls,
            Err(e) => r == Err::<u64, ErrorCode>(e),
        },
{
    let ghost goal = cross(is_bid, price, taker as int, size as nat, book@.orders, ledgers@);
    proof {
        lemma_cross_remaining(is_bid, price, taker as int, size as nat, book@.orders, ledgers@);
    }
    let mut remaining: u64 = size;
    loop
        invariant
            taker < ledgers.len(),
            goal == cross(is_bid, price, taker as int, size as nat, old(book)@.orders, old(ledgers)@),
            book.market == old(book).market,
            book.is_bid == old(book).is_bid,
            cross(is_bid, price, taker as int, remaining as nat, book@.orders, ledgers@) == goal,
        ensures
            goal == Ok::<(nat, Seq<Order>, Seq<OpenOrders>), ErrorCode>(
                (remaining as nat, book@.orders, ledgers@),
            ),
        decreases remaining, book@.orders.len(),
    {
        if remaining == 0 {
            break ;
        }
        let head = match book.peek_head() {
            None => {
                break ;
            },
            Some(h) => h,
        };
        let crossing = if is_bid {
            price >= head.price
        } else {
            price <= head.price
        };
        if !crossing {
            break ;
        }
        let m: u64 = if remaining <= head.size {
            remaining
        } else {
            head.size
        };
        let v = match head.price.checked_mul(m) {
            Some(v) => v,
            None => {
                return Err(ErrorCode::MathOverflow);
            },
        };
        fill_at(ledgers, taker, is_bid, m, v)?;
        let k = match find_ledger(ledgers, head.owner) {
            Some(k) => k,
            None => {
                return Err(ErrorCode::InsufficientFunds);
            },
        };
        fill_at(ledgers, k, !is_bid, m, v)?;
        if m == head.size {
            book.remove_at(0);
        } else {
            book.orders.set(0, Order { size: head.size - m, ..head });
        }
        remaining = remaining - m;
    }
    Ok(remaining)
}

impl Exchange {
    /// A market with empty books and no participants.
    pub fn new(market: Market, market_key: Pubkey) -> (r: Exchange)
        ensures
            r@ == (ExchangeView {
                market,
                bids: BookView { market: market_key, is_bid: true, orders: Seq::empty() },
                asks: BookView { market: market_key, is_bid: false, orders: Seq::empty() },
                ledgers: Seq::empty(),
            }),
            wf(r@),
    {
        Exchange {
            market,
            bids: OrderBook::new(market_key, true),
            asks: OrderBook::new(market_key, false),
            open_orders: Vec::new(),
        }
    }

    /// `signer` submits a limit order of `size` base units at `price`.
    /// On success the state moves as `place_outcome` says and the returned
    /// transfer is the collateral to move into market custody; on any error
    /// nothing changes.
    pub fn place_order(&mut self, signer: Pubkey, is_bid: bool, price: u64, size: u64) -> (r: Result<
        Transfers,
        ErrorCode,
    >)
        requires
            price > 0,
            size > 0,
        ensures
            match place_outcome(old(self)@, signer, is_bid, price, size) {
                Ok((v, t)) => r == Ok::<Transfers, ErrorCode>(t) && final(self)@ == v,
                Err(e) => r == Err::<Transfers, ErrorCode>(e) && final(self)@ == old(self)@,
            },
            wf(old(self)@) ==> wf(final(self)@),
    {
        proof {
            if wf(self@) && place_outcome(self@, signer, is_bid, price, size) is Ok {
                place_keeps_wf(self@, signer, is_bid, price, size);
            }
        }
        // Work on copies; they replace the state only once every step has
        // succeeded, so an error leaves it as it was.
        let mut ledgers = copy_ledgers(&self.open_orders);
        let taker = match find_ledger(&ledgers, signer) {
            Some(i) => i,
            None => {
                let ghost before = ledgers@;
                ledgers.push(OpenOrders::new(signer));
                proof {
                    assert forall|j: int| 0 <= j < before.len() implies ledgers@[j].owner != signer by {
                        assert(ledgers@[j] == before[j]);
                    }
                    lemma_first_unique(ledgers@, signer, before.len() as int);
                }
                ledgers.len() - 1
            },
        };
        assert(ledgers@ == with_ledger(old(self)@.ledgers, signer));
        assert(ledger_index(ledgers@, signer) == Some(taker as int));
        let amount: u64 = if is_bid {
            match price.checked_mul(size) {
                Some(a) => a,
                None => {
                    return Err(ErrorCode::MathOverflow);
                },
            }
        } else {
            size
        };
        let l = ledgers[taker];
        let locked = if is_bid {
            OpenOrders { quote_locked: checked_credit(l.quote_locked, amount)?, ..l }
        } else {
            OpenOrders { base_locked: checked_credit(l.base_locked, amount)?, ..l }
        };
        ledgers.set(taker, locked);
        assert(lock(with_ledger(old(self)@.ledgers, signer)[taker as int], is_bid, amount as int)
            == Ok::<OpenOrders, ErrorCode>(locked));
        let mut opp = if is_bid {
            self.asks.copy()
        } else {
            self.bids.copy()
        };
        let remaining = match_against(&mut opp, &mut ledgers, is_bid, price, taker, size)?;
        let mut own = if is_bid {
            self.bids.copy()
        } else {
            self.asks.copy()
        };
        let mut next_id = self.market.next_order_id;
        if remaining > 0 {
            if own.len() >= MAX_ORDERS {
                return Err(ErrorCode::OrderBookFull);
            }
            if next_id == u128::MAX {
                return Err(ErrorCode::MathOverflow);
            }
            let order = Order { order_id: next_id, owner: signer, price, size: remaining };
            own.insert_sorted(order)?;
            next_id = next_id + 1;
        }
        if is_bid {
            self.bids = own;
            self.asks = opp;
        } else {
            self.bids = opp;
            self.asks = own;
        }
        self.market.next_order_id = next_id;
        self.open_orders = ledgers;
        Ok(
            if is_bid {
                Transfers { base_in: 0, quote_in: amount, base_out: 0, quote_out: 0 }
            } else {
                Transfers { base_in: amount, quote_in: 0, base_out: 0, quote_out: 0 }
            },
        )
    }

    /// `signer` cancels its resting order `order_id` on one side. On
    /// success the returned transfer is the refund to move from market
    /// custody to the owner; on any error nothing changes.
    pub fn cancel_order(&mut self, signer: Pubkey, order_id: u128, is_bid: bool) -> (r: Result<
        Transfers,
        ErrorCode,
    >)
        ensures
            match cancel_outcome(old(self)@, signer, order_id, is_bid) {
                Ok((v, t)) => r == Ok::<Transfers, ErrorCode>(t) && final(self)@ == v,
                Err(e) => r == Err::<Transfers, ErrorCode>(e) && final(self)@ == old(self)@,
            },
            wf(old(self)@) ==> wf(final(self)@),
    {
        proof {
            if wf(self@) && cancel_outcome(self@, signer, order_id, is_bid) is Ok {
                cancel_keeps_wf(self@, signer, order_id, is_bid);
            }
        }
        let index = match if is_bid {
            self.bids.find_order(order_id)
        } else {
            self.asks.find_order(order_id)
        } {
            Some(i) => i,
            None => {
                return Err(ErrorCode::OrderNotFound);
            },
        };
        let order = if is_bid {
            self.bids.orders[index]
        } else {
            self.asks.orders[index]
        };
        if order.owner != signer {
            return Err(ErrorCode::UnauthorizedAccess);
        }
        let refund: u64 = if is_bid {
            match order.price.checked_mul(order.size) {
                Some(a) => a,
                None => {
                    return Err(ErrorCode::MathOverflow);
                },
            }
        } else {
            order.size
        };
        let k = match find_ledger(&self.open_orders, signer) {
            Some(k) => k,
            None => {
                return Err(ErrorCode::UnauthorizedAccess);
            },
        };
        let l = self.open_orders[k];
        let unlocked = if is_bid {
            OpenOrders { quote_locked: checked_debit(l.quote_locked, refund)?, ..l }
        } else {
            OpenOrders { base_locked: checked_debit(l.base_locked, refund)?, ..l }
        };
        self.open_orders.set(k, unlocked);
        if is_bid {
            self.bids.remove_at(index);
        } else {
            self.asks.remove_at(index);
        }
        Ok(
            if is_bid {
                Transfers { base_in: 0, quote_in: 0, base_out: 0, quote_out: refund }
            } else {
                Transfers { base_in: 0, quote_in: 0, base_out: refund, quote_out: 0 }
            },
        )
    }

    /// `signer` withdraws everything free. On success both free balances
    /// are zero and the returned transfer carries what they held; with
    /// nothing free it fails `NoFundsToSettle` and nothing changes.
    pub fn settle_funds(&mut self, signer: Pubkey) -> (r: Result<Transfers, ErrorCode>)
        ensures
            match settle_outcome(old(self)@, signer) {
                Ok((v, t)) => r == Ok::<Transfers, ErrorCode>(t) && final(self)@ == v,
                Err(e) => r == Err::<Transfers, ErrorCode>(e) && final(self)@ == old(self)@,
            },
            wf(old(self)@) ==> wf(final(self)@),
    {
        proof {
            if wf(self@) && settle_outcome(self@, signer) is Ok {
                settle_keeps_wf(self@, signer);
            }
        }
        let k = match find_ledger(&self.open_orders, signer) {
            Some(k) => k,
            None => {
                return Err(ErrorCode::NoFundsToSettle);
            },
        };
        let l = self.open_orders[k];
        if l.base_free == 0 && l.quote_free == 0 {
            return Err(ErrorCode::NoFundsToSettle);
        }
        self.open_orders.set(k, OpenOrders { base_free: 0, quote_free: 0, ..l });
        Ok(Transfers { base_in: 0, quote_in: 0, base_out: l.base_free, quote_out: l.quote_free })
    }
}

} // verus!
