use vstd::prelude::*;

use crate::engine::{
    after_fill, cancel_outcome, cross, crosses, lock, place_outcome, settle_outcome, unlock,
    with_ledger, ExchangeView, Transfers,
};
use crate::error::ErrorCode;
use crate::ledger::{
    apply_fill, is_first_of, ledger_index, lemma_fill_totals, lemma_first_unique, lemma_index_update,
    lemma_totals_push, lemma_totals_update, total_base, total_quote,
};
use crate::order_book::{
    all_positive, ids_below, is_first_id, order_index, insert_pos, lemma_insert_sorted, lemma_insert_pos_exists,
    lemma_remove_sorted, lemma_resize_head, sorted,
};
use crate::state::{OpenOrders, Order, Pubkey, MAX_ORDERS};

verus! {

/// The book on one side.
pub open spec fn side_orders(ex: ExchangeView, is_bid: bool) -> Seq<Order> {
    if is_bid {
        ex.bids.orders
    } else {
        ex.asks.orders
    }
}

/// One instruction against a market.
pub enum Instruction {
    Place { signer: Pubkey, is_bid: bool, price: u64, size: u64 },
    Cancel { signer: Pubkey, order_id: u128, is_bid: bool },
    Settle { signer: Pubkey },
}

pub open spec fn step(ex: ExchangeView, ins: Instruction) -> Result<(ExchangeView, Transfers), ErrorCode> {
    match ins {
        Instruction::Place { signer, is_bid, price, size } => place_outcome(
            ex,
            signer,
            is_bid,
            price,
            size,
        ),
        Instruction::Cancel { signer, order_id, is_bid } => cancel_outcome(
            ex,
            signer,
            order_id,
            is_bid,
        ),
        Instruction::Settle { signer } => settle_outcome(ex, signer),
    }
}

/// Runs the instructions in turn; one that fails has no effect. Returns the
/// final state with the net base and quote moved into market custody.
pub open spec fn run(ex: ExchangeView, ops: Seq<Instruction>) -> (ExchangeView, int, int)
    decreases ops.len(),
{
    if ops.len() == 0 {
        (ex, 0, 0)
    } else {
        let (mid, b, q) = run(ex, ops.drop_last());
        match step(mid, ops.last()) {
            Err(_) => (mid, b, q),
            Ok((next, t)) => (
                next,
                b + t.base_in - t.base_out,
                q + t.quote_in - t.quote_out,
            ),
        }
    }
}

/// The resting state every instruction keeps: each book on its side, in
/// strict price-time order, with no empty order, every identifier below
/// the market's counter, and within capacity.
pub open spec fn wf(ex: ExchangeView) -> bool {
    &&& ex.bids.is_bid
    &&& !ex.asks.is_bid
    &&& sorted(true, ex.bids.orders)
    &&& sorted(false, ex.asks.orders)
    &&& all_positive(ex.bids.orders)
    &&& all_positive(ex.asks.orders)
    &&& ids_below(ex.bids.orders, ex.market.next_order_id as int)
    &&& ids_below(ex.asks.orders, ex.market.next_order_id as int)
    &&& ex.bids.orders.len() <= MAX_ORDERS
    &&& ex.asks.orders.len() <= MAX_ORDERS
    &&& unique_owners(ex.ledgers)
    &&& backed(ex.bids.orders, ex.ledgers)
    &&& backed(ex.asks.orders, ex.ledgers)
}

/// At most one ledger entry per participant.
pub open spec fn unique_owners(ls: Seq<OpenOrders>) -> bool {
    forall|i: int, j: int| 0 <= i < j < ls.len() ==> (#[trigger] ls[i]).owner != (#[trigger] ls[j]).owner
}

pub open spec fn has_ledger(ls: Seq<OpenOrders>, owner: Pubkey) -> bool {
    exists|j: int| 0 <= j < ls.len() && (#[trigger] ls[j]).owner == owner
}

/// Every resting order's owner has a ledger entry.
pub open spec fn backed(book: Seq<Order>, ls: Seq<OpenOrders>) -> bool {
    forall|i: int| 0 <= i < book.len() ==> has_ledger(ls, (#[trigger] book[i]).owner)
}

/// Every order of `sub` has an owner that some order of `book` has.
pub open spec fn owners_from(sub: Seq<Order>, book: Seq<Order>) -> bool {
    forall|i: int|
        0 <= i < sub.len() ==> exists|j: int| 0 <= j < book.len() && (#[trigger] sub[i]).owner == book[j].owner
}

/// Two directories with the same owners in the same places.
pub open spec fn same_owners(a: Seq<OpenOrders>, b: Seq<OpenOrders>) -> bool {
    &&& a.len() == b.len()
    &&& forall|j: int| 0 <= j < a.len() ==> (#[trigger] a[j]).owner == b[j].owner
}

proof fn lemma_same_owners(a: Seq<OpenOrders>, b: Seq<OpenOrders>, book: Seq<Order>)
    requires
        same_owners(a, b),
    ensures
        unique_owners(a) ==> unique_owners(b),
        backed(book, a) ==> backed(book, b),
        forall|o: Pubkey| has_ledger(a, o) ==> has_ledger(b, o),
{
    assert forall|o: Pubkey| has_ledger(a, o) implies has_ledger(b, o) by {
        let j = choose|j: int| 0 <= j < a.len() && (#[trigger] a[j]).owner == o;
        assert(b[j].owner == o);
    }
    if unique_owners(a) {
        assert forall|i: int, j: int| 0 <= i < j < b.len() implies (#[trigger] b[i]).owner != (
        #[trigger] b[j]).owner by {
            assert(a[i].owner != a[j].owner);
        }
    }
    if backed(book, a) {
        assert forall|i: int| 0 <= i < book.len() implies has_ledger(b, (#[trigger] book[i]).owner) by {
            assert(has_ledger(a, book[i].owner));
        }
    }
}

proof fn lemma_same_owners_update(ls: Seq<OpenOrders>, i: int, l: OpenOrders)
    requires
        0 <= i < ls.len(),
        l.owner == ls[i].owner,
    ensures
        same_owners(ls, ls.update(i, l)),
{
}

proof fn lemma_backed_sub(book: Seq<Order>, sub: Seq<Order>, ls: Seq<OpenOrders>)
    requires
        backed(book, ls),
        owners_from(sub, book),
    ensures
        backed(sub, ls),
{
    assert forall|i: int| 0 <= i < sub.len() implies has_ledger(ls, (#[trigger] sub[i]).owner) by {
        let j = choose|j: int| 0 <= j < book.len() && sub[i].owner == book[j].owner;
        assert(has_ledger(ls, book[j].owner));
    }
}

proof fn lemma_some_first(ls: Seq<OpenOrders>, owner: Pubkey, j: int)
    requires
        0 <= j < ls.len(),
        ls[j].owner == owner,
    ensures
        ledger_index(ls, owner) is Some,
    decreases j,
{
    if forall|i: int| 0 <= i < j ==> ls[i].owner != owner {
        assert(is_first_of(ls, owner, j));
    } else {
        let i = choose|i: int| 0 <= i < j && ls[i].owner == owner;
        lemma_some_first(ls, owner, i);
    }
}

/// After the lazy creation, the caller has an entry and the totals are
/// as before.
proof fn lemma_with_ledger(ls: Seq<OpenOrders>, owner: Pubkey)
    ensures
        ledger_index(with_ledger(ls, owner), owner) is Some,
        0 <= ledger_index(with_ledger(ls, owner), owner)->Some_0 < with_ledger(ls, owner).len(),
        total_base(with_ledger(ls, owner)) == total_base(ls),
        total_quote(with_ledger(ls, owner)) == total_quote(ls),
{
    let w = with_ledger(ls, owner);
    if ledger_index(ls, owner) is None {
        lemma_totals_push(ls, OpenOrders::empty(owner));
        assert forall|j: int| 0 <= j < ls.len() implies w[j].owner != owner by {
            assert(w[j] == ls[j]);
            if ls[j].owner == owner {
                lemma_some_first(ls, owner, j);
            }
        }
        assert(is_first_of(w, owner, ls.len() as int));
        lemma_first_unique(w, owner, ls.len() as int);
    }
}

/// Crossing leaves the opposite book in order, with no empty order and no
/// new identifier.
proof fn lemma_cross(
    is_bid: bool,
    price: u64,
    taker: int,
    remaining: nat,
    book: Seq<Order>,
    ls: Seq<OpenOrders>,
    next_id: int,
)
    requires
        0 <= taker < ls.len(),
        cross(is_bid, price, taker, remaining, book, ls) is Ok,
        sorted(!is_bid, book),
        all_positive(book),
        ids_below(book, next_id),
    ensures
        ({
            let (rem, b, l) = cross(is_bid, price, taker, remaining, book, ls)->Ok_0;
            &&& sorted(!is_bid, b)
            &&& all_positive(b)
            &&& ids_below(b, next_id)
            &&& b.len() <= book.len()
            &&& same_owners(ls, l)
            &&& owners_from(b, book)
        }),
    decreases remaining, book.len(),
{
    if remaining == 0 || book.len() == 0 || !crosses(is_bid, price, book[0]) {
    } else {
        let head = book[0];
        let m: nat = if remaining <= head.size {
            remaining
        } else {
            head.size as nat
        };
        let v = head.price * m;
        let ls1 = apply_fill(ls, taker, is_bid, m as int, v)->Ok_0;
        let k = ledger_index(ls1, head.owner)->Some_0;
        assert(is_first_of(ls1, head.owner, k));
        let ls2 = apply_fill(ls1, k, !is_bid, m as int, v)->Ok_0;
        assert(same_owners(ls, ls2));
        let b1 = after_fill(book, m);
        if m == head.size {
            lemma_remove_sorted(!is_bid, book, 0);
            assert(book.drop_first() =~= book.remove(0));
            assert forall|i: int| 0 <= i < b1.len() implies exists|j: int|
                0 <= j < book.len() && (#[trigger] b1[i]).owner == book[j].owner by {
                assert(b1[i] == book[i + 1]);
            }
        } else {
            lemma_resize_head(!is_bid, book, (head.size - m) as u64);
            assert forall|i: int| 0 <= i < b1.len() implies exists|j: int|
                0 <= j < book.len() && (#[trigger] b1[i]).owner == book[j].owner by {
                assert(b1[i].owner == book[i].owner);
            }
        }
        lemma_cross(is_bid, price, taker, (remaining - m) as nat, b1, ls2, next_id);
        let (rem, b, l) = cross(is_bid, price, taker, remaining, book, ls)->Ok_0;
        assert forall|i: int| 0 <= i < b.len() implies exists|j: int|
            0 <= j < book.len() && (#[trigger] b[i]).owner == book[j].owner by {
            let j1 = choose|j1: int| 0 <= j1 < b1.len() && b[i].owner == (#[trigger] b1[j1]).owner;
            let j2 = choose|j2: int| 0 <= j2 < book.len() && b1[j1].owner == (#[trigger] book[j2]).owner;
            assert(b[i].owner == book[j2].owner);
        }
    }
}

proof fn lemma_ids_raise(s: Seq<Order>, a: int, b: int)
    requires
        ids_below(s, a),
        a <= b,
    ensures
        ids_below(s, b),
{
}

/// Every accepted placement moves exactly its deposit into the ledgers.
pub proof fn place_conserves(ex: ExchangeView, signer: Pubkey, is_bid: bool, price: u64, size: u64)
    requires
        place_outcome(ex, signer, is_bid, price, size) is Ok,
    ensures
        ({
            let (v, t) = place_outcome(ex, signer, is_bid, price, size)->Ok_0;
            &&& total_base(v.ledgers) == total_base(ex.ledgers) + t.base_in - t.base_out
            &&& total_quote(v.ledgers) == total_quote(ex.ledgers) + t.quote_in - t.quote_out
        }),
{
    let ls0 = with_ledger(ex.ledgers, signer);
    lemma_with_ledger(ex.ledgers, signer);
    let t = ledger_index(ls0, signer)->Some_0;
    let amount = crate::engine::commitment(is_bid, price, size);
    let l = lock(ls0[t], is_bid, amount)->Ok_0;
    lemma_totals_update(ls0, t, l);
    let opp = if is_bid {
        ex.asks.orders
    } else {
        ex.bids.orders
    };
    lemma_cross_totals(is_bid, price, t, size as nat, opp, ls0.update(t, l));
}

/// Every accepted order placement keeps both books sorted by price-time
/// priority, free of empty orders and within capacity.
#[verifier::rlimit(40)]
pub proof fn place_keeps_wf(ex: ExchangeView, signer: Pubkey, is_bid: bool, price: u64, size: u64)
    requires
        wf(ex),
        place_outcome(ex, signer, is_bid, price, size) is Ok,
    ensures
        wf(place_outcome(ex, signer, is_bid, price, size)->Ok_0.0),
{
    let ls0 = with_ledger(ex.ledgers, signer);
    lemma_with_ledger(ex.ledgers, signer);
    let t = ledger_index(ls0, signer)->Some_0;
    let amount = crate::engine::commitment(is_bid, price, size);
    let l = lock(ls0[t], is_bid, amount)->Ok_0;
    let own = if is_bid {
        ex.bids.orders
    } else {
        ex.asks.orders
    };
    let opp = if is_bid {
        ex.asks.orders
    } else {
        ex.bids.orders
    };
    let next = ex.market.next_order_id as int;
    lemma_with_ledger_wf(ex.ledgers, signer, ex.bids.orders);
    lemma_with_ledger_wf(ex.ledgers, signer, ex.asks.orders);
    assert(is_first_of(ls0, signer, t));
    let ls1 = ls0.update(t, l);
    lemma_same_owners_update(ls0, t, l);
    lemma_cross(is_bid, price, t, size as nat, opp, ls1, next);
    let (rem, opp2, ls2) = cross(is_bid, price, t, size as nat, opp, ls1)->Ok_0;
    crate::engine::lemma_cross_remaining(is_bid, price, t, size as nat, opp, ls1);
    lemma_same_owners_trans(ls0, ls1, ls2);
    lemma_same_owners(ls0, ls2, own);
    lemma_same_owners(ls0, ls2, opp);
    lemma_backed_sub(opp, opp2, ls2);
    assert(ls2[t].owner == signer);
    assert(has_ledger(ls2, signer));
    if rem != 0 {
        let o = Order { order_id: next as u128, owner: signer, price, size: rem as u64 };
        lemma_insert_sorted(is_bid, own, o);
        lemma_insert_pos_exists(is_bid, own, price);
        let own2 = own.insert(insert_pos(is_bid, own, price), o);
        assert forall|i: int| 0 <= i < own2.len() implies #[trigger] own2[i].size > 0
            && own2[i].order_id < next + 1 by {
            let p = insert_pos(is_bid, own, price);
            if i < p {
                assert(own2[i] == own[i]);
            } else if i > p {
                assert(own2[i] == own[i - 1]);
            } else {
                assert(own2[i] == o);
            }
        }
        lemma_ids_raise(opp2, next, next + 1);
        assert forall|i: int| 0 <= i < own2.len() implies has_ledger(ls2, (#[trigger] own2[i]).owner) by {
            let p = insert_pos(is_bid, own, price);
            if i < p {
                assert(own2[i] == own[i]);
            } else if i > p {
                assert(own2[i] == own[i - 1]);
            }
        }
    }
}

proof fn lemma_same_owners_trans(a: Seq<OpenOrders>, b: Seq<OpenOrders>, c: Seq<OpenOrders>)
    requires
        same_owners(a, b),
        same_owners(b, c),
    ensures
        same_owners(a, c),
{
    assert forall|j: int| 0 <= j < a.len() implies (#[trigger] a[j]).owner == c[j].owner by {
        assert(b[j].owner == c[j].owner);
    }
}

/// The lazy creation adds an entry only for a participant without one.
proof fn lemma_with_ledger_wf(ls: Seq<OpenOrders>, owner: Pubkey, book: Seq<Order>)
    requires
        unique_owners(ls),
        backed(book, ls),
    ensures
        unique_owners(with_ledger(ls, owner)),
        backed(book, with_ledger(ls, owner)),
{
    let w = with_ledger(ls, owner);
    if ledger_index(ls, owner) is None {
        assert forall|j: int| 0 <= j < ls.len() implies ls[j].owner != owner by {
            if ls[j].owner == owner {
                lemma_some_first(ls, owner, j);
            }
        }
        assert forall|i: int, j: int| 0 <= i < j < w.len() implies (#[trigger] w[i]).owner != (
        #[trigger] w[j]).owner by {
            if j < ls.len() {
                assert(w[i] == ls[i] && w[j] == ls[j]);
            } else {
                assert(w[i] == ls[i]);
            }
        }
        assert forall|i: int| 0 <= i < book.len() implies has_ledger(w, (#[trigger] book[i]).owner) by {
            assert(has_ledger(ls, book[i].owner));
            let j = choose|j: int| 0 <= j < ls.len() && (#[trigger] ls[j]).owner == book[i].owner;
            assert(w[j] == ls[j]);
        }
    }
}

/// Each fill moves funds between two ledgers, so crossing never changes
/// the totals.
proof fn lemma_cross_totals(
    is_bid: bool,
    price: u64,
    taker: int,
    remaining: nat,
    book: Seq<Order>,
    ls: Seq<OpenOrders>,
)
    requires
        0 <= taker < ls.len(),
        cross(is_bid, price, taker, remaining, book, ls) is Ok,
    ensures
        total_base(cross(is_bid, price, taker, remaining, book, ls)->Ok_0.2) == total_base(ls),
        total_quote(cross(is_bid, price, taker, remaining, book, ls)->Ok_0.2) == total_quote(ls),
    decreases remaining, book.len(),
{
    if remaining == 0 || book.len() == 0 || !crosses(is_bid, price, book[0]) {
    } else {
        let head = book[0];
        let m: nat = if remaining <= head.size {
            remaining
        } else {
            head.size as nat
        };
        let v = head.price * m;
        let ls1 = apply_fill(ls, taker, is_bid, m as int, v)->Ok_0;
        lemma_fill_totals(ls, taker, is_bid, m as int, v);
        let k = ledger_index(ls1, head.owner)->Some_0;
        assert(is_first_of(ls1, head.owner, k));
        let ls2 = apply_fill(ls1, k, !is_bid, m as int, v)->Ok_0;
        lemma_fill_totals(ls1, k, !is_bid, m as int, v);
        lemma_cross_totals(is_bid, price, taker, (remaining - m) as nat, after_fill(book, m), ls2);
    }
}

/// A cancellation keeps the resting state.
pub proof fn cancel_keeps_wf(ex: ExchangeView, signer: Pubkey, order_id: u128, is_bid: bool)
    requires
        wf(ex),
        cancel_outcome(ex, signer, order_id, is_bid) is Ok,
    ensures
        wf(cancel_outcome(ex, signer, order_id, is_bid)->Ok_0.0),
{
    let book = if is_bid {
        ex.bids.orders
    } else {
        ex.asks.orders
    };
    let i = order_index(book, order_id)->Some_0;
    assert(is_first_id(book, order_id, i));
    lemma_remove_sorted(is_bid, book, i);
    let k = ledger_index(ex.ledgers, signer)->Some_0;
    assert(is_first_of(ex.ledgers, signer, k));
    let refund = crate::engine::refund_of(is_bid, book[i]);
    let l = unlock(ex.ledgers[k], is_bid, refund)->Ok_0;
    let ls = ex.ledgers.update(k, l);
    lemma_same_owners_update(ex.ledgers, k, l);
    let rest = book.remove(i);
    assert forall|x: int| 0 <= x < rest.len() implies exists|j: int|
        0 <= j < book.len() && (#[trigger] rest[x]).owner == book[j].owner by {
        if x < i {
            assert(rest[x] == book[x]);
        } else {
            assert(rest[x] == book[x + 1]);
        }
    }
    lemma_backed_sub(book, rest, ex.ledgers);
    lemma_same_owners(ex.ledgers, ls, rest);
    lemma_same_owners(ex.ledgers, ls, ex.bids.orders);
    lemma_same_owners(ex.ledgers, ls, ex.asks.orders);
}

/// A cancellation takes out of the ledgers exactly the refund it sends.
pub proof fn cancel_conserves(ex: ExchangeView, signer: Pubkey, order_id: u128, is_bid: bool)
    requires
        cancel_outcome(ex, signer, order_id, is_bid) is Ok,
    ensures
        ({
            let (v, t) = cancel_outcome(ex, signer, order_id, is_bid)->Ok_0;
            &&& total_base(v.ledgers) == total_base(ex.ledgers) + t.base_in - t.base_out
            &&& total_quote(v.ledgers) == total_quote(ex.ledgers) + t.quote_in - t.quote_out
        }),
{
    let k = ledger_index(ex.ledgers, signer)->Some_0;
    assert(is_first_of(ex.ledgers, signer, k));
    let book = if is_bid {
        ex.bids.orders
    } else {
        ex.asks.orders
    };
    let i = order_index(book, order_id)->Some_0;
    let refund = crate::engine::refund_of(is_bid, book[i]);
    lemma_totals_update(ex.ledgers, k, unlock(ex.ledgers[k], is_bid, refund)->Ok_0);
}

/// Settlement touches no book.
pub proof fn settle_keeps_wf(ex: ExchangeView, signer: Pubkey)
    requires
        wf(ex),
        settle_outcome(ex, signer) is Ok,
    ensures
        wf(settle_outcome(ex, signer)->Ok_0.0),
{
    let k = ledger_index(ex.ledgers, signer)->Some_0;
    assert(is_first_of(ex.ledgers, signer, k));
    let l = ex.ledgers[k];
    let ls = ex.ledgers.update(k, OpenOrders { base_free: 0, quote_free: 0, ..l });
    lemma_same_owners_update(ex.ledgers, k, OpenOrders { base_free: 0, quote_free: 0, ..l });
    lemma_same_owners(ex.ledgers, ls, ex.bids.orders);
    lemma_same_owners(ex.ledgers, ls, ex.asks.orders);
}

/// Settlement takes out of the ledgers exactly what it sends.
pub proof fn settle_conserves(ex: ExchangeView, signer: Pubkey)
    requires
        settle_outcome(ex, signer) is Ok,
    ensures
        ({
            let (v, t) = settle_outcome(ex, signer)->Ok_0;
            &&& total_base(v.ledgers) == total_base(ex.ledgers) + t.base_in - t.base_out
            &&& total_quote(v.ledgers) == total_quote(ex.ledgers) + t.quote_in - t.quote_out
        }),
{
    let k = ledger_index(ex.ledgers, signer)->Some_0;
    assert(is_first_of(ex.ledgers, signer, k));
    let l = ex.ledgers[k];
    lemma_totals_update(ex.ledgers, k, OpenOrders { base_free: 0, quote_free: 0, ..l });
}

/// Conservation of funds: over any sequence of placements, cancellations
/// and settlements, free plus locked over all participants changes, in each
/// asset, by exactly the net amount moved into market custody; so market
/// custody minus that total never changes.
pub proof fn run_conserves(ex: ExchangeView, ops: Seq<Instruction>)
    ensures
        total_base(run(ex, ops).0.ledgers) == total_base(ex.ledgers) + run(ex, ops).1,
        total_quote(run(ex, ops).0.ledgers) == total_quote(ex.ledgers) + run(ex, ops).2,
    decreases ops.len(),
{
    if ops.len() > 0 {
        run_conserves(ex, ops.drop_last());
        let mid = run(ex, ops.drop_last()).0;
        if step(mid, ops.last()) is Ok {
            match ops.last() {
                Instruction::Place { signer, is_bid, price, size } => place_conserves(
                    mid,
                    signer,
                    is_bid,
                    price,
                    size,
                ),
                Instruction::Cancel { signer, order_id, is_bid } => cancel_conserves(
                    mid,
                    signer,
                    order_id,
                    is_bid,
                ),
                Instruction::Settle { signer } => settle_conserves(mid, signer),
            }
        }
    }
}

/// The resting state holds after any sequence of instructions: both books
/// stay in price-time order with only non-empty orders.
pub proof fn run_keeps_wf(ex: ExchangeView, ops: Seq<Instruction>)
    requires
        wf(ex),
    ensures
        wf(run(ex, ops).0),
    decreases ops.len(),
{
    if ops.len() > 0 {
        run_keeps_wf(ex, ops.drop_last());
        let mid = run(ex, ops.drop_last()).0;
        if step(mid, ops.last()) is Ok {
            match ops.last() {
                Instruction::Place { signer, is_bid, price, size } => place_keeps_wf(
                    mid,
                    signer,
                    is_bid,
                    price,
                    size,
                ),
                Instruction::Cancel { signer, order_id, is_bid } => cancel_keeps_wf(
                    mid,
                    signer,
                    order_id,
                    is_bid,
                ),
                Instruction::Settle { signer } => settle_keeps_wf(mid, signer),
            }
        }
    }
}

/// A fresh market, with both books empty, is in the resting state.
pub proof fn empty_market_wf(ex: ExchangeView)
    requires
        ex.bids.is_bid,
        !ex.asks.is_bid,
        ex.bids.orders.len() == 0,
        ex.asks.orders.len() == 0,
        ex.ledgers.len() == 0,
    ensures
        wf(ex),
{
}

/// Settlement is idempotent: right after a settlement succeeds, a second
/// one by the same participant fails `NoFundsToSettle` and moves nothing.
pub proof fn settle_twice_fails(ex: ExchangeView, signer: Pubkey)
    requires
        settle_outcome(ex, signer) is Ok,
    ensures
        settle_outcome(settle_outcome(ex, signer)->Ok_0.0, signer) == Err::<
            (ExchangeView, Transfers),
            ErrorCode,
        >(ErrorCode::NoFundsToSettle),
{
    let k = ledger_index(ex.ledgers, signer)->Some_0;
    assert(is_first_of(ex.ledgers, signer, k));
    let l = ex.ledgers[k];
    lemma_index_update(ex.ledgers, k, OpenOrders { base_free: 0, quote_free: 0, ..l }, signer);
}

/// Cancelling an identifier that no order on that side carries fails
/// `OrderNotFound`; the state is then left as it was.
pub proof fn cancel_unknown_fails(ex: ExchangeView, signer: Pubkey, order_id: u128, is_bid: bool)
    requires
        forall|i: int|
            0 <= i < side_orders(ex, is_bid).len() ==> (#[trigger] side_orders(ex, is_bid)[i]).order_id
                != order_id,
    ensures
        cancel_outcome(ex, signer, order_id, is_bid) == Err::<(ExchangeView, Transfers), ErrorCode>(
            ErrorCode::OrderNotFound,
        ),
{
    let book = side_orders(ex, is_bid);
    assert forall|i: int| !is_first_id(book, order_id, i) by {
        if 0 <= i < book.len() {
            assert(book[i].order_id != order_id);
        }
    }
    assert(order_index(book, order_id) is None);
}

} // verus!
