use vstd::prelude::*;

use crate::error::ErrorCode;
use crate::state::{Order, Pubkey, MAX_ORDERS};

verus! {

/// The book of one side: resting orders in priority order.
pub struct OrderBook {
    /// Address of the market the book belongs to.
    pub market: Pubkey,
    pub is_bid: bool,
    pub orders: Vec<Order>,
}

/// What a book holds, as mathematical values.
pub struct BookView {
    pub market: Pubkey,
    pub is_bid: bool,
    pub orders: Seq<Order>,
}

impl View for OrderBook {
    type V = BookView;

    open spec fn view(&self) -> BookView {
        BookView { market: self.market, is_bid: self.is_bid, orders: self.orders@ }
    }
}

/// `a` is matched before `b`: better price, or the same price and an
/// earlier arrival. Bids rank higher prices first, asks lower prices first.
pub open spec fn ranks_before(is_bid: bool, a: Order, b: Order) -> bool {
    if a.price == b.price {
        a.order_id < b.order_id
    } else if is_bid {
        a.price > b.price
    } else {
        a.price < b.price
    }
}

/// The sequence is in strict price-time priority for its side.
pub open spec fn sorted(is_bid: bool, s: Seq<Order>) -> bool {
    forall|i: int, j: int| 0 <= i < j < s.len() ==> ranks_before(is_bid, #[trigger] s[i], #[trigger] s[j])
}

/// Every resting order has something left to fill.
pub open spec fn all_positive(s: Seq<Order>) -> bool {
    forall|i: int| 0 <= i < s.len() ==> #[trigger] s[i].size > 0
}

/// Every identifier in the book was handed out before `next_id`.
pub open spec fn ids_below(s: Seq<Order>, next_id: int) -> bool {
    forall|i: int| 0 <= i < s.len() ==> #[trigger] s[i].order_id < next_id
}

/// A newly arriving order at `price` ranks ahead of `o`.
pub open spec fn worse_than(is_bid: bool, price: u64, o: Order) -> bool {
    if is_bid {
        o.price < price
    } else {
        o.price > price
    }
}

/// `p` is where a newly arriving order at `price` goes: after every order
/// at an equal or better price, before every order at a worse one.
pub open spec fn is_insert_pos(is_bid: bool, s: Seq<Order>, price: u64, p: int) -> bool {
    &&& 0 <= p <= s.len()
    &&& forall|j: int| 0 <= j < p ==> !worse_than(is_bid, price, #[trigger] s[j])
    &&& p < s.len() ==> worse_than(is_bid, price, s[p])
}

pub open spec fn insert_pos(is_bid: bool, s: Seq<Order>, price: u64) -> int {
    choose|p: int| is_insert_pos(is_bid, s, price, p)
}

/// `i` is the first order in `s` with identifier `id`.
pub open spec fn is_first_id(s: Seq<Order>, id: u128, i: int) -> bool {
    &&& 0 <= i < s.len()
    &&& s[i].order_id == id
    &&& forall|j: int| 0 <= j < i ==> (#[trigger] s[j]).order_id != id
}

/// Position of the order with identifier `id`, if the book holds one.
pub open spec fn order_index(s: Seq<Order>, id: u128) -> Option<int> {
    if exists|i: int| is_first_id(s, id, i) {
        Some(choose|i: int| is_first_id(s, id, i))
    } else {
        None
    }
}

pub proof fn lemma_insert_pos_unique(is_bid: bool, s: Seq<Order>, price: u64, p: int)
    requires
        is_insert_pos(is_bid, s, price, p),
    ensures
        insert_pos(is_bid, s, price) == p,
{
    let q = insert_pos(is_bid, s, price);
    assert(is_insert_pos(is_bid, s, price, q));
    if q < p {
        assert(!worse_than(is_bid, price, s[q]));
    } else if p < q {
        assert(!worse_than(is_bid, price, s[p]));
    }
}

pub proof fn lemma_insert_pos_exists(is_bid: bool, s: Seq<Order>, price: u64)
    ensures
        is_insert_pos(is_bid, s, price, insert_pos(is_bid, s, price)),
    decreases s.len(),
{
    if s.len() == 0 {
        assert(is_insert_pos(is_bid, s, price, 0));
    } else {
        let t = s.drop_last();
        lemma_insert_pos_exists(is_bid, t, price);
        let p = insert_pos(is_bid, t, price);
        if p < t.len() {
            assert(is_insert_pos(is_bid, s, price, p)) by {
                assert forall|j: int| 0 <= j < p implies !worse_than(is_bid, price, #[trigger] s[j]) by {
                    assert(s[j] == t[j]);
                }
            }
        } else if worse_than(is_bid, price, s.last()) {
            assert(is_insert_pos(is_bid, s, price, p)) by {
                assert forall|j: int| 0 <= j < p implies !worse_than(is_bid, price, #[trigger] s[j]) by {
                    assert(s[j] == t[j]);
                }
            }
        } else {
            assert(is_insert_pos(is_bid, s, price, s.len() as int)) by {
                assert forall|j: int| 0 <= j < s.len() implies !worse_than(
                    is_bid,
                    price,
                    #[trigger] s[j],
                ) by {
                    if j < t.len() {
                        assert(s[j] == t[j]);
                    }
                }
            }
        }
    }
}

pub proof fn lemma_first_id_unique(s: Seq<Order>, id: u128, i: int)
    requires
        is_first_id(s, id, i),
    ensures
        order_index(s, id) == Some(i),
{
    let k = choose|k: int| is_first_id(s, id, k);
    assert(is_first_id(s, id, k));
    if k < i {
        assert(s[k].order_id != id);
    } else if i < k {
        assert(s[i].order_id != id);
    }
}

/// Inserting an order that arrived after every resting one, at its
/// position, keeps the book sorted.
pub proof fn lemma_insert_sorted(is_bid: bool, s: Seq<Order>, o: Order)
    requires
        sorted(is_bid, s),
        ids_below(s, o.order_id as int),
    ensures
        sorted(is_bid, s.insert(insert_pos(is_bid, s, o.price), o)),
{
    lemma_insert_pos_exists(is_bid, s, o.price);
    let p = insert_pos(is_bid, s, o.price);
    let u = s.insert(p, o);
    assert forall|i: int, j: int| 0 <= i < j < u.len() implies ranks_before(
        is_bid,
        #[trigger] u[i],
        #[trigger] u[j],
    ) by {
        if j < p {
            assert(u[i] == s[i] && u[j] == s[j]);
        } else if j == p {
            assert(u[i] == s[i]);
            assert(!worse_than(is_bid, o.price, s[i]));
            assert(s[i].order_id < o.order_id);
        } else if i == p {
            assert(u[j] == s[j - 1]);
            assert(worse_than(is_bid, o.price, s[p]));
            if j - 1 > p {
                assert(ranks_before(is_bid, s[p], s[j - 1]));
            }
        } else if i < p {
            assert(u[i] == s[i] && u[j] == s[j - 1]);
        } else {
            assert(u[i] == s[i - 1] && u[j] == s[j - 1]);
        }
    }
}

pub proof fn lemma_remove_sorted(is_bid: bool, s: Seq<Order>, k: int)
    requires
        sorted(is_bid, s),
        all_positive(s),
        0 <= k < s.len(),
    ensures
        sorted(is_bid, s.remove(k)),
        all_positive(s.remove(k)),
        forall|b: int| ids_below(s, b) ==> ids_below(s.remove(k), b),
{
    let u = s.remove(k);
    assert forall|i: int, j: int| 0 <= i < j < u.len() implies ranks_before(
        is_bid,
        #[trigger] u[i],
        #[trigger] u[j],
    ) by {
        let si = if i < k { i } else { i + 1 };
        let sj = if j < k { j } else { j + 1 };
        assert(u[i] == s[si] && u[j] == s[sj]);
    }
    assert forall|i: int| 0 <= i < u.len() implies #[trigger] u[i].size > 0 by {
        let si = if i < k { i } else { i + 1 };
        assert(u[i] == s[si]);
    }
    assert forall|b: int| ids_below(s, b) implies ids_below(u, b) by {
        assert forall|i: int| 0 <= i < u.len() implies #[trigger] u[i].order_id < b by {
            let si = if i < k { i } else { i + 1 };
            assert(u[i] == s[si]);
        }
    }
}

/// Changing the size of the head keeps the book sorted.
pub proof fn lemma_resize_head(is_bid: bool, s: Seq<Order>, n: u64)
    requires
        sorted(is_bid, s),
        all_positive(s),
        s.len() > 0,
        n > 0,
    ensures
        sorted(is_bid, s.update(0, Order { size: n, ..s[0] })),
        all_positive(s.update(0, Order { size: n, ..s[0] })),
        forall|b: int| ids_below(s, b) ==> ids_below(s.update(0, Order { size: n, ..s[0] }), b),
{
    let u = s.update(0, Order { size: n, ..s[0] });
    assert forall|i: int, j: int| 0 <= i < j < u.len() implies ranks_before(
        is_bid,
        #[trigger] u[i],
        #[trigger] u[j],
    ) by {
        assert(ranks_before(is_bid, s[i], s[j]));
    }
    assert forall|i: int| 0 <= i < u.len() implies #[trigger] u[i].size > 0 by {
        assert(s[i].size > 0);
    }
    assert forall|b: int| ids_below(s, b) implies ids_below(u, b) by {
        assert forall|i: int| 0 <= i < u.len() implies #[trigger] u[i].order_id < b by {
            assert(s[i].order_id < b);
        }
    }
}

impl OrderBook {
    /// An empty book for one side of `market`.
    pub fn new(market: Pubkey, is_bid: bool) -> (r: OrderBook)
        ensures
            r@ == (BookView { market, is_bid, orders: Seq::empty() }),
    {
        OrderBook { market, is_bid, orders: Vec::new() }
    }

    pub fn len(&self) -> (r: usize)
        ensures
            r == self@.orders.len(),
    {
        self.orders.len()
    }

    /// The order matched first, if any.
    pub fn peek_head(&self) -> (r: Option<Order>)
        ensures
            r == (if self@.orders.len() == 0 {
                None
            } else {
                Some(self@.orders[0])
            }),
    {
        if self.orders.len() == 0 {
            None
        } else {
            Some(self.orders[0])
        }
    }

    /// Position of the order with identifier `order_id`.
    pub fn find_order(&self, order_id: u128) -> (r: Option<usize>)
        ensures
            match r {
                Some(i) => order_index(self@.orders, order_id) == Some(i as int),
                None => order_index(self@.orders, order_id) is None,
            },
    {
        let mut i: usize = 0;
        while i < self.orders.len()
            invariant
                i <= self.orders.len(),
                forall|j: int| 0 <= j < i ==> (#[trigger] self.orders@[j]).order_id != order_id,
            decreases self.orders.len() - i,
        {
            if self.orders[i].order_id == order_id {
                proof {
                    lemma_first_id_unique(self.orders@, order_id, i as int);
                }
                return Some(i);
            }
            i = i + 1;
        }
        None
    }

    /// Takes out the order at `index`, keeping the others in order.
    pub fn remove_at(&mut self, index: usize) -> (r: Order)
        requires
            index < old(self)@.orders.len(),
        ensures
            r == old(self)@.orders[index as int],
            final(self)@ == (BookView { orders: old(self)@.orders.remove(index as int), ..old(self)@ }),
    {
        self.orders.remove(index)
    }

    /// Where a newly arriving order at `price` goes.
    pub fn position_for(&self, price: u64) -> (r: usize)
        ensures
            r == insert_pos(self.is_bid, self@.orders, price),
            is_insert_pos(self.is_bid, self@.orders, price, r as int),
    {
        let mut i: usize = 0;
        while i < self.orders.len()
            invariant
                i <= self.orders.len(),
                forall|j: int| 0 <= j < i ==> !worse_than(self.is_bid, price, #[trigger] self.orders@[j]),
            decreases self.orders.len() - i,
        {
            let o = self.orders[i];
            let worse = if self.is_bid {
                o.price < price
            } else {
                o.price > price
            };
            if worse {
                proof {
                    lemma_insert_pos_unique(self.is_bid, self.orders@, price, i as int);
                }
                return i;
            }
            i = i + 1;
        }
        proof {
            lemma_insert_pos_unique(self.is_bid, self.orders@, price, i as int);
        }
        i
    }

    /// Rests `order` behind every order at an equal or better price.
    /// A full book refuses it.
    pub fn insert_sorted(&mut self, order: Order) -> (r: Result<(), ErrorCode>)
        ensures
            old(self)@.orders.len() >= MAX_ORDERS ==> r == Err::<(), ErrorCode>(
                ErrorCode::OrderBookFull,
            ) && final(self)@ == old(self)@,
            old(self)@.orders.len() < MAX_ORDERS ==> r is Ok && final(self)@ == (BookView {
                orders: old(self)@.orders.insert(
                    insert_pos(old(self).is_bid, old(self)@.orders, order.price),
                    order,
                ),
                ..old(self)@
            }),
    {
        if self.orders.len() >= MAX_ORDERS {
            return Err(ErrorCode::OrderBookFull);
        }
        let p = self.position_for(order.price);
        self.orders.insert(p, order);
        Ok(())
    }

    /// A copy of the book, order for order.
    pub fn copy(&self) -> (r: OrderBook)
        ensures
            r@ == self@,
    {
        let mut orders: Vec<Order> = Vec::new();
        let mut i: usize = 0;
        while i < self.orders.len()
            invariant
                i <= self.orders.len(),
                orders@ == self.orders@.subrange(0, i as int),
            decreases self.orders.len() - i,
        {
            orders.push(self.orders[i]);
            i = i + 1;
        }
        assert(orders@ =~= self.orders@);
        OrderBook { market: self.market, is_bid: self.is_bid, orders }
    }
}

} // verus!
