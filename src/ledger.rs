use vstd::prelude::*;

use crate::error::ErrorCode;
use crate::state::{OpenOrders, Pubkey};

verus! {

/// `a - amt`, or `InsufficientFunds` where it would go below zero.
pub open spec fn debit(a: u64, amt: int) -> Result<u64, ErrorCode> {
    if 0 <= amt <= a {
        Ok((a - amt) as u64)
    } else {
        Err(ErrorCode::InsufficientFunds)
    }
}

/// `a + amt`, or `MathOverflow` where it would not fit in 64 bits.
pub open spec fn credit(a: u64, amt: int) -> Result<u64, ErrorCode> {
    if 0 <= amt && a + amt <= u64::MAX {
        Ok((a + amt) as u64)
    } else {
        Err(ErrorCode::MathOverflow)
    }
}

/// The buying side of a fill of `m` base units worth `v` quote units:
/// quote leaves `quote_locked`, base arrives in `base_free`.
pub open spec fn fill_buyer(l: OpenOrders, m: int, v: int) -> Result<OpenOrders, ErrorCode> {
    match debit(l.quote_locked, v) {
        Err(e) => Err(e),
        Ok(ql) => match credit(l.base_free, m) {
            Err(e) => Err(e),
            Ok(bf) => Ok(OpenOrders { quote_locked: ql, base_free: bf, ..l }),
        },
    }
}

/// The selling side of a fill: base leaves `base_locked`, quote arrives in
/// `quote_free`.
pub open spec fn fill_seller(l: OpenOrders, m: int, v: int) -> Result<OpenOrders, ErrorCode> {
    match debit(l.base_locked, m) {
        Err(e) => Err(e),
        Ok(bl) => match credit(l.quote_free, v) {
            Err(e) => Err(e),
            Ok(qf) => Ok(OpenOrders { base_locked: bl, quote_free: qf, ..l }),
        },
    }
}

/// Applies one side of a fill to the entry at `i`.
pub open spec fn apply_fill(ls: Seq<OpenOrders>, i: int, buyer: bool, m: int, v: int) -> Result<
    Seq<OpenOrders>,
    ErrorCode,
> {
    let r = if buyer {
        fill_buyer(ls[i], m, v)
    } else {
        fill_seller(ls[i], m, v)
    };
    match r {
        Err(e) => Err(e),
        Ok(l) => Ok(ls.update(i, l)),
    }
}

/// `i` is the first entry of `ls` that belongs to `owner`.
pub open spec fn is_first_of(ls: Seq<OpenOrders>, owner: Pubkey, i: int) -> bool {
    &&& 0 <= i < ls.len()
    &&& ls[i].owner == owner
    &&& forall|j: int| 0 <= j < i ==> ls[j].owner != owner
}

/// Position of `owner`'s entry in the directory, if it has one.
pub open spec fn ledger_index(ls: Seq<OpenOrders>, owner: Pubkey) -> Option<int> {
    if exists|i: int| is_first_of(ls, owner, i) {
        Some(choose|i: int| is_first_of(ls, owner, i))
    } else {
        None
    }
}

pub proof fn lemma_first_unique(ls: Seq<OpenOrders>, owner: Pubkey, i: int)
    requires
        is_first_of(ls, owner, i),
    ensures
        ledger_index(ls, owner) == Some(i),
{
    let k = choose|k: int| is_first_of(ls, owner, k);
    assert(is_first_of(ls, owner, k));
    if k < i {
        assert(ls[k].owner != owner);
    } else if i < k {
        assert(ls[i].owner != owner);
    }
}

/// Owners stay where they are when an entry's balances change.
pub proof fn lemma_index_update(ls: Seq<OpenOrders>, i: int, l: OpenOrders, owner: Pubkey)
    requires
        0 <= i < ls.len(),
        l.owner == ls[i].owner,
    ensures
        ledger_index(ls.update(i, l), owner) == ledger_index(ls, owner),
{
    let ls2 = ls.update(i, l);
    assert(forall|j: int| 0 <= j < ls.len() ==> #[trigger] ls2[j].owner == ls[j].owner);
    if let Some(k) = ledger_index(ls, owner) {
        assert(is_first_of(ls, owner, k));
        assert(is_first_of(ls2, owner, k));
        lemma_first_unique(ls2, owner, k);
    } else if let Some(k) = ledger_index(ls2, owner) {
        assert(is_first_of(ls2, owner, k));
        assert forall|j: int| 0 <= j < k implies ls[j].owner != owner by {
            assert(ls2[j].owner != owner);
        }
        assert(is_first_of(ls, owner, k));
    }
}

/// Free plus locked base over every entry.
pub open spec fn total_base(ls: Seq<OpenOrders>) -> int
    decreases ls.len(),
{
    if ls.len() == 0 {
        0
    } else {
        total_base(ls.drop_last()) + ls.last().base_free + ls.last().base_locked
    }
}

/// Free plus locked quote over every entry.
pub open spec fn total_quote(ls: Seq<OpenOrders>) -> int
    decreases ls.len(),
{
    if ls.len() == 0 {
        0
    } else {
        total_quote(ls.drop_last()) + ls.last().quote_free + ls.last().quote_locked
    }
}

pub proof fn lemma_totals_update(ls: Seq<OpenOrders>, i: int, l: OpenOrders)
    requires
        0 <= i < ls.len(),
    ensures
        total_base(ls.update(i, l)) == total_base(ls) - ls[i].base_free - ls[i].base_locked
            + l.base_free + l.base_locked,
        total_quote(ls.update(i, l)) == total_quote(ls) - ls[i].quote_free - ls[i].quote_locked
            + l.quote_free + l.quote_locked,
    decreases ls.len(),
{
    let u = ls.update(i, l);
    if i == ls.len() - 1 {
        assert(u.drop_last() =~= ls.drop_last());
    } else {
        assert(u.drop_last() =~= ls.drop_last().update(i, l));
        lemma_totals_update(ls.drop_last(), i, l);
    }
}

pub proof fn lemma_totals_push(ls: Seq<OpenOrders>, l: OpenOrders)
    ensures
        total_base(ls.push(l)) == total_base(ls) + l.base_free + l.base_locked,
        total_quote(ls.push(l)) == total_quote(ls) + l.quote_free + l.quote_locked,
{
    assert(ls.push(l).drop_last() =~= ls);
}

/// A fill moves value between two entries and creates or destroys none:
/// the buyer's and the seller's changes cancel out in both totals.
pub proof fn lemma_fill_totals(ls: Seq<OpenOrders>, i: int, buyer: bool, m: int, v: int)
    requires
        0 <= i < ls.len(),
        apply_fill(ls, i, buyer, m, v).is_ok(),
    ensures
        buyer ==> total_base(apply_fill(ls, i, buyer, m, v)->Ok_0) == total_base(ls) + m,
        buyer ==> total_quote(apply_fill(ls, i, buyer, m, v)->Ok_0) == total_quote(ls) - v,
        !buyer ==> total_base(apply_fill(ls, i, buyer, m, v)->Ok_0) == total_base(ls) - m,
        !buyer ==> total_quote(apply_fill(ls, i, buyer, m, v)->Ok_0) == total_quote(ls) + v,
{
    let l = if buyer {
        fill_buyer(ls[i], m, v)->Ok_0
    } else {
        fill_seller(ls[i], m, v)->Ok_0
    };
    lemma_totals_update(ls, i, l);
}

/// Finds `owner`'s entry in the directory.
pub fn find_ledger(ls: &Vec<OpenOrders>, owner: Pubkey) -> (r: Option<usize>)
    ensures
        match r {
            Some(i) => ledger_index(ls@, owner) == Some(i as int),
            None => ledger_index(ls@, owner) is None && forall|j: int|
                0 <= j < ls@.len() ==> (#[trigger] ls@[j]).owner != owner,
        },
{
    let mut i: usize = 0;
    while i < ls.len()
        invariant
            i <= ls.len(),
            forall|j: int| 0 <= j < i ==> ls@[j].owner != owner,
        decreases ls.len() - i,
    {
        if ls[i].owner == owner {
            proof {
                lemma_first_unique(ls@, owner, i as int);
            }
            return Some(i);
        }
        i = i + 1;
    }
    None
}

pub fn checked_debit(a: u64, amt: u64) -> (r: Result<u64, ErrorCode>)
    ensures
        r == debit(a, amt as int),
{
    if amt <= a {
        Ok(a - amt)
    } else {
        Err(ErrorCode::InsufficientFunds)
    }
}

pub fn checked_credit(a: u64, amt: u64) -> (r: Result<u64, ErrorCode>)
    ensures
        r == credit(a, amt as int),
{
    match a.checked_add(amt) {
        Some(s) => Ok(s),
        None => Err(ErrorCode::MathOverflow),
    }
}

/// Applies one side of a fill of `m` base units worth `v` quote units to
/// the entry at `i`.
pub fn fill_at(ls: &mut Vec<OpenOrders>, i: usize, buyer: bool, m: u64, v: u64) -> (r: Result<
    (),
    ErrorCode,
>)
    requires
        i < old(ls).len(),
    ensures
        match apply_fill(old(ls)@, i as int, buyer, m as int, v as int) {
            Ok(s) => r is Ok && final(ls)@ == s,
            Err(e) => r == Err::<(), ErrorCode>(e) && final(ls)@ == old(ls)@,
        },
{
    let l = ls[i];
    let updated = if buyer {
        let ql = checked_debit(l.quote_locked, v)?;
        let bf = checked_credit(l.base_free, m)?;
        OpenOrders { quote_locked: ql, base_free: bf, ..l }
    } else {
        let bl = checked_debit(l.base_locked, m)?;
        let qf = checked_credit(l.quote_free, v)?;
        OpenOrders { base_locked: bl, quote_free: qf, ..l }
    };
    ls.set(i, updated);
    Ok(())
}

/// A copy of the directory, entry for entry.
pub fn copy_ledgers(ls: &Vec<OpenOrders>) -> (r: Vec<OpenOrders>)
    ensures
        r@ == ls@,
{
    let mut r: Vec<OpenOrders> = Vec::new();
    let mut i: usize = 0;
    while i < ls.len()
        invariant
            i <= ls.len(),
            r@ == ls@.subrange(0, i as int),
        decreases ls.len() - i,
    {
        r.push(ls[i]);
        i = i + 1;
    }
    assert(r@ =~= ls@);
    r
}

} // verus!
