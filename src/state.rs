use vstd::prelude::*;

verus! {

/// Largest number of resting orders one book may hold.
pub const MAX_ORDERS: usize = 128;

/// A 32-byte account identity (participant, asset, custody or record),
/// held as four little-endian 64-bit words.
#[derive(Clone, Copy, Debug, PartialEq, Eq, Structural)]
pub struct Pubkey {
    pub w0: u64,
    pub w1: u64,
    pub w2: u64,
    pub w3: u64,
}

impl Pubkey {
    pub fn new(w0: u64, w1: u64, w2: u64, w3: u64) -> (r: Pubkey)
        ensures
            r == (Pubkey { w0, w1, w2, w3 }),
    {
        Pubkey { w0, w1, w2, w3 }
    }
}

/// A resting limit order. The identifier comes from a per-market counter
/// and doubles as the arrival sequence number for time priority.
#[derive(Clone, Copy, Debug, PartialEq, Eq, Structural)]
pub struct Order {
    pub order_id: u128,
    pub owner: Pubkey,
    /// Quote units per base unit.
    pub price: u64,
    /// Remaining size in base units.
    pub size: u64,
}

/// One participant's balances in the market.
#[derive(Clone, Copy, Debug, PartialEq, Eq, Structural)]
pub struct OpenOrders {
    pub owner: Pubkey,
    pub base_free: u64,
    pub base_locked: u64,
    pub quote_free: u64,
    pub quote_locked: u64,
}

impl OpenOrders {
    /// A fresh ledger entry for `owner`, every balance zero.
    pub fn new(owner: Pubkey) -> (r: OpenOrders)
        ensures
            r == OpenOrders::empty(owner),
    {
        OpenOrders { owner, base_free: 0, base_locked: 0, quote_free: 0, quote_locked: 0 }
    }

    pub open spec fn empty(owner: Pubkey) -> OpenOrders {
        OpenOrders { owner, base_free: 0, base_locked: 0, quote_free: 0, quote_locked: 0 }
    }
}

/// Static registry of the trading pair, plus the counter that hands out
/// order identifiers.
#[derive(Clone, Copy, Debug, PartialEq, Eq, Structural)]
pub struct Market {
    pub authority: Pubkey,
    pub base_mint: Pubkey,
    pub quote_mint: Pubkey,
    pub base_vault: Pubkey,
    pub quote_vault: Pubkey,
    pub bids: Pubkey,
    pub asks: Pubkey,
    /// Identifier of the next order to rest; strictly increasing.
    pub next_order_id: u128,
}

} // verus!
