use vstd::prelude::*;

use crate::engine::{cancel_outcome, place_outcome, settle_outcome, Exchange, ExchangeView, Transfers};
use crate::error::ErrorCode;
use crate::order_book::BookView;
use crate::state::{Market, Pubkey};

verus! {

/// Creates a market for one trading pair, with both books empty.
pub struct Initialize {
    pub signer: Pubkey,
    pub base_mint: Pubkey,
    pub quote_mint: Pubkey,
    /// Address of the market record.
    pub market: Pubkey,
    pub bids: Pubkey,
    pub asks: Pubkey,
    pub base_vault: Pubkey,
    pub quote_vault: Pubkey,
}

/// A participant submitting a limit order against the market's state.
pub struct PlaceOrder {
    pub signer: Pubkey,
    pub exchange: Exchange,
}

/// A participant cancelling one of its resting orders.
pub struct CancelOrder {
    pub signer: Pubkey,
    pub exchange: Exchange,
}

/// A participant withdrawing its free balances.
pub struct SettleFunds {
    pub signer: Pubkey,
    pub exchange: Exchange,
}

impl Initialize {
    /// The new market: the signer is its authority, the order counter
    /// starts at zero, both books are empty and no participant has a
    /// ledger yet.
    pub fn initialize(&self) -> (r: Exchange)
        ensures
            r@ == (ExchangeView {
                market: Market {
                    authority: self.signer,
                    base_mint: self.base_mint,
                    quote_mint: self.quote_mint,
                    base_vault: self.base_vault,
                    quote_vault: self.quote_vault,
                    bids: self.bids,
                    asks: self.asks,
                    next_order_id: 0,
                },
                bids: BookView { market: self.market, is_bid: true, orders: Seq::empty() },
                asks: BookView { market: self.market, is_bid: false, orders: Seq::empty() },
                ledgers: Seq::empty(),
            }),
    {
        let market = Market {
            authority: self.signer,
            base_mint: self.base_mint,
            quote_mint: self.quote_mint,
            base_vault: self.base_vault,
            quote_vault: self.quote_vault,
            bids: self.bids,
            asks: self.asks,
            next_order_id: 0,
        };
        Exchange::new(market, self.market)
    }
}

impl PlaceOrder {
    pub fn place_order(&mut self, is_bid: bool, price: u64, size: u64) -> (r: Result<
        Transfers,
        ErrorCode,
    >)
        requires
            price > 0,
            size > 0,
        ensures
            final(self).signer == old(self).signer,
            match place_outcome(old(self).exchange@, old(self).signer, is_bid, price, size) {
                Ok((v, t)) => r == Ok::<Transfers, ErrorCode>(t) && final(self).exchange@ == v,
                Err(e) => r == Err::<Transfers, ErrorCode>(e) && final(self).exchange@ == old(
                    self,
                ).exchange@,
            },
    {
        self.exchange.place_order(self.signer, is_bid, price, size)
    }
}

impl CancelOrder {
    pub fn cancel_order(&mut self, order_id: u128, is_bid: bool) -> (r: Result<Transfers, ErrorCode>)
        ensures
            final(self).signer == old(self).signer,
            match cancel_outcome(old(self).exchange@, old(self).signer, order_id, is_bid) {
                Ok((v, t)) => r == Ok::<Transfers, ErrorCode>(t) && final(self).exchange@ == v,
                Err(e) => r == Err::<Transfers, ErrorCode>(e) && final(self).exchange@ == old(
                    self,
                ).exchange@,
            },
    {
        self.exchange.cancel_order(self.signer, order_id, is_bid)
    }
}

impl SettleFunds {
    pub fn settle_funds(&mut self) -> (r: Result<Transfers, ErrorCode>)
        ensures
            final(self).signer == old(self).signer,
            match settle_outcome(old(self).exchange@, old(self).signer) {
                Ok((v, t)) => r == Ok::<Transfers, ErrorCode>(t) && final(self).exchange@ == v,
                Err(e) => r == Err::<Transfers, ErrorCode>(e) && final(self).exchange@ == old(
                    self,
                ).exchange@,
            },
    {
        self.exchange.settle_funds(self.signer)
    }
}

/// Entry point: creates the market.
pub fn initialize(ctx: &Initialize) -> (r: Exchange)
    ensures
        r@ == (ExchangeView {
            market: Market {
                authority: ctx.signer,
                base_mint: ctx.base_mint,
                quote_mint: ctx.quote_mint,
                base_vault: ctx.base_vault,
                quote_vault: ctx.quote_vault,
                bids: ctx.bids,
                asks: ctx.asks,
                next_order_id: 0,
            },
            bids: BookView { market: ctx.market, is_bid: true, orders: Seq::empty() },
            asks: BookView { market: ctx.market, is_bid: false, orders: Seq::empty() },
            ledgers: Seq::empty(),
        }),
{
    ctx.initialize()
}

/// Entry point: places a limit order.
pub fn place_order(ctx: &mut PlaceOrder, is_bid: bool, price: u64, size: u64) -> (r: Result<
    Transfers,
    ErrorCode,
>)
    requires
        price > 0,
        size > 0,
    ensures
        final(ctx).signer == old(ctx).signer,
        match place_outcome(old(ctx).exchange@, old(ctx).signer, is_bid, price, size) {
            Ok((v, t)) => r == Ok::<Transfers, ErrorCode>(t) && final(ctx).exchange@ == v,
            Err(e) => r == Err::<Transfers, ErrorCode>(e) && final(ctx).exchange@ == old(
                ctx,
            ).exchange@,
        },
{
    ctx.place_order(is_bid, price, size)
}

/// Entry point: withdraws the caller's free balances.
pub fn settle_funds(ctx: &mut SettleFunds) -> (r: Result<Transfers, ErrorCode>)
    ensures
        final(ctx).signer == old(ctx).signer,
        match settle_outcome(old(ctx).exchange@, old(ctx).signer) {
            Ok((v, t)) => r == Ok::<Transfers, ErrorCode>(t) && final(ctx).exchange@ == v,
            Err(e) => r == Err::<Transfers, ErrorCode>(e) && final(ctx).exchange@ == old(
                ctx,
            ).exchange@,
        },
{
    ctx.settle_funds()
}

/// Entry point: cancels a resting order.
pub fn cancel_order(ctx: &mut CancelOrder, order_id: u128, is_bid: bool) -> (r: Result<
    Transfers,
    ErrorCode,
>)
    ensures
        final(ctx).signer == old(ctx).signer,
        match cancel_outcome(old(ctx).exchange@, old(ctx).signer, order_id, is_bid) {
            Ok((v, t)) => r == Ok::<Transfers, ErrorCode>(t) && final(ctx).exchange@ == v,
            Err(e) => r == Err::<Transfers, ErrorCode>(e) && final(ctx).exchange@ == old(
                ctx,
            ).exchange@,
        },
{
    ctx.cancel_order(order_id, is_bid)
}

} // verus!
