use vstd::prelude::*;

verus! {

/// Why an instruction aborted. Every error leaves the exchange unchanged.
#[derive(Clone, Copy, Debug, PartialEq, Eq, Structural)]
pub enum ErrorCode {
    /// The order to cancel is not in the book.
    OrderNotFound,
    /// The caller does not own the referenced order or ledger.
    UnauthorizedAccess,
    /// A checked subtraction on a ledger field would go below zero.
    InsufficientFunds,
    /// A checked addition or multiplication would overflow.
    MathOverflow,
    /// Settlement was asked for with nothing free to withdraw.
    NoFundsToSettle,
    /// The book already holds the largest number of resting orders.
    OrderBookFull,
}

/// The message that goes with each error.
pub open spec fn message_of(e: ErrorCode) -> Seq<char> {
    match e {
        ErrorCode::OrderNotFound => "Order not found"@,
        ErrorCode::UnauthorizedAccess => "Unauthorized access"@,
        ErrorCode::InsufficientFunds => "Insufficient funds"@,
        ErrorCode::MathOverflow => "Math overflow"@,
        ErrorCode::NoFundsToSettle => "No funds to settle"@,
        ErrorCode::OrderBookFull => "Order book is full"@,
    }
}

impl ErrorCode {
    /// A short human-readable message.
    pub fn message(&self) -> (r: String)
        ensures
            r@ == message_of(*self),
    {
        match self {
            ErrorCode::OrderNotFound => String::from_str("Order not found"),
            ErrorCode::UnauthorizedAccess => String::from_str("Unauthorized access"),
            ErrorCode::InsufficientFunds => String::from_str("Insufficient funds"),
            ErrorCode::MathOverflow => String::from_str("Math overflow"),
            ErrorCode::NoFundsToSettle => String::from_str("No funds to settle"),
            ErrorCode::OrderBookFull => String::from_str("Order book is full"),
        }
    }
}

} // verus!
