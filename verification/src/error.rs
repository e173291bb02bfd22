use vstd::prelude::*;

verus! {

/// Every way an operation of the vending machine can be refused.
///
/// All rejections are reported to the caller; no operation panics.
#[derive(Debug, Clone, Copy, PartialEq, Eq, Structural)]
pub enum VendingError {
    /// The given value is not one of the accepted coin denominations.
    InvalidDenomination { value: u32 },
    /// The given button id does not refer to a catalog entry.
    NoSuchButton { button_id: usize },
    /// The balance is below the price of the chosen beverage; carries the
    /// price asked and the payment present so a caller can display them.
    InsufficientPayment { price: u32, payment: u32 },
}

} // verus!
