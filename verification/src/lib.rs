//! A verified model of a small vending machine: validated coins, a balance
//! kept as a collection of coins, and a fixed four-slot beverage catalog.

pub mod coin;
pub mod error;
pub mod vending_machine;

pub use coin::Coin;
pub use coin::Coins;
pub use error::VendingError;
pub use vending_machine::VendingMachine;
