use vstd::prelude::*;
use vstd::arithmetic::div_mod::lemma_sub_mod_noop;

use crate::coin::Coin;
use crate::coin::Coins;
use crate::coin::greedy_seq;
use crate::coin::sum_values;
use crate::error::VendingError;

verus! {

/// One catalog entry: a beverage name and its price.
#[derive(Debug, Clone, Copy)]
struct Beverage {
    name: &'static str,
    price: u32,
}

/// The price behind each button of the fixed four-slot catalog.
pub open spec fn price_of(id: int) -> u32 {
    if id == 3 {
        200u32
    } else {
        100u32
    }
}

/// The beverage name behind each button of the fixed four-slot catalog.
pub open spec fn name_of(id: int) -> Seq<char> {
    if id == 0 {
        "Cola"@
    } else if id == 1 {
        "Woo long tea"@
    } else if id == 2 {
        "Ilohas"@
    } else {
        "Red Bull"@
    }
}

/// The machine: owns the coins inserted and not yet consumed or returned.
/// Its view is the sequence of face values of that balance.
pub struct VendingMachine {
    coins: Coins,
}

impl View for VendingMachine {
    type V = Seq<u32>;

    closed spec fn view(&self) -> Seq<u32> {
        self.coins@
    }
}

impl VendingMachine {
    /// A machine with no coins inserted.
    pub fn new() -> (r: VendingMachine)
        ensures
            r@ == Seq::<u32>::empty(),
    {
        VendingMachine { coins: Coins::new() }
    }

    /// Accepts one coin into the balance; always succeeds.
    pub fn insert_coin(&mut self, coin: Coin)
        ensures
            final(self)@ == old(self)@.push(coin@),
    {
        self.coins.push(coin);
    }

    /// Accepts a whole collection into the balance; always succeeds.
    pub fn insert_coins(&mut self, coins: Coins)
        ensures
            final(self)@ == old(self)@ + coins@,
    {
        self.coins.extend(coins);
    }

    fn coins_sum(&self) -> (r: u32)
        requires
            sum_values(self@) <= u32::MAX,
        ensures
            r == sum_values(self@),
            r % 10 == 0,
    {
        self.coins.sum()
    }

    fn get_beverage_by_button_id(&self, id: usize) -> (r: Result<Beverage, VendingError>)
        ensures
            r is Ok <==> id < 4,
            r matches Ok(b) ==> b.name@ == name_of(id as int) && b.price == price_of(id as int),
            r matches Err(e) ==> e == (VendingError::NoSuchButton { button_id: id }),
    {
        if id == 0 {
            Ok(Beverage { name: "Cola", price: 100 })
        } else if id == 1 {
            Ok(Beverage { name: "Woo long tea", price: 100 })
        } else if id == 2 {
            Ok(Beverage { name: "Ilohas", price: 100 })
        } else if id == 3 {
            Ok(Beverage { name: "Red Bull", price: 200 })
        } else {
            Err(VendingError::NoSuchButton { button_id: id })
        }
    }

    /// Whether the button's beverage can be bought with the current balance.
    pub fn is_button_shining(&self, button_id: usize) -> (r: Result<bool, VendingError>)
        requires
            sum_values(self@) <= u32::MAX,
        ensures
            button_id < 4 ==> r == Ok::<bool, VendingError>(
                sum_values(self@) >= price_of(button_id as int),
            ),
            button_id >= 4 ==> r == Err::<bool, VendingError>(
                (VendingError::NoSuchButton { button_id }),
            ),
    {
        let beverage = match self.get_beverage_by_button_id(button_id) {
            Ok(b) => b,
            Err(e) => {
                return Err(e);
            },
        };
        let button_available = self.coins_sum() >= beverage.price;
        Ok(button_available)
    }

    fn pay_with_coins(&mut self, price: u32) -> (r: Result<(), VendingError>)
        requires
            sum_values(old(self)@) <= u32::MAX,
            price % 10 == 0,
        ensures
            sum_values(old(self)@) < price ==> r == Err::<(), VendingError>(
                (VendingError::InsufficientPayment {
                    price,
                    payment: sum_values(old(self)@) as u32,
                }),
            ) && final(self)@ == old(self)@,
            sum_values(old(self)@) >= price ==> r is Ok && final(self)@ == greedy_seq(
                sum_values(old(self)@) - price,
            ),
    {
        let total = self.coins_sum();
        if total < price {
            return Err(VendingError::InsufficientPayment { price, payment: total });
        }
        let change = total - price;
        proof {
            lemma_sub_mod_noop(total as int, price as int, 10);
        }
        self.coins = Coins::from_total(change);
        Ok(())
    }

    /// Dispenses the beverage behind the button: resolves the button, checks
    /// that the balance covers the price, then replaces the balance with the
    /// canonical decomposition of the change and returns the beverage name.
    /// On any rejection the balance is untouched.
    pub fn press_button(&mut self, button_id: usize) -> (r: Result<String, VendingError>)
        requires
            sum_values(old(self)@) <= u32::MAX,
        ensures
            button_id >= 4 ==> r == Err::<String, VendingError>(
                (VendingError::NoSuchButton { button_id }),
            ) && final(self)@ == old(self)@,
            button_id < 4 && sum_values(old(self)@) < price_of(button_id as int) ==> r
                == Err::<String, VendingError>(
                (VendingError::InsufficientPayment {
                    price: price_of(button_id as int),
                    payment: sum_values(old(self)@) as u32,
                }),
            ) && final(self)@ == old(self)@,
            button_id < 4 && sum_values(old(self)@) >= price_of(button_id as int) ==> (r matches Ok(
                name,
            ) && name@ == name_of(button_id as int)) && final(self)@ == greedy_seq(
                sum_values(old(self)@) - price_of(button_id as int),
            ),
    {
        let beverage = match self.get_beverage_by_button_id(button_id) {
            Ok(b) => b,
            Err(e) => {
                return Err(e);
            },
        };
        match self.pay_with_coins(beverage.price) {
            Ok(u) => u,
            Err(e) => {
                return Err(e);
            },
        };
        Ok(beverage.name.to_string())
    }

    /// Removes and returns the whole balance, leaving the machine empty.
    pub fn return_coins(&mut self) -> (r: Coins)
        ensures
            return_coins_post(old(self)@, final(self)@, r@),
    {
        let mut taken = Coins::new();
        core::mem::swap(&mut self.coins, &mut taken);
        taken
    }
}

/// What one call of `return_coins` does to a balance: the whole balance comes
/// back to the caller and the machine keeps nothing.
pub open spec fn return_coins_post(before: Seq<u32>, after: Seq<u32>, returned: Seq<u32>) -> bool {
    returned == before && after == Seq::<u32>::empty()
}

/// Returning the balance empties the machine, so a second return straight
/// after the first always yields an empty collection.
pub proof fn lemma_return_coins_idempotent(
    b0: Seq<u32>,
    b1: Seq<u32>,
    r1: Seq<u32>,
    b2: Seq<u32>,
    r2: Seq<u32>,
)
    requires
        return_coins_post(b0, b1, r1),
        return_coins_post(b1, b2, r2),
    ensures
        r2 == Seq::<u32>::empty(),
{
}

} // verus!
