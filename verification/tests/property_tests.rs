use vending_machine::Coin;
use vending_machine::Coins;
use vending_machine::VendingError;
use vending_machine::VendingMachine;

#[test]
fn coin_accepts_each_denomination() {
    for &d in &[10u32, 50, 100, 500] {
        let coin = Coin::new(d).unwrap();
        assert_eq!(coin.value(), d);
    }
}

#[test]
fn coin_rejects_other_values() {
    for &v in &[0u32, 1, 25, 99, 110, 1000] {
        match Coin::new(v) {
            Err(VendingError::InvalidDenomination { value }) => assert_eq!(value, v),
            _ => panic!("value {} must be rejected as an invalid denomination", v),
        }
    }
}

#[test]
fn from_total_gives_exact_greedy_decomposition() {
    assert_eq!(Coins::from_total(280).values(), vec![100, 100, 50, 10, 10, 10]);
    assert_eq!(Coins::from_total(1360).values(), vec![500, 500, 100, 100, 100, 50, 10]);
    assert_eq!(Coins::from_total(0).values(), Vec::<u32>::new());
    assert_eq!(Coins::from_total(500).values(), vec![500]);
}

#[test]
fn from_total_sums_back_to_the_amount() {
    for &amount in &[0u32, 10, 20, 50, 60, 100, 150, 490, 510, 990, 12340] {
        assert_eq!(Coins::from_total(amount).sum(), amount);
    }
}

#[test]
fn return_coins_twice_gives_empty_collection() {
    let mut machine = VendingMachine::new();
    machine.insert_coin(Coin::new(500).unwrap());
    machine.insert_coin(Coin::new(10).unwrap());

    assert_eq!(machine.return_coins().sum(), 510);
    let second = machine.return_coins();
    assert_eq!(second.sum(), 0);
    assert_eq!(second.values(), Vec::<u32>::new());
}

#[test]
fn buy_cola_leaves_no_balance_for_exact_payment() {
    let mut machine = VendingMachine::new();
    machine.insert_coin(Coin::new(100).unwrap());

    assert_eq!(machine.press_button(0).unwrap(), "Cola");
    assert_eq!(machine.return_coins().sum(), 0);
}

#[test]
fn insufficient_payment_carries_price_and_payment() {
    let mut machine = VendingMachine::new();
    machine.insert_coin(Coin::new(50).unwrap());

    match machine.press_button(0) {
        Err(VendingError::InsufficientPayment { price, payment }) => {
            assert_eq!(price, 100);
            assert_eq!(payment, 50);
        },
        _ => panic!("pressing with 50 inserted must fail for a price of 100"),
    }
    assert_eq!(machine.return_coins().sum(), 50);
}

#[test]
fn no_such_button_carries_the_button_id() {
    let mut machine = VendingMachine::new();
    machine.insert_coin(Coin::new(500).unwrap());

    match machine.press_button(4) {
        Err(VendingError::NoSuchButton { button_id }) => assert_eq!(button_id, 4),
        _ => panic!("button 4 must not exist"),
    }
    match machine.is_button_shining(7) {
        Err(VendingError::NoSuchButton { button_id }) => assert_eq!(button_id, 7),
        _ => panic!("button 7 must not exist"),
    }
    assert_eq!(machine.return_coins().sum(), 500);
}

#[test]
fn red_bull_needs_two_hundred() {
    let mut machine = VendingMachine::new();
    machine.insert_coin(Coin::new(100).unwrap());
    assert!(!machine.is_button_shining(3).unwrap());

    machine.insert_coin(Coin::new(100).unwrap());
    assert!(machine.is_button_shining(3).unwrap());
}

#[test]
fn change_for_red_bull_uses_largest_coins_first() {
    let mut machine = VendingMachine::new();
    machine.insert_coin(Coin::new(500).unwrap());
    machine.insert_coin(Coin::new(500).unwrap());

    assert_eq!(machine.press_button(3).unwrap(), "Red Bull");
    assert_eq!(machine.return_coins().values(), vec![500, 100, 100, 100]);
}
