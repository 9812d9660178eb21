use ledger::{Bank, BankError, Entry, TransferReceipt};

fn seeded() -> Bank {
    let mut bank = Bank::new(String::from("Punjab National Bank"));
    assert_eq!(bank.create_account(1, 1000), Ok(()));
    assert_eq!(bank.create_account(2, 500), Ok(()));
    bank
}

#[test]
fn new_bank_is_empty_and_keeps_its_name() {
    let bank = Bank::new(String::from("Punjab National Bank"));
    assert_eq!(bank.name().as_str(), "Punjab National Bank");
    assert!(bank.ids().is_empty());
    assert_eq!(bank.get_balance(1), Err(BankError::AccountNotFound));
}

#[test]
fn created_accounts_are_listed_in_order() {
    let mut bank = seeded();
    assert_eq!(bank.create_account(7, 0), Ok(()));
    assert_eq!(bank.ids(), vec![1, 2, 7]);
    assert_eq!(bank.get_balance(7), Ok(0));
    assert!(bank.get_transaction_history(7).unwrap().is_empty());
}

#[test]
fn duplicate_id_is_rejected_without_change() {
    let mut bank = seeded();
    assert_eq!(bank.create_account(1, 42), Err(BankError::DuplicateAccount));
    assert_eq!(bank.get_balance(1), Ok(1000));
    assert_eq!(bank.ids(), vec![1, 2]);
}

#[test]
fn negative_initial_balance_is_rejected() {
    let mut bank = seeded();
    assert_eq!(bank.create_account(3, -1), Err(BankError::InvalidAmount));
    assert_eq!(bank.get_balance(3), Err(BankError::AccountNotFound));
    assert_eq!(bank.create_account(1, -1), Err(BankError::InvalidAmount));
}

#[test]
fn deposit_then_negative_deposit() {
    let mut bank = seeded();
    assert_eq!(bank.deposit(1, 100), Ok(1100));
    assert_eq!(bank.get_balance(1), Ok(1100));
    assert_eq!(bank.deposit(1, -5), Err(BankError::InvalidAmount));
    assert_eq!(bank.get_balance(1), Ok(1100));
    assert_eq!(
        bank.get_transaction_history(1).unwrap(),
        &vec![Entry::Deposit { amount: 100 }]
    );
}

#[test]
fn deposit_zero_is_accepted() {
    let mut bank = seeded();
    assert_eq!(bank.deposit(2, 0), Ok(500));
    assert_eq!(
        bank.get_transaction_history(2).unwrap(),
        &vec![Entry::Deposit { amount: 0 }]
    );
}

#[test]
fn deposit_errors() {
    let mut bank = seeded();
    assert_eq!(bank.deposit(9, 10), Err(BankError::AccountNotFound));
    assert_eq!(bank.deposit(9, -10), Err(BankError::InvalidAmount));
}

#[test]
fn withdraw_then_overdraw() {
    let mut bank = seeded();
    assert_eq!(bank.withdraw(2, 50), Ok(450));
    assert_eq!(bank.withdraw(2, 10000), Err(BankError::InsufficientFunds));
    assert_eq!(bank.get_balance(2), Ok(450));
    assert_eq!(
        bank.get_transaction_history(2).unwrap(),
        &vec![Entry::Withdrawal { amount: 50 }]
    );
}

#[test]
fn withdraw_whole_balance_leaves_zero() {
    let mut bank = seeded();
    assert_eq!(bank.withdraw(2, 500), Ok(0));
    assert_eq!(bank.withdraw(2, 1), Err(BankError::InsufficientFunds));
}

#[test]
fn withdraw_errors_in_order() {
    let mut bank = seeded();
    assert_eq!(bank.withdraw(9, -1), Err(BankError::InvalidAmount));
    assert_eq!(bank.withdraw(9, 1), Err(BankError::AccountNotFound));
    assert_eq!(bank.withdraw(1, -1), Err(BankError::InvalidAmount));
}

#[test]
fn transfer_moves_funds_and_records_both_sides() {
    let mut bank = seeded();
    assert_eq!(bank.deposit(1, 100), Ok(1100));
    assert_eq!(bank.withdraw(2, 50), Ok(450));
    assert_eq!(
        bank.transfer(1, 2, 200),
        Ok(TransferReceipt { from_id: 1, to_id: 2, amount: 200 })
    );
    assert_eq!(bank.get_balance(1), Ok(900));
    assert_eq!(bank.get_balance(2), Ok(650));
    assert_eq!(
        bank.get_transaction_history(1).unwrap(),
        &vec![Entry::Deposit { amount: 100 }, Entry::Sent { to: 2, amount: 200 }]
    );
    assert_eq!(
        bank.get_transaction_history(2).unwrap(),
        &vec![Entry::Withdrawal { amount: 50 }, Entry::Received { from: 1, amount: 200 }]
    );
}

#[test]
fn transfer_conserves_the_pair_and_spares_others() {
    let mut bank = seeded();
    assert_eq!(bank.create_account(3, 70), Ok(()));
    assert_eq!(bank.transfer(2, 1, 125).map(|r| r.amount), Ok(125));
    let a = bank.get_balance(1).unwrap();
    let b = bank.get_balance(2).unwrap();
    assert_eq!((a, b), (1125, 375));
    assert_eq!(a + b, 1500);
    assert_eq!(bank.get_balance(3), Ok(70));
    assert!(bank.get_transaction_history(3).unwrap().is_empty());
}

#[test]
fn transfer_insufficient_changes_nothing() {
    let mut bank = seeded();
    assert_eq!(bank.transfer(1, 2, 100), Ok(TransferReceipt { from_id: 1, to_id: 2, amount: 100 }));
    assert_eq!(bank.get_balance(1), Ok(900));
    assert_eq!(bank.transfer(1, 2, 2000), Err(BankError::InsufficientFunds));
    assert_eq!(bank.get_balance(1), Ok(900));
    assert_eq!(bank.get_balance(2), Ok(600));
    assert_eq!(bank.get_transaction_history(1).unwrap().len(), 1);
    assert_eq!(bank.get_transaction_history(2).unwrap().len(), 1);
}

#[test]
fn transfer_to_same_account() {
    let mut bank = seeded();
    assert_eq!(bank.transfer(1, 1, 10), Err(BankError::SameAccount));
    assert_eq!(bank.transfer(1, 1, 1_000_000), Err(BankError::SameAccount));
    assert_eq!(bank.transfer(5, 5, 0), Err(BankError::SameAccount));
    assert_eq!(bank.get_balance(1), Ok(1000));
}

#[test]
fn transfer_errors_in_order() {
    let mut bank = seeded();
    assert_eq!(bank.transfer(1, 1, -1), Err(BankError::InvalidAmount));
    assert_eq!(bank.transfer(9, 2, 10), Err(BankError::SourceNotFound));
    assert_eq!(bank.transfer(1, 9, 10), Err(BankError::DestinationNotFound));
    assert_eq!(bank.transfer(9, 8, 10), Err(BankError::SourceNotFound));
    assert_eq!(bank.get_balance(1), Ok(1000));
    assert!(bank.get_transaction_history(1).unwrap().is_empty());
}

#[test]
fn underfunded_transfer_to_missing_destination() {
    let mut bank = seeded();
    assert_eq!(bank.transfer(2, 9, 600), Err(BankError::InsufficientFunds));
    assert_eq!(bank.get_balance(2), Ok(500));
}

#[test]
fn transfer_of_zero_is_accepted() {
    let mut bank = seeded();
    assert_eq!(bank.transfer(2, 1, 0), Ok(TransferReceipt { from_id: 2, to_id: 1, amount: 0 }));
    assert_eq!(bank.get_balance(1), Ok(1000));
    assert_eq!(
        bank.get_transaction_history(1).unwrap(),
        &vec![Entry::Received { from: 2, amount: 0 }]
    );
}

#[test]
fn unknown_account_queries() {
    let bank = seeded();
    assert_eq!(bank.get_balance(3), Err(BankError::AccountNotFound));
    assert_eq!(bank.get_transaction_history(3), Err(BankError::AccountNotFound));
}

#[test]
fn reads_repeat_and_change_nothing() {
    let mut bank = seeded();
    assert_eq!(bank.deposit(1, 5), Ok(1005));
    let first = bank.get_balance(1);
    let history = bank.get_transaction_history(1).unwrap().clone();
    for _ in 0..3 {
        assert_eq!(bank.get_balance(1), first);
        assert_eq!(bank.get_transaction_history(1).unwrap(), &history);
    }
    assert_eq!(first, Ok(1005));
}

#[test]
fn balances_stay_non_negative_over_a_sequence() {
    let mut bank = seeded();
    let _ = bank.withdraw(1, 999);
    let _ = bank.transfer(1, 2, 2);
    let _ = bank.withdraw(2, 501);
    let _ = bank.transfer(2, 1, 501);
    for id in bank.ids() {
        assert!(bank.get_balance(id).unwrap() >= 0);
    }
    assert_eq!(bank.get_balance(1), Ok(1));
    assert_eq!(bank.get_balance(2), Ok(500));
    assert_eq!(bank.transfer(2, 1, 500).map(|r| r.amount), Ok(500));
    assert_eq!(bank.get_balance(1), Ok(501));
    assert_eq!(bank.get_balance(2), Ok(0));
}

#[test]
fn large_balance_near_the_limit() {
    let mut bank = Bank::new(String::from("b"));
    assert_eq!(bank.create_account(1, i64::MAX - 10), Ok(()));
    assert_eq!(bank.deposit(1, 10), Ok(i64::MAX));
    assert_eq!(bank.withdraw(1, i64::MAX), Ok(0));
}
