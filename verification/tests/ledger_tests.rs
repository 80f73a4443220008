use evoengine::ledger::{process_transaction, u64_to_string, AppError, Transaction};

#[test]
fn digits_render_exactly() {
    assert_eq!(u64_to_string(0), "0");
    assert_eq!(u64_to_string(7), "7");
    assert_eq!(u64_to_string(10), "10");
    assert_eq!(u64_to_string(90210), "90210");
    assert_eq!(u64_to_string(u64::MAX), "18446744073709551615");
}

#[test]
fn zero_amount_is_invalid() {
    let r = process_transaction("alice".to_string(), "bob".to_string(), 0);
    assert_eq!(r.unwrap_err(), AppError::InvalidTransaction);
}

#[test]
fn transfer_is_acknowledged() {
    let r = process_transaction("alice".to_string(), "bob".to_string(), 250)
        .expect("a positive amount");
    assert_eq!(r.status, "success");
    assert_eq!(r.message, "Transaction from alice to bob of 250 units is successful");
}

#[test]
fn transaction_carries_its_fields() {
    let t = Transaction { sender: "s".to_string(), receiver: "r".to_string(), amount: 3 };
    assert_eq!(t.sender, "s");
    assert_eq!(t.receiver, "r");
    assert_eq!(t.amount, 3);
}
