use transaction_parser::comparer::{self, are_transactions_equal};
use transaction_parser::converter;
use transaction_parser::errors::{ComparerError, ConverterError};
use transaction_parser::types::{Format, Transaction, TransactionStatus, TransactionType};

fn tx(id: u64) -> Transaction {
    Transaction {
        tx_id: id,
        tx_type: TransactionType::Transfer,
        from_user_id: 1,
        to_user_id: 2,
        amount: 3,
        timestamp: 4,
        status: TransactionStatus::Pending,
        description: "d".to_string(),
    }
}

#[test]
fn equal_lists_compare_equal() {
    let a = vec![tx(1), tx(2)];
    assert_eq!(are_transactions_equal(&a, &a.clone()), (true, None));
    assert_eq!(are_transactions_equal(&[], &[]), (true, None));
}

#[test]
fn lists_of_different_length_differ_without_ids() {
    assert_eq!(are_transactions_equal(&[tx(1)], &[tx(1), tx(2)]), (false, None));
}

#[test]
fn order_matters_and_ids_are_listed() {
    let a = vec![tx(1), tx(2), tx(3)];
    let b = vec![tx(2), tx(1), tx(3)];
    assert_eq!(are_transactions_equal(&a, &b), (false, Some(vec![(1, 2), (2, 1)])));
}

#[test]
fn a_field_difference_is_found() {
    let mut other = tx(5);
    other.description = "e".to_string();
    assert_eq!(are_transactions_equal(&[tx(5)], &[other]), (false, Some(vec![(5, 5)])));
}

#[test]
fn format_names() {
    assert!(matches!(comparer::map_format("csv"), Ok(Format::Csv)));
    assert!(matches!(comparer::map_format("bin"), Ok(Format::Binary)));
    assert!(matches!(comparer::map_format("binary"), Ok(Format::Binary)));
    assert!(matches!(comparer::map_format("txt"), Ok(Format::Text)));
    assert!(matches!(comparer::map_format("text"), Ok(Format::Text)));
    match comparer::map_format("xml") {
        Err(ComparerError::UnknownFormat(m)) => assert_eq!(m, "указанный формат не поддерживается"),
        _ => panic!("test has failed"),
    }
    assert!(matches!(converter::map_format("binary"), Ok(Format::Binary)));
    match converter::map_format("CSV") {
        Err(e) => {
            assert_eq!(e.message(), "неизвестный формат указанный формат не поддерживается");
            let ConverterError::UnknownFormat(m) = e;
            assert_eq!(m, "указанный формат не поддерживается");
        }
        _ => panic!("test has failed"),
    }
}
