use transaction_parser::errors::ParserError;
use transaction_parser::outcome::ReadOutcome;
use transaction_parser::types::{Format, Transaction, TransactionStatus, TransactionType};
use transaction_parser::{convert_transactions, decode_transactions, read_transactions, write_transactions_to_out_stream};

fn records() -> Vec<Transaction> {
    vec![
        Transaction {
            tx_id: 1000000000000000,
            tx_type: TransactionType::Deposit,
            from_user_id: 0,
            to_user_id: 9223372036854775807,
            amount: 100,
            timestamp: 1633036800000,
            status: TransactionStatus::Success,
            description: "Record number 1".to_string(),
        },
        Transaction {
            tx_id: 1000000000000001,
            tx_type: TransactionType::Transfer,
            from_user_id: 9223372036854775807,
            to_user_id: 9223372036854775807,
            amount: -200,
            timestamp: 1633036860000,
            status: TransactionStatus::Failure,
            description: "Record number 2".to_string(),
        },
        Transaction {
            tx_id: 1000000000000002,
            tx_type: TransactionType::Withdrawal,
            from_user_id: 599094029349995112,
            to_user_id: 0,
            amount: 300,
            timestamp: 1633036920000,
            status: TransactionStatus::Pending,
            description: "Record number 3".to_string(),
        },
    ]
}

#[test]
fn every_conversion_keeps_the_records() {
    let formats = [Format::Csv, Format::Text, Format::Binary];
    for from in formats {
        let bytes = write_transactions_to_out_stream(records(), from).unwrap();
        for to in formats {
            let converted = convert_transactions(&bytes, from, to).unwrap();
            assert_eq!(read_transactions(&converted, to).unwrap(), records());
        }
    }
}

#[test]
fn a_refused_input_is_passed_on() {
    assert_eq!(
        convert_transactions(b"nonsense\n", Format::Csv, Format::Binary),
        Err(ParserError::InvalidHeader("csv заголовок не валидный".to_string()))
    );
}

#[test]
fn an_empty_conversion_to_text_is_refused() {
    assert_eq!(
        convert_transactions(b"", Format::Binary, Format::Text),
        Err(ParserError::EmptyTransactions("транзакций нет".to_string()))
    );
}

#[test]
fn decoding_by_format() {
    let bytes = write_transactions_to_out_stream(records(), Format::Text).unwrap();
    match decode_transactions(&bytes, Format::Text) {
        ReadOutcome::Parsed(v) => assert_eq!(v, records()),
        other => panic!("unexpected {:?}", other),
    }
}
