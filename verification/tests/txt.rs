use transaction_parser::errors::ParserError;
use transaction_parser::formats::{csv, txt};
use transaction_parser::types::{Transaction, TransactionStatus, TransactionType};

fn sample() -> Transaction {
    Transaction {
        tx_id: 10,
        tx_type: TransactionType::Deposit,
        from_user_id: 1,
        to_user_id: 2,
        amount: 100,
        timestamp: 500,
        status: TransactionStatus::Success,
        description: "description".to_string(),
    }
}

fn block_of(transaction: &Transaction) -> String {
    let mut file = String::new();
    file.push_str(&format!("TX_ID: {}\n", transaction.tx_id));
    file.push_str(&format!("TX_TYPE: {}\n", transaction.tx_type.name()));
    file.push_str(&format!("FROM_USER_ID: {}\n", transaction.from_user_id));
    file.push_str(&format!("TO_USER_ID: {}\n", transaction.to_user_id));
    file.push_str(&format!("AMOUNT: {}\n", transaction.amount));
    file.push_str(&format!("TIMESTAMP: {}\n", transaction.timestamp));
    file.push_str(&format!("STATUS: {}\n", transaction.status.name()));
    file.push_str(&format!("DESCRIPTION: {}\n", transaction.description));
    file.push_str("\n");
    file
}

#[test]
fn txt_test_read_success() {
    let transaction = sample();
    let file = block_of(&transaction);
    let result = match txt::read(file.as_bytes()) {
        Ok(result) => result,
        Err(error) => panic!("возникла проблема при чтении файла {:?}", error),
    };
    assert_eq!(result.len(), 1);
    assert_eq!(result[0], transaction);
}

#[test]
fn txt_test_write_success() {
    let transaction = sample();
    let input = vec![transaction];
    let result = csv::write(&input);
    assert!(result.is_ok());
}

#[test]
fn txt_test_write_failure() {
    match csv::write(&vec![]) {
        Ok(_) => panic!("test has failed"),
        Err(err) => assert_eq!(
            err,
            ParserError::EmptyTransactions("транзакций нет".to_string()),
        ),
    }
}

#[test]
fn txt_test_read_failure_wrong_transaction_length() {
    let file = "transaction\n";
    if let Err(err) = txt::read(file.as_bytes()) {
        assert_eq!(
            err,
            ParserError::InvalidRecord("неверная длина транзакции".to_string(),)
        );
    };
}

#[test]
fn txt_wrong_length_is_an_error() {
    assert_eq!(
        txt::read("transaction\n".as_bytes()),
        Err(ParserError::InvalidRecord("неверная длина транзакции".to_string()))
    );
    assert_eq!(
        txt::read("DESCRIPTION: a: b\n".as_bytes()),
        Err(ParserError::InvalidRecord("неверная длина транзакции".to_string()))
    );
}

#[test]
fn txt_write_gives_blocks() {
    let bytes = txt::write(&vec![sample()]).unwrap();
    assert_eq!(bytes, format!("#\n{}", block_of(&sample())).into_bytes());
}

#[test]
fn txt_write_empty_list_is_refused() {
    assert_eq!(
        txt::write(&vec![]),
        Err(ParserError::EmptyTransactions("транзакций нет".to_string()))
    );
}

#[test]
fn txt_write_then_read_keeps_records() {
    let mut second = sample();
    second.tx_id = 77;
    second.tx_type = TransactionType::Transfer;
    second.status = TransactionStatus::Pending;
    second.amount = -1;
    second.description = "перевод:другу".to_string();
    let input = vec![sample(), second];
    let bytes = txt::write(&input).unwrap();
    assert_eq!(txt::read(&bytes).unwrap(), input);
}

#[test]
fn txt_record_keeps_fields_of_previous_record() {
    let file = "TX_ID: 5\nAMOUNT: 7\n\nTX_ID: 6\n\n";
    let result = txt::read(file.as_bytes()).unwrap();
    assert_eq!(result.len(), 2);
    assert_eq!(result[1].tx_id, 6);
    assert_eq!(result[1].amount, 7);
}

#[test]
fn txt_without_final_empty_line_collects_nothing() {
    let file = "TX_ID: 5\nAMOUNT: 7\n";
    assert_eq!(txt::read(file.as_bytes()).unwrap().len(), 0);
}

#[test]
fn txt_unknown_names_and_comments_are_ignored() {
    let file = "# comment\nCOLOUR: red\n  TX_ID :  9  \n\n";
    let result = txt::read(file.as_bytes()).unwrap();
    assert_eq!(result.len(), 1);
    assert_eq!(result[0].tx_id, 9);
}

#[test]
fn txt_line_not_utf8_is_invalid_record() {
    let file = [b'T', 0xff, b'\n'];
    assert_eq!(
        txt::read(&file),
        Err(ParserError::InvalidRecord("stream did not contain valid UTF-8".to_string()))
    );
}

#[test]
fn txt_bad_value_is_invalid_value() {
    assert_eq!(
        txt::read("AMOUNT: -\n".as_bytes()),
        Err(ParserError::InvalidValue("invalid digit found in string".to_string()))
    );
    assert_eq!(
        txt::read("TX_ID: \n".as_bytes()),
        Err(ParserError::InvalidValue("cannot parse integer from empty string".to_string()))
    );
}
