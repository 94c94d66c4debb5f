use transaction_parser::errors::ParserError;
use transaction_parser::formats::csv::{self, decode, read};
use transaction_parser::outcome::ReadOutcome;
use transaction_parser::types::{Transaction, TransactionStatus, TransactionType};

const CSV_HEADER: &str =
    "TX_ID,TX_TYPE,FROM_USER_ID,TO_USER_ID,AMOUNT,TIMESTAMP,STATUS,DESCRIPTION";

fn sample() -> Transaction {
    Transaction {
        tx_id: 10,
        tx_type: TransactionType::Deposit,
        from_user_id: 1,
        to_user_id: 2,
        amount: 100,
        timestamp: 500,
        status: TransactionStatus::Success,
        description: "description".to_string(),
    }
}

fn line_of(transaction: &Transaction) -> String {
    format!(
        "{},{},{},{},{},{},{},{}",
        transaction.tx_id,
        transaction.tx_type.name(),
        transaction.from_user_id,
        transaction.to_user_id,
        transaction.amount,
        transaction.timestamp,
        transaction.status.name(),
        transaction.description,
    )
}

#[test]
fn csv_test_read_success() {
    let transaction = sample();
    let file = format!("{}\n{}\n", CSV_HEADER, line_of(&transaction));
    let result = match read(file.as_bytes()) {
        Ok(result) => result,
        Err(error) => panic!("возникла проблема при чтении файла {:?}", error),
    };
    assert_eq!(result.len(), 1);
    assert_eq!(result[0], transaction);
}

#[test]
fn test_read_failure_header_not_found() {
    match read(&[]) {
        Ok(_) => panic!("test has failed"),
        Err(err) => assert_eq!(
            err,
            ParserError::InvalidHeader("заголовок не найден".to_string())
        ),
    }
}

#[test]
fn test_read_failure_header_is_not_valid() {
    let file = "Some header\n";
    match read(file.as_bytes()) {
        Ok(_) => panic!("test has failed"),
        Err(err) => assert_eq!(
            err,
            ParserError::InvalidHeader("csv заголовок не валидный".to_string(),)
        ),
    }
}

#[test]
fn csv_test_read_failure_wrong_transaction_length() {
    let file = format!("{}\ntransaction\n", CSV_HEADER);
    match read(file.as_bytes()) {
        Ok(_) => panic!("test has failed"),
        Err(err) => assert_eq!(
            err,
            ParserError::InvalidRecord("неверная длина транзакции".to_string(),)
        ),
    }
}

#[test]
fn csv_test_write_success() {
    let input = vec![sample()];
    let result = csv::write(&input);
    assert!(result.is_ok());
}

#[test]
fn csv_test_write_failure() {
    match csv::write(&vec![]) {
        Ok(_) => panic!("test has failed"),
        Err(err) => assert_eq!(
            err,
            ParserError::EmptyTransactions("транзакций нет".to_string()),
        ),
    }
}

#[test]
fn csv_write_gives_header_and_lines() {
    let mut t = sample();
    t.amount = -3;
    let bytes = csv::write(&vec![t.clone()]).unwrap();
    let expected = format!("{}\n10,DEPOSIT,1,2,-3,500,SUCCESS,description\n", CSV_HEADER);
    assert_eq!(bytes, expected.as_bytes());
}

#[test]
fn csv_write_then_read_keeps_records() {
    let mut second = sample();
    second.tx_type = TransactionType::Withdrawal;
    second.status = TransactionStatus::Failure;
    second.amount = i64::MIN;
    second.tx_id = u64::MAX;
    second.description = "снятие наличных".to_string();
    let input = vec![sample(), second];
    let bytes = csv::write(&input).unwrap();
    assert_eq!(read(&bytes).unwrap(), input);
}

#[test]
fn csv_header_is_trimmed_and_crlf_lines_are_read() {
    let file = format!("  {}  \r\n{}\r\n\r\n", CSV_HEADER, line_of(&sample()));
    assert_eq!(read(file.as_bytes()).unwrap(), vec![sample()]);
}

#[test]
fn csv_empty_lines_are_skipped() {
    let file = format!("{}\n\n{}\n\n", CSV_HEADER, line_of(&sample()));
    assert_eq!(read(file.as_bytes()).unwrap(), vec![sample()]);
}

#[test]
fn csv_bad_number_is_invalid_value() {
    let file = format!("{}\nx1,DEPOSIT,1,2,3,4,SUCCESS,d\n", CSV_HEADER);
    assert_eq!(
        read(file.as_bytes()),
        Err(ParserError::InvalidValue("invalid digit found in string".to_string()))
    );
    let file = format!("{}\n1,DEPOSIT,1,2,99999999999999999999,4,SUCCESS,d\n", CSV_HEADER);
    assert_eq!(
        read(file.as_bytes()),
        Err(ParserError::InvalidValue("number too large to fit in target type".to_string()))
    );
}

#[test]
fn csv_bad_type_and_status() {
    let file = format!("{}\n1,LOAN,1,2,3,4,SUCCESS,d\n", CSV_HEADER);
    assert_eq!(
        read(file.as_bytes()),
        Err(ParserError::InvalidValue("TransactionType".to_string()))
    );
    let file = format!("{}\n1,DEPOSIT,1,2,3,4,DONE,d\n", CSV_HEADER);
    assert_eq!(
        read(file.as_bytes()),
        Err(ParserError::InvalidValue("неизвестный статус".to_string()))
    );
}

#[test]
fn csv_header_not_utf8() {
    let file = [0xffu8, b'\n'];
    assert_eq!(
        read(&file),
        Err(ParserError::InvalidHeader("stream did not contain valid UTF-8".to_string()))
    );
}

#[test]
fn csv_record_line_not_utf8_aborts() {
    let mut file = format!("{}\n", CSV_HEADER).into_bytes();
    file.extend_from_slice(&[0xc3, b'\n']);
    assert!(matches!(decode(&file), ReadOutcome::Aborted));
}

#[test]
fn csv_description_is_kept_untrimmed() {
    let file = format!("{}\n1,DEPOSIT,1,2,3,4,SUCCESS, d \n", CSV_HEADER);
    assert_eq!(read(file.as_bytes()).unwrap()[0].description, " d ");
}
