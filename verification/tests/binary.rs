use transaction_parser::formats::binary::{
    calculate_body_size, parse_raw_bytes_to_i64_be, parse_raw_bytes_to_u32_be,
    parse_raw_bytes_to_u64_be, parse_raw_bytes_to_u8_be,
};
use transaction_parser::types::{Transaction, TransactionStatus, TransactionType};

#[test]
fn test_parse_raw_bytes_to_u64_be_success() {
    let test_value = 100u64;
    let test_buffer = test_value.to_be_bytes();
    let mut cursor = 0usize;
    if let Ok(result) = parse_raw_bytes_to_u64_be(&test_buffer, &mut cursor) {
        assert_eq!(result, test_value);
        return;
    };
    panic!("test has failed");
}

#[test]
fn test_parse_raw_bytes_to_u8_be_success() {
    let test_value = 100u8;
    let test_buffer = test_value.to_be_bytes();
    let mut cursor = 0usize;
    if let Ok(result) = parse_raw_bytes_to_u8_be(&test_buffer, &mut cursor) {
        assert_eq!(result, test_value);
        return;
    };
    panic!("test has failed");
}

#[test]
fn test_parse_raw_bytes_to_i64_be_success() {
    let test_value = 100i64;
    let test_buffer = test_value.to_be_bytes();
    let mut cursor = 0usize;
    if let Ok(result) = parse_raw_bytes_to_i64_be(&test_buffer, &mut cursor) {
        assert_eq!(result, test_value);
        return;
    };
    panic!("test has failed");
}

#[test]
fn test_parse_raw_bytes_to_u32_be_success() {
    let test_value = 100u32;
    let test_buffer = test_value.to_be_bytes();
    let mut cursor = 0usize;
    if let Ok(result) = parse_raw_bytes_to_u32_be(&test_buffer, &mut cursor) {
        assert_eq!(result, test_value);
        return;
    };
    panic!("test has failed");
}

#[test]
fn test_calculate_body_size() {
    let transaction = Transaction {
        tx_id: 10,
        tx_type: TransactionType::Deposit,
        from_user_id: 1,
        to_user_id: 2,
        amount: 100,
        timestamp: 500,
        status: TransactionStatus::Success,
        description: "description".to_string(),
    };

    let body_size = transaction.tx_id.to_be_bytes().len()
        + transaction.tx_type.as_bytes().to_be_bytes().len()
        + transaction.from_user_id.to_be_bytes().len()
        + transaction.to_user_id.to_be_bytes().len()
        + transaction.amount.to_be_bytes().len()
        + transaction.timestamp.to_be_bytes().len()
        + transaction.status.as_bytes().to_be_bytes().len()
        + size_of::<u32>()
        + transaction.description.len();

    let result = calculate_body_size(&transaction);

    assert_eq!(body_size, result);
}

use transaction_parser::errors::ParserError;
use transaction_parser::formats::binary::{self, decode, frames_fit, is_cursor_range_valid, read};
use transaction_parser::outcome::ReadOutcome;

const BIN_HEADER_ID: [u8; 4] = *b"YPBN";

fn sample() -> Transaction {
    Transaction {
        tx_id: 10,
        tx_type: TransactionType::Deposit,
        from_user_id: 1,
        to_user_id: 2,
        amount: 100,
        timestamp: 500,
        status: TransactionStatus::Success,
        description: "description".to_string(),
    }
}

fn frame_of(transaction: &Transaction) -> Vec<u8> {
    let body_size = transaction.tx_id.to_be_bytes().len()
        + transaction.tx_type.as_bytes().to_be_bytes().len()
        + transaction.from_user_id.to_be_bytes().len()
        + transaction.to_user_id.to_be_bytes().len()
        + transaction.amount.to_be_bytes().len()
        + transaction.timestamp.to_be_bytes().len()
        + transaction.status.as_bytes().to_be_bytes().len()
        + size_of::<u32>()
        + transaction.description.len();
    let description_size = transaction.description.as_bytes().len() as u32;
    let mut file: Vec<u8> = Vec::new();
    file.extend_from_slice(&BIN_HEADER_ID);
    file.extend_from_slice(&(body_size as u32).to_be_bytes());
    file.extend_from_slice(&transaction.tx_id.to_be_bytes());
    file.extend_from_slice(&[transaction.tx_type.as_bytes()]);
    file.extend_from_slice(&transaction.from_user_id.to_be_bytes());
    file.extend_from_slice(&transaction.to_user_id.to_be_bytes());
    file.extend_from_slice(&transaction.amount.to_be_bytes());
    file.extend_from_slice(&transaction.timestamp.to_be_bytes());
    file.extend_from_slice(&[transaction.status.as_bytes()]);
    file.extend_from_slice(&description_size.to_be_bytes());
    file.extend_from_slice(transaction.description.as_bytes());
    file
}

#[test]
fn binary_test_read_success() {
    let transaction = sample();
    let file = frame_of(&transaction);
    let result = match read(&file) {
        Ok(result) => result,
        Err(error) => panic!("возникла проблема при чтении файла {:?}", error),
    };
    assert_eq!(result.len(), 1);
    assert_eq!(result[0], transaction);
}

#[test]
fn test_read_failure_length_zero() {
    let file: Vec<u8> = Vec::new();
    let result = match read(&file) {
        Ok(result) => result,
        Err(error) => panic!("возникла проблема при чтении файла {:?}", error),
    };
    assert_eq!(result.len(), 0);
}

#[test]
fn test_read_failure_no_header() {
    let transaction = sample();
    let file = frame_of(&transaction)[4..].to_vec();
    let result = match read(&file) {
        Ok(result) => result,
        Err(error) => panic!("возникла проблема при чтении файла {:?}", error),
    };
    assert_eq!(result.len(), 0);
}

#[test]
fn test_read_failure_wrong_buffer_size() {
    let file = BIN_HEADER_ID.to_vec();
    if let Err(err) = read(&file) {
        assert_eq!(
            err,
            ParserError::InvalidRange("курсор выходит за пределы буффера".to_string(),)
        );
    };
}

#[test]
fn binary_test_write_success() {
    let input = vec![sample()];
    let result = binary::write(&input);
    assert!(result.is_ok());
}

#[test]
fn binary_header_only_is_a_range_error() {
    let file = BIN_HEADER_ID.to_vec();
    assert_eq!(
        read(&file),
        Err(ParserError::InvalidRange("курсор выходит за пределы буффера".to_string()))
    );
}

#[test]
fn binary_write_gives_the_frame_of_the_read_test() {
    let transaction = sample();
    assert_eq!(binary::write(&vec![transaction.clone()]).unwrap(), frame_of(&transaction));
}

#[test]
fn binary_write_then_read_keeps_records() {
    let mut second = sample();
    second.tx_id = 11;
    second.tx_type = TransactionType::WrongType;
    second.amount = -7;
    second.status = TransactionStatus::Pending;
    second.description = "перевод €".to_string();
    let input = vec![sample(), second];
    let bytes = binary::write(&input).unwrap();
    assert_eq!(read(&bytes).unwrap(), input);
}

#[test]
fn binary_write_empty_list_gives_no_bytes() {
    assert_eq!(binary::write(&Vec::new()).unwrap(), Vec::<u8>::new());
}

#[test]
fn binary_frame_fields_are_big_endian() {
    let mut t = sample();
    t.amount = -2;
    t.description = String::new();
    let bytes = binary::write(&vec![t]).unwrap();
    assert_eq!(&bytes[0..8], &[89, 80, 66, 78, 0, 0, 0, 46]);
    assert_eq!(&bytes[8..16], &[0, 0, 0, 0, 0, 0, 0, 10]);
    assert_eq!(&bytes[33..41], &[0xff, 0xff, 0xff, 0xff, 0xff, 0xff, 0xff, 0xfe]);
    assert_eq!(bytes.len(), 54);
}

#[test]
fn binary_reading_stops_at_a_frame_without_magic() {
    let mut bytes = frame_of(&sample());
    bytes.extend_from_slice(b"XXXX");
    bytes.extend_from_slice(&frame_of(&sample()));
    assert_eq!(read(&bytes).unwrap().len(), 1);
}

#[test]
fn binary_unknown_codes_read_as_wrong_kinds() {
    let mut bytes = frame_of(&sample());
    bytes[16] = 9;
    bytes[49] = 200;
    let result = read(&bytes).unwrap();
    assert_eq!(result[0].tx_type, TransactionType::WrongType);
    assert_eq!(result[0].status, TransactionStatus::WrongStatus);
}

#[test]
fn binary_description_not_utf8_is_invalid_argument() {
    let mut t = sample();
    t.description = "a".to_string();
    let mut bytes = frame_of(&t);
    let last = bytes.len() - 1;
    bytes[last] = 0xff;
    assert_eq!(
        read(&bytes),
        Err(ParserError::InvalidArgument(
            "invalid utf-8 sequence of 1 bytes from index 0".to_string()
        ))
    );
}

#[test]
fn binary_description_past_body_aborts() {
    let mut bytes = frame_of(&sample());
    // description length field says 200 bytes
    bytes[50..54].copy_from_slice(&200u32.to_be_bytes());
    assert!(matches!(decode(&bytes), ReadOutcome::Aborted));
}

#[test]
fn binary_short_body_reads_zero_padding() {
    // size 46 but no body bytes: the body is 46 zeros, an all-zero record
    let mut bytes = BIN_HEADER_ID.to_vec();
    bytes.extend_from_slice(&46u32.to_be_bytes());
    let result = read(&bytes).unwrap();
    assert_eq!(result.len(), 1);
    assert_eq!(result[0], Transaction::default());
}

#[test]
fn binary_frames_fit_for_small_descriptions() {
    assert!(frames_fit(&vec![sample()]));
}

#[test]
fn raw_parse_past_end_keeps_cursor() {
    let buffer = [1u8, 2, 3];
    let mut cursor = 1usize;
    assert_eq!(
        parse_raw_bytes_to_u32_be(&buffer, &mut cursor),
        Err(ParserError::InvalidRange("курсор выходит за пределы буффера".to_string()))
    );
    assert_eq!(cursor, 1);
    assert_eq!(parse_raw_bytes_to_u8_be(&buffer, &mut cursor), Ok(2));
    assert_eq!(cursor, 2);
}

#[test]
fn raw_parse_negative_i64() {
    let buffer = (-5i64).to_be_bytes();
    let mut cursor = 0usize;
    assert_eq!(parse_raw_bytes_to_i64_be(&buffer, &mut cursor), Ok(-5));
    let buffer = i64::MIN.to_be_bytes();
    let mut cursor = 0usize;
    assert_eq!(parse_raw_bytes_to_i64_be(&buffer, &mut cursor), Ok(i64::MIN));
    assert_eq!(cursor, 8);
}

#[test]
fn cursor_range_checks() {
    let buffer = [0u8; 8];
    assert!(is_cursor_range_valid(&buffer, 0, 8));
    assert!(!is_cursor_range_valid(&buffer, 0, 9));
    assert!(!is_cursor_range_valid(&buffer, 8, 9));
}
