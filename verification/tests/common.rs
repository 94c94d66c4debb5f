use transaction_parser::common::{
    parse_str_to_i64, parse_str_to_transaction_status, parse_str_to_transaction_type,
    parse_str_to_u64,
};
use transaction_parser::errors::ParserError;
use transaction_parser::types::{TransactionStatus, TransactionType};

fn invalid(m: &str) -> ParserError {
    ParserError::InvalidValue(m.to_string())
}

#[test]
fn u64_fields() {
    assert_eq!(parse_str_to_u64("0"), Ok(0));
    assert_eq!(parse_str_to_u64("+42"), Ok(42));
    assert_eq!(parse_str_to_u64("18446744073709551615"), Ok(u64::MAX));
    assert_eq!(
        parse_str_to_u64("18446744073709551616"),
        Err(invalid("number too large to fit in target type"))
    );
    assert_eq!(parse_str_to_u64(""), Err(invalid("cannot parse integer from empty string")));
    assert_eq!(parse_str_to_u64("+"), Err(invalid("invalid digit found in string")));
    assert_eq!(parse_str_to_u64("-1"), Err(invalid("invalid digit found in string")));
    assert_eq!(parse_str_to_u64(" 1"), Err(invalid("invalid digit found in string")));
    assert_eq!(parse_str_to_u64("١"), Err(invalid("invalid digit found in string")));
}

#[test]
fn i64_fields() {
    assert_eq!(parse_str_to_i64("-9223372036854775808"), Ok(i64::MIN));
    assert_eq!(parse_str_to_i64("9223372036854775807"), Ok(i64::MAX));
    assert_eq!(parse_str_to_i64("+7"), Ok(7));
    assert_eq!(
        parse_str_to_i64("-9223372036854775809"),
        Err(invalid("number too small to fit in target type"))
    );
    assert_eq!(
        parse_str_to_i64("9223372036854775808"),
        Err(invalid("number too large to fit in target type"))
    );
    assert_eq!(parse_str_to_i64("-"), Err(invalid("invalid digit found in string")));
    assert_eq!(parse_str_to_i64("--1"), Err(invalid("invalid digit found in string")));
}

#[test]
fn overflow_before_a_later_bad_digit_is_overflow() {
    assert_eq!(
        parse_str_to_u64("99999999999999999999x"),
        Err(invalid("number too large to fit in target type"))
    );
    assert_eq!(parse_str_to_u64("9x9999999999999999999"), Err(invalid("invalid digit found in string")));
}

#[test]
fn type_and_status_names() {
    assert_eq!(parse_str_to_transaction_type("DEPOSIT"), Ok(TransactionType::Deposit));
    assert_eq!(parse_str_to_transaction_type("TRANSFER"), Ok(TransactionType::Transfer));
    assert_eq!(parse_str_to_transaction_type("WITHDRAWAL"), Ok(TransactionType::Withdrawal));
    assert_eq!(parse_str_to_transaction_type("WRONG_TYPE"), Err(invalid("TransactionType")));
    assert_eq!(parse_str_to_transaction_type("deposit"), Err(invalid("TransactionType")));
    assert_eq!(parse_str_to_transaction_status("SUCCESS"), Ok(TransactionStatus::Success));
    assert_eq!(parse_str_to_transaction_status("FAILURE"), Ok(TransactionStatus::Failure));
    assert_eq!(parse_str_to_transaction_status("PENDING"), Ok(TransactionStatus::Pending));
    assert_eq!(
        parse_str_to_transaction_status("WRONG_STATUS"),
        Err(invalid("неизвестный статус"))
    );
}

#[test]
fn codes_and_names_of_kinds() {
    for (t, code, name) in [
        (TransactionType::Deposit, 0u8, "DEPOSIT"),
        (TransactionType::Transfer, 1, "TRANSFER"),
        (TransactionType::Withdrawal, 2, "WITHDRAWAL"),
        (TransactionType::WrongType, 3, "WRONG_TYPE"),
    ] {
        assert_eq!(t.as_bytes(), code);
        assert_eq!(t.name(), name);
        assert_eq!(TransactionType::from(code), t);
    }
    assert_eq!(TransactionType::from(250), TransactionType::WrongType);
    for (s, code, name) in [
        (TransactionStatus::Success, 0u8, "SUCCESS"),
        (TransactionStatus::Failure, 1, "FAILURE"),
        (TransactionStatus::Pending, 2, "PENDING"),
        (TransactionStatus::WrongStatus, 3, "WRONG_STATUS"),
    ] {
        assert_eq!(s.as_bytes(), code);
        assert_eq!(s.name(), name);
        assert_eq!(TransactionStatus::from(code), s);
    }
    assert_eq!(TransactionStatus::from(4), TransactionStatus::WrongStatus);
    assert_eq!(TransactionType::default(), TransactionType::Deposit);
    assert_eq!(TransactionStatus::default(), TransactionStatus::Success);
}

#[test]
fn error_messages() {
    assert_eq!(ParserError::IO("x".to_string()).message(), "ошибка ввода-вывода x");
    assert_eq!(ParserError::InvalidArgument("x".to_string()).message(), "некорректный аргумент x");
    assert_eq!(ParserError::InvalidHeader("x".to_string()).message(), "некорректный заголовок x");
    assert_eq!(ParserError::InvalidRecord("x".to_string()).message(), "некорректная запись x");
    assert_eq!(ParserError::InvalidValue("x".to_string()).message(), "некорректное значение x");
    assert_eq!(ParserError::InvalidRange("x".to_string()).message(), "некорректный диапазон x");
    assert_eq!(
        ParserError::EmptyTransactions("x".to_string()).message(),
        "пустой список транзакций x"
    );
    assert_ne!(ParserError::IO("x".to_string()), ParserError::InvalidValue("x".to_string()));
}
