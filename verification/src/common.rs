use vstd::prelude::*;

use crate::decimal::{self, int_fault_message, parse_i64, parse_u64};
use crate::errors::{owned, ErrorModel, ParserError};
use crate::text::{chars_of, same_chars};
use crate::types::{self, TransactionStatus, TransactionType};

verus! {

/// A result with its error taken by its view.
pub open spec fn result_model<T>(r: Result<T, ParserError>) -> Result<T, ErrorModel> {
    match r {
        Ok(v) => Ok(v),
        Err(e) => Err(e@),
    }
}

/// A field that holds an unsigned number, read as the formats read it: a failure
/// is an invalid value with the message of `ParseIntError`.
pub open spec fn u64_field(s: Seq<char>) -> Result<u64, ErrorModel> {
    match decimal::parse_u64_text(s) {
        Ok(v) => Ok(v),
        Err(f) => Err(ErrorModel::InvalidValue(decimal::int_fault_text(f))),
    }
}

/// A field that holds a signed number, read as the formats read it.
pub open spec fn i64_field(s: Seq<char>) -> Result<i64, ErrorModel> {
    match decimal::parse_i64_text(s) {
        Ok(v) => Ok(v),
        Err(f) => Err(ErrorModel::InvalidValue(decimal::int_fault_text(f))),
    }
}

/// A field that holds the name of a transaction type.
pub open spec fn type_field(s: Seq<char>) -> Result<TransactionType, ErrorModel> {
    match types::type_of_label(s) {
        Some(t) => Ok(t),
        None => Err(ErrorModel::InvalidValue("TransactionType"@)),
    }
}

/// A field that holds the name of a transaction status.
pub open spec fn status_field(s: Seq<char>) -> Result<TransactionStatus, ErrorModel> {
    match types::status_of_label(s) {
        Some(t) => Ok(t),
        None => Err(ErrorModel::InvalidValue("неизвестный статус"@)),
    }
}

pub fn u64_from_chars(s: &[char]) -> (r: Result<u64, ParserError>)
    ensures
        result_model(r) == u64_field(s@),
{
    match parse_u64(s) {
        Ok(v) => Ok(v),
        Err(f) => Err(ParserError::InvalidValue(int_fault_message(f))),
    }
}

pub fn i64_from_chars(s: &[char]) -> (r: Result<i64, ParserError>)
    ensures
        result_model(r) == i64_field(s@),
{
    match parse_i64(s) {
        Ok(v) => Ok(v),
        Err(f) => Err(ParserError::InvalidValue(int_fault_message(f))),
    }
}

pub fn type_from_chars(s: &[char]) -> (r: Result<TransactionType, ParserError>)
    ensures
        result_model(r) == type_field(s@),
{
    if same_chars(s, chars_of("DEPOSIT").as_slice()) {
        Ok(TransactionType::Deposit)
    } else if same_chars(s, chars_of("TRANSFER").as_slice()) {
        Ok(TransactionType::Transfer)
    } else if same_chars(s, chars_of("WITHDRAWAL").as_slice()) {
        Ok(TransactionType::Withdrawal)
    } else {
        Err(ParserError::InvalidValue(owned("TransactionType")))
    }
}

pub fn status_from_chars(s: &[char]) -> (r: Result<TransactionStatus, ParserError>)
    ensures
        result_model(r) == status_field(s@),
{
    if same_chars(s, chars_of("SUCCESS").as_slice()) {
        Ok(TransactionStatus::Success)
    } else if same_chars(s, chars_of("FAILURE").as_slice()) {
        Ok(TransactionStatus::Failure)
    } else if same_chars(s, chars_of("PENDING").as_slice()) {
        Ok(TransactionStatus::Pending)
    } else {
        Err(ParserError::InvalidValue(owned("неизвестный статус")))
    }
}

/// Reads an unsigned number as `str::parse::<u64>` does; a failure is an invalid
/// value that carries the message of `ParseIntError`.
pub fn parse_str_to_u64(field: &str) -> (r: Result<u64, ParserError>)
    ensures
        result_model(r) == u64_field(field@),
{
    u64_from_chars(chars_of(field).as_slice())
}

/// Reads a signed number as `str::parse::<i64>` does; a failure is an invalid value
/// that carries the message of `ParseIntError`.
pub fn parse_str_to_i64(field: &str) -> (r: Result<i64, ParserError>)
    ensures
        result_model(r) == i64_field(field@),
{
    i64_from_chars(chars_of(field).as_slice())
}

/// Reads `DEPOSIT`, `TRANSFER` or `WITHDRAWAL`; anything else is an invalid value.
pub fn parse_str_to_transaction_type(value: &str) -> (r: Result<TransactionType, ParserError>)
    ensures
        result_model(r) == type_field(value@),
{
    type_from_chars(chars_of(value).as_slice())
}

/// Reads `SUCCESS`, `FAILURE` or `PENDING`; anything else is an invalid value.
pub fn parse_str_to_transaction_status(value: &str) -> (r: Result<
    TransactionStatus,
    ParserError,
>)
    ensures
        result_model(r) == status_field(value@),
{
    status_from_chars(chars_of(value).as_slice())
}

} // verus!
