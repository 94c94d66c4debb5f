//! Reading, writing, converting and comparing transaction records held in CSV,
//! labelled text or binary frames.
use vstd::prelude::*;

pub mod cli;
pub mod common;
pub mod comparer;
pub mod converter;
pub mod decimal;
pub mod errors;
pub mod formats;
pub mod outcome;
pub mod text;
pub mod types;

use crate::errors::{ErrorModel, ParserError};
use crate::formats::{binary, csv, txt};
use crate::outcome::{ReadOutcome, Verdict};
use crate::types::{Format, Transaction, TxModel};

verus! {

/// What a stream in the given format holds.
pub open spec fn format_verdict(format: Format, s: Seq<u8>) -> Verdict<Seq<TxModel>> {
    match format {
        Format::Csv => csv::decode_csv(s),
        Format::Text => match txt::decode_txt(s) {
            Ok(v) => Verdict::Done(v),
            Err(e) => Verdict::Failed(e),
        },
        Format::Binary => binary::decode_stream(s),
    }
}

/// What writing records in the given format gives.
pub open spec fn format_output(format: Format, txs: Seq<TxModel>) -> Result<Seq<u8>, ErrorModel> {
    match format {
        Format::Csv => csv::csv_output(txs),
        Format::Text => txt::txt_output(txs),
        Format::Binary => Ok(binary::frames(txs)),
    }
}

/// Whether records can be written in the given format: in the binary format each
/// body size must fit its four bytes.
pub open spec fn writable(format: Format, txs: Seq<TxModel>) -> bool {
    format == Format::Binary ==> binary::all_fit(txs)
}

/// Reads a stream in the given format, answering for every input (see the
/// readers of the formats).
pub fn decode_transactions(bytes: &[u8], in_format: Format) -> (r: ReadOutcome)
    ensures
        r@ == format_verdict(in_format, bytes@),
{
    match in_format {
        Format::Csv => csv::decode(bytes),
        Format::Text => match txt::read(bytes) {
            Ok(v) => ReadOutcome::Parsed(v),
            Err(e) => ReadOutcome::Rejected(e),
        },
        Format::Binary => binary::decode(bytes),
    }
}

/// Reads a stream in the given format, for an input on which the reader does not
/// stop the program.
pub fn read_transactions(bytes: &[u8], in_format: Format) -> (r: Result<Vec<Transaction>, ParserError>)
    requires
        !(format_verdict(in_format, bytes@) is Aborted),
    ensures
        outcome::verdict_of(r) == format_verdict(in_format, bytes@),
{
    decode_transactions(bytes, in_format).into_result()
}

/// Writes transactions in the given format.
pub fn write_transactions_to_out_stream(transactions: Vec<Transaction>, out_format: Format) -> (r:
    Result<Vec<u8>, ParserError>)
    requires
        writable(out_format, types::models(transactions@)),
    ensures
        outcome::bytes_result(r) == format_output(out_format, types::models(transactions@)),
{
    match out_format {
        Format::Csv => csv::write(&transactions),
        Format::Text => txt::write(&transactions),
        Format::Binary => binary::write(&transactions),
    }
}

/// Reads a stream in one format and writes its transactions in another; a refusal
/// of the reader is passed on.
pub fn convert_transactions(bytes: &[u8], in_format: Format, out_format: Format) -> (r: Result<
    Vec<u8>,
    ParserError,
>)
    requires
        !(format_verdict(in_format, bytes@) is Aborted),
        format_verdict(in_format, bytes@) matches Verdict::Done(txs) ==> writable(out_format, txs),
    ensures
        format_verdict(in_format, bytes@) matches Verdict::Done(txs) ==> outcome::bytes_result(r)
            == format_output(out_format, txs),
        format_verdict(in_format, bytes@) matches Verdict::Failed(e) ==> outcome::bytes_result(r)
            == Err::<Seq<u8>, ErrorModel>(e),
{
    let transactions = read_transactions(bytes, in_format)?;
    write_transactions_to_out_stream(transactions, out_format)
}

/// Whether records written in a format are read back as they were: in the binary
/// format each body size must fit its four bytes; the text formats refuse to write
/// no records, and each record must be `csv_writable` or `txt_writable`.
pub open spec fn survives(format: Format, txs: Seq<TxModel>) -> bool {
    match format {
        Format::Binary => binary::all_fit(txs),
        Format::Csv => txs.len() > 0 && forall|i: int|
            0 <= i < txs.len() ==> csv::csv_writable(#[trigger] txs[i]),
        Format::Text => txs.len() > 0 && forall|i: int|
            0 <= i < txs.len() ==> txt::txt_writable(#[trigger] txs[i]),
    }
}

/// Records written in a format, when they survive it, are written without error and
/// read back from what was written as they were, in the same order.
pub proof fn law_write_then_read(format: Format, txs: Seq<TxModel>)
    requires
        survives(format, txs),
    ensures
        format_output(format, txs) is Ok,
        format_verdict(format, format_output(format, txs)->Ok_0) == Verdict::Done(txs),
{
    match format {
        Format::Binary => binary::law_binary_roundtrip(txs),
        Format::Csv => csv::law_csv_roundtrip(txs),
        Format::Text => txt::law_txt_roundtrip(txs),
    }
}

/// Converting a stream keeps its records: when the records read from the input
/// survive the output format, the output is read back as the same records.
pub proof fn law_conversion_keeps_records(bytes: Seq<u8>, in_format: Format, out_format: Format)
    requires
        format_verdict(in_format, bytes) is Done,
        survives(out_format, format_verdict(in_format, bytes)->Done_0),
    ensures
        format_output(out_format, format_verdict(in_format, bytes)->Done_0) is Ok,
        format_verdict(
            out_format,
            format_output(out_format, format_verdict(in_format, bytes)->Done_0)->Ok_0,
        ) == format_verdict(in_format, bytes),
{
    law_write_then_read(out_format, format_verdict(in_format, bytes)->Done_0);
}

} // verus!
