use vstd::prelude::*;
use vstd::utf8::encode_utf8;

use crate::common::{self, i64_from_chars, status_from_chars, type_from_chars, u64_from_chars};
use crate::decimal::{self, push_decimal, push_signed_decimal};
use crate::errors::{owned, ErrorModel, ParserError};
use crate::outcome::{self, ReadOutcome, Verdict};
use crate::text::{
    self, chars_of, invalid_utf8_line_message, push_joined, push_str, read_lines, same_chars,
    split_on, string_from_chars, trimmed, utf8_bytes,
};
use crate::types::{self, Transaction, TxModel};

verus! {

/// The header line of a CSV file.
pub open spec fn csv_header() -> Seq<char> {
    "TX_ID,TX_TYPE,FROM_USER_ID,TO_USER_ID,AMOUNT,TIMESTAMP,STATUS,DESCRIPTION"@
}

pub open spec fn header_missing_text() -> Seq<char> {
    "заголовок не найден"@
}

pub open spec fn header_invalid_text() -> Seq<char> {
    "csv заголовок не валидный"@
}

/// The message for a record with the wrong number of fields.
pub open spec fn record_length_text() -> Seq<char> {
    "неверная длина транзакции"@
}

/// The message for an empty list of transactions to write.
pub open spec fn empty_text() -> Seq<char> {
    "транзакций нет"@
}

/// A record read from its eight fields, in the order of the header; the first
/// field that cannot be read gives the error.
pub open spec fn csv_record(f: Seq<Seq<char>>) -> Result<TxModel, ErrorModel> {
    match common::u64_field(f[0]) {
        Err(e) => Err(e),
        Ok(tx_id) => match common::type_field(f[1]) {
            Err(e) => Err(e),
            Ok(tx_type) => match common::u64_field(f[2]) {
                Err(e) => Err(e),
                Ok(from_user_id) => match common::u64_field(f[3]) {
                    Err(e) => Err(e),
                    Ok(to_user_id) => match common::i64_field(f[4]) {
                        Err(e) => Err(e),
                        Ok(amount) => match common::u64_field(f[5]) {
                            Err(e) => Err(e),
                            Ok(timestamp) => match common::status_field(f[6]) {
                                Err(e) => Err(e),
                                Ok(status) => Ok(
                                    TxModel {
                                        tx_id,
                                        tx_type,
                                        from_user_id,
                                        to_user_id,
                                        amount,
                                        timestamp,
                                        status,
                                        description: f[7],
                                    },
                                ),
                            },
                        },
                    },
                },
            },
        },
    }
}

/// The records of the lines after the header. Empty lines are skipped; a line
/// that is not UTF-8 stops the reader; a line must split at commas into eight
/// fields.
pub open spec fn csv_records(lines: Seq<Option<Seq<char>>>) -> Verdict<Seq<TxModel>>
    decreases lines.len(),
{
    if lines.len() == 0 {
        Verdict::Done(seq![])
    } else {
        match lines[0] {
            None => Verdict::Aborted,
            Some(l) => if l.len() == 0 {
                csv_records(lines.drop_first())
            } else {
                let f = text::split(l, ","@);
                if f.len() != 8 {
                    Verdict::Failed(ErrorModel::InvalidRecord(record_length_text()))
                } else {
                    match csv_record(f) {
                        Ok(t) => outcome::prepend(seq![t], csv_records(lines.drop_first())),
                        Err(e) => Verdict::Failed(e),
                    }
                }
            },
        }
    }
}

/// What a CSV stream holds: its first line, trimmed, must be the header.
pub open spec fn decode_csv(s: Seq<u8>) -> Verdict<Seq<TxModel>> {
    let lines = text::text_lines(s);
    if lines.len() == 0 {
        Verdict::Failed(ErrorModel::InvalidHeader(header_missing_text()))
    } else {
        match lines[0] {
            None => Verdict::Failed(ErrorModel::InvalidHeader(text::invalid_utf8_line_text())),
            Some(h) => if text::trim(h) != csv_header() {
                Verdict::Failed(ErrorModel::InvalidHeader(header_invalid_text()))
            } else {
                csv_records(lines.drop_first())
            },
        }
    }
}

/// The line of a record: its fields in the order of the header, separated by commas.
pub open spec fn csv_line(t: TxModel) -> Seq<char> {
    text::sep_join(csv_fields(t), ","@)
}

/// The fields of the line of a record, in the order of the header.
pub open spec fn csv_fields(t: TxModel) -> Seq<Seq<char>> {
    seq![
        decimal::decimal(t.tx_id as nat),
        types::type_label(t.tx_type),
        decimal::decimal(t.from_user_id as nat),
        decimal::decimal(t.to_user_id as nat),
        decimal::signed_decimal(t.amount as int),
        decimal::decimal(t.timestamp as nat),
        types::status_label(t.status),
        t.description,
    ]
}

/// The record lines, each ended by a line feed.
pub open spec fn csv_body(txs: Seq<TxModel>) -> Seq<char>
    decreases txs.len(),
{
    if txs.len() == 0 {
        seq![]
    } else {
        csv_body(txs.drop_last()) + csv_line(txs.last()) + seq!['\n']
    }
}

/// The text of a CSV file: the header line, then a line for each record.
pub open spec fn csv_text(txs: Seq<TxModel>) -> Seq<char> {
    csv_header() + seq!['\n'] + csv_body(txs)
}

/// What writing records gives: the UTF-8 bytes of the CSV text, or a refusal when
/// there are none.
pub open spec fn csv_output(txs: Seq<TxModel>) -> Result<Seq<u8>, ErrorModel> {
    if txs.len() == 0 {
        Err(ErrorModel::EmptyTransactions(empty_text()))
    } else {
        Ok(encode_utf8(csv_text(txs)))
    }
}

/// A transaction read from the eight fields of a line.
fn record_from_fields(f: &Vec<Vec<char>>) -> (r: Result<Transaction, ParserError>)
    requires
        f@.len() == 8,
    ensures
        types::tx_result(r) == csv_record(text::views(f@)),
{
    let ghost fv = text::views(f@);
    assert(fv[0] == f@[0]@ && fv[1] == f@[1]@ && fv[2] == f@[2]@ && fv[3] == f@[3]@);
    assert(fv[4] == f@[4]@ && fv[5] == f@[5]@ && fv[6] == f@[6]@ && fv[7] == f@[7]@);
    let tx_id = match u64_from_chars(f[0].as_slice()) {
        Ok(v) => v,
        Err(e) => return Err(e),
    };
    let tx_type = match type_from_chars(f[1].as_slice()) {
        Ok(v) => v,
        Err(e) => return Err(e),
    };
    let from_user_id = match u64_from_chars(f[2].as_slice()) {
        Ok(v) => v,
        Err(e) => return Err(e),
    };
    let to_user_id = match u64_from_chars(f[3].as_slice()) {
        Ok(v) => v,
        Err(e) => return Err(e),
    };
    let amount = match i64_from_chars(f[4].as_slice()) {
        Ok(v) => v,
        Err(e) => return Err(e),
    };
    let timestamp = match u64_from_chars(f[5].as_slice()) {
        Ok(v) => v,
        Err(e) => return Err(e),
    };
    let status = match status_from_chars(f[6].as_slice()) {
        Ok(v) => v,
        Err(e) => return Err(e),
    };
    let description = string_from_chars(f[7].as_slice());
    Ok(Transaction { tx_id, tx_type, from_user_id, to_user_id, amount, timestamp, status, description })
}

/// Reads a CSV stream (see `decode_csv`), answering for every input: the records,
/// a refusal with an error, or `Aborted` where a line after the header is not
/// UTF-8, on which the reader stops the program.
pub fn decode(bytes: &[u8]) -> (r: ReadOutcome)
    ensures
        r@ == decode_csv(bytes@),
{
    let lines = read_lines(bytes);
    let ghost lv = text::line_views(lines@);
    if lines.len() == 0 {
        return ReadOutcome::Rejected(ParserError::InvalidHeader(owned("заголовок не найден")));
    }
    assert(lv[0] == match lines@[0] {
        Some(x) => Some(x@),
        None => None::<Seq<char>>,
    });
    match &lines[0] {
        None => {
            return ReadOutcome::Rejected(ParserError::InvalidHeader(invalid_utf8_line_message()));
        },
        Some(h) => {
            let header = chars_of("TX_ID,TX_TYPE,FROM_USER_ID,TO_USER_ID,AMOUNT,TIMESTAMP,STATUS,DESCRIPTION");
            if !same_chars(trimmed(h.as_slice()).as_slice(), header.as_slice()) {
                return ReadOutcome::Rejected(
                    ParserError::InvalidHeader(owned("csv заголовок не валидный")),
                );
            }
        },
    }
    let comma = chars_of(",");
    proof {
        reveal_strlit(",");
    }
    assert(decode_csv(bytes@) == csv_records(lv.drop_first()));
    let mut out: Vec<Transaction> = Vec::new();
    let mut i: usize = 1;
    assert(lv.skip(1) == lv.drop_first());
    assert(types::models(out@) =~= Seq::<TxModel>::empty());
    assert(outcome::prepend(Seq::<TxModel>::empty(), csv_records(lv.skip(1))) == csv_records(lv.skip(1))) by {
        match csv_records(lv.skip(1)) {
            Verdict::Done(x) => {
                assert(Seq::<TxModel>::empty() + x =~= x);
            },
            _ => {},
        }
    }
    while i < lines.len()
        invariant
            comma@ == ","@,
            comma@.len() == 1,
            lv == text::line_views(lines@),
            decode_csv(bytes@) == csv_records(lv.drop_first()),
            1 <= i <= lines@.len(),
            csv_records(lv.drop_first()) == outcome::prepend(
                types::models(out@),
                csv_records(lv.skip(i as int)),
            ),
        decreases lines@.len() - i,
    {
        let ghost rest = lv.skip(i as int);
        assert(rest[0] == lv[i as int]);
        assert(rest.drop_first() == lv.skip(i + 1));
        assert(lv[i as int] == match lines@[i as int] {
            Some(x) => Some(x@),
            None => None::<Seq<char>>,
        });
        match &lines[i] {
            None => {
                return ReadOutcome::Aborted;
            },
            Some(l) => {
                if l.len() > 0 {
                    let fields = split_on(l.as_slice(), comma.as_slice());
                    if fields.len() != 8 {
                        return ReadOutcome::Rejected(
                            ParserError::InvalidRecord(owned("неверная длина транзакции")),
                        );
                    }
                    match record_from_fields(&fields) {
                        Ok(t) => {
                            let ghost before = types::models(out@);
                            out.push(t);
                            assert(types::models(out@) =~= before + seq![t@]);
                            proof {
                                let tail = csv_records(lv.skip(i + 1));
                                assert(outcome::prepend(before, outcome::prepend(seq![t@], tail))
                                    == outcome::prepend(before + seq![t@], tail)) by {
                                    match tail {
                                        Verdict::Done(x) => {
                                            assert(before + (seq![t@] + x) =~= before + seq![t@] + x);
                                        },
                                        _ => {},
                                    }
                                }
                            }
                        },
                        Err(e) => {
                            return ReadOutcome::Rejected(e);
                        },
                    }
                }
            },
        }
        i = i + 1;
    }
    assert(lv.skip(i as int).len() == 0);
    assert(types::models(out@) + Seq::<TxModel>::empty() == types::models(out@));
    ReadOutcome::Parsed(out)
}

/// Reads a CSV stream (see `decode_csv`), for an input on which the reader does not
/// stop the program.
pub fn read(bytes: &[u8]) -> (r: Result<Vec<Transaction>, ParserError>)
    requires
        !(decode_csv(bytes@) is Aborted),
    ensures
        outcome::verdict_of(r) == decode_csv(bytes@),
{
    decode(bytes).into_result()
}

/// The number `n` written out.
fn decimal_chars(n: u64) -> (r: Vec<char>)
    ensures
        r@ == decimal::decimal(n as nat),
{
    let mut r: Vec<char> = Vec::new();
    push_decimal(&mut r, n);
    r
}

/// Appends the line of a record, without its line feed.
fn push_csv_line(out: &mut Vec<char>, t: &Transaction)
    ensures
        final(out)@ == old(out)@ + csv_line(t@),
{
    let mut amount: Vec<char> = Vec::new();
    push_signed_decimal(&mut amount, t.amount);
    let mut fields: Vec<Vec<char>> = Vec::new();
    fields.push(decimal_chars(t.tx_id));
    fields.push(chars_of(t.tx_type.name()));
    fields.push(decimal_chars(t.from_user_id));
    fields.push(decimal_chars(t.to_user_id));
    fields.push(amount);
    fields.push(decimal_chars(t.timestamp));
    fields.push(chars_of(t.status.name()));
    fields.push(chars_of(t.description.as_str()));
    assert(text::views(fields@) =~= csv_fields(t@));
    let comma = chars_of(",");
    push_joined(out, &fields, comma.as_slice());
}

/// Writes the header line and a line for each transaction; an empty list is
/// refused.
pub fn write(transactions: &Vec<Transaction>) -> (r: Result<Vec<u8>, ParserError>)
    ensures
        outcome::bytes_result(r) == csv_output(types::models(transactions@)),
{
    if transactions.len() == 0 {
        return Err(ParserError::EmptyTransactions(owned("транзакций нет")));
    }
    let ghost txs = types::models(transactions@);
    let mut text: Vec<char> = Vec::new();
    push_str(&mut text, "TX_ID,TX_TYPE,FROM_USER_ID,TO_USER_ID,AMOUNT,TIMESTAMP,STATUS,DESCRIPTION");
    text.push('\n');
    let ghost head = text@;
    assert(txs.take(0) =~= Seq::<TxModel>::empty());
    let mut i: usize = 0;
    while i < transactions.len()
        invariant
            txs == types::models(transactions@),
            head == csv_header() + seq!['\n'],
            i <= transactions@.len(),
            text@ == head + csv_body(txs.take(i as int)),
        decreases transactions@.len() - i,
    {
        push_csv_line(&mut text, &transactions[i]);
        text.push('\n');
        assert(txs.take(i + 1).drop_last() =~= txs.take(i as int));
        assert(text@ =~= head + csv_body(txs.take(i + 1)));
        i = i + 1;
    }
    assert(txs.take(i as int) =~= txs);
    Ok(utf8_bytes(text.as_slice()))
}

/// Whether a record is read back as itself from its CSV line: its type and status
/// are known ones, and its description holds no comma and no line feed and does not
/// end with a carriage return.
pub open spec fn csv_writable(t: TxModel) -> bool {
    &&& t.tx_type != types::TransactionType::WrongType
    &&& t.status != types::TransactionStatus::WrongStatus
    &&& text::lacks(t.description, ',')
    &&& text::lacks(t.description, '\n')
    &&& !(t.description.len() > 0 && t.description.last() == '\r')
}

/// Digits, and a `-`, are neither commas, colons, line feeds nor white space.
pub proof fn lemma_number_chars(s: Seq<char>)
    requires
        forall|i: int| 0 <= i < s.len() ==> decimal::is_digit(#[trigger] s[i]) || s[i] == '-',
    ensures
        text::lacks(s, ','),
        text::lacks(s, ':'),
        text::lacks(s, '\n'),
        forall|i: int| 0 <= i < s.len() ==> !text::is_white_space(#[trigger] s[i]),
{
    assert forall|i: int| 0 <= i < s.len() implies s[i] != ',' && s[i] != ':' && s[i] != '\n' by {
        assert(decimal::is_digit(s[i]) || s[i] == '-');
    }
}

/// Capitals are neither commas, colons, line feeds nor white space.
pub proof fn lemma_capital_chars(s: Seq<char>)
    requires
        types::capitals(s),
    ensures
        text::lacks(s, ','),
        text::lacks(s, ':'),
        text::lacks(s, '\n'),
        forall|i: int| 0 <= i < s.len() ==> !text::is_white_space(#[trigger] s[i]),
{
    assert forall|i: int| 0 <= i < s.len() implies s[i] != ',' && s[i] != ':' && s[i] != '\n'
        && !text::is_white_space(s[i]) by {
        assert('A' <= s[i] <= 'Z' || s[i] == '_');
    }
}

/// The numbers of a record, written out, hold no comma, colon or line feed, and
/// neither start nor end with white space.
pub proof fn lemma_record_numbers(t: TxModel)
    ensures
        text::lacks(decimal::decimal(t.tx_id as nat), ','),
        text::lacks(decimal::decimal(t.tx_id as nat), ':'),
        text::lacks(decimal::decimal(t.tx_id as nat), '\n'),
        text::lacks(decimal::decimal(t.from_user_id as nat), ','),
        text::lacks(decimal::decimal(t.from_user_id as nat), ':'),
        text::lacks(decimal::decimal(t.from_user_id as nat), '\n'),
        text::lacks(decimal::decimal(t.to_user_id as nat), ','),
        text::lacks(decimal::decimal(t.to_user_id as nat), ':'),
        text::lacks(decimal::decimal(t.to_user_id as nat), '\n'),
        text::lacks(decimal::signed_decimal(t.amount as int), ','),
        text::lacks(decimal::signed_decimal(t.amount as int), ':'),
        text::lacks(decimal::signed_decimal(t.amount as int), '\n'),
        text::lacks(decimal::decimal(t.timestamp as nat), ','),
        text::lacks(decimal::decimal(t.timestamp as nat), ':'),
        text::lacks(decimal::decimal(t.timestamp as nat), '\n'),
        text::trim(decimal::decimal(t.tx_id as nat)) == decimal::decimal(t.tx_id as nat),
        text::trim(decimal::decimal(t.from_user_id as nat)) == decimal::decimal(t.from_user_id as nat),
        text::trim(decimal::decimal(t.to_user_id as nat)) == decimal::decimal(t.to_user_id as nat),
        text::trim(decimal::signed_decimal(t.amount as int)) == decimal::signed_decimal(t.amount as int),
        text::trim(decimal::decimal(t.timestamp as nat)) == decimal::decimal(t.timestamp as nat),
        decimal::is_digit(decimal::decimal(t.tx_id as nat)[0]),
{
    decimal::lemma_decimal_digits(t.tx_id as nat);
    decimal::lemma_decimal_digits(t.from_user_id as nat);
    decimal::lemma_decimal_digits(t.to_user_id as nat);
    decimal::lemma_decimal_digits(t.timestamp as nat);
    decimal::lemma_signed_decimal_chars(t.amount as int);
    lemma_number_chars(decimal::decimal(t.tx_id as nat));
    lemma_number_chars(decimal::decimal(t.from_user_id as nat));
    lemma_number_chars(decimal::decimal(t.to_user_id as nat));
    lemma_number_chars(decimal::decimal(t.timestamp as nat));
    lemma_number_chars(decimal::signed_decimal(t.amount as int));
    text::lemma_trim_plain(decimal::decimal(t.tx_id as nat));
    text::lemma_trim_plain(decimal::decimal(t.from_user_id as nat));
    text::lemma_trim_plain(decimal::decimal(t.to_user_id as nat));
    text::lemma_trim_plain(decimal::decimal(t.timestamp as nat));
    text::lemma_trim_plain(decimal::signed_decimal(t.amount as int));
}

proof fn lemma_csv_fields_lack(t: TxModel, c: char)
    requires
        csv_writable(t),
        c == ',' || c == '\n',
    ensures
        forall|i: int| 0 <= i < csv_fields(t).len() ==> text::lacks(#[trigger] csv_fields(t)[i], c),
{
    lemma_record_numbers(t);
    types::lemma_type_label_roundtrip(t.tx_type);
    types::lemma_status_label_roundtrip(t.status);
    lemma_capital_chars(types::type_label(t.tx_type));
    lemma_capital_chars(types::status_label(t.status));
    let fs = csv_fields(t);
    assert forall|i: int| 0 <= i < fs.len() implies text::lacks(#[trigger] fs[i], c) by {
        if i == 0 {
        } else if i == 1 {
        } else if i == 2 {
        } else if i == 3 {
        } else if i == 4 {
        } else if i == 5 {
        } else if i == 6 {
        } else {
            assert(fs[i] == t.description);
        }
    }
}

proof fn lemma_csv_split(t: TxModel)
    requires
        csv_writable(t),
    ensures
        text::split(csv_line(t), ","@) == csv_fields(t),
{
    reveal_strlit(",");
    assert(","@[0] == ',');
    lemma_csv_fields_lack(t, ',');
    text::lemma_split_sep_join(csv_fields(t), ","@);
}

proof fn lemma_csv_record(t: TxModel)
    requires
        csv_writable(t),
    ensures
        csv_record(csv_fields(t)) == Ok::<TxModel, ErrorModel>(t),
{
    types::lemma_type_label_roundtrip(t.tx_type);
    types::lemma_status_label_roundtrip(t.status);
    decimal::lemma_u64_text_roundtrip(t.tx_id);
    decimal::lemma_u64_text_roundtrip(t.from_user_id);
    decimal::lemma_u64_text_roundtrip(t.to_user_id);
    decimal::lemma_u64_text_roundtrip(t.timestamp);
    decimal::lemma_i64_text_roundtrip(t.amount);
    assert(csv_fields(t)[7] == t.description);
    assert(csv_record(csv_fields(t)) =~= Ok::<TxModel, ErrorModel>(t));
}

proof fn lemma_csv_plain(t: TxModel)
    requires
        csv_writable(t),
    ensures
        text::plain_line(csv_line(t)),
        csv_line(t).len() > 0,
{
    reveal_strlit(",");
    let fs = csv_fields(t);
    lemma_csv_fields_lack(t, '\n');
    assert(text::lacks(","@, '\n'));
    text::lemma_sep_join_lacks(fs, ","@, '\n');
    text::lemma_sep_join_last(fs, ","@);
    let line = csv_line(t);
    let head = text::sep_join(fs.drop_last(), ","@);
    let desc = t.description;
    assert(fs.last() == desc);
    if desc.len() > 0 {
        assert(line.last() == desc.last());
    } else {
        assert(line == head + ","@ + desc);
        assert(line.last() == ',');
    }
}

proof fn lemma_csv_line(t: TxModel)
    requires
        csv_writable(t),
    ensures
        text::split(csv_line(t), ","@) == csv_fields(t),
        csv_record(csv_fields(t)) == Ok::<TxModel, ErrorModel>(t),
        text::plain_line(csv_line(t)),
        csv_line(t).len() > 0,
{
    lemma_csv_split(t);
    lemma_csv_record(t);
    lemma_csv_plain(t);
}

proof fn lemma_csv_records(txs: Seq<TxModel>)
    requires
        forall|i: int| 0 <= i < txs.len() ==> csv_writable(#[trigger] txs[i]),
    ensures
        csv_records(txs.map_values(|t: TxModel| Some(csv_line(t)))) == Verdict::Done(txs),
    decreases txs.len(),
{
    let lines = txs.map_values(|t: TxModel| Some(csv_line(t)));
    if txs.len() == 0 {
        assert(txs =~= Seq::<TxModel>::empty());
    } else {
        let rest = txs.drop_first();
        assert forall|i: int| 0 <= i < rest.len() implies csv_writable(#[trigger] rest[i]) by {
            assert(rest[i] == txs[i + 1]);
        }
        lemma_csv_records(rest);
        assert(csv_writable(txs[0]));
        lemma_csv_line(txs[0]);
        assert(lines.drop_first() =~= rest.map_values(|t: TxModel| Some(csv_line(t))));
        assert(lines[0] == Some(csv_line(txs[0])));
        assert(seq![txs[0]] + rest =~= txs);
    }
}

proof fn lemma_csv_body(txs: Seq<TxModel>)
    ensures
        csv_body(txs) == text::joined(txs.map_values(|t: TxModel| csv_line(t))),
    decreases txs.len(),
{
    let ls = txs.map_values(|t: TxModel| csv_line(t));
    if txs.len() == 0 {
        assert(ls =~= Seq::<Seq<char>>::empty());
    } else {
        let init = txs.drop_last();
        lemma_csv_body(init);
        let li = init.map_values(|t: TxModel| csv_line(t));
        assert(ls =~= li + seq![csv_line(txs.last())]);
        text::lemma_joined_concat(li, seq![csv_line(txs.last())]);
        text::lemma_joined_single(csv_line(txs.last()));
        assert(csv_body(txs) =~= text::joined(ls));
    }
}

/// Records written as CSV are read back as they were, in order, when each is
/// `csv_writable`.
pub proof fn law_csv_roundtrip(txs: Seq<TxModel>)
    requires
        forall|i: int| 0 <= i < txs.len() ==> csv_writable(#[trigger] txs[i]),
    ensures
        decode_csv(encode_utf8(csv_text(txs))) == Verdict::Done(txs),
{
    reveal_strlit("TX_ID,TX_TYPE,FROM_USER_ID,TO_USER_ID,AMOUNT,TIMESTAMP,STATUS,DESCRIPTION");
    let h = csv_header();
    let body = txs.map_values(|t: TxModel| csv_line(t));
    let ls = seq![h] + body;
    lemma_csv_body(txs);
    text::lemma_joined_concat(seq![h], body);
    text::lemma_joined_single(h);
    assert(csv_text(txs) =~= text::joined(ls));
    assert(text::plain_line(h)) by {
        assert forall|i: int| 0 <= i < h.len() implies h[i] != '\n' by {
            assert(h[i] == ',' || ('A' <= h[i] <= 'Z') || h[i] == '_');
        }
    }
    assert forall|i: int| 0 <= i < ls.len() implies text::plain_line(#[trigger] ls[i]) by {
        if i > 0 {
            assert(ls[i] == csv_line(txs[i - 1]));
            lemma_csv_line(txs[i - 1]);
        }
    }
    text::lemma_joined_roundtrip(ls);
    let lines = text::text_lines(encode_utf8(csv_text(txs)));
    assert(lines == ls.map_values(|l: Seq<char>| Some(l)));
    assert(lines[0] == Some(h));
    text::lemma_trim_plain(h);
    assert(lines.drop_first() =~= txs.map_values(|t: TxModel| Some(csv_line(t))));
    lemma_csv_records(txs);
}

/// The last record of a CSV file needs no line feed after it: the header line and
/// the line of one record, with nothing after it, are read as that record.
pub proof fn law_csv_unterminated_record(t: TxModel)
    requires
        csv_writable(t),
    ensures
        decode_csv(encode_utf8(csv_header() + seq!['\n'] + csv_line(t))) == Verdict::Done(seq![t]),
{
    let x = csv_header() + seq!['\n'] + csv_line(t);
    let one = seq![t];
    law_csv_roundtrip(one);
    assert(one.drop_last() =~= Seq::<TxModel>::empty());
    assert(csv_body(one.drop_last()) == Seq::<char>::empty());
    assert(csv_text(one) =~= x + seq!['\n']);
    text::lemma_encode_push_newline(x);
    lemma_csv_line(t);
    assert(x.last() == csv_line(t).last());
    text::lemma_encode_line_end(x);
    text::law_last_line_kept(encode_utf8(x));
}

/// A file of the header line alone, with no line feed after it, holds no records.
pub proof fn law_csv_header_alone()
    ensures
        decode_csv(encode_utf8(csv_header())) == Verdict::Done(Seq::<TxModel>::empty()),
{
    reveal_strlit("TX_ID,TX_TYPE,FROM_USER_ID,TO_USER_ID,AMOUNT,TIMESTAMP,STATUS,DESCRIPTION");
    let h = csv_header();
    let none = Seq::<TxModel>::empty();
    law_csv_roundtrip(none);
    assert(csv_text(none) =~= h + seq!['\n']);
    text::lemma_encode_push_newline(h);
    assert(h.last() == 'N');
    text::lemma_encode_line_end(h);
    text::law_last_line_kept(encode_utf8(h));
}

/// The line of a record splits at its commas into eight fields, in the order of the
/// header: the record's number in decimal, the name of its type, the numbers of the
/// two users, the amount, the time, the name of its status and its description.
pub proof fn law_csv_line_fields(t: TxModel)
    requires
        csv_writable(t),
    ensures
        ({
            let f = text::split(csv_line(t), ","@);
            &&& f.len() == 8
            &&& decimal::parse_u64_text(f[0]) == Ok::<u64, decimal::IntFault>(t.tx_id)
            &&& f[1] == types::type_label(t.tx_type)
            &&& types::type_of_label(f[1]) == Some(t.tx_type)
            &&& decimal::parse_u64_text(f[2]) == Ok::<u64, decimal::IntFault>(t.from_user_id)
            &&& decimal::parse_u64_text(f[3]) == Ok::<u64, decimal::IntFault>(t.to_user_id)
            &&& decimal::parse_i64_text(f[4]) == Ok::<i64, decimal::IntFault>(t.amount)
            &&& decimal::parse_u64_text(f[5]) == Ok::<u64, decimal::IntFault>(t.timestamp)
            &&& f[6] == types::status_label(t.status)
            &&& types::status_of_label(f[6]) == Some(t.status)
            &&& f[7] == t.description
        }),
{
    lemma_csv_split(t);
    types::lemma_type_label_roundtrip(t.tx_type);
    types::lemma_status_label_roundtrip(t.status);
    decimal::lemma_u64_text_roundtrip(t.tx_id);
    decimal::lemma_u64_text_roundtrip(t.from_user_id);
    decimal::lemma_u64_text_roundtrip(t.to_user_id);
    decimal::lemma_u64_text_roundtrip(t.timestamp);
    decimal::lemma_i64_text_roundtrip(t.amount);
}

/// A record line is read field by field: it gives a record exactly when each number
/// field holds a number and the type and status fields name a known type and
/// status, and the record then holds those numbers, the type and the status that
/// the fields name, and the last field as its description.
pub proof fn law_csv_record_fields(f: Seq<Seq<char>>)
    ensures
        (csv_record(f) is Ok) <==> (decimal::parse_u64_text(f[0]) is Ok && types::type_of_label(
            f[1],
        ) is Some && decimal::parse_u64_text(f[2]) is Ok && decimal::parse_u64_text(f[3]) is Ok
            && decimal::parse_i64_text(f[4]) is Ok && decimal::parse_u64_text(f[5]) is Ok
            && types::status_of_label(f[6]) is Some),
        csv_record(f) matches Ok(m) ==> {
            &&& decimal::parse_u64_text(f[0]) == Ok::<u64, decimal::IntFault>(m.tx_id)
            &&& types::type_of_label(f[1]) == Some(m.tx_type)
            &&& decimal::parse_u64_text(f[2]) == Ok::<u64, decimal::IntFault>(m.from_user_id)
            &&& decimal::parse_u64_text(f[3]) == Ok::<u64, decimal::IntFault>(m.to_user_id)
            &&& decimal::parse_i64_text(f[4]) == Ok::<i64, decimal::IntFault>(m.amount)
            &&& decimal::parse_u64_text(f[5]) == Ok::<u64, decimal::IntFault>(m.timestamp)
            &&& types::status_of_label(f[6]) == Some(m.status)
            &&& m.description == f[7]
        },
{
}

/// Empty lines after the header are skipped: one put anywhere among the record
/// lines changes nothing.
pub proof fn law_csv_empty_line(lines: Seq<Option<Seq<char>>>, i: int)
    requires
        0 <= i <= lines.len(),
    ensures
        csv_records(lines.insert(i, Some(Seq::<char>::empty()))) == csv_records(lines),
    decreases i,
{
    let x = Some(Seq::<char>::empty());
    let m = lines.insert(i, x);
    if i == 0 {
        assert(m[0] == x);
        assert(m.drop_first() =~= lines);
    } else {
        assert(m[0] == lines[0]);
        assert(m.drop_first() =~= lines.drop_first().insert(i - 1, x));
        law_csv_empty_line(lines.drop_first(), i - 1);
    }
}

} // verus!
