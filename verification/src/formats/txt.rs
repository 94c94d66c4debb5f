use vstd::prelude::*;
use vstd::utf8::encode_utf8;

use crate::common::{self, i64_from_chars, status_from_chars, type_from_chars, u64_from_chars};
use crate::decimal::{self, push_decimal, push_signed_decimal};
use crate::errors::{owned, ErrorModel, ParserError};
use crate::formats::csv;
use crate::outcome;
use crate::text::{
    self, chars_of, invalid_utf8_line_message, push_chars, push_lines, push_str, read_lines, same_chars, split_on,
    string_from_chars, trimmed, utf8_bytes,
};
use crate::types::{self, Transaction, TxModel};

verus! {

/// The record `acc` with the field named `name` set from `value`; a name that is
/// not a field leaves it as it is.
pub open spec fn txt_apply(acc: TxModel, name: Seq<char>, value: Seq<char>) -> Result<
    TxModel,
    ErrorModel,
> {
    if name == "TX_ID"@ {
        match common::u64_field(value) {
            Ok(v) => Ok(TxModel { tx_id: v, ..acc }),
            Err(e) => Err(e),
        }
    } else if name == "TX_TYPE"@ {
        match common::type_field(value) {
            Ok(v) => Ok(TxModel { tx_type: v, ..acc }),
            Err(e) => Err(e),
        }
    } else if name == "FROM_USER_ID"@ {
        match common::u64_field(value) {
            Ok(v) => Ok(TxModel { from_user_id: v, ..acc }),
            Err(e) => Err(e),
        }
    } else if name == "TO_USER_ID"@ {
        match common::u64_field(value) {
            Ok(v) => Ok(TxModel { to_user_id: v, ..acc }),
            Err(e) => Err(e),
        }
    } else if name == "AMOUNT"@ {
        match common::i64_field(value) {
            Ok(v) => Ok(TxModel { amount: v, ..acc }),
            Err(e) => Err(e),
        }
    } else if name == "TIMESTAMP"@ {
        match common::u64_field(value) {
            Ok(v) => Ok(TxModel { timestamp: v, ..acc }),
            Err(e) => Err(e),
        }
    } else if name == "STATUS"@ {
        match common::status_field(value) {
            Ok(v) => Ok(TxModel { status: v, ..acc }),
            Err(e) => Err(e),
        }
    } else if name == "DESCRIPTION"@ {
        Ok(TxModel { description: value, ..acc })
    } else {
        Ok(acc)
    }
}

/// The records of text lines, read into the record `acc` and collected after `out`.
/// A line that starts with `#` is skipped; an empty line ends a record, which is
/// collected while `acc` goes on holding its fields; any other line must split at
/// `": "` into a name and a value, both trimmed.
pub open spec fn txt_records(lines: Seq<Option<Seq<char>>>, acc: TxModel, out: Seq<TxModel>) -> Result<
    Seq<TxModel>,
    ErrorModel,
>
    decreases lines.len(),
{
    if lines.len() == 0 {
        Ok(out)
    } else {
        match lines[0] {
            None => Err(ErrorModel::InvalidRecord(text::invalid_utf8_line_text())),
            Some(l) => if l.len() > 0 && l[0] == '#' {
                txt_records(lines.drop_first(), acc, out)
            } else if l.len() == 0 {
                txt_records(lines.drop_first(), acc, out.push(acc))
            } else {
                let f = text::split(l, ": "@);
                if f.len() != 2 {
                    Err(ErrorModel::InvalidRecord(csv::record_length_text()))
                } else {
                    match txt_apply(acc, text::trim(f[0]), text::trim(f[1])) {
                        Ok(a) => txt_records(lines.drop_first(), a, out),
                        Err(e) => Err(e),
                    }
                }
            },
        }
    }
}

/// What a text stream holds, read from a record with default fields.
pub open spec fn decode_txt(s: Seq<u8>) -> Result<Seq<TxModel>, ErrorModel> {
    txt_records(text::text_lines(s), types::default_model(), seq![])
}

/// Sets the field named `name` of `acc` from `value` (see `txt_apply`).
fn apply_field(acc: &mut Transaction, name: &[char], value: &[char]) -> (r: Result<(), ParserError>)
    ensures
        match txt_apply(old(acc)@, name@, value@) {
            Ok(a) => r is Ok && final(acc)@ == a,
            Err(e) => r matches Err(x) && x@ == e,
        },
{
    if same_chars(name, chars_of("TX_ID").as_slice()) {
        acc.tx_id = u64_from_chars(value)?;
    } else if same_chars(name, chars_of("TX_TYPE").as_slice()) {
        acc.tx_type = type_from_chars(value)?;
    } else if same_chars(name, chars_of("FROM_USER_ID").as_slice()) {
        acc.from_user_id = u64_from_chars(value)?;
    } else if same_chars(name, chars_of("TO_USER_ID").as_slice()) {
        acc.to_user_id = u64_from_chars(value)?;
    } else if same_chars(name, chars_of("AMOUNT").as_slice()) {
        acc.amount = i64_from_chars(value)?;
    } else if same_chars(name, chars_of("TIMESTAMP").as_slice()) {
        acc.timestamp = u64_from_chars(value)?;
    } else if same_chars(name, chars_of("STATUS").as_slice()) {
        acc.status = status_from_chars(value)?;
    } else if same_chars(name, chars_of("DESCRIPTION").as_slice()) {
        acc.description = string_from_chars(value);
    }
    Ok(())
}

/// Reads a text stream (see `txt_records`): records of `NAME: value` lines, each
/// ended by an empty line.
pub fn read(bytes: &[u8]) -> (r: Result<Vec<Transaction>, ParserError>)
    ensures
        outcome::records_result(r) == decode_txt(bytes@),
{
    let lines = read_lines(bytes);
    let ghost lv = text::line_views(lines@);
    let separator = chars_of(": ");
    proof {
        reveal_strlit(": ");
    }
    let mut out: Vec<Transaction> = Vec::new();
    let mut acc = Transaction::default();
    let mut i: usize = 0;
    assert(lv.skip(0) == lv);
    assert(types::models(out@) =~= Seq::<TxModel>::empty());
    while i < lines.len()
        invariant
            separator@ == ": "@,
            separator@.len() == 2,
            lv == text::line_views(lines@),
            lv == text::text_lines(bytes@),
            i <= lines@.len(),
            decode_txt(bytes@) == txt_records(lv.skip(i as int), acc@, types::models(out@)),
        decreases lines@.len() - i,
    {
        let ghost rest = lv.skip(i as int);
        assert(rest[0] == lv[i as int]);
        assert(rest.drop_first() == lv.skip(i + 1));
        assert(lv[i as int] == match lines@[i as int] {
            Some(x) => Some(x@),
            None => None::<Seq<char>>,
        });
        match &lines[i] {
            None => {
                return Err(ParserError::InvalidRecord(invalid_utf8_line_message()));
            },
            Some(l) => {
                if l.len() > 0 && l[0] == '#' {
                } else if l.len() == 0 {
                    let ghost before = types::models(out@);
                    out.push(acc.clone());
                    assert(types::models(out@) =~= before.push(acc@));
                } else {
                    let fields = split_on(l.as_slice(), separator.as_slice());
                    if fields.len() != 2 {
                        return Err(ParserError::InvalidRecord(owned("неверная длина транзакции")));
                    }
                    assert(text::views(fields@)[0] == fields@[0]@);
                    assert(text::views(fields@)[1] == fields@[1]@);
                    let name = trimmed(fields[0].as_slice());
                    let value = trimmed(fields[1].as_slice());
                    match apply_field(&mut acc, name.as_slice(), value.as_slice()) {
                        Ok(()) => {},
                        Err(e) => {
                            return Err(e);
                        },
                    }
                }
            },
        }
        i = i + 1;
    }
    assert(lv.skip(i as int).len() == 0);
    Ok(out)
}

/// A line that gives the field `name` the value `value`.
pub open spec fn field_line(name: Seq<char>, value: Seq<char>) -> Seq<char> {
    name + ": "@ + value
}

/// The lines of one record: a `#` line, a `NAME: value` line for each field, and an
/// empty line.
pub open spec fn block_lines(t: TxModel) -> Seq<Seq<char>> {
    seq![
        "#"@,
        field_line("TX_ID"@, decimal::decimal(t.tx_id as nat)),
        field_line("TX_TYPE"@, types::type_label(t.tx_type)),
        field_line("FROM_USER_ID"@, decimal::decimal(t.from_user_id as nat)),
        field_line("TO_USER_ID"@, decimal::decimal(t.to_user_id as nat)),
        field_line("AMOUNT"@, decimal::signed_decimal(t.amount as int)),
        field_line("TIMESTAMP"@, decimal::decimal(t.timestamp as nat)),
        field_line("STATUS"@, types::status_label(t.status)),
        field_line("DESCRIPTION"@, t.description),
        seq![],
    ]
}

/// The lines of records, one block after another.
pub open spec fn txt_lines(txs: Seq<TxModel>) -> Seq<Seq<char>>
    decreases txs.len(),
{
    if txs.len() == 0 {
        seq![]
    } else {
        block_lines(txs[0]) + txt_lines(txs.drop_first())
    }
}

/// The text of records: their lines, each followed by a line feed.
pub open spec fn txt_text(txs: Seq<TxModel>) -> Seq<char> {
    text::joined(txt_lines(txs))
}

proof fn lemma_txt_lines_push(a: Seq<TxModel>, x: TxModel)
    ensures
        txt_lines(a.push(x)) == txt_lines(a) + block_lines(x),
    decreases a.len(),
{
    if a.len() == 0 {
        assert(a.push(x).drop_first() =~= Seq::<TxModel>::empty());
        assert(txt_lines(a.push(x).drop_first()) == Seq::<Seq<char>>::empty());
        assert(txt_lines(a) == Seq::<Seq<char>>::empty());
        assert(txt_lines(a.push(x)) =~= txt_lines(a) + block_lines(x));
    } else {
        assert(a.push(x).drop_first() =~= a.drop_first().push(x));
        lemma_txt_lines_push(a.drop_first(), x);
        assert(txt_lines(a.push(x)) =~= txt_lines(a) + block_lines(x));
    }
}

/// What writing records gives: the UTF-8 bytes of their text, or a refusal when
/// there are none.
pub open spec fn txt_output(txs: Seq<TxModel>) -> Result<Seq<u8>, ErrorModel> {
    if txs.len() == 0 {
        Err(ErrorModel::EmptyTransactions(csv::empty_text()))
    } else {
        Ok(encode_utf8(txt_text(txs)))
    }
}

/// A field line, as characters.
fn field_line_chars(name: &str, value: Vec<char>) -> (r: Vec<char>)
    ensures
        r@ == field_line(name@, value@),
{
    let mut r = chars_of(name);
    push_str(&mut r, ": ");
    push_chars(&mut r, value.as_slice());
    r
}

/// The number `n` written out.
fn decimal_chars(n: u64) -> (r: Vec<char>)
    ensures
        r@ == decimal::decimal(n as nat),
{
    let mut r: Vec<char> = Vec::new();
    push_decimal(&mut r, n);
    r
}

/// Appends the block of one record.
fn push_block(out: &mut Vec<char>, t: &Transaction)
    ensures
        final(out)@ == old(out)@ + text::joined(block_lines(t@)),
{
    let mut amount: Vec<char> = Vec::new();
    push_signed_decimal(&mut amount, t.amount);
    let mut lines: Vec<Vec<char>> = Vec::new();
    lines.push(chars_of("#"));
    lines.push(field_line_chars("TX_ID", decimal_chars(t.tx_id)));
    lines.push(field_line_chars("TX_TYPE", chars_of(t.tx_type.name())));
    lines.push(field_line_chars("FROM_USER_ID", decimal_chars(t.from_user_id)));
    lines.push(field_line_chars("TO_USER_ID", decimal_chars(t.to_user_id)));
    lines.push(field_line_chars("AMOUNT", amount));
    lines.push(field_line_chars("TIMESTAMP", decimal_chars(t.timestamp)));
    lines.push(field_line_chars("STATUS", chars_of(t.status.name())));
    lines.push(field_line_chars("DESCRIPTION", chars_of(t.description.as_str())));
    lines.push(Vec::new());
    assert(text::views(lines@) =~= block_lines(t@));
    push_lines(out, &lines);
}

/// Writes a block of lines for each transaction; an empty list is refused.
pub fn write(transactions: &Vec<Transaction>) -> (r: Result<Vec<u8>, ParserError>)
    ensures
        outcome::bytes_result(r) == txt_output(types::models(transactions@)),
{
    if transactions.len() == 0 {
        return Err(ParserError::EmptyTransactions(owned("транзакций нет")));
    }
    let ghost txs = types::models(transactions@);
    let mut text: Vec<char> = Vec::new();
    assert(txs.take(0) =~= Seq::<TxModel>::empty());
    let mut i: usize = 0;
    assert(txt_lines(txs.take(0)) =~= Seq::<Seq<char>>::empty());
    while i < transactions.len()
        invariant
            txs == types::models(transactions@),
            i <= transactions@.len(),
            text@ == txt_text(txs.take(i as int)),
        decreases transactions@.len() - i,
    {
        push_block(&mut text, &transactions[i]);
        proof {
            assert(txs.take(i + 1) =~= txs.take(i as int).push(txs[i as int]));
            lemma_txt_lines_push(txs.take(i as int), txs[i as int]);
            text::lemma_joined_concat(txt_lines(txs.take(i as int)), block_lines(txs[i as int]));
        }
        i = i + 1;
    }
    assert(txs.take(i as int) =~= txs);
    Ok(utf8_bytes(text.as_slice()))
}

/// Whether a record is read back as itself from its block: its type and status are
/// known ones, and its description holds no line feed and no `": "`, and neither
/// starts nor ends with white space.
pub open spec fn txt_writable(t: TxModel) -> bool {
    &&& t.tx_type != types::TransactionType::WrongType
    &&& t.status != types::TransactionStatus::WrongStatus
    &&& text::lacks(t.description, '\n')
    &&& text::trim(t.description) == t.description
    &&& forall|i: int|
        0 <= i && i + 2 <= t.description.len() ==> !#[trigger] text::pattern_at(
            t.description,
            ": "@,
            i,
        )
}

/// The lines, each read as text.
pub open spec fn opts(ls: Seq<Seq<char>>) -> Seq<Option<Seq<char>>> {
    ls.map_values(|l: Seq<char>| Some(l))
}

proof fn lemma_txt_comment(rest: Seq<Option<Seq<char>>>, acc: TxModel, out: Seq<TxModel>)
    ensures
        txt_records(seq![Some("#"@)] + rest, acc, out) == txt_records(rest, acc, out),
{
    reveal_strlit("#");
    let ls = seq![Some("#"@)] + rest;
    assert(ls[0] == Some("#"@));
    assert(ls.drop_first() =~= rest);
}

proof fn lemma_txt_blank(rest: Seq<Option<Seq<char>>>, acc: TxModel, out: Seq<TxModel>)
    ensures
        txt_records(seq![Some(Seq::<char>::empty())] + rest, acc, out) == txt_records(
            rest,
            acc,
            out.push(acc),
        ),
{
    let ls = seq![Some(Seq::<char>::empty())] + rest;
    assert(ls[0] == Some(Seq::<char>::empty()));
    assert(ls.drop_first() =~= rest);
}

proof fn lemma_txt_field(
    name: Seq<char>,
    value: Seq<char>,
    rest: Seq<Option<Seq<char>>>,
    acc: TxModel,
    out: Seq<TxModel>,
)
    requires
        name.len() > 0,
        types::capitals(name),
        readable_value(value),
    ensures
        txt_records(seq![Some(field_line(name, value))] + rest, acc, out) == match txt_apply(
            acc,
            name,
            value,
        ) {
            Ok(a) => txt_records(rest, a, out),
            Err(e) => Err(e),
        },
{
    reveal_strlit(": ");
    let p = ": "@;
    let empty = Seq::<char>::empty();
    let l = field_line(name, value);
    let ls = seq![Some(l)] + rest;
    assert(ls[0] == Some(l));
    assert(ls.drop_first() =~= rest);
    csv::lemma_capital_chars(name);
    assert(p[0] == ':');
    text::lemma_split_first(name, p, value, empty);
    text::lemma_split_absent(value, p, empty);
    assert(empty + name =~= name);
    assert(empty + value =~= value);
    assert(text::split(l, p) =~= seq![name, value]);
    text::lemma_trim_plain(name);
    assert(l[0] == name[0]);
    assert('A' <= name[0] <= 'Z' || name[0] == '_');
}

/// The field names of the text format are told apart, and are capitals.
proof fn lemma_field_names()
    ensures
        "TX_ID"@ != "TX_TYPE"@,
        "TX_ID"@ != "FROM_USER_ID"@,
        "TX_ID"@ != "TO_USER_ID"@,
        "TX_ID"@ != "AMOUNT"@,
        "TX_ID"@ != "TIMESTAMP"@,
        "TX_ID"@ != "STATUS"@,
        "TX_ID"@ != "DESCRIPTION"@,
        "TX_TYPE"@ != "FROM_USER_ID"@,
        "TX_TYPE"@ != "TO_USER_ID"@,
        "TX_TYPE"@ != "AMOUNT"@,
        "TX_TYPE"@ != "TIMESTAMP"@,
        "TX_TYPE"@ != "STATUS"@,
        "TX_TYPE"@ != "DESCRIPTION"@,
        "FROM_USER_ID"@ != "TO_USER_ID"@,
        "FROM_USER_ID"@ != "AMOUNT"@,
        "FROM_USER_ID"@ != "TIMESTAMP"@,
        "FROM_USER_ID"@ != "STATUS"@,
        "FROM_USER_ID"@ != "DESCRIPTION"@,
        "TO_USER_ID"@ != "AMOUNT"@,
        "TO_USER_ID"@ != "TIMESTAMP"@,
        "TO_USER_ID"@ != "STATUS"@,
        "TO_USER_ID"@ != "DESCRIPTION"@,
        "AMOUNT"@ != "TIMESTAMP"@,
        "AMOUNT"@ != "STATUS"@,
        "AMOUNT"@ != "DESCRIPTION"@,
        "TIMESTAMP"@ != "STATUS"@,
        "TIMESTAMP"@ != "DESCRIPTION"@,
        "STATUS"@ != "DESCRIPTION"@,
        types::capitals("TX_ID"@) && "TX_ID"@.len() > 0,
        types::capitals("TX_TYPE"@) && "TX_TYPE"@.len() > 0,
        types::capitals("FROM_USER_ID"@) && "FROM_USER_ID"@.len() > 0,
        types::capitals("TO_USER_ID"@) && "TO_USER_ID"@.len() > 0,
        types::capitals("AMOUNT"@) && "AMOUNT"@.len() > 0,
        types::capitals("TIMESTAMP"@) && "TIMESTAMP"@.len() > 0,
        types::capitals("STATUS"@) && "STATUS"@.len() > 0,
        types::capitals("DESCRIPTION"@) && "DESCRIPTION"@.len() > 0,
{
    reveal_strlit("TX_ID");
    reveal_strlit("TX_TYPE");
    reveal_strlit("FROM_USER_ID");
    reveal_strlit("TO_USER_ID");
    reveal_strlit("AMOUNT");
    reveal_strlit("TIMESTAMP");
    reveal_strlit("STATUS");
    reveal_strlit("DESCRIPTION");
    assert("TX_ID"@.len() == 5);
    assert("TX_TYPE"@.len() == 7);
    assert("FROM_USER_ID"@.len() == 12);
    assert("TO_USER_ID"@.len() == 10);
    assert("AMOUNT"@.len() == 6);
    assert("TIMESTAMP"@.len() == 9);
    assert("STATUS"@.len() == 6);
    assert("DESCRIPTION"@.len() == 11);
    assert("AMOUNT"@[0] != "STATUS"@[0]);
}

/// Whether a value is read back as itself from a field line: it is its own trim,
/// and holds no line feed and no `": "`.
pub open spec fn readable_value(v: Seq<char>) -> bool {
    &&& text::trim(v) == v
    &&& text::lacks(v, '\n')
    &&& forall|i: int| 0 <= i && i + 2 <= v.len() ==> !#[trigger] text::pattern_at(v, ": "@, i)
}

/// The values written for a record can be read back.
proof fn lemma_block_values(t: TxModel)
    requires
        txt_writable(t),
    ensures
        readable_value(decimal::decimal(t.tx_id as nat)),
        readable_value(types::type_label(t.tx_type)),
        readable_value(decimal::decimal(t.from_user_id as nat)),
        readable_value(decimal::decimal(t.to_user_id as nat)),
        readable_value(decimal::signed_decimal(t.amount as int)),
        readable_value(decimal::decimal(t.timestamp as nat)),
        readable_value(types::status_label(t.status)),
        readable_value(t.description),
{
    reveal_strlit(": ");
    assert(": "@[0] == ':');
    csv::lemma_record_numbers(t);
    types::lemma_type_label_roundtrip(t.tx_type);
    types::lemma_status_label_roundtrip(t.status);
    csv::lemma_capital_chars(types::type_label(t.tx_type));
    csv::lemma_capital_chars(types::status_label(t.status));
    text::lemma_trim_plain(types::type_label(t.tx_type));
    text::lemma_trim_plain(types::status_label(t.status));
    text::lemma_absent_when_lacking(decimal::decimal(t.tx_id as nat), ": "@);
    text::lemma_absent_when_lacking(types::type_label(t.tx_type), ": "@);
    text::lemma_absent_when_lacking(decimal::decimal(t.from_user_id as nat), ": "@);
    text::lemma_absent_when_lacking(decimal::decimal(t.to_user_id as nat), ": "@);
    text::lemma_absent_when_lacking(decimal::signed_decimal(t.amount as int), ": "@);
    text::lemma_absent_when_lacking(decimal::decimal(t.timestamp as nat), ": "@);
    text::lemma_absent_when_lacking(types::status_label(t.status), ": "@);
}

/// The block of a record is read back into that record, whatever record the
/// reader held before, and the record is collected.
proof fn lemma_txt_block(t: TxModel, rest: Seq<Option<Seq<char>>>, acc: TxModel, out: Seq<TxModel>)
    requires
        txt_writable(t),
    ensures
        txt_records(opts(block_lines(t)) + rest, acc, out) == txt_records(rest, t, out.push(t)),
{
    lemma_field_names();
    lemma_block_values(t);
    decimal::lemma_u64_text_roundtrip(t.tx_id);
    decimal::lemma_u64_text_roundtrip(t.from_user_id);
    decimal::lemma_u64_text_roundtrip(t.to_user_id);
    decimal::lemma_u64_text_roundtrip(t.timestamp);
    decimal::lemma_i64_text_roundtrip(t.amount);
    types::lemma_type_label_roundtrip(t.tx_type);
    types::lemma_status_label_roundtrip(t.status);
    let d0 = decimal::decimal(t.tx_id as nat);
    let lab = types::type_label(t.tx_type);
    let d2 = decimal::decimal(t.from_user_id as nat);
    let d3 = decimal::decimal(t.to_user_id as nat);
    let s4 = decimal::signed_decimal(t.amount as int);
    let d5 = decimal::decimal(t.timestamp as nat);
    let slab = types::status_label(t.status);
    let desc = t.description;
    let r9 = seq![Some(Seq::<char>::empty())] + rest;
    let r8 = seq![Some(field_line("DESCRIPTION"@, desc))] + r9;
    let r7 = seq![Some(field_line("STATUS"@, slab))] + r8;
    let r6 = seq![Some(field_line("TIMESTAMP"@, d5))] + r7;
    let r5 = seq![Some(field_line("AMOUNT"@, s4))] + r6;
    let r4 = seq![Some(field_line("TO_USER_ID"@, d3))] + r5;
    let r3 = seq![Some(field_line("FROM_USER_ID"@, d2))] + r4;
    let r2 = seq![Some(field_line("TX_TYPE"@, lab))] + r3;
    let r1 = seq![Some(field_line("TX_ID"@, d0))] + r2;
    let r0 = seq![Some("#"@)] + r1;
    assert(opts(block_lines(t)) + rest =~= r0);
    let a1 = TxModel { tx_id: t.tx_id, ..acc };
    let a2 = TxModel { tx_type: t.tx_type, ..a1 };
    let a3 = TxModel { from_user_id: t.from_user_id, ..a2 };
    let a4 = TxModel { to_user_id: t.to_user_id, ..a3 };
    let a5 = TxModel { amount: t.amount, ..a4 };
    let a6 = TxModel { timestamp: t.timestamp, ..a5 };
    let a7 = TxModel { status: t.status, ..a6 };
    let a8 = TxModel { description: desc, ..a7 };
    lemma_txt_comment(r1, acc, out);
    lemma_txt_field("TX_ID"@, d0, r2, acc, out);
    assert(txt_apply(acc, "TX_ID"@, d0) == Ok::<TxModel, ErrorModel>(a1));
    lemma_txt_field("TX_TYPE"@, lab, r3, a1, out);
    assert(txt_apply(a1, "TX_TYPE"@, lab) == Ok::<TxModel, ErrorModel>(a2));
    lemma_txt_field("FROM_USER_ID"@, d2, r4, a2, out);
    assert(txt_apply(a2, "FROM_USER_ID"@, d2) == Ok::<TxModel, ErrorModel>(a3));
    lemma_txt_field("TO_USER_ID"@, d3, r5, a3, out);
    assert(txt_apply(a3, "TO_USER_ID"@, d3) == Ok::<TxModel, ErrorModel>(a4));
    lemma_txt_field("AMOUNT"@, s4, r6, a4, out);
    assert(txt_apply(a4, "AMOUNT"@, s4) == Ok::<TxModel, ErrorModel>(a5));
    lemma_txt_field("TIMESTAMP"@, d5, r7, a5, out);
    assert(txt_apply(a5, "TIMESTAMP"@, d5) == Ok::<TxModel, ErrorModel>(a6));
    lemma_txt_field("STATUS"@, slab, r8, a6, out);
    assert(txt_apply(a6, "STATUS"@, slab) == Ok::<TxModel, ErrorModel>(a7));
    lemma_txt_field("DESCRIPTION"@, desc, r9, a7, out);
    assert(txt_apply(a7, "DESCRIPTION"@, desc) == Ok::<TxModel, ErrorModel>(a8));
    assert(a8 == t);
    lemma_txt_blank(rest, t, out);
}

proof fn lemma_txt_all(txs: Seq<TxModel>, acc: TxModel, out: Seq<TxModel>)
    requires
        forall|i: int| 0 <= i < txs.len() ==> txt_writable(#[trigger] txs[i]),
    ensures
        txt_records(opts(txt_lines(txs)), acc, out) == Ok::<Seq<TxModel>, ErrorModel>(out + txs),
    decreases txs.len(),
{
    if txs.len() == 0 {
        assert(opts(txt_lines(txs)) =~= Seq::<Option<Seq<char>>>::empty());
        assert(out + txs =~= out);
    } else {
        let rest = txs.drop_first();
        assert forall|i: int| 0 <= i < rest.len() implies txt_writable(#[trigger] rest[i]) by {
            assert(rest[i] == txs[i + 1]);
        }
        assert(txt_writable(txs[0]));
        lemma_txt_all(rest, txs[0], out.push(txs[0]));
        assert(opts(txt_lines(txs)) =~= opts(block_lines(txs[0])) + opts(txt_lines(rest)));
        lemma_txt_block(txs[0], opts(txt_lines(rest)), acc, out);
        assert(out.push(txs[0]) + rest =~= out + txs);
    }
}

proof fn lemma_block_plain(t: TxModel)
    requires
        txt_writable(t),
    ensures
        forall|i: int| 0 <= i < block_lines(t).len() ==> text::plain_line(#[trigger] block_lines(t)[i]),
{
    broadcast use text::lemma_lacks_concat;

    reveal_strlit("#");
    reveal_strlit(": ");
    lemma_field_names();
    lemma_block_values(t);
    let b = block_lines(t);
    assert(text::lacks(": "@, '\n'));
    assert forall|i: int| 0 <= i < b.len() implies text::plain_line(#[trigger] b[i]) by {
        if 1 <= i <= 8 {
            let names = seq![
                "TX_ID"@,
                "TX_TYPE"@,
                "FROM_USER_ID"@,
                "TO_USER_ID"@,
                "AMOUNT"@,
                "TIMESTAMP"@,
                "STATUS"@,
                "DESCRIPTION"@,
            ];
            let values = seq![
                decimal::decimal(t.tx_id as nat),
                types::type_label(t.tx_type),
                decimal::decimal(t.from_user_id as nat),
                decimal::decimal(t.to_user_id as nat),
                decimal::signed_decimal(t.amount as int),
                decimal::decimal(t.timestamp as nat),
                types::status_label(t.status),
                t.description,
            ];
            let name = names[i - 1];
            let v = values[i - 1];
            assert(b[i] == field_line(name, v));
            assert(readable_value(v));
            csv::lemma_capital_chars(name);
            assert(text::lacks(b[i], '\n'));
            if v.len() > 0 {
                text::lemma_trim_fixed(v);
                assert(b[i].last() == v.last());
            } else {
                assert(b[i].last() == ' ');
            }
        }
    }
}

/// Records written as text are read back as they were, in order, when each is
/// `txt_writable`.
pub proof fn law_txt_roundtrip(txs: Seq<TxModel>)
    requires
        forall|i: int| 0 <= i < txs.len() ==> txt_writable(#[trigger] txs[i]),
    ensures
        decode_txt(encode_utf8(txt_text(txs))) == Ok::<Seq<TxModel>, ErrorModel>(txs),
{
    lemma_txt_lines_plain(txs);
    text::lemma_joined_roundtrip(txt_lines(txs));
    lemma_txt_all(txs, types::default_model(), seq![]);
    assert(Seq::<TxModel>::empty() + txs =~= txs);
}

proof fn lemma_txt_lines_plain(txs: Seq<TxModel>)
    requires
        forall|i: int| 0 <= i < txs.len() ==> txt_writable(#[trigger] txs[i]),
    ensures
        forall|i: int| 0 <= i < txt_lines(txs).len() ==> text::plain_line(#[trigger] txt_lines(txs)[i]),
    decreases txs.len(),
{
    if txs.len() > 0 {
        let rest = txs.drop_first();
        assert forall|i: int| 0 <= i < rest.len() implies txt_writable(#[trigger] rest[i]) by {
            assert(rest[i] == txs[i + 1]);
        }
        lemma_txt_lines_plain(rest);
        assert(txt_writable(txs[0]));
        lemma_block_plain(txs[0]);
        let b = block_lines(txs[0]);
        let ls = txt_lines(txs);
        assert(ls == b + txt_lines(rest));
        assert forall|i: int| 0 <= i < ls.len() implies text::plain_line(#[trigger] ls[i]) by {
            if i < b.len() {
                assert(ls[i] == b[i]);
            } else {
                assert(ls[i] == txt_lines(rest)[i - b.len()]);
            }
        }
    }
}

/// The block of a record: a `#` line, then a `NAME: value` line for each field in
/// the order of the CSV header, the type and the status by their names and the
/// numbers in decimal, then an empty line.
pub proof fn law_txt_block_fields(t: TxModel)
    ensures
        block_lines(t).len() == 10,
        block_lines(t)[0] == "#"@,
        block_lines(t)[1] == field_line("TX_ID"@, decimal::decimal(t.tx_id as nat)),
        block_lines(t)[2] == field_line("TX_TYPE"@, types::type_label(t.tx_type)),
        block_lines(t)[3] == field_line("FROM_USER_ID"@, decimal::decimal(t.from_user_id as nat)),
        block_lines(t)[4] == field_line("TO_USER_ID"@, decimal::decimal(t.to_user_id as nat)),
        block_lines(t)[5] == field_line("AMOUNT"@, decimal::signed_decimal(t.amount as int)),
        block_lines(t)[6] == field_line("TIMESTAMP"@, decimal::decimal(t.timestamp as nat)),
        block_lines(t)[7] == field_line("STATUS"@, types::status_label(t.status)),
        block_lines(t)[8] == field_line("DESCRIPTION"@, t.description),
        block_lines(t)[9] == Seq::<char>::empty(),
{
}

/// A field line sets the field that it names from its value and leaves the other
/// fields as they were: the type and the status that the value names, the number
/// that it holds, or the value itself as the description; a value that names no
/// type or status, or holds no number, is refused, and a name that is no field
/// changes nothing.
pub proof fn law_txt_apply_fields(acc: TxModel, v: Seq<char>)
    ensures
        match decimal::parse_u64_text(v) {
            Ok(n) => txt_apply(acc, "TX_ID"@, v) == Ok::<TxModel, ErrorModel>(TxModel { tx_id: n, ..acc }),
            Err(_) => txt_apply(acc, "TX_ID"@, v) is Err,
        },
        match types::type_of_label(v) {
            Some(k) => txt_apply(acc, "TX_TYPE"@, v) == Ok::<TxModel, ErrorModel>(TxModel { tx_type: k, ..acc }),
            None => txt_apply(acc, "TX_TYPE"@, v) is Err,
        },
        match decimal::parse_u64_text(v) {
            Ok(n) => txt_apply(acc, "FROM_USER_ID"@, v) == Ok::<TxModel, ErrorModel>(
                TxModel { from_user_id: n, ..acc },
            ),
            Err(_) => txt_apply(acc, "FROM_USER_ID"@, v) is Err,
        },
        match decimal::parse_u64_text(v) {
            Ok(n) => txt_apply(acc, "TO_USER_ID"@, v) == Ok::<TxModel, ErrorModel>(
                TxModel { to_user_id: n, ..acc },
            ),
            Err(_) => txt_apply(acc, "TO_USER_ID"@, v) is Err,
        },
        match decimal::parse_i64_text(v) {
            Ok(n) => txt_apply(acc, "AMOUNT"@, v) == Ok::<TxModel, ErrorModel>(TxModel { amount: n, ..acc }),
            Err(_) => txt_apply(acc, "AMOUNT"@, v) is Err,
        },
        match decimal::parse_u64_text(v) {
            Ok(n) => txt_apply(acc, "TIMESTAMP"@, v) == Ok::<TxModel, ErrorModel>(
                TxModel { timestamp: n, ..acc },
            ),
            Err(_) => txt_apply(acc, "TIMESTAMP"@, v) is Err,
        },
        match types::status_of_label(v) {
            Some(k) => txt_apply(acc, "STATUS"@, v) == Ok::<TxModel, ErrorModel>(TxModel { status: k, ..acc }),
            None => txt_apply(acc, "STATUS"@, v) is Err,
        },
        txt_apply(acc, "DESCRIPTION"@, v) == Ok::<TxModel, ErrorModel>(TxModel { description: v, ..acc }),
{
    lemma_field_names();
}

/// A name that is none of the eight field names changes nothing.
pub proof fn law_txt_unknown_name(acc: TxModel, name: Seq<char>, v: Seq<char>)
    requires
        name != "TX_ID"@,
        name != "TX_TYPE"@,
        name != "FROM_USER_ID"@,
        name != "TO_USER_ID"@,
        name != "AMOUNT"@,
        name != "TIMESTAMP"@,
        name != "STATUS"@,
        name != "DESCRIPTION"@,
    ensures
        txt_apply(acc, name, v) == Ok::<TxModel, ErrorModel>(acc),
{
}

} // verus!
