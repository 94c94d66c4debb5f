use vstd::prelude::*;
use vstd::utf8::{decode_utf8, encode_utf8, valid_utf8};

use crate::common;
use crate::errors::{owned, ErrorModel, ParserError};
use crate::outcome::{self, ReadOutcome, Verdict};
use crate::text::{self, string_from_utf8};
use crate::types::{self, Transaction, TransactionStatus, TransactionType, TxModel};

verus! {

/// The four bytes `YPBN` that open every frame.
pub open spec fn magic() -> Seq<u8> {
    seq![89u8, 80u8, 66u8, 78u8]
}

/// The message of the error for a field that runs past the end of its frame.
pub open spec fn range_text() -> Seq<char> {
    "курсор выходит за пределы буффера"@
}

/// The bytes of a frame's body before its description: identifier, type, sender,
/// receiver, amount, timestamp, status and the description's length.
pub open spec fn fixed_len() -> nat {
    46
}

pub open spec fn pow256(n: nat) -> nat
    decreases n,
{
    if n == 0 {
        1
    } else {
        256 * pow256((n - 1) as nat)
    }
}

/// The number that bytes stand for, most significant first.
pub open spec fn be_value(b: Seq<u8>) -> nat
    decreases b.len(),
{
    if b.len() == 0 {
        0
    } else {
        be_value(b.drop_last()) * 256 + (b.last() as nat)
    }
}

pub proof fn lemma_be_value_bound(b: Seq<u8>)
    ensures
        be_value(b) < pow256(b.len()),
    decreases b.len(),
{
    if b.len() > 0 {
        lemma_be_value_bound(b.drop_last());
        let p = pow256(b.drop_last().len());
        assert(be_value(b.drop_last()) * 256 + (b.last() as nat) < p * 256) by (nonlinear_arith)
            requires
                be_value(b.drop_last()) < p,
                b.last() < 256,
        ;
    }
}

proof fn lemma_pow256_4()
    ensures
        pow256(4) == 0x1_0000_0000,
{
    reveal_with_fuel(pow256, 5);
}

/// The `n` lowest bytes of `v`, most significant first.
pub open spec fn be_bytes(v: nat, n: nat) -> Seq<u8>
    decreases n,
{
    if n == 0 {
        seq![]
    } else {
        be_bytes(v / 256, (n - 1) as nat).push((v % 256) as u8)
    }
}

/// The value of an `i64` stored in eight bytes as two's complement.
pub open spec fn signed_of(u: nat) -> int {
    if u >= 0x8000_0000_0000_0000 {
        u - 0x1_0000_0000_0000_0000
    } else {
        u as int
    }
}

/// The eight-byte two's complement pattern of an `i64`, as a number.
pub open spec fn unsigned_of(v: int) -> nat {
    if v < 0 {
        (v + 0x1_0000_0000_0000_0000) as nat
    } else {
        v as nat
    }
}

/// The `n` bytes of `s` from `start` on, with zeros where `s` has ended: what a
/// read of `n` bytes from a file leaves in a zeroed buffer.
pub open spec fn padded(s: Seq<u8>, start: int, n: nat) -> Seq<u8> {
    Seq::new(n, |i: int| if start + i < s.len() { s[start + i] } else { 0u8 })
}

/// The record whose fixed fields stand in the body `b` of a frame and whose
/// description is `desc`.
pub open spec fn body_record(b: Seq<u8>, desc: Seq<char>) -> TxModel {
    TxModel {
        tx_id: be_value(b.subrange(0, 8)) as u64,
        tx_type: types::type_of_code(b[8]),
        from_user_id: be_value(b.subrange(9, 17)) as u64,
        to_user_id: be_value(b.subrange(17, 25)) as u64,
        amount: signed_of(be_value(b.subrange(25, 33))) as i64,
        timestamp: be_value(b.subrange(33, 41)) as u64,
        status: types::status_of_code(b[41]),
        description: desc,
    }
}

/// What the body of one frame holds. A body too short for the fixed fields is a
/// range error; a description that runs past the body stops the reader; one that
/// is not UTF-8 is an invalid argument with the message of `String::from_utf8`.
pub open spec fn decode_body(b: Seq<u8>) -> Verdict<TxModel> {
    if b.len() < fixed_len() {
        Verdict::Failed(ErrorModel::InvalidRange(range_text()))
    } else {
        let d = be_value(b.subrange(42, 46));
        if d == 0 {
            Verdict::Done(body_record(b, seq![]))
        } else if fixed_len() + d > b.len() {
            Verdict::Aborted
        } else {
            let db = b.subrange(46, 46 + d as int);
            if valid_utf8(db) {
                Verdict::Done(body_record(b, decode_utf8(db)))
            } else {
                Verdict::Failed(ErrorModel::InvalidArgument(text::utf8_error_text(db)))
            }
        }
    }
}

/// The records of a binary stream. Frames are read while the next four bytes are
/// `YPBN`; then come a four-byte body size and the body. Where the stream ends
/// inside the size or the body, the missing bytes count as zeros, as the reads of
/// a file leave them.
pub open spec fn decode_stream(s: Seq<u8>) -> Verdict<Seq<TxModel>>
    decreases s.len(),
{
    if s.len() < 4 || s.take(4) != magic() {
        Verdict::Done(seq![])
    } else {
        let size = be_value(padded(s, 4, 4));
        let used: int = if 8 + size <= s.len() {
            8 + size as int
        } else {
            s.len() as int
        };
        match decode_body(padded(s, 8, size)) {
            Verdict::Done(t) => outcome::prepend(seq![t], decode_stream(s.skip(used))),
            Verdict::Failed(e) => Verdict::Failed(e),
            Verdict::Aborted => Verdict::Aborted,
        }
    }
}

/// The bytes of a description.
pub open spec fn desc_bytes(t: TxModel) -> Seq<u8> {
    encode_utf8(t.description)
}

/// The size of the body of the frame of a record.
pub open spec fn body_len(t: TxModel) -> nat {
    fixed_len() + desc_bytes(t).len()
}

/// The frame of one record: magic, body size, then the body.
pub open spec fn frame(t: TxModel) -> Seq<u8> {
    magic() + be_bytes(body_len(t), 4) + be_bytes(t.tx_id as nat, 8) + seq![
        types::type_code(t.tx_type),
    ] + be_bytes(t.from_user_id as nat, 8) + be_bytes(t.to_user_id as nat, 8) + be_bytes(
        unsigned_of(t.amount as int),
        8,
    ) + be_bytes(t.timestamp as nat, 8) + seq![types::status_code(t.status)] + be_bytes(
        desc_bytes(t).len(),
        4,
    ) + desc_bytes(t)
}

/// The frames of records, one after the other.
pub open spec fn frames(txs: Seq<TxModel>) -> Seq<u8>
    decreases txs.len(),
{
    if txs.len() == 0 {
        seq![]
    } else {
        frame(txs[0]) + frames(txs.drop_first())
    }
}

/// Whether a record's body size fits the four bytes that hold it.
pub open spec fn fits(t: TxModel) -> bool {
    body_len(t) <= u32::MAX
}

/// Whether every record's body size fits the four bytes that hold it.
pub open spec fn all_fit(txs: Seq<TxModel>) -> bool {
    forall|i: int| 0 <= i < txs.len() ==> fits(#[trigger] txs[i])
}

/// Whether the bytes from `cursor` to just before `end_cursor` all lie in `source`.
pub fn is_cursor_range_valid(source: &[u8], cursor: usize, end_cursor: usize) -> (r: bool)
    requires
        end_cursor >= 1,
    ensures
        r == (cursor < source@.len() && end_cursor <= source@.len()),
{
    if source.get(cursor).is_none() {
        return false;
    }
    if source.get(end_cursor - 1).is_none() {
        return false;
    }
    true
}

fn range_error() -> (r: ParserError)
    ensures
        r@ == ErrorModel::InvalidRange(range_text()),
{
    ParserError::InvalidRange(owned("курсор выходит за пределы буффера"))
}

/// The number held by `n` bytes of `source` from `start`, most significant first.
fn read_be(source: &[u8], start: usize, n: usize) -> (r: u64)
    requires
        n <= 8,
        start + n <= source@.len(),
    ensures
        r == be_value(source@.subrange(start as int, start + n)),
{
    let len = source.len();
    let mut acc: u64 = 0;
    let mut k: usize = 0;
    while k < n
        invariant
            len == source@.len(),
            n <= 8,
            start + n <= source@.len(),
            k <= n,
            acc == be_value(source@.subrange(start as int, start + k)),
            acc < pow256(k as nat),
        decreases n - k,
    {
        let ghost prefix = source@.subrange(start as int, start + k);
        let ghost next = source@.subrange(start as int, start + k + 1);
        assert(next.drop_last() == prefix);
        proof {
            lemma_pow256_bound(k as nat);
            assert(acc * 256 + source@[start + k] < pow256(k as nat) * 256) by (nonlinear_arith)
                requires
                    acc < pow256(k as nat),
                    source@[start + k] < 256,
            ;
        }
        acc = acc * 256 + source[start + k] as u64;
        k = k + 1;
    }
    acc
}

proof fn lemma_pow256_bound(k: nat)
    requires
        k < 8,
    ensures
        pow256(k + 1) == 256 * pow256(k),
        pow256(k + 1) <= 0x1_0000_0000_0000_0000,
    decreases k,
{
    reveal_with_fuel(pow256, 9);
    if k > 0 {
        lemma_pow256_bound((k - 1) as nat);
    }
}

/// Reads a big-endian `u64` at the cursor and moves the cursor past it; a field
/// that runs past the end of `source` is a range error and leaves the cursor.
pub fn parse_raw_bytes_to_u64_be(source: &[u8], cursor: &mut usize) -> (r: Result<u64, ParserError>)
    requires
        *old(cursor) + 8 <= usize::MAX,
    ensures
        *old(cursor) + 8 <= source@.len() ==> r == Ok::<u64, ParserError>(
            be_value(source@.subrange(*old(cursor) as int, *old(cursor) + 8)) as u64,
        ) && *final(cursor) == *old(cursor) + 8,
        *old(cursor) + 8 > source@.len() ==> (common::result_model(r) == Err::<u64, ErrorModel>(ErrorModel::InvalidRange(range_text()))
            && *final(cursor) == *old(cursor)),
{
    let end = *cursor + 8;
    if !is_cursor_range_valid(source, *cursor, end) {
        return Err(range_error());
    }
    let v = read_be(source, *cursor, 8);
    *cursor = end;
    Ok(v)
}

/// Reads one byte at the cursor and moves the cursor past it; a cursor at the end
/// of `source` is a range error and stays.
pub fn parse_raw_bytes_to_u8_be(source: &[u8], cursor: &mut usize) -> (r: Result<u8, ParserError>)
    requires
        *old(cursor) + 1 <= usize::MAX,
    ensures
        *old(cursor) + 1 <= source@.len() ==> r == Ok::<u8, ParserError>(
            source@[*old(cursor) as int],
        ) && *final(cursor) == *old(cursor) + 1,
        *old(cursor) + 1 > source@.len() ==> (common::result_model(r) == Err::<u8, ErrorModel>(ErrorModel::InvalidRange(range_text()))
            && *final(cursor) == *old(cursor)),
{
    let end = *cursor + 1;
    if !is_cursor_range_valid(source, *cursor, end) {
        return Err(range_error());
    }
    let v = source[*cursor];
    *cursor = end;
    Ok(v)
}

/// Reads a big-endian two's complement `i64` at the cursor and moves the cursor
/// past it; a field that runs past the end of `source` is a range error and leaves
/// the cursor.
pub fn parse_raw_bytes_to_i64_be(source: &[u8], cursor: &mut usize) -> (r: Result<i64, ParserError>)
    requires
        *old(cursor) + 8 <= usize::MAX,
    ensures
        *old(cursor) + 8 <= source@.len() ==> r == Ok::<i64, ParserError>(
            signed_of(be_value(source@.subrange(*old(cursor) as int, *old(cursor) + 8))) as i64,
        ) && *final(cursor) == *old(cursor) + 8,
        *old(cursor) + 8 > source@.len() ==> (common::result_model(r) == Err::<i64, ErrorModel>(ErrorModel::InvalidRange(range_text()))
            && *final(cursor) == *old(cursor)),
{
    let end = *cursor + 8;
    if !is_cursor_range_valid(source, *cursor, end) {
        return Err(range_error());
    }
    let u = read_be(source, *cursor, 8);
    *cursor = end;
    if u <= 0x7fff_ffff_ffff_ffff {
        Ok(u as i64)
    } else {
        Ok(-((0xffff_ffff_ffff_ffff - u) as i64) - 1)
    }
}

/// Reads a big-endian `u32` at the cursor and moves the cursor past it; a field
/// that runs past the end of `source` is a range error and leaves the cursor.
pub fn parse_raw_bytes_to_u32_be(source: &[u8], cursor: &mut usize) -> (r: Result<u32, ParserError>)
    requires
        *old(cursor) + 4 <= usize::MAX,
    ensures
        *old(cursor) + 4 <= source@.len() ==> r == Ok::<u32, ParserError>(
            be_value(source@.subrange(*old(cursor) as int, *old(cursor) + 4)) as u32,
        ) && *final(cursor) == *old(cursor) + 4,
        *old(cursor) + 4 > source@.len() ==> (common::result_model(r) == Err::<u32, ErrorModel>(ErrorModel::InvalidRange(range_text()))
            && *final(cursor) == *old(cursor)),
{
    let end = *cursor + 4;
    if !is_cursor_range_valid(source, *cursor, end) {
        return Err(range_error());
    }
    let v = read_be(source, *cursor, 4);
    proof {
        reveal_with_fuel(pow256, 5);
    }
    *cursor = end;
    Ok(v as u32)
}

/// One frame's body read: its record, a refusal, or a description that runs past
/// the body.
enum FrameOutcome {
    Record(Transaction),
    Rejected(ParserError),
    Aborted,
}

impl View for FrameOutcome {
    type V = Verdict<TxModel>;

    closed spec fn view(&self) -> Verdict<TxModel> {
        match self {
            FrameOutcome::Record(t) => Verdict::Done(t@),
            FrameOutcome::Rejected(e) => Verdict::Failed(e@),
            FrameOutcome::Aborted => Verdict::Aborted,
        }
    }
}

/// The `n` bytes of `s` from `from + gap` on, zeros past its end.
fn padded_copy(s: &[u8], from: usize, gap: usize, n: usize) -> (r: Vec<u8>)
    requires
        from <= s@.len(),
    ensures
        r@ == padded(s@, from + gap, n as nat),
{
    let len = s.len();
    let avail: usize = if len - from >= gap {
        len - from - gap
    } else {
        0
    };
    let mut r: Vec<u8> = Vec::new();
    let mut k: usize = 0;
    while k < n
        invariant
            len == s@.len(),
            from <= len,
            avail == (if len - from >= gap { len - from - gap } else { 0int }),
            k <= n,
            r@ == padded(s@, from + gap, k as nat),
        decreases n - k,
    {
        let b: u8 = if k < avail {
            s[from + gap + k]
        } else {
            0
        };
        r.push(b);
        assert(r@ =~= padded(s@, from + gap, (k + 1) as nat));
        k = k + 1;
    }
    r
}

/// The record in a frame's body (see `decode_body`).
fn decode_body_exec(b: &[u8]) -> (r: FrameOutcome)
    requires
        b@.len() <= u32::MAX,
    ensures
        r@ == decode_body(b@),
{
    let mut cursor: usize = 0;
    let tx_id = match parse_raw_bytes_to_u64_be(b, &mut cursor) {
        Ok(v) => v,
        Err(e) => return FrameOutcome::Rejected(e),
    };
    let tx_type = match parse_raw_bytes_to_u8_be(b, &mut cursor) {
        Ok(v) => TransactionType::from(v),
        Err(e) => return FrameOutcome::Rejected(e),
    };
    let from_user_id = match parse_raw_bytes_to_u64_be(b, &mut cursor) {
        Ok(v) => v,
        Err(e) => return FrameOutcome::Rejected(e),
    };
    let to_user_id = match parse_raw_bytes_to_u64_be(b, &mut cursor) {
        Ok(v) => v,
        Err(e) => return FrameOutcome::Rejected(e),
    };
    let amount = match parse_raw_bytes_to_i64_be(b, &mut cursor) {
        Ok(v) => v,
        Err(e) => return FrameOutcome::Rejected(e),
    };
    let timestamp = match parse_raw_bytes_to_u64_be(b, &mut cursor) {
        Ok(v) => v,
        Err(e) => return FrameOutcome::Rejected(e),
    };
    let status = match parse_raw_bytes_to_u8_be(b, &mut cursor) {
        Ok(v) => TransactionStatus::from(v),
        Err(e) => return FrameOutcome::Rejected(e),
    };
    let description_length = match parse_raw_bytes_to_u32_be(b, &mut cursor) {
        Ok(v) => v,
        Err(e) => return FrameOutcome::Rejected(e),
    };
    assert(cursor == 46);
    proof {
        lemma_be_value_bound(b@.subrange(42, 46));
        lemma_pow256_4();
    }
    let description = if description_length == 0 {
        String::new()
    } else {
        if description_length as usize > b.len() - cursor {
            return FrameOutcome::Aborted;
        }
        let end = cursor + description_length as usize;
        let mut buf: Vec<u8> = Vec::new();
        let mut k: usize = cursor;
        while k < end
            invariant
                46 <= k <= end <= b@.len(),
                buf@ == b@.subrange(46, k as int),
            decreases end - k,
        {
            buf.push(b[k]);
            assert(buf@ =~= b@.subrange(46, k + 1));
            k = k + 1;
        }
        match string_from_utf8(buf) {
            Ok(s) => s,
            Err(m) => return FrameOutcome::Rejected(ParserError::InvalidArgument(m)),
        }
    };
    let t = Transaction {
        tx_id,
        tx_type,
        from_user_id,
        to_user_id,
        amount,
        timestamp,
        status,
        description,
    };
    assert(t@ == body_record(b@, t@.description));
    FrameOutcome::Record(t)
}

/// Whether the four bytes of `s` at `pos` are `YPBN`.
fn magic_at(s: &[u8], pos: usize) -> (r: bool)
    requires
        pos + 4 <= s@.len(),
    ensures
        r == (s@.skip(pos as int).take(4) == magic()),
{
    let r = s[pos] == 89 && s[pos + 1] == 80 && s[pos + 2] == 66 && s[pos + 3] == 78;
    assert(r ==> s@.skip(pos as int).take(4) =~= magic());
    assert(s@.skip(pos as int).take(4) == magic() ==> s@.skip(pos as int).take(4)[3] == 78u8);
    r
}

/// Reads a binary stream of frames (see `decode_stream`), answering for every input:
/// the records, a refusal with an error, or `Aborted` where a description runs past
/// its frame's body, on which the reader stops the program.
pub fn decode(bytes: &[u8]) -> (r: ReadOutcome)
    ensures
        r@ == decode_stream(bytes@),
{
    let n = bytes.len();
    let mut out: Vec<Transaction> = Vec::new();
    let mut pos: usize = 0;
    assert(bytes@.skip(0) == bytes@);
    assert(types::models(out@) =~= Seq::<TxModel>::empty());
    assert(Seq::<TxModel>::empty() + decode_stream(bytes@)->Done_0 == decode_stream(bytes@)->Done_0);
    loop
        invariant
            n == bytes@.len(),
            pos <= n,
            decode_stream(bytes@) == outcome::prepend(
                types::models(out@),
                decode_stream(bytes@.skip(pos as int)),
            ),
        decreases n - pos,
    {
        let ghost rest = bytes@.skip(pos as int);
        if n - pos < 4 || !magic_at(bytes, pos) {
            assert(decode_stream(rest) == Verdict::<Seq<TxModel>>::Done(seq![]));
            assert(types::models(out@) + Seq::<TxModel>::empty() == types::models(out@));
            return ReadOutcome::Parsed(out);
        }
        let size_bytes = padded_copy(bytes, pos, 4, 4);
        assert(size_bytes@ =~= padded(rest, 4, 4));
        let size = read_be(size_bytes.as_slice(), 0, 4);
        proof {
            assert(size_bytes@.subrange(0, 4) == size_bytes@);
            lemma_be_value_bound(size_bytes@);
            lemma_pow256_4();
        }
        let body = padded_copy(bytes, pos, 8, size as usize);
        assert(body@ =~= padded(rest, 8, size as nat));
        let ghost used: int = if 8 + size <= rest.len() {
            8 + size
        } else {
            rest.len() as int
        };
        match decode_body_exec(body.as_slice()) {
            FrameOutcome::Record(t) => {
                let ghost before = types::models(out@);
                out.push(t);
                assert(types::models(out@) =~= before + seq![t@]);
                let next: usize = if n - pos >= 8 && size as usize <= n - pos - 8 {
                    pos + 8 + size as usize
                } else {
                    n
                };
                assert(rest.skip(used) =~= bytes@.skip(next as int));
                proof {
                    let tail = decode_stream(bytes@.skip(next as int));
                    assert(outcome::prepend(before, outcome::prepend(seq![t@], tail))
                        == outcome::prepend(before + seq![t@], tail)) by {
                        match tail {
                            Verdict::Done(x) => {
                                assert(before + (seq![t@] + x) =~= before + seq![t@] + x);
                            },
                            _ => {},
                        }
                    }
                }
                pos = next;
            },
            FrameOutcome::Rejected(e) => {
                return ReadOutcome::Rejected(e);
            },
            FrameOutcome::Aborted => {
                return ReadOutcome::Aborted;
            },
        }
    }
}

/// Reads a binary stream of frames (see `decode_stream`), for an input on which
/// the reader does not stop the program.
pub fn read(bytes: &[u8]) -> (r: Result<Vec<Transaction>, ParserError>)
    requires
        !(decode_stream(bytes@) is Aborted),
    ensures
        outcome::verdict_of(r) == decode_stream(bytes@),
{
    decode(bytes).into_result()
}

/// Appends the `n` lowest bytes of `v`, most significant first.
fn push_be(out: &mut Vec<u8>, v: u64, n: usize)
    requires
        n <= 8,
    ensures
        final(out)@ == old(out)@ + be_bytes(v as nat, n as nat),
    decreases n,
{
    if n > 0 {
        push_be(out, v / 256, n - 1);
        out.push((v % 256) as u8);
        assert(final(out)@ =~= old(out)@ + be_bytes(v as nat, n as nat));
    } else {
        assert(final(out)@ =~= old(out)@ + be_bytes(v as nat, n as nat));
    }
}

/// The size of the body of a transaction's frame: the fixed fields and the bytes
/// of its description.
pub fn calculate_body_size(transaction: &Transaction) -> (r: usize)
    requires
        body_len(transaction@) <= usize::MAX,
    ensures
        r == body_len(transaction@),
{
    // identifier, type, sender, receiver, amount, timestamp, status, description length
    8 + 1 + 8 + 8 + 8 + 8 + 1 + 4 + transaction.description.as_str().len()
}

/// Appends the frame of one transaction.
#[verifier::spinoff_prover]
#[verifier::rlimit(40)]
fn push_frame(out: &mut Vec<u8>, t: &Transaction)
    requires
        fits(t@),
    ensures
        final(out)@ == old(out)@ + frame(t@),
{
    let desc = t.description.as_str().as_bytes();
    out.push(89);
    out.push(80);
    out.push(66);
    out.push(78);
    push_be(out, calculate_body_size(t) as u64, 4);
    push_be(out, t.tx_id, 8);
    out.push(t.tx_type.as_bytes());
    push_be(out, t.from_user_id, 8);
    push_be(out, t.to_user_id, 8);
    let pattern: u64 = if t.amount >= 0 {
        t.amount as u64
    } else {
        0xffff_ffff_ffff_ffff - ((-(t.amount + 1)) as u64)
    };
    push_be(out, pattern, 8);
    push_be(out, t.timestamp, 8);
    out.push(t.status.as_bytes());
    push_be(out, desc.len() as u64, 4);
    out.extend_from_slice(desc);
    assert(final(out)@ =~= old(out)@ + frame(t@));
}

proof fn lemma_frames_push(a: Seq<TxModel>, x: TxModel)
    ensures
        frames(a.push(x)) == frames(a) + frame(x),
    decreases a.len(),
{
    if a.len() == 0 {
        assert(a.push(x).drop_first() =~= Seq::<TxModel>::empty());
        assert(frames(a.push(x).drop_first()) == Seq::<u8>::empty());
        assert(frame(x) + Seq::<u8>::empty() =~= frame(x));
        assert(frames(a) == Seq::<u8>::empty());
        assert(Seq::<u8>::empty() + frame(x) =~= frame(x));
    } else {
        assert(a.push(x).drop_first() =~= a.drop_first().push(x));
        lemma_frames_push(a.drop_first(), x);
        assert(frames(a.push(x)) =~= frames(a) + frame(x));
    }
}

/// Writes each transaction as a frame of the binary format, one after the other.
pub fn write(transactions: &Vec<Transaction>) -> (r: Result<Vec<u8>, ParserError>)
    requires
        all_fit(types::models(transactions@)),
    ensures
        r is Ok,
        r->Ok_0@ == frames(types::models(transactions@)),
{
    let mut out: Vec<u8> = Vec::new();
    let mut i: usize = 0;
    let ghost txs = types::models(transactions@);
    assert(txs.take(0) =~= Seq::<TxModel>::empty());
    while i < transactions.len()
        invariant
            txs == types::models(transactions@),
            all_fit(txs),
            i <= transactions@.len(),
            out@ == frames(txs.take(i as int)),
        decreases transactions@.len() - i,
    {
        assert(fits(txs[i as int]));
        push_frame(&mut out, &transactions[i]);
        proof {
            lemma_frames_push(txs.take(i as int), txs[i as int]);
            assert(txs.take(i + 1) =~= txs.take(i as int).push(txs[i as int]));
        }
        i = i + 1;
    }
    assert(txs.take(i as int) =~= txs);
    Ok(out)
}

/// The size in a frame's header is the number of body bytes that follow it, and
/// the body holds the fixed fields and the description's bytes.
pub proof fn law_frame_size(t: TxModel)
    requires
        fits(t),
    ensures
        frame(t).len() == 8 + body_len(t),
        be_value(frame(t).subrange(4, 8)) == body_len(t),
{
    lemma_pow256_4();
    lemma_pow256_8();
    lemma_be_roundtrip(body_len(t), 4);
    lemma_be_roundtrip(t.tx_id as nat, 8);
    lemma_be_roundtrip(t.from_user_id as nat, 8);
    lemma_be_roundtrip(t.to_user_id as nat, 8);
    lemma_be_roundtrip(unsigned_of(t.amount as int), 8);
    lemma_be_roundtrip(t.timestamp as nat, 8);
    lemma_be_roundtrip(desc_bytes(t).len(), 4);
    assert(frame(t).subrange(4, 8) =~= be_bytes(body_len(t), 4));
}

/// A number below `256^n`, written in `n` bytes, is read back as itself.
pub proof fn lemma_be_roundtrip(v: nat, n: nat)
    requires
        v < pow256(n),
    ensures
        be_bytes(v, n).len() == n,
        be_value(be_bytes(v, n)) == v,
    decreases n,
{
    if n > 0 {
        let p = pow256((n - 1) as nat);
        assert(v / 256 < p) by (nonlinear_arith)
            requires
                v < 256 * p,
        ;
        lemma_be_roundtrip(v / 256, (n - 1) as nat);
        let b = be_bytes(v, n);
        assert(b.drop_last() == be_bytes(v / 256, (n - 1) as nat));
        assert((v / 256) * 256 + v % 256 == v) by (nonlinear_arith);
    } else {
        assert(v == 0);
    }
}

proof fn lemma_pow256_8()
    ensures
        pow256(8) == 0x1_0000_0000_0000_0000,
{
    reveal_with_fuel(pow256, 9);
}

/// The frame of a record is read back as that record, whatever follows it.
proof fn lemma_frame_roundtrip(t: TxModel, rest: Seq<u8>)
    requires
        fits(t),
    ensures
        decode_stream(frame(t) + rest) == outcome::prepend(seq![t], decode_stream(rest)),
{
    let s = frame(t) + rest;
    let db = desc_bytes(t);
    let dl = db.len();
    let bl = body_len(t);
    lemma_pow256_4();
    lemma_pow256_8();
    lemma_be_roundtrip(bl, 4);
    lemma_be_roundtrip(t.tx_id as nat, 8);
    lemma_be_roundtrip(t.from_user_id as nat, 8);
    lemma_be_roundtrip(t.to_user_id as nat, 8);
    lemma_be_roundtrip(unsigned_of(t.amount as int), 8);
    lemma_be_roundtrip(t.timestamp as nat, 8);
    lemma_be_roundtrip(dl, 4);
    let f = frame(t);
    assert(f.len() == 8 + bl);
    assert(s.take(4) =~= magic());
    assert(padded(s, 4, 4) =~= be_bytes(bl, 4));
    let body = padded(s, 8, bl);
    assert(body =~= f.subrange(8, 8 + bl as int));
    assert(body.subrange(0, 8) =~= be_bytes(t.tx_id as nat, 8));
    assert(body[8] == types::type_code(t.tx_type));
    assert(body.subrange(9, 17) =~= be_bytes(t.from_user_id as nat, 8));
    assert(body.subrange(17, 25) =~= be_bytes(t.to_user_id as nat, 8));
    assert(body.subrange(25, 33) =~= be_bytes(unsigned_of(t.amount as int), 8));
    assert(body.subrange(33, 41) =~= be_bytes(t.timestamp as nat, 8));
    assert(body[41] == types::status_code(t.status));
    assert(body.subrange(42, 46) =~= be_bytes(dl, 4));
    assert(body.subrange(46, 46 + dl as int) =~= db);
    vstd::utf8::encode_utf8_valid_utf8(t.description);
    vstd::utf8::encode_utf8_decode_utf8(t.description);
    types::lemma_type_code_roundtrip(t.tx_type);
    types::lemma_status_code_roundtrip(t.status);
    if dl == 0 {
        assert(db =~= Seq::<u8>::empty());
        assert(decode_utf8(db) =~= Seq::<char>::empty());
    }
    assert(body_record(body, t.description) == t);
    assert(decode_body(body) == Verdict::Done(t));
    assert(s.skip(8 + bl as int) =~= rest);
}

/// Every record written is read back, in order.
pub proof fn law_binary_roundtrip(txs: Seq<TxModel>)
    requires
        all_fit(txs),
    ensures
        decode_stream(frames(txs)) == Verdict::Done(txs),
    decreases txs.len(),
{
    if txs.len() == 0 {
        assert(frames(txs) =~= Seq::<u8>::empty());
        assert(txs =~= Seq::<TxModel>::empty());
    } else {
        let rest = txs.drop_first();
        assert(all_fit(rest)) by {
            assert forall|i: int| 0 <= i < rest.len() implies fits(#[trigger] rest[i]) by {
                assert(rest[i] == txs[i + 1]);
            }
        }
        assert(fits(txs[0]));
        law_binary_roundtrip(rest);
        lemma_frame_roundtrip(txs[0], frames(rest));
        assert(frames(txs) == frame(txs[0]) + frames(rest));
        assert(seq![txs[0]] + rest =~= txs);
    }
}

/// Whether every transaction's body size fits the four bytes that hold it, so that
/// it can be written as a frame.
pub fn frames_fit(transactions: &Vec<Transaction>) -> (r: bool)
    ensures
        r == all_fit(types::models(transactions@)),
{
    let ghost txs = types::models(transactions@);
    let mut i: usize = 0;
    while i < transactions.len()
        invariant
            txs == types::models(transactions@),
            i <= transactions@.len(),
            forall|j: int| 0 <= j < i ==> fits(#[trigger] txs[j]),
        decreases transactions@.len() - i,
    {
        let n = transactions[i].description.as_str().as_bytes().len();
        assert(txs[i as int] == transactions@[i as int]@);
        if n > 0xffff_ffff - 46 {
            assert(!fits(txs[i as int]));
            return false;
        }
        assert(txs[i as int] == transactions@[i as int]@);
        assert(fits(txs[i as int]));
        i = i + 1;
    }
    true
}

/// The record read from a frame's body holds what the body's bytes stand for: the
/// type and the status that their bytes stand for, and the numbers that the fixed
/// fields hold, most significant byte first, the amount as two's complement.
pub proof fn law_body_fields(b: Seq<u8>)
    ensures
        decode_body(b) matches Verdict::Done(t) ==> {
            &&& t.tx_type == types::type_of_code(b[8])
            &&& t.status == types::status_of_code(b[41])
            &&& t.tx_id == be_value(b.subrange(0, 8))
            &&& t.from_user_id == be_value(b.subrange(9, 17))
            &&& t.to_user_id == be_value(b.subrange(17, 25))
            &&& t.amount == signed_of(be_value(b.subrange(25, 33)))
            &&& t.timestamp == be_value(b.subrange(33, 41))
        },
{
    if b.len() >= fixed_len() {
        lemma_pow256_8();
        lemma_be_value_bound(b.subrange(0, 8));
        lemma_be_value_bound(b.subrange(9, 17));
        lemma_be_value_bound(b.subrange(17, 25));
        lemma_be_value_bound(b.subrange(25, 33));
        lemma_be_value_bound(b.subrange(33, 41));
    }
}

/// The frame of a record: `YPBN`, the body size, then the record's number, the
/// byte of its type, the numbers of the two users, the amount as two's complement,
/// the time, the byte of its status, and the description's length and bytes; every
/// number most significant byte first.
pub proof fn law_frame_fields(t: TxModel)
    requires
        fits(t),
    ensures
        frame(t).subrange(0, 4) == magic(),
        be_value(frame(t).subrange(4, 8)) == body_len(t),
        be_value(frame(t).subrange(8, 16)) == t.tx_id,
        frame(t)[16] == types::type_code(t.tx_type),
        be_value(frame(t).subrange(17, 25)) == t.from_user_id,
        be_value(frame(t).subrange(25, 33)) == t.to_user_id,
        signed_of(be_value(frame(t).subrange(33, 41))) == t.amount,
        be_value(frame(t).subrange(41, 49)) == t.timestamp,
        frame(t)[49] == types::status_code(t.status),
        be_value(frame(t).subrange(50, 54)) == encode_utf8(t.description).len(),
        frame(t).subrange(54, frame(t).len() as int) == encode_utf8(t.description),
{
    let db = desc_bytes(t);
    lemma_pow256_4();
    lemma_pow256_8();
    lemma_be_roundtrip(body_len(t), 4);
    lemma_be_roundtrip(t.tx_id as nat, 8);
    lemma_be_roundtrip(t.from_user_id as nat, 8);
    lemma_be_roundtrip(t.to_user_id as nat, 8);
    lemma_be_roundtrip(unsigned_of(t.amount as int), 8);
    lemma_be_roundtrip(t.timestamp as nat, 8);
    lemma_be_roundtrip(db.len(), 4);
    let f = frame(t);
    assert(f.subrange(0, 4) =~= magic());
    assert(f.subrange(4, 8) =~= be_bytes(body_len(t), 4));
    assert(f.subrange(8, 16) =~= be_bytes(t.tx_id as nat, 8));
    assert(f.subrange(17, 25) =~= be_bytes(t.from_user_id as nat, 8));
    assert(f.subrange(25, 33) =~= be_bytes(t.to_user_id as nat, 8));
    assert(f.subrange(33, 41) =~= be_bytes(unsigned_of(t.amount as int), 8));
    assert(f.subrange(41, 49) =~= be_bytes(t.timestamp as nat, 8));
    assert(f.subrange(50, 54) =~= be_bytes(db.len(), 4));
    assert(f.subrange(54, f.len() as int) =~= db);
}

} // verus!
