use vstd::prelude::*;

use crate::errors::{owned, ComparerError};
use crate::text::str_is;
use crate::types::{self, Format, Transaction, TxModel};

verus! {

/// The names of formats that the tools accept: `csv`, `bin` or `binary`, `txt` or
/// `text`.
pub open spec fn format_of_name(s: Seq<char>) -> Option<Format> {
    if s == "csv"@ {
        Some(Format::Csv)
    } else if s == "bin"@ || s == "binary"@ {
        Some(Format::Binary)
    } else if s == "txt"@ || s == "text"@ {
        Some(Format::Text)
    } else {
        None
    }
}

/// The message for a format name that is not known.
pub open spec fn unknown_format_text() -> Seq<char> {
    "указанный формат не поддерживается"@
}

/// The format that a name on the command line stands for.
pub fn map_format(format: &str) -> (r: Result<Format, ComparerError>)
    ensures
        match format_of_name(format@) {
            Some(f) => r == Ok::<Format, ComparerError>(f),
            None => r is Err && match r {
                Err(ComparerError::UnknownFormat(m)) => m@ == unknown_format_text(),
                _ => false,
            },
        },
{
    if str_is(format, "csv") {
        Ok(Format::Csv)
    } else if str_is(format, "bin") || str_is(format, "binary") {
        Ok(Format::Binary)
    } else if str_is(format, "txt") || str_is(format, "text") {
        Ok(Format::Text)
    } else {
        Err(ComparerError::UnknownFormat(owned("указанный формат не поддерживается")))
    }
}

/// The identifiers of the pairs of records, among the first `n` positions, that
/// differ, in order: the identifier in `a`, then the one in `b`.
pub open spec fn differing_ids(a: Seq<TxModel>, b: Seq<TxModel>, n: int) -> Seq<(u64, u64)>
    decreases n,
{
    if n <= 0 {
        seq![]
    } else {
        let d = differing_ids(a, b, n - 1);
        if a[n - 1] != b[n - 1] {
            d.push((a[n - 1].tx_id, b[n - 1].tx_id))
        } else {
            d
        }
    }
}

/// The outcome of comparing two lists of records position by position: lists of
/// different lengths differ with no identifiers; otherwise they are equal when no
/// position differs, and else the identifiers of the differing positions are given.
pub open spec fn comparison(a: Seq<TxModel>, b: Seq<TxModel>) -> (bool, Option<Seq<(u64, u64)>>) {
    if a.len() != b.len() {
        (false, None)
    } else {
        let d = differing_ids(a, b, a.len() as int);
        if d.len() == 0 {
            (true, None)
        } else {
            (false, Some(d))
        }
    }
}

/// The view of a comparison's result.
pub open spec fn comparison_view(r: (bool, Option<Vec<(u64, u64)>>)) -> (bool, Option<Seq<(u64, u64)>>) {
    (
        r.0,
        match r.1 {
            Some(v) => Some(v@),
            None => None,
        },
    )
}

/// Compares two lists of transactions position by position (see `comparison`);
/// the order of the records matters.
pub fn are_transactions_equal(transactions_1: &[Transaction], transactions_2: &[Transaction]) -> (r: (
    bool,
    Option<Vec<(u64, u64)>>,
))
    ensures
        comparison_view(r) == comparison(
            types::models(transactions_1@),
            types::models(transactions_2@),
        ),
{
    let ghost a = types::models(transactions_1@);
    let ghost b = types::models(transactions_2@);
    if transactions_1.len() != transactions_2.len() {
        return (false, None);
    }
    let mut unequal_transaction_ids: Vec<(u64, u64)> = Vec::new();
    let mut idx: usize = 0;
    while idx < transactions_1.len()
        invariant
            a == types::models(transactions_1@),
            b == types::models(transactions_2@),
            transactions_1@.len() == transactions_2@.len(),
            idx <= transactions_1@.len(),
            unequal_transaction_ids@ == differing_ids(a, b, idx as int),
        decreases transactions_1@.len() - idx,
    {
        let transaction1 = &transactions_1[idx];
        let transaction2 = &transactions_2[idx];
        if !transaction1.eq(transaction2) {
            unequal_transaction_ids.push((transaction1.tx_id, transaction2.tx_id));
        }
        idx += 1;
    }
    if unequal_transaction_ids.len() > 0 {
        (false, Some(unequal_transaction_ids))
    } else {
        (true, None)
    }
}

/// Two lists of records compare as equal exactly when they hold the same records
/// in the same order.
pub proof fn law_equal_iff_same(a: Seq<TxModel>, b: Seq<TxModel>)
    ensures
        comparison(a, b).0 <==> a == b,
{
    if a.len() == b.len() {
        lemma_differing_ids(a, b, a.len() as int);
        if differing_ids(a, b, a.len() as int).len() == 0 {
            assert(a =~= b);
        } else {
            assert(a != b) by {
                let k = choose|k: int| 0 <= k < a.len() && a[k] != b[k];
            }
        }
    }
}

proof fn lemma_differing_ids(a: Seq<TxModel>, b: Seq<TxModel>, n: int)
    requires
        0 <= n <= a.len(),
        n <= b.len(),
    ensures
        differing_ids(a, b, n).len() == 0 <==> forall|k: int| 0 <= k < n ==> a[k] == b[k],
    decreases n,
{
    if n > 0 {
        lemma_differing_ids(a, b, n - 1);
    }
}

/// The positions from `0` up to, not including, `n`.
pub open spec fn positions(n: int) -> Seq<int> {
    Seq::new(n as nat, |k: int| k)
}

/// Whether two lists of records hold different records at a position.
pub open spec fn differs_at(a: Seq<TxModel>, b: Seq<TxModel>) -> spec_fn(int) -> bool {
    |k: int| a[k] != b[k]
}

/// The identifiers of the records at a position: the one in `a`, then the one in `b`.
pub open spec fn ids_at(a: Seq<TxModel>, b: Seq<TxModel>) -> spec_fn(int) -> (u64, u64) {
    |k: int| (a[k].tx_id, b[k].tx_id)
}

/// The positions at which two lists of records hold different records, kept in
/// the order in which they come.
pub open spec fn differing_positions(a: Seq<TxModel>, b: Seq<TxModel>) -> Seq<int> {
    positions(a.len() as int).filter(differs_at(a, b))
}

proof fn lemma_differing_ids_filter(a: Seq<TxModel>, b: Seq<TxModel>, n: int)
    requires
        0 <= n,
    ensures
        differing_ids(a, b, n) == positions(n).filter(differs_at(a, b)).map_values(ids_at(a, b)),
    decreases n,
{
    reveal(Seq::filter);
    let p = differs_at(a, b);
    let f = ids_at(a, b);
    if n == 0 {
        assert(positions(0) =~= Seq::<int>::empty());
        assert(positions(0).filter(p) =~= Seq::<int>::empty());
        assert(positions(0).filter(p).map_values(f) =~= Seq::<(u64, u64)>::empty());
    } else {
        lemma_differing_ids_filter(a, b, n - 1);
        let ps = positions(n);
        assert(ps.drop_last() =~= positions(n - 1));
        assert(ps.last() == n - 1);
        let prev = positions(n - 1).filter(p);
        if a[n - 1] != b[n - 1] {
            assert(p(n - 1));
            assert(ps.filter(p) == prev.push(n - 1));
            assert(prev.push(n - 1).map_values(f) =~= prev.map_values(f).push(f(n - 1)));
        } else {
            assert(!p(n - 1));
            assert(ps.filter(p) == prev);
        }
    }
}

/// Comparing two lists of the same length reports, in order, one pair of
/// identifiers for each position at which they differ, and nothing else: the lists
/// are equal when there is no such position, and otherwise the pairs are the
/// identifiers at those positions, the one in the first list first.
pub proof fn law_reported_pairs(a: Seq<TxModel>, b: Seq<TxModel>)
    requires
        a.len() == b.len(),
    ensures
        comparison(a, b) == (if differing_positions(a, b).len() == 0 {
            (true, None::<Seq<(u64, u64)>>)
        } else {
            (false, Some(differing_positions(a, b).map_values(ids_at(a, b))))
        }),
        differing_ids(a, b, a.len() as int).len() == differing_positions(a, b).len(),
{
    lemma_differing_ids_filter(a, b, a.len() as int);
}

/// A position is among the differing positions exactly when the two lists hold
/// different records there.
pub proof fn law_differing_positions(a: Seq<TxModel>, b: Seq<TxModel>, k: int)
    requires
        a.len() == b.len(),
        0 <= k < a.len(),
    ensures
        differing_positions(a, b).contains(k) <==> a[k] != b[k],
{
    broadcast use vstd::seq_lib::group_filter_ensures;
    let ps = positions(a.len() as int);
    let p = differs_at(a, b);
    assert(ps[k] == k);
    if a[k] != b[k] {
        ps.lemma_filter_contains(p, k);
    } else if differing_positions(a, b).contains(k) {
        let i = choose|i: int| 0 <= i < ps.filter(p).len() && ps.filter(p)[i] == k;
        ps.lemma_filter_pred(p, i);
    }
}

} // verus!
