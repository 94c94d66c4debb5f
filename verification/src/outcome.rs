use vstd::prelude::*;

use crate::errors::{ErrorModel, ParserError};
use crate::types::{self, Transaction, TxModel};

verus! {

/// What reading a stream of records comes to: the records, a refusal with an
/// error, or an input on which the reader stops the program.
pub enum Verdict<T> {
    Done(T),
    Failed(ErrorModel),
    Aborted,
}

/// `v` with the records `prefix` in front of those it holds.
pub open spec fn prepend(prefix: Seq<TxModel>, v: Verdict<Seq<TxModel>>) -> Verdict<Seq<TxModel>> {
    match v {
        Verdict::Done(r) => Verdict::Done(prefix + r),
        Verdict::Failed(e) => Verdict::Failed(e),
        Verdict::Aborted => Verdict::Aborted,
    }
}

/// The result of reading transactions: the records, a refusal with an error, or an
/// input on which the reader stops the program instead of answering.
#[derive(Debug)]
pub enum ReadOutcome {
    Parsed(Vec<Transaction>),
    Rejected(ParserError),
    Aborted,
}

impl View for ReadOutcome {
    type V = Verdict<Seq<TxModel>>;

    open spec fn view(&self) -> Verdict<Seq<TxModel>> {
        match self {
            ReadOutcome::Parsed(v) => Verdict::Done(types::models(v@)),
            ReadOutcome::Rejected(e) => Verdict::Failed(e@),
            ReadOutcome::Aborted => Verdict::Aborted,
        }
    }
}

/// The verdict that a `Result` of a reader stands for.
pub open spec fn verdict_of(r: Result<Vec<Transaction>, ParserError>) -> Verdict<Seq<TxModel>> {
    match r {
        Ok(v) => Verdict::Done(types::models(v@)),
        Err(e) => Verdict::Failed(e@),
    }
}

/// A result of a reader with its records and its error taken by their views.
pub open spec fn records_result(r: Result<Vec<Transaction>, ParserError>) -> Result<Seq<TxModel>, ErrorModel> {
    match r {
        Ok(v) => Ok(types::models(v@)),
        Err(e) => Err(e@),
    }
}

/// A result of a writer with its bytes and its error taken by their views.
pub open spec fn bytes_result(r: Result<Vec<u8>, ParserError>) -> Result<Seq<u8>, ErrorModel> {
    match r {
        Ok(b) => Ok(b@),
        Err(e) => Err(e@),
    }
}

impl ReadOutcome {
    /// The answer of a reader, for an input on which it does not stop the program.
    pub fn into_result(self) -> (r: Result<Vec<Transaction>, ParserError>)
        requires
            !(self@ is Aborted),
        ensures
            verdict_of(r) == self@,
    {
        match self {
            ReadOutcome::Parsed(v) => Ok(v),
            ReadOutcome::Rejected(e) => Err(e),
            ReadOutcome::Aborted => Ok(Vec::new()),
        }
    }
}

} // verus!
