use vstd::prelude::*;

verus! {

/// Why reading or writing transactions failed; each variant carries a message.
#[derive(Debug)]
pub enum ParserError {
    IO(String),
    InvalidArgument(String),
    InvalidHeader(String),
    InvalidRecord(String),
    InvalidValue(String),
    InvalidRange(String),
    EmptyTransactions(String),
}

/// A `ParserError` as a mathematical value.
pub enum ErrorModel {
    IO(Seq<char>),
    InvalidArgument(Seq<char>),
    InvalidHeader(Seq<char>),
    InvalidRecord(Seq<char>),
    InvalidValue(Seq<char>),
    InvalidRange(Seq<char>),
    EmptyTransactions(Seq<char>),
}

impl View for ParserError {
    type V = ErrorModel;

    open spec fn view(&self) -> ErrorModel {
        match self {
            ParserError::IO(m) => ErrorModel::IO(m@),
            ParserError::InvalidArgument(m) => ErrorModel::InvalidArgument(m@),
            ParserError::InvalidHeader(m) => ErrorModel::InvalidHeader(m@),
            ParserError::InvalidRecord(m) => ErrorModel::InvalidRecord(m@),
            ParserError::InvalidValue(m) => ErrorModel::InvalidValue(m@),
            ParserError::InvalidRange(m) => ErrorModel::InvalidRange(m@),
            ParserError::EmptyTransactions(m) => ErrorModel::EmptyTransactions(m@),
        }
    }
}

impl PartialEq for ParserError {
    fn eq(&self, other: &Self) -> (r: bool) {
        match self {
            ParserError::IO(a) => match other {
                ParserError::IO(b) => *a == *b,
                _ => false,
            },
            ParserError::InvalidArgument(a) => match other {
                ParserError::InvalidArgument(b) => *a == *b,
                _ => false,
            },
            ParserError::InvalidHeader(a) => match other {
                ParserError::InvalidHeader(b) => *a == *b,
                _ => false,
            },
            ParserError::InvalidRecord(a) => match other {
                ParserError::InvalidRecord(b) => *a == *b,
                _ => false,
            },
            ParserError::InvalidValue(a) => match other {
                ParserError::InvalidValue(b) => *a == *b,
                _ => false,
            },
            ParserError::InvalidRange(a) => match other {
                ParserError::InvalidRange(b) => *a == *b,
                _ => false,
            },
            ParserError::EmptyTransactions(a) => match other {
                ParserError::EmptyTransactions(b) => *a == *b,
                _ => false,
            },
        }
    }
}

impl vstd::std_specs::cmp::PartialEqSpecImpl for ParserError {
    open spec fn obeys_eq_spec() -> bool {
        true
    }

    open spec fn eq_spec(&self, other: &Self) -> bool {
        self@ == other@
    }
}

/// A copy of a string slice as an owned string.
pub fn owned(s: &str) -> (r: String)
    ensures
        r@ == s@,
{
    s.to_owned()
}

impl ParserError {
    /// The text under which the error is shown to a user: a phrase for its kind,
    /// a space, and the message it carries.
    pub fn message(&self) -> (r: String)
        ensures
            r@ == error_text(self@),
    {
        let (prefix, m) = match self {
            ParserError::IO(m) => ("ошибка ввода-вывода ", m),
            ParserError::InvalidArgument(m) => ("некорректный аргумент ", m),
            ParserError::InvalidHeader(m) => ("некорректный заголовок ", m),
            ParserError::InvalidRecord(m) => ("некорректная запись ", m),
            ParserError::InvalidValue(m) => ("некорректное значение ", m),
            ParserError::InvalidRange(m) => ("некорректный диапазон ", m),
            ParserError::EmptyTransactions(m) => ("пустой список транзакций ", m),
        };
        let mut r = owned(prefix);
        r.append(m.as_str());
        r
    }
}

/// The text under which an error is shown to a user.
pub open spec fn error_text(e: ErrorModel) -> Seq<char> {
    match e {
        ErrorModel::IO(m) => "ошибка ввода-вывода "@ + m,
        ErrorModel::InvalidArgument(m) => "некорректный аргумент "@ + m,
        ErrorModel::InvalidHeader(m) => "некорректный заголовок "@ + m,
        ErrorModel::InvalidRecord(m) => "некорректная запись "@ + m,
        ErrorModel::InvalidValue(m) => "некорректное значение "@ + m,
        ErrorModel::InvalidRange(m) => "некорректный диапазон "@ + m,
        ErrorModel::EmptyTransactions(m) => "пустой список транзакций "@ + m,
    }
}

/// Why the comparison tool could not run.
#[derive(Debug)]
pub enum ComparerError {
    UnknownFormat(String),
}

/// Why the conversion tool could not run.
#[derive(Debug)]
pub enum ConverterError {
    UnknownFormat(String),
}

impl ComparerError {
    /// The text under which the error is shown to a user.
    pub fn message(&self) -> (r: String)
        ensures
            r@ == "неизвестный формат "@ + match self {
                ComparerError::UnknownFormat(m) => m@,
            },
    {
        let ComparerError::UnknownFormat(m) = self;
        let mut r = owned("неизвестный формат ");
        r.append(m.as_str());
        r
    }
}

impl ConverterError {
    /// The text under which the error is shown to a user.
    pub fn message(&self) -> (r: String)
        ensures
            r@ == "неизвестный формат "@ + match self {
                ConverterError::UnknownFormat(m) => m@,
            },
    {
        let ConverterError::UnknownFormat(m) = self;
        let mut r = owned("неизвестный формат ");
        r.append(m.as_str());
        r
    }
}

} // verus!
