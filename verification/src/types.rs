use vstd::prelude::*;

verus! {

/// What a transaction does.
#[derive(Debug, Clone, Copy, PartialEq, Eq, Structural)]
pub enum TransactionType {
    Deposit,
    Transfer,
    Withdrawal,
    WrongType,
}

/// How a transaction ended.
#[derive(Debug, Clone, Copy, PartialEq, Eq, Structural)]
pub enum TransactionStatus {
    Success,
    Failure,
    Pending,
    WrongStatus,
}

/// The three file formats that hold transactions.
#[derive(Debug, Clone, Copy, PartialEq, Eq, Structural)]
pub enum Format {
    Csv,
    Text,
    Binary,
}

/// One transaction record.
#[derive(Debug)]
pub struct Transaction {
    pub tx_id: u64,
    pub tx_type: TransactionType,
    pub from_user_id: u64,
    pub to_user_id: u64,
    pub amount: i64,
    pub timestamp: u64,
    pub status: TransactionStatus,
    pub description: String,
}

/// A transaction as a mathematical value: the description is its sequence of characters.
pub struct TxModel {
    pub tx_id: u64,
    pub tx_type: TransactionType,
    pub from_user_id: u64,
    pub to_user_id: u64,
    pub amount: i64,
    pub timestamp: u64,
    pub status: TransactionStatus,
    pub description: Seq<char>,
}

impl View for Transaction {
    type V = TxModel;

    open spec fn view(&self) -> TxModel {
        TxModel {
            tx_id: self.tx_id,
            tx_type: self.tx_type,
            from_user_id: self.from_user_id,
            to_user_id: self.to_user_id,
            amount: self.amount,
            timestamp: self.timestamp,
            status: self.status,
            description: self.description@,
        }
    }
}

/// The models of a sequence of transactions.
pub open spec fn models(txs: Seq<Transaction>) -> Seq<TxModel> {
    txs.map_values(|t: Transaction| t@)
}

/// A result with its record and its error taken by their views.
pub open spec fn tx_result(r: Result<Transaction, crate::errors::ParserError>) -> Result<TxModel, crate::errors::ErrorModel> {
    match r {
        Ok(t) => Ok(t@),
        Err(e) => Err(e@),
    }
}

/// The record that the text format starts from: every number zero, a deposit,
/// a success and an empty description.
pub open spec fn default_model() -> TxModel {
    TxModel {
        tx_id: 0,
        tx_type: TransactionType::Deposit,
        from_user_id: 0,
        to_user_id: 0,
        amount: 0,
        timestamp: 0,
        status: TransactionStatus::Success,
        description: Seq::empty(),
    }
}

impl Clone for Transaction {
    fn clone(&self) -> (r: Self)
        ensures
            r@ == self@,
    {
        Transaction {
            tx_id: self.tx_id,
            tx_type: self.tx_type,
            from_user_id: self.from_user_id,
            to_user_id: self.to_user_id,
            amount: self.amount,
            timestamp: self.timestamp,
            status: self.status,
            description: self.description.clone(),
        }
    }
}

impl PartialEq for Transaction {
    fn eq(&self, other: &Self) -> (r: bool) {
        self.tx_id == other.tx_id && self.tx_type == other.tx_type && self.from_user_id
            == other.from_user_id && self.to_user_id == other.to_user_id && self.amount
            == other.amount && self.timestamp == other.timestamp && self.status == other.status
            && self.description == other.description
    }
}

impl vstd::std_specs::cmp::PartialEqSpecImpl for Transaction {
    open spec fn obeys_eq_spec() -> bool {
        true
    }

    open spec fn eq_spec(&self, other: &Self) -> bool {
        self@ == other@
    }
}

impl Default for Transaction {
    fn default() -> (r: Self)
        ensures
            r@ == default_model(),
    {
        Transaction {
            tx_id: 0,
            tx_type: TransactionType::Deposit,
            from_user_id: 0,
            to_user_id: 0,
            amount: 0,
            timestamp: 0,
            status: TransactionStatus::Success,
            description: String::new(),
        }
    }
}

impl Default for TransactionType {
    fn default() -> (r: Self)
        ensures
            r == TransactionType::Deposit,
    {
        TransactionType::Deposit
    }
}

impl Default for TransactionStatus {
    fn default() -> (r: Self)
        ensures
            r == TransactionStatus::Success,
    {
        TransactionStatus::Success
    }
}

impl Default for Format {
    fn default() -> (r: Self)
        ensures
            r == Format::Text,
    {
        Format::Text
    }
}

/// The byte that stands for a transaction type in the binary format.
pub open spec fn type_code(t: TransactionType) -> u8 {
    match t {
        TransactionType::Deposit => 0,
        TransactionType::Transfer => 1,
        TransactionType::Withdrawal => 2,
        TransactionType::WrongType => 3,
    }
}

/// The byte that stands for a transaction status in the binary format.
pub open spec fn status_code(s: TransactionStatus) -> u8 {
    match s {
        TransactionStatus::Success => 0,
        TransactionStatus::Failure => 1,
        TransactionStatus::Pending => 2,
        TransactionStatus::WrongStatus => 3,
    }
}

/// The transaction type that a byte of the binary format stands for; every byte
/// past the known codes is a wrong type.
pub open spec fn type_of_code(b: u8) -> TransactionType {
    if b == 0 {
        TransactionType::Deposit
    } else if b == 1 {
        TransactionType::Transfer
    } else if b == 2 {
        TransactionType::Withdrawal
    } else {
        TransactionType::WrongType
    }
}

/// The transaction status that a byte of the binary format stands for; every byte
/// past the known codes is a wrong status.
pub open spec fn status_of_code(b: u8) -> TransactionStatus {
    if b == 0 {
        TransactionStatus::Success
    } else if b == 1 {
        TransactionStatus::Failure
    } else if b == 2 {
        TransactionStatus::Pending
    } else {
        TransactionStatus::WrongStatus
    }
}

/// The name under which a transaction type is written in the text formats.
pub open spec fn type_label(t: TransactionType) -> Seq<char> {
    match t {
        TransactionType::Deposit => "DEPOSIT"@,
        TransactionType::Transfer => "TRANSFER"@,
        TransactionType::Withdrawal => "WITHDRAWAL"@,
        TransactionType::WrongType => "WRONG_TYPE"@,
    }
}

/// The name under which a transaction status is written in the text formats.
pub open spec fn status_label(s: TransactionStatus) -> Seq<char> {
    match s {
        TransactionStatus::Success => "SUCCESS"@,
        TransactionStatus::Failure => "FAILURE"@,
        TransactionStatus::Pending => "PENDING"@,
        TransactionStatus::WrongStatus => "WRONG_STATUS"@,
    }
}

/// The transaction type that a name of the text formats denotes: the three known
/// types are read back, and nothing else (the name of the wrong type neither).
pub open spec fn type_of_label(s: Seq<char>) -> Option<TransactionType> {
    if s == "DEPOSIT"@ {
        Some(TransactionType::Deposit)
    } else if s == "TRANSFER"@ {
        Some(TransactionType::Transfer)
    } else if s == "WITHDRAWAL"@ {
        Some(TransactionType::Withdrawal)
    } else {
        None
    }
}

/// The transaction status that a name of the text formats denotes: the three known
/// statuses are read back, and nothing else.
pub open spec fn status_of_label(s: Seq<char>) -> Option<TransactionStatus> {
    if s == "SUCCESS"@ {
        Some(TransactionStatus::Success)
    } else if s == "FAILURE"@ {
        Some(TransactionStatus::Failure)
    } else if s == "PENDING"@ {
        Some(TransactionStatus::Pending)
    } else {
        None
    }
}

impl TransactionType {
    /// The byte that stands for this type in the binary format.
    pub fn as_bytes(&self) -> (r: u8)
        ensures
            r == type_code(*self),
    {
        match self {
            TransactionType::Deposit => 0,
            TransactionType::Transfer => 1,
            TransactionType::Withdrawal => 2,
            TransactionType::WrongType => 3,
        }
    }

    /// The name under which this type is written in the text formats.
    pub fn name(&self) -> (r: &'static str)
        ensures
            r@ == type_label(*self),
    {
        match self {
            TransactionType::Deposit => "DEPOSIT",
            TransactionType::Transfer => "TRANSFER",
            TransactionType::Withdrawal => "WITHDRAWAL",
            TransactionType::WrongType => "WRONG_TYPE",
        }
    }
}

impl TransactionStatus {
    /// The byte that stands for this status in the binary format.
    pub fn as_bytes(&self) -> (r: u8)
        ensures
            r == status_code(*self),
    {
        match self {
            TransactionStatus::Success => 0,
            TransactionStatus::Failure => 1,
            TransactionStatus::Pending => 2,
            TransactionStatus::WrongStatus => 3,
        }
    }

    /// The name under which this status is written in the text formats.
    pub fn name(&self) -> (r: &'static str)
        ensures
            r@ == status_label(*self),
    {
        match self {
            TransactionStatus::Success => "SUCCESS",
            TransactionStatus::Failure => "FAILURE",
            TransactionStatus::Pending => "PENDING",
            TransactionStatus::WrongStatus => "WRONG_STATUS",
        }
    }
}

impl From<u8> for TransactionType {
    fn from(value: u8) -> (r: Self) {
        if value == 0 {
            TransactionType::Deposit
        } else if value == 1 {
            TransactionType::Transfer
        } else if value == 2 {
            TransactionType::Withdrawal
        } else {
            TransactionType::WrongType
        }
    }
}

impl vstd::std_specs::convert::FromSpecImpl<u8> for TransactionType {
    open spec fn obeys_from_spec() -> bool {
        true
    }

    open spec fn from_spec(v: u8) -> Self {
        type_of_code(v)
    }
}

impl From<u8> for TransactionStatus {
    fn from(value: u8) -> (r: Self) {
        if value == 0 {
            TransactionStatus::Success
        } else if value == 1 {
            TransactionStatus::Failure
        } else if value == 2 {
            TransactionStatus::Pending
        } else {
            TransactionStatus::WrongStatus
        }
    }
}

impl vstd::std_specs::convert::FromSpecImpl<u8> for TransactionStatus {
    open spec fn obeys_from_spec() -> bool {
        true
    }

    open spec fn from_spec(v: u8) -> Self {
        status_of_code(v)
    }
}

/// Reading back the byte of a type gives the type again.
pub proof fn lemma_type_code_roundtrip(t: TransactionType)
    ensures
        type_of_code(type_code(t)) == t,
{
}

/// Reading back the byte of a status gives the status again.
pub proof fn lemma_status_code_roundtrip(s: TransactionStatus)
    ensures
        status_of_code(status_code(s)) == s,
{
}

/// Whether every character is a capital letter or an underscore.
pub open spec fn capitals(s: Seq<char>) -> bool {
    forall|i: int| 0 <= i < s.len() ==> ('A' <= #[trigger] s[i] <= 'Z' || s[i] == '_')
}

/// Reading back the name of a known type gives the type again; names are written
/// in capitals.
pub proof fn lemma_type_label_roundtrip(t: TransactionType)
    ensures
        t != TransactionType::WrongType ==> type_of_label(type_label(t)) == Some(t),
        type_label(t).len() > 0,
        capitals(type_label(t)),
{
    reveal_strlit("DEPOSIT");
    reveal_strlit("TRANSFER");
    reveal_strlit("WITHDRAWAL");
    reveal_strlit("WRONG_TYPE");
    assert("TRANSFER"@ != "DEPOSIT"@) by {
        assert("TRANSFER"@.len() != "DEPOSIT"@.len());
    }
    assert("WITHDRAWAL"@ != "DEPOSIT"@) by {
        assert("WITHDRAWAL"@.len() != "DEPOSIT"@.len());
    }
    assert("WITHDRAWAL"@ != "TRANSFER"@) by {
        assert("WITHDRAWAL"@.len() != "TRANSFER"@.len());
    }
}

/// Reading back the name of a known status gives the status again; names are
/// written in capitals.
pub proof fn lemma_status_label_roundtrip(s: TransactionStatus)
    ensures
        s != TransactionStatus::WrongStatus ==> status_of_label(status_label(s)) == Some(s),
        status_label(s).len() > 0,
        capitals(status_label(s)),
{
    reveal_strlit("SUCCESS");
    reveal_strlit("FAILURE");
    reveal_strlit("PENDING");
    reveal_strlit("WRONG_STATUS");
    assert("FAILURE"@ != "SUCCESS"@) by {
        assert("FAILURE"@[0] != "SUCCESS"@[0]);
    }
    assert("PENDING"@ != "SUCCESS"@) by {
        assert("PENDING"@[0] != "SUCCESS"@[0]);
    }
    assert("PENDING"@ != "FAILURE"@) by {
        assert("PENDING"@[0] != "FAILURE"@[0]);
    }
}

} // verus!
