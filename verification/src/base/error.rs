//! Error types. No function of the library panics: what cannot be computed is reported here.

use crate::base::types::Address;
use crate::text::{dec, dec_list, text_list, text_u128, text_u256};
use crate::u256::{values, U256};
use vstd::prelude::*;
use vstd::string::StringExecFns;

verus! {

/// Arithmetic errors.
#[derive(Debug, PartialEq, PartialOrd)]
pub enum MathError {
    Overflow { operation: String, inputs: Vec<U256>, context: String },
    Underflow { operation: String, inputs: Vec<U256>, context: String },
    DivisionByZero { operation: String, context: String },
    InvalidInput { operation: String, reason: String, context: String },
    PrecisionLoss { operation: String, expected: U256, actual: U256, context: String },
}

/// Errors of the DEX quoting functions.
#[derive(Debug, PartialEq, PartialOrd)]
pub enum DexError {
    InsufficientLiquidity { pool_address: Address, required: U256, available: U256 },
    InvalidPool { reason: String },
    UnsupportedDex { dex_name: String },
    MathError(MathError),
}

/// Errors of trading strategies.
#[derive(Debug)]
pub enum StrategyError {
    InsufficientData { strategy: String, reason: String },
    ExceedsSlippageLimit { actual_bps: u32, limit_bps: u32 },
    BelowProfitThreshold { actual: U256, threshold: U256 },
    DexError(DexError),
}

/// Errors of blockchain access.
#[derive(Debug)]
pub enum BlockchainError {
    RpcError { operation: String, error: String },
    WebSocketError { error: String },
    EventDecodingError { error: String },
    BlockNotFound { block_number: u64 },
}

/// Errors of configuration values.
#[derive(Debug)]
pub enum ConfigError {
    InvalidValue { field: String, value: String, reason: String },
    MissingField { field: String },
    ParseError { error: String },
}

/// Errors of accounting.
#[derive(Debug)]
pub enum AccountingError {
    DatabaseError { error: String },
    InvalidTransaction { reason: String },
    SettlementError { reason: String },
}

/// What a [`MathError`] says: its texts as sequences of characters, its numbers as naturals.
#[verifier::ext_equal]
pub enum MathErr {
    Overflow { operation: Seq<char>, inputs: Seq<nat>, context: Seq<char> },
    Underflow { operation: Seq<char>, inputs: Seq<nat>, context: Seq<char> },
    DivisionByZero { operation: Seq<char>, context: Seq<char> },
    InvalidInput { operation: Seq<char>, reason: Seq<char>, context: Seq<char> },
    PrecisionLoss { operation: Seq<char>, expected: nat, actual: nat, context: Seq<char> },
}

/// What a [`DexError`] says.
#[verifier::ext_equal]
pub enum DexErr {
    InsufficientLiquidity { pool_address: Address, required: nat, available: nat },
    InvalidPool { reason: Seq<char> },
    UnsupportedDex { dex_name: Seq<char> },
    MathError(MathErr),
}

impl View for MathError {
    type V = MathErr;

    open spec fn view(&self) -> MathErr {
        match *self {
            MathError::Overflow { operation, inputs, context } => MathErr::Overflow {
                operation: operation@,
                inputs: values(inputs@),
                context: context@,
            },
            MathError::Underflow { operation, inputs, context } => MathErr::Underflow {
                operation: operation@,
                inputs: values(inputs@),
                context: context@,
            },
            MathError::DivisionByZero { operation, context } => MathErr::DivisionByZero {
                operation: operation@,
                context: context@,
            },
            MathError::InvalidInput { operation, reason, context } => MathErr::InvalidInput {
                operation: operation@,
                reason: reason@,
                context: context@,
            },
            MathError::PrecisionLoss { operation, expected, actual, context } => {
                MathErr::PrecisionLoss {
                    operation: operation@,
                    expected: expected@,
                    actual: actual@,
                    context: context@,
                }
            },
        }
    }
}

impl View for DexError {
    type V = DexErr;

    open spec fn view(&self) -> DexErr {
        match *self {
            DexError::InsufficientLiquidity { pool_address, required, available } => {
                DexErr::InsufficientLiquidity {
                    pool_address,
                    required: required@,
                    available: available@,
                }
            },
            DexError::InvalidPool { reason } => DexErr::InvalidPool { reason: reason@ },
            DexError::UnsupportedDex { dex_name } => DexErr::UnsupportedDex {
                dex_name: dex_name@,
            },
            DexError::MathError(e) => DexErr::MathError(e@),
        }
    }
}

/// The view of a result with a [`MathError`].
pub open spec fn math_view<T: View>(r: Result<T, MathError>) -> Result<T::V, MathErr> {
    match r {
        Ok(v) => Ok(v@),
        Err(e) => Err(e@),
    }
}

/// The view of a result with a [`DexError`].
pub open spec fn dex_view<T: View>(r: Result<T, DexError>) -> Result<T::V, DexErr> {
    match r {
        Ok(v) => Ok(v@),
        Err(e) => Err(e@),
    }
}

// What each constructor below builds.

pub open spec fn e_overflow(operation: Seq<char>, inputs: Seq<nat>, context: Seq<char>) -> MathErr {
    MathErr::Overflow { operation, inputs, context }
}

pub open spec fn e_underflow(
    operation: Seq<char>,
    inputs: Seq<nat>,
    context: Seq<char>,
) -> MathErr {
    MathErr::Underflow { operation, inputs, context }
}

pub open spec fn e_zero_division(operation: Seq<char>, context: Seq<char>) -> MathErr {
    MathErr::DivisionByZero { operation, context }
}

pub open spec fn e_invalid(operation: Seq<char>, reason: Seq<char>, context: Seq<char>) -> MathErr {
    MathErr::InvalidInput { operation, reason, context }
}

pub open spec fn e_pool(reason: Seq<char>) -> DexErr {
    DexErr::InvalidPool { reason }
}

/// An overflow that reports no operands.
pub fn overflow0(operation: &str, context: &str) -> (e: MathError)
    ensures
        e@ == e_overflow(operation@, seq![], context@),
{
    let inputs: Vec<U256> = Vec::new();
    assert(values(inputs@) =~= seq![]);
    MathError::Overflow { operation: operation.to_owned(), inputs, context: context.to_owned() }
}

/// An overflow that reports one operand.
pub fn overflow1(operation: &str, a: U256, context: &str) -> (e: MathError)
    ensures
        e@ == e_overflow(operation@, seq![a@], context@),
{
    let mut inputs: Vec<U256> = Vec::new();
    inputs.push(a);
    assert(values(inputs@) =~= seq![a@]);
    MathError::Overflow { operation: operation.to_owned(), inputs, context: context.to_owned() }
}

/// An overflow that reports two operands.
pub fn overflow2(operation: &str, a: U256, b: U256, context: &str) -> (e: MathError)
    ensures
        e@ == e_overflow(operation@, seq![a@, b@], context@),
{
    let mut inputs: Vec<U256> = Vec::new();
    inputs.push(a);
    inputs.push(b);
    assert(values(inputs@) =~= seq![a@, b@]);
    MathError::Overflow { operation: operation.to_owned(), inputs, context: context.to_owned() }
}

/// An overflow that reports three operands.
pub fn overflow3(operation: &str, a: U256, b: U256, c: U256, context: &str) -> (e: MathError)
    ensures
        e@ == e_overflow(operation@, seq![a@, b@, c@], context@),
{
    let mut inputs: Vec<U256> = Vec::new();
    inputs.push(a);
    inputs.push(b);
    inputs.push(c);
    assert(values(inputs@) =~= seq![a@, b@, c@]);
    MathError::Overflow { operation: operation.to_owned(), inputs, context: context.to_owned() }
}

/// An underflow that reports no operands.
pub fn underflow0(operation: &str, context: &str) -> (e: MathError)
    ensures
        e@ == e_underflow(operation@, seq![], context@),
{
    let inputs: Vec<U256> = Vec::new();
    assert(values(inputs@) =~= seq![]);
    MathError::Underflow { operation: operation.to_owned(), inputs, context: context.to_owned() }
}

/// An underflow that reports two operands.
pub fn underflow2(operation: &str, a: U256, b: U256, context: &str) -> (e: MathError)
    ensures
        e@ == e_underflow(operation@, seq![a@, b@], context@),
{
    let mut inputs: Vec<U256> = Vec::new();
    inputs.push(a);
    inputs.push(b);
    assert(values(inputs@) =~= seq![a@, b@]);
    MathError::Underflow { operation: operation.to_owned(), inputs, context: context.to_owned() }
}

/// A division by zero.
pub fn zero_division(operation: &str, context: &str) -> (e: MathError)
    ensures
        e@ == e_zero_division(operation@, context@),
{
    MathError::DivisionByZero { operation: operation.to_owned(), context: context.to_owned() }
}

/// An input that the operation refuses.
pub fn invalid(operation: &str, reason: &str, context: &str) -> (e: MathError)
    ensures
        e@ == e_invalid(operation@, reason@, context@),
{
    MathError::InvalidInput {
        operation: operation.to_owned(),
        reason: reason.to_owned(),
        context: context.to_owned(),
    }
}

/// A pool that cannot be quoted.
pub fn bad_pool(reason: &str) -> (e: DexError)
    ensures
        e@ == e_pool(reason@),
{
    DexError::InvalidPool { reason: reason.to_owned() }
}

/// An error whose reason says everything.
pub fn unexplained(operation: &str, reason: &str) -> (e: MathError)
    ensures
        e@ == e_invalid(operation@, reason@, seq![]),
{
    let context = "";
    proof {
        reveal_strlit("");
        assert(context@ =~= seq![]);
    }
    invalid(operation, reason, context)
}

impl MathErr {
    /// The message that is shown for the error.
    pub open spec fn message(self) -> Seq<char> {
        match self {
            MathErr::Overflow { operation, inputs, .. } => {
                "Overflow in "@ + operation + " with inputs: ["@ + dec_list(inputs) + "]"@
            },
            MathErr::Underflow { operation, inputs, .. } => {
                "Underflow in "@ + operation + " with inputs: ["@ + dec_list(inputs) + "]"@
            },
            MathErr::DivisionByZero { operation, .. } => "Division by zero in "@ + operation,
            MathErr::InvalidInput { operation, reason, .. } => {
                "Invalid input for "@ + operation + ": "@ + reason
            },
            MathErr::PrecisionLoss { operation, .. } => "Precision loss in "@ + operation,
        }
    }
}

impl DexErr {
    /// The message that is shown for the error.
    pub open spec fn message(self) -> Seq<char> {
        match self {
            DexErr::InsufficientLiquidity { pool_address, required, available } => {
                "Insufficient liquidity: pool "@ + pool_address.short_text() + ", required "@ + dec(
                    required,
                ) + ", available "@ + dec(available)
            },
            DexErr::InvalidPool { reason } => "Invalid pool: "@ + reason,
            DexErr::UnsupportedDex { dex_name } => "Unsupported DEX: "@ + dex_name,
            DexErr::MathError(e) => "Math error: "@ + e.message(),
        }
    }
}

impl MathError {
    /// The message that is shown for the error.
    pub fn message(&self) -> (r: String)
        ensures
            r@ == self@.message(),
    {
        match self {
            MathError::Overflow { operation, inputs, .. } => {
                "Overflow in ".to_owned().concat(operation.as_str()).concat(
                    " with inputs: [",
                ).concat(text_list(inputs).as_str()).concat("]")
            },
            MathError::Underflow { operation, inputs, .. } => {
                "Underflow in ".to_owned().concat(operation.as_str()).concat(
                    " with inputs: [",
                ).concat(text_list(inputs).as_str()).concat("]")
            },
            MathError::DivisionByZero { operation, .. } => {
                "Division by zero in ".to_owned().concat(operation.as_str())
            },
            MathError::InvalidInput { operation, reason, .. } => {
                "Invalid input for ".to_owned().concat(operation.as_str()).concat(": ").concat(
                    reason.as_str(),
                )
            },
            MathError::PrecisionLoss { operation, .. } => {
                "Precision loss in ".to_owned().concat(operation.as_str())
            },
        }
    }
}

impl DexError {
    /// The message that is shown for the error.
    pub fn message(&self) -> (r: String)
        ensures
            r@ == self@.message(),
    {
        match self {
            DexError::InsufficientLiquidity { pool_address, required, available } => {
                "Insufficient liquidity: pool ".to_owned().concat(
                    pool_address.to_short_text().as_str(),
                ).concat(", required ").concat(text_u256(*required).as_str()).concat(
                    ", available ",
                ).concat(text_u256(*available).as_str())
            },
            DexError::InvalidPool { reason } => {
                "Invalid pool: ".to_owned().concat(reason.as_str())
            },
            DexError::UnsupportedDex { dex_name } => {
                "Unsupported DEX: ".to_owned().concat(dex_name.as_str())
            },
            DexError::MathError(e) => "Math error: ".to_owned().concat(e.message().as_str()),
        }
    }
}

impl From<MathError> for String {
    fn from(error: MathError) -> (r: String)
        ensures
            r@ == error@.message(),
    {
        error.message()
    }
}

impl vstd::std_specs::convert::FromSpecImpl<MathError> for String {
    open spec fn obeys_from_spec() -> bool {
        false
    }

    open spec fn from_spec(error: MathError) -> String {
        arbitrary()
    }
}

impl From<DexError> for String {
    fn from(error: DexError) -> (r: String)
        ensures
            r@ == error@.message(),
    {
        error.message()
    }
}

impl vstd::std_specs::convert::FromSpecImpl<DexError> for String {
    open spec fn obeys_from_spec() -> bool {
        false
    }

    open spec fn from_spec(error: DexError) -> String {
        arbitrary()
    }
}

impl StrategyError {
    /// The message that is shown for the error.
    pub open spec fn text(self) -> Seq<char> {
        match self {
            StrategyError::InsufficientData { strategy, reason } => {
                "Insufficient data for "@ + strategy@ + ": "@ + reason@
            },
            StrategyError::ExceedsSlippageLimit { actual_bps, limit_bps } => {
                "Slippage exceeds limit: "@ + dec(actual_bps as nat) + " bps > "@ + dec(
                    limit_bps as nat,
                ) + " bps"@
            },
            StrategyError::BelowProfitThreshold { actual, threshold } => {
                "Profit below threshold: "@ + dec(actual@) + " < "@ + dec(threshold@)
            },
            StrategyError::DexError(e) => "DEX error: "@ + e@.message(),
        }
    }

    /// Writes the message that is shown for the error.
    pub fn message(&self) -> (r: String)
        ensures
            r@ == self.text(),
    {
        match self {
            StrategyError::InsufficientData { strategy, reason } => {
                "Insufficient data for ".to_owned().concat(strategy.as_str()).concat(": ").concat(
                    reason.as_str(),
                )
            },
            StrategyError::ExceedsSlippageLimit { actual_bps, limit_bps } => {
                "Slippage exceeds limit: ".to_owned().concat(
                    text_u128(*actual_bps as u128).as_str(),
                ).concat(" bps > ").concat(text_u128(*limit_bps as u128).as_str()).concat(" bps")
            },
            StrategyError::BelowProfitThreshold { actual, threshold } => {
                "Profit below threshold: ".to_owned().concat(text_u256(*actual).as_str()).concat(
                    " < ",
                ).concat(text_u256(*threshold).as_str())
            },
            StrategyError::DexError(e) => "DEX error: ".to_owned().concat(e.message().as_str()),
        }
    }
}

impl BlockchainError {
    /// The message that is shown for the error.
    pub open spec fn text(self) -> Seq<char> {
        match self {
            BlockchainError::RpcError { operation, error } => {
                "RPC error in "@ + operation@ + ": "@ + error@
            },
            BlockchainError::WebSocketError { error } => "WebSocket error: "@ + error@,
            BlockchainError::EventDecodingError { error } => "Event decoding error: "@ + error@,
            BlockchainError::BlockNotFound { block_number } => {
                "Block "@ + dec(block_number as nat) + " not found"@
            },
        }
    }

    /// Writes the message that is shown for the error.
    pub fn message(&self) -> (r: String)
        ensures
            r@ == self.text(),
    {
        match self {
            BlockchainError::RpcError { operation, error } => {
                "RPC error in ".to_owned().concat(operation.as_str()).concat(": ").concat(
                    error.as_str(),
                )
            },
            BlockchainError::WebSocketError { error } => {
                "WebSocket error: ".to_owned().concat(error.as_str())
            },
            BlockchainError::EventDecodingError { error } => {
                "Event decoding error: ".to_owned().concat(error.as_str())
            },
            BlockchainError::BlockNotFound { block_number } => {
                "Block ".to_owned().concat(text_u128(*block_number as u128).as_str()).concat(
                    " not found",
                )
            },
        }
    }
}

impl ConfigError {
    /// The message that is shown for the error.
    pub open spec fn text(self) -> Seq<char> {
        match self {
            ConfigError::InvalidValue { field, value, reason } => {
                "Invalid config value for "@ + field@ + ": "@ + value@ + ", reason: "@ + reason@
            },
            ConfigError::MissingField { field } => "Missing required field: "@ + field@,
            ConfigError::ParseError { error } => "Parse error: "@ + error@,
        }
    }

    /// Writes the message that is shown for the error.
    pub fn message(&self) -> (r: String)
        ensures
            r@ == self.text(),
    {
        match self {
            ConfigError::InvalidValue { field, value, reason } => {
                "Invalid config value for ".to_owned().concat(field.as_str()).concat(": ").concat(
                    value.as_str(),
                ).concat(", reason: ").concat(reason.as_str())
            },
            ConfigError::MissingField { field } => {
                "Missing required field: ".to_owned().concat(field.as_str())
            },
            ConfigError::ParseError { error } => {
                "Parse error: ".to_owned().concat(error.as_str())
            },
        }
    }
}

impl AccountingError {
    /// The message that is shown for the error.
    pub open spec fn text(self) -> Seq<char> {
        match self {
            AccountingError::DatabaseError { error } => "Database error: "@ + error@,
            AccountingError::InvalidTransaction { reason } => "Invalid transaction: "@ + reason@,
            AccountingError::SettlementError { reason } => "Settlement error: "@ + reason@,
        }
    }

    /// Writes the message that is shown for the error.
    pub fn message(&self) -> (r: String)
        ensures
            r@ == self.text(),
    {
        match self {
            AccountingError::DatabaseError { error } => {
                "Database error: ".to_owned().concat(error.as_str())
            },
            AccountingError::InvalidTransaction { reason } => {
                "Invalid transaction: ".to_owned().concat(reason.as_str())
            },
            AccountingError::SettlementError { reason } => {
                "Settlement error: ".to_owned().concat(reason.as_str())
            },
        }
    }
}

} // verus!
