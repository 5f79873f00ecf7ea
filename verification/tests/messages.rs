//! The texts of errors, addresses and names.

use dex_math_core::base::error::{
    AccountingError, BlockchainError, ConfigError, DexError, MathError, StrategyError,
};
use dex_math_core::base::types::{Address, DexType, PoolKey};
use dex_math_core::dex::adapter::SwapDirection;
use dex_math_core::dex::uniswap_v4::hooks::V4OfficialHookClass;
use dex_math_core::u256::U256;

fn n(v: u64) -> U256 {
    U256::from_u64(v)
}

fn t(s: &str) -> String {
    s.to_string()
}

#[test]
fn math_errors_name_their_operation() {
    let overflow =
        MathError::Overflow { operation: t("mul"), inputs: vec![n(7), n(8)], context: t("c") };
    assert_eq!(overflow.message(), "Overflow in mul with inputs: [7, 8]");
    let underflow = MathError::Underflow { operation: t("sub"), inputs: vec![], context: t("c") };
    assert_eq!(underflow.message(), "Underflow in sub with inputs: []");
    let zero = MathError::DivisionByZero { operation: t("div"), context: t("c") };
    assert_eq!(zero.message(), "Division by zero in div");
    let input = MathError::InvalidInput { operation: t("op"), reason: t("bad"), context: t("c") };
    assert_eq!(input.message(), "Invalid input for op: bad");
    let loss = MathError::PrecisionLoss {
        operation: t("op"),
        expected: n(1),
        actual: n(2),
        context: t("c"),
    };
    assert_eq!(loss.message(), "Precision loss in op");
    assert_eq!(String::from(zero), "Division by zero in div");
}

#[test]
fn dex_errors_say_what_is_wrong() {
    let pool = Address { high: 0xabcd_0000, middle: 0, low: 0x1234 };
    let missing =
        DexError::InsufficientLiquidity { pool_address: pool, required: n(5), available: n(3) };
    assert_eq!(
        missing.message(),
        "Insufficient liquidity: pool 0xabcd…1234, required 5, available 3"
    );
    assert_eq!(DexError::InvalidPool { reason: t("r") }.message(), "Invalid pool: r");
    assert_eq!(DexError::UnsupportedDex { dex_name: t("X") }.message(), "Unsupported DEX: X");
    let math = DexError::MathError(MathError::DivisionByZero { operation: t("d"), context: t("") });
    assert_eq!(math.message(), "Math error: Division by zero in d");
    assert_eq!(String::from(math), "Math error: Division by zero in d");
}

#[test]
fn other_errors_say_what_is_wrong() {
    assert_eq!(
        StrategyError::InsufficientData { strategy: t("s"), reason: t("r") }.message(),
        "Insufficient data for s: r"
    );
    assert_eq!(
        StrategyError::ExceedsSlippageLimit { actual_bps: 31, limit_bps: 30 }.message(),
        "Slippage exceeds limit: 31 bps > 30 bps"
    );
    assert_eq!(
        StrategyError::BelowProfitThreshold { actual: n(1), threshold: n(2) }.message(),
        "Profit below threshold: 1 < 2"
    );
    assert_eq!(
        StrategyError::DexError(DexError::InvalidPool { reason: t("r") }).message(),
        "DEX error: Invalid pool: r"
    );
    assert_eq!(
        BlockchainError::RpcError { operation: t("o"), error: t("e") }.message(),
        "RPC error in o: e"
    );
    assert_eq!(BlockchainError::WebSocketError { error: t("e") }.message(), "WebSocket error: e");
    assert_eq!(
        BlockchainError::EventDecodingError { error: t("e") }.message(),
        "Event decoding error: e"
    );
    assert_eq!(BlockchainError::BlockNotFound { block_number: 9 }.message(), "Block 9 not found");
    assert_eq!(
        ConfigError::InvalidValue { field: t("f"), value: t("v"), reason: t("r") }.message(),
        "Invalid config value for f: v, reason: r"
    );
    assert_eq!(ConfigError::MissingField { field: t("f") }.message(), "Missing required field: f");
    assert_eq!(ConfigError::ParseError { error: t("e") }.message(), "Parse error: e");
    assert_eq!(AccountingError::DatabaseError { error: t("e") }.message(), "Database error: e");
    assert_eq!(
        AccountingError::InvalidTransaction { reason: t("r") }.message(),
        "Invalid transaction: r"
    );
    assert_eq!(AccountingError::SettlementError { reason: t("r") }.message(), "Settlement error: r");
}

#[test]
fn addresses_are_written_as_the_outside_crate_writes_them() {
    let a = Address { high: 0x00ff_a0b1, middle: 0x0102_0304_0506_0708, low: 0x1112_1314_1516_1718 };
    let mut bytes = [0u8; 20];
    bytes[..4].copy_from_slice(&a.high.to_be_bytes());
    bytes[4..12].copy_from_slice(&a.middle.to_be_bytes());
    bytes[12..].copy_from_slice(&a.low.to_be_bytes());
    let outside = ethers_core::types::Address::from(bytes);
    assert_eq!(a.to_full_text(), format!("{:?}", outside));
    assert_eq!(a.to_short_text(), format!("{}", outside));
}

#[test]
fn keys_and_names_keep_their_parts() {
    let key = PoolKey::new(
        DexType::Curve,
        Address::zero(),
        Address::from_low_u64_be(1),
        Address::from_low_u64_be(2),
    );
    assert_eq!(key.dex_type, DexType::Curve);
    assert_eq!(key.token1, Address::from_low_u64_be(2));
    assert_eq!(SwapDirection::Token0ToToken1.to_name(), "Token0ToToken1");
    assert!(SwapDirection::Token0ToToken1.zero_for_one());
    assert!(!SwapDirection::Token1ToToken0.zero_for_one());
    for class in [
        V4OfficialHookClass::DynamicFee,
        V4OfficialHookClass::Twamm,
        V4OfficialHookClass::LimitOrder,
    ] {
        assert_eq!(class.to_name(), format!("{:?}", class));
    }
    assert_eq!(V4OfficialHookClass::parse(" TWAMM "), Some(V4OfficialHookClass::Twamm));
    assert_eq!(V4OfficialHookClass::parse("Limit_Order"), Some(V4OfficialHookClass::LimitOrder));
    assert_eq!(V4OfficialHookClass::parse("nothing"), None);
}
