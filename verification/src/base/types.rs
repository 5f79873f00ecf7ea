//! Domain types: account addresses, DEX kinds and pool keys.

use crate::text::{hex_bytes, text_hex_bytes};
use vstd::prelude::*;
use vstd::string::StringExecFns;

verus! {

/// A 160-bit account address, as three words from the most significant one down.
#[derive(Clone, Copy, Debug, PartialEq, Eq, PartialOrd, Ord, Hash, Structural)]
pub struct Address {
    pub high: u32,
    pub middle: u64,
    pub low: u64,
}

impl Address {
    /// The zero address.
    pub fn zero() -> (r: Address)
        ensures
            r == (Address { high: 0, middle: 0, low: 0 }),
    {
        Address { high: 0, middle: 0, low: 0 }
    }

    /// The address whose last eight bytes are the given word and whose other bytes are zero.
    pub fn from_low_u64_be(low: u64) -> (r: Address)
        ensures
            r == (Address { high: 0, middle: 0, low }),
    {
        Address { high: 0, middle: 0, low }
    }

    /// The full hexadecimal text: `0x` and forty digits.
    pub open spec fn full_text(self) -> Seq<char> {
        "0x"@ + hex_bytes(self.high as nat, 4) + hex_bytes(self.middle as nat, 8) + hex_bytes(
            self.low as nat,
            8,
        )
    }

    /// The short text: `0x`, the first two bytes, an ellipsis and the last two bytes.
    pub open spec fn short_text(self) -> Seq<char> {
        "0x"@ + hex_bytes(self.high as nat / 0x1_0000, 2) + "…"@ + hex_bytes(
            self.low as nat % 0x1_0000,
            2,
        )
    }

    /// Writes the full hexadecimal text.
    pub fn to_full_text(&self) -> (r: String)
        ensures
            r@ == self.full_text(),
    {
        "0x".to_owned().concat(text_hex_bytes(self.high as u64, 4).as_str()).concat(
            text_hex_bytes(self.middle, 8).as_str(),
        ).concat(text_hex_bytes(self.low, 8).as_str())
    }

    /// Writes the short text.
    pub fn to_short_text(&self) -> (r: String)
        ensures
            r@ == self.short_text(),
    {
        "0x".to_owned().concat(text_hex_bytes(self.high as u64 / 0x1_0000, 2).as_str()).concat(
            "…",
        ).concat(text_hex_bytes(self.low % 0x1_0000, 2).as_str())
    }
}

/// What the address parser makes of a text: the three words of the address, or why it is none.
pub uninterp spec fn parsed_address(text: Seq<char>) -> Result<(u32, u64, u64), Seq<char>>;

/// The words of an address, or the reason why there is none.
pub open spec fn address_words(r: Result<Address, String>) -> Result<(u32, u64, u64), Seq<char>> {
    match r {
        Ok(a) => Ok((a.high, a.middle, a.low)),
        Err(e) => Err(e@),
    }
}

/// Parses an address with `ethers_core::types::Address::from_str`. The result depends on the text
/// alone. `0x` followed by the forty lower-case digits of an address is that address; of the
/// other texts (no prefix, upper-case digits, blanks between digits, errors) only the name of the
/// result is given.
#[verifier::external_body]
pub(crate) fn parse_address(text: &str) -> (r: Result<Address, String>)
    ensures
        address_words(r) == parsed_address(text@),
        r is Err ==> forall|a: Address| text@ != #[trigger] a.full_text(),
        r is Ok ==> forall|a: Address| text@ == #[trigger] a.full_text() ==> r->Ok_0 == a,
{
    match <ethers_core::types::Address as std::str::FromStr>::from_str(text) {
        Ok(h) => {
            let b = h.to_fixed_bytes();
            Ok(Address {
                high: u32::from_be_bytes([b[0], b[1], b[2], b[3]]),
                middle: u64::from_be_bytes([b[4], b[5], b[6], b[7], b[8], b[9], b[10], b[11]]),
                low: u64::from_be_bytes([b[12], b[13], b[14], b[15], b[16], b[17], b[18], b[19]]),
            })
        },
        Err(e) => Err(e.to_string()),
    }
}

/// DEX types supported by the library.
#[derive(Clone, Copy, Debug, PartialEq, Eq, Hash, Structural)]
pub enum DexType {
    UniswapV2,
    UniswapV3,
    UniswapV4,
    SushiSwap,
    PancakeSwap,
    Kyber,
    Curve,
    Balancer,
    ShibaSwap,
}

/// Key that identifies one pool across all DEX types.
#[derive(Clone, Debug, PartialEq, Eq, Hash, Structural)]
pub struct PoolKey {
    pub dex_type: DexType,
    pub pool_address: Address,
    pub token0: Address,
    pub token1: Address,
}

impl PoolKey {
    /// Builds a pool key from its parts.
    pub fn new(
        dex_type: DexType,
        pool_address: Address,
        token0: Address,
        token1: Address,
    ) -> (r: PoolKey)
        ensures
            r == (PoolKey { dex_type, pool_address, token0, token1 }),
    {
        PoolKey { dex_type, pool_address, token0, token1 }
    }
}

} // verus!
