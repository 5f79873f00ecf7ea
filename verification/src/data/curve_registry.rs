//! Registry of Curve pools: what they are, how to quote them, and whether to trade them.

use crate::base::types::{parse_address, parsed_address, Address};
use crate::data::table::AddressTable;
use crate::text::{dec, text_u256, trim, trimmed};
use crate::u256::U256;
use vstd::prelude::*;
use vstd::string::StringExecFns;

verus! {

/// Which integer semantics the invariant and the exchange of a StableSwap pool have.
#[derive(Clone, Copy, Debug, PartialEq, Eq, Structural)]
pub enum StableswapMathVariant {
    /// The step for `D_P` divides by `x * N`; the exchange keeps one unit back.
    Vyper02ThreePool,
    /// The step for `D_P` divides by `x * N + 1`; the exchange keeps nothing back.
    Vyper01Legacy,
}

impl Default for StableswapMathVariant {
    fn default() -> (r: StableswapMathVariant)
        ensures
            r == StableswapMathVariant::Vyper02ThreePool,
    {
        StableswapMathVariant::Vyper02ThreePool
    }
}

/// Families of Curve pools.
#[derive(Clone, Copy, Debug, PartialEq, Eq, Structural)]
pub enum CurveFamily {
    StableSwapN,
    CryptoTricrypto,
    MetaStableSwap,
    TwoCryptoNg,
    StableSwapNg,
    /// Plain StableSwap pools of a factory, without a dynamic fee.
    StableSwapV2,
    LsdEthPool,
    VolatileAmm,
}

/// How a pool is quoted.
#[derive(Clone, Copy, Debug, PartialEq, Eq, Structural)]
pub enum CurveQuotingStrategy {
    /// With the StableSwap functions of this library.
    AnalyticStableSwap,
    /// With a view call on chain.
    OnChainView,
    /// With a local pool model and an enriched snapshot.
    LocalCurveMath,
    /// Not at all.
    Unsupported,
}

/// How a pool is traded.
#[derive(Clone, Copy, Debug, PartialEq, Eq, Structural)]
pub enum CurveExecutionKind {
    ExchangeInt128,
    ExchangeUint256,
    ExchangeUnderlyingInt128,
    NotYetSupported,
    Unknown,
}

/// How a pool encodes its fee.
#[derive(Clone, Copy, Debug, PartialEq, Eq, Structural)]
pub enum CurveFeeEncoding {
    /// A fraction of ten to the power ten.
    CurveFee1e10,
    /// The middle fee of a crypto pool, which is no fixed fee.
    TricryptoMidFee,
    UnknownNotForLocalMath,
}

/// What the registry holds of one pool.
#[derive(Clone, Debug)]
pub struct CurveRegistryEntry {
    pub name: String,
    pub address: String,
    pub family: CurveFamily,
    pub n_coins: u8,
    pub quoting_strategy: CurveQuotingStrategy,
    pub execution_kind: CurveExecutionKind,
    pub fee_encoding: CurveFeeEncoding,
    pub execution_blocked: bool,
    pub stableswap_math_variant: StableswapMathVariant,
    pub notes: String,
    pub verification_refs: Vec<String>,
}

/// Registry entries by pool address.
#[derive(Clone, Debug)]
pub struct CurvePoolRegistry {
    by_address: AddressTable<CurveRegistryEntry>,
}

impl View for CurvePoolRegistry {
    type V = Map<Address, CurveRegistryEntry>;

    closed spec fn view(&self) -> Map<Address, CurveRegistryEntry> {
        self.by_address@
    }
}

/// The registry of the first `count` entries, where a later entry replaces an earlier one with
/// the same address; or the first address that does not parse.
pub open spec fn registered(entries: Seq<CurveRegistryEntry>, count: nat) -> Result<
    Map<Address, CurveRegistryEntry>,
    Seq<char>,
>
    decreases count,
{
    if count == 0 {
        Ok(Map::empty())
    } else {
        match registered(entries, (count - 1) as nat) {
            Err(e) => Err(e),
            Ok(table) => {
                let entry = entries[count - 1];
                match parsed_address(trimmed(entry.address@)) {
                    Err(e) => Err("bad address "@ + entry.address@ + ": "@ + e),
                    Ok((high, middle, low)) => Ok(
                        table.insert(Address { high, middle, low }, entry),
                    ),
                }
            },
        }
    }
}

/// The first address that does not parse fails every longer list.
proof fn lemma_registered_fails(entries: Seq<CurveRegistryEntry>, count: nat, more: nat)
    requires
        count <= more,
        registered(entries, count) is Err,
    ensures
        registered(entries, more) == registered(entries, count),
    decreases more - count,
{
    if count < more {
        lemma_registered_fails(entries, count, (more - 1) as nat);
    }
}

impl CurvePoolRegistry {
    /// No address occurs twice.
    pub closed spec fn wf(&self) -> bool {
        self.by_address.wf()
    }

    /// Builds the registry from its entries.
    pub fn from_entries(pools: Vec<CurveRegistryEntry>) -> (r: Result<CurvePoolRegistry, String>)
        ensures
            match r {
                Ok(registry) => registry.wf() && registered(pools@, pools@.len()) == Ok::<
                    Map<Address, CurveRegistryEntry>,
                    Seq<char>,
                >(registry@),
                Err(e) => registered(pools@, pools@.len()) == Err::<
                    Map<Address, CurveRegistryEntry>,
                    Seq<char>,
                >(e@),
            },
    {
        let ghost all = pools@;
        let mut rest = pools;
        let mut by_address: AddressTable<CurveRegistryEntry> = AddressTable::new();
        let ghost mut done: nat = 0;
        proof {
            assert(all.skip(0) =~= all);
        }
        while rest.len() > 0
            invariant
                all == pools@,
                done <= all.len(),
                rest@ == all.skip(done as int),
                by_address.wf(),
                registered(all, done) == Ok::<Map<Address, CurveRegistryEntry>, Seq<char>>(
                    by_address@,
                ),
            decreases rest@.len(),
        {
            let entry = rest.remove(0);
            proof {
                assert(entry == all[done as int]);
                assert(rest@ =~= all.skip(done as int + 1));
            }
            match parse_address(trim(entry.address.as_str())) {
                Ok(address) => by_address.insert(address, entry),
                Err(e) => {
                    proof {
                        lemma_registered_fails(all, done + 1, all.len());
                    }
                    return Err(
                        "bad address ".to_owned().concat(entry.address.as_str()).concat(
                            ": ",
                        ).concat(e.as_str()),
                    );
                },
            }
            proof {
                done = done + 1;
            }
        }
        Ok(CurvePoolRegistry { by_address })
    }

    /// The entry of a pool.
    pub fn get(&self, pool: &Address) -> (r: Option<&CurveRegistryEntry>)
        requires
            self.wf(),
        ensures
            match r {
                Some(e) => self@.contains_key(*pool) && *e == self@[*pool],
                None => !self@.contains_key(*pool),
            },
    {
        self.by_address.get(pool)
    }

    /// The entry of a pool that has to be registered.
    pub fn require(&self, pool: &Address) -> (r: Result<&CurveRegistryEntry, String>)
        requires
            self.wf(),
        ensures
            match r {
                Ok(e) => self@.contains_key(*pool) && *e == self@[*pool],
                Err(e) => !self@.contains_key(*pool) && e@ == not_registered(*pool),
            },
    {
        match self.get(pool) {
            Some(e) => Ok(e),
            None => Err(
                "Curve pool ".to_owned().concat(pool.to_full_text().as_str()).concat(
                    " not in curve_pool_registry.json",
                ),
            ),
        }
    }

    /// The addresses of all pools.
    pub fn all_pool_addresses(&self) -> (r: Vec<Address>)
        requires
            self.wf(),
        ensures
            r@.no_duplicates(),
            r@.to_set() == self@.dom(),
    {
        self.by_address.addresses()
    }

    /// The addresses of the pools that may be traded.
    pub fn execution_unblocked_addresses(&self) -> (r: Vec<Address>)
        requires
            self.wf(),
        ensures
            r@.no_duplicates(),
            forall|a: Address|
                #![trigger r@.contains(a)]
                r@.contains(a) == (self@.contains_key(a) && !self@[a].execution_blocked),
    {
        let all = self.by_address.addresses();
        let mut out: Vec<Address> = Vec::new();
        let mut i: usize = 0;
        proof {
            assert forall|k: int| 0 <= k < all@.len() implies self@.contains_key(
                #[trigger] all@[k],
            ) by {
                assert(all@.to_set().contains(all@[k]));
            }
        }
        while i < all.len()
            invariant
                self.wf(),
                i <= all@.len(),
                all@.no_duplicates(),
                forall|k: int| 0 <= k < all@.len() ==> self@.contains_key(#[trigger] all@[k]),
                out@.no_duplicates(),
                forall|k: int|
                    0 <= k < out@.len() ==> all@.take(i as int).contains(#[trigger] out@[k])
                        && !self@[out@[k]].execution_blocked,
                forall|k: int|
                    0 <= k < i && !self@[#[trigger] all@[k]].execution_blocked ==> out@.contains(
                        all@[k],
                    ),
            decreases all@.len() - i,
        {
            let address = all[i];
            let ghost before = out@;
            let ghost seen = all@.take(i as int);
            proof {
                assert(all@.take(i + 1) =~= seen.push(address));
                assert forall|k: int| 0 <= k < before.len() implies #[trigger] before[k]
                    != address && seen.push(address).contains(before[k]) by {
                    let m = choose|m: int| 0 <= m < seen.len() && seen[m] == before[k];
                    assert(all@[m] == before[k]);
                    assert(seen.push(address)[m] == before[k]);
                }
                assert(seen.push(address)[i as int] == address);
            }
            let blocked = match self.by_address.get(&address) {
                Some(e) => e.execution_blocked,
                None => true,
            };
            if !blocked {
                out.push(address);
                proof {
                    assert(out@[before.len() as int] == address);
                    assert forall|a: Address| before.contains(a) implies out@.contains(a) by {
                        let m = choose|m: int| 0 <= m < before.len() && before[m] == a;
                        assert(out@[m] == a);
                    }
                }
            }
            i = i + 1;
        }
        proof {
            assert(all@.take(i as int) =~= all@);
            assert forall|a: Address| #![trigger out@.contains(a)] out@.contains(a) == (
            self@.contains_key(a) && !self@[a].execution_blocked) by {
                if out@.contains(a) {
                    let k = choose|k: int| 0 <= k < out@.len() && out@[k] == a;
                    let m = choose|m: int| 0 <= m < all@.len() && all@[m] == out@[k];
                }
                if self@.contains_key(a) && !self@[a].execution_blocked {
                    assert(all@.to_set().contains(a));
                    let m = choose|m: int| 0 <= m < all@.len() && all@[m] == a;
                    assert(out@.contains(all@[m]));
                }
            }
        }
        out
    }
}

/// The refusal of a pool that the registry does not hold.
pub open spec fn not_registered(pool: Address) -> Seq<char> {
    "Curve pool "@ + pool.full_text() + " not in curve_pool_registry.json"@
}

/// The fee in basis points that a raw fee encodes, or the refusal.
pub open spec fn decoded_fee(fee_raw: nat, enc: CurveFeeEncoding) -> Result<nat, Seq<char>> {
    if fee_raw == 0 {
        Err("Curve fee() returned zero — refusing guessed fee"@)
    } else {
        match enc {
            CurveFeeEncoding::CurveFee1e10 => {
                let bps = fee_raw / 1_000_000;
                if bps == 0 || bps > 500 {
                    Err(
                        "decoded fee bps "@ + dec(bps)
                            + " out of sane range (1-500) for curve_fee_1e10"@,
                    )
                } else {
                    Ok(bps)
                }
            },
            _ => Err(
                "fee_encoding does not support local bps decode — use OnChainView quoting"@,
            ),
        }
    }
}

/// Decodes a raw fee to basis points; no fee is guessed.
pub fn decode_curve_fee_bps(fee_raw: U256, enc: CurveFeeEncoding) -> (r: Result<u32, String>)
    ensures
        match r {
            Ok(v) => decoded_fee(fee_raw@, enc) == Ok::<nat, Seq<char>>(v as nat),
            Err(e) => decoded_fee(fee_raw@, enc) == Err::<nat, Seq<char>>(e@),
        },
{
    if fee_raw.is_zero() {
        return Err("Curve fee() returned zero — refusing guessed fee".to_owned());
    }
    match enc {
        CurveFeeEncoding::CurveFee1e10 => {
            let bps = match fee_raw.primitive_checked_div(U256::from_u64(1_000_000)) {
                Some(v) => v,
                None => return Err("fee division failed".to_owned()),
            };
            let small: Option<u128> = bps.to_u128();
            match small {
                Some(v) => if 1 <= v && v <= 500 {
                    return Ok(v as u32);
                },
                None => {},
            }
            Err(
                "decoded fee bps ".to_owned().concat(text_u256(bps).as_str()).concat(
                    " out of sane range (1-500) for curve_fee_1e10",
                ),
            )
        },
        _ => Err(
            "fee_encoding does not support local bps decode — use OnChainView quoting".to_owned(),
        ),
    }
}

/// A fee that decodes is between one and 500 basis points, and no other raw fee decodes to it
/// but those of the same number of whole basis points.
pub proof fn law_decoded_fee_is_sane(fee_raw: nat, enc: CurveFeeEncoding)
    ensures
        decoded_fee(fee_raw, enc) matches Ok(bps) ==> 1 <= bps <= 500 && bps * 1_000_000 <= fee_raw
            < (bps + 1) * 1_000_000,
{
}

/// A raw fee decodes exactly where it is one of the known encoding and between one and 500 whole
/// basis points.
pub proof fn law_fee_decodes_where_it_is_sane(fee_raw: nat, enc: CurveFeeEncoding)
    ensures
        decoded_fee(fee_raw, enc) is Ok <==> enc is CurveFee1e10 && 1_000_000 <= fee_raw
            < 501_000_000,
{
}

/// A registry holds for each address the last entry that names it, and no other address.
pub proof fn law_last_entry_of_an_address_counts(
    entries: Seq<CurveRegistryEntry>,
    count: nat,
    address: Address,
)
    requires
        count <= entries.len(),
        registered(entries, count) is Ok,
    ensures
        ({
            let table = registered(entries, count)->Ok_0;
            &&& table.contains_key(address) ==> exists|k: int|
                {
                    &&& 0 <= k < count
                    &&& #[trigger] names(entries[k], address)
                    &&& table[address] == entries[k]
                    &&& forall|m: int|
                        k < m < count ==> !#[trigger] names(entries[m], address)
                }
            &&& !table.contains_key(address) ==> forall|m: int|
                0 <= m < count ==> !#[trigger] names(entries[m], address)
        }),
    decreases count,
{
    if count > 0 {
        law_last_entry_of_an_address_counts(entries, (count - 1) as nat, address);
        let last = entries[count - 1];
        let table = registered(entries, (count - 1) as nat)->Ok_0;
        if names(last, address) {
            assert(names(entries[count - 1], address));
        } else if table.contains_key(address) {
            let k = choose|k: int|
                {
                    &&& 0 <= k < count - 1
                    &&& #[trigger] names(entries[k], address)
                    &&& table[address] == entries[k]
                    &&& forall|m: int|
                        k < m < count - 1 ==> !#[trigger] names(entries[m], address)
                };
            assert(names(entries[k], address));
        }
    }
}

/// Whether an entry names an address: its text, without the white space around it, reads as it.
pub open spec fn names(entry: CurveRegistryEntry, address: Address) -> bool {
    parsed_address(trimmed(entry.address@)) == Ok::<(u32, u64, u64), Seq<char>>(
        (address.high, address.middle, address.low),
    )
}

} // verus!
