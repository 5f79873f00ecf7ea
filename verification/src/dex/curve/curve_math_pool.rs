//! Pool models of the `curve_math` crate: which model a pool has, how it is built from the state
//! of the pool, and what it quotes.

use crate::base::error::{
    bad_pool, dex_view, e_invalid, e_pool, invalid, DexErr, DexError, MathError,
};
use crate::base::types::Address;
use crate::data::curve_registry::{
    not_registered, CurveFamily, CurvePoolRegistry, CurveRegistryEntry, StableswapMathVariant,
};
use crate::data::pool_state::CurvePoolState;
use crate::dex::adapter::{wad, wad_value};
use crate::dex::curve::adapter_math::opt_list;
use crate::dex::curve::laws::{
    law_each_token_has_its_own_rate, law_rate_evens_out_the_decimals,
};
use crate::dex::curve::math::{
    copied, lemma_largest_power_of_ten, pow10_u256, rate_spec, rates_spec,
    stableswap_rate_for_decimals, stableswap_rates_resolve,
};
use crate::dex::curve::newton_start::two_runs;
use crate::dex::curve::solver_range::{
    beyond_closed, closed_answers, closed_does_answer, is_beyond_closed, newton_three_is_ready,
    newton_three_ready, newton_two_is_ready,
};
use crate::text::{dec, text_u128};
use crate::u256::{fits, opt_value, u256_limit, values, wrap, U256};
use vstd::arithmetic::div_mod::lemma_mul_mod_noop_right;
use vstd::arithmetic::power::{lemma_pow_increases, lemma_pow_positive, pow};
use vstd::prelude::*;
use vstd::string::StringExecFns;

verus! {

/// The models of Curve pools.
#[derive(Clone, Copy, Debug, PartialEq, Eq, Structural)]
pub enum CurveMathTemplate {
    StableSwapV0,
    StableSwapV1,
    StableSwapV2,
    StableSwapNG,
    StableSwapMeta,
    TwoCryptoV1,
    TwoCryptoNG,
    TriCryptoV1,
}

/// The model of a registered pool, or the refusal of its family.
pub open spec fn template_spec(entry: CurveRegistryEntry) -> Result<CurveMathTemplate, DexErr> {
    match entry.family {
        CurveFamily::LsdEthPool => Ok(CurveMathTemplate::StableSwapV2),
        CurveFamily::StableSwapV2 => Ok(CurveMathTemplate::StableSwapV2),
        CurveFamily::StableSwapNg => Ok(CurveMathTemplate::StableSwapNG),
        CurveFamily::CryptoTricrypto => Ok(CurveMathTemplate::TriCryptoV1),
        CurveFamily::TwoCryptoNg => if entry.name@ == "CVX_ETH"@ {
            Ok(CurveMathTemplate::TwoCryptoV1)
        } else {
            Ok(CurveMathTemplate::TwoCryptoNG)
        },
        CurveFamily::MetaStableSwap => Ok(CurveMathTemplate::StableSwapMeta),
        CurveFamily::StableSwapN => match entry.stableswap_math_variant {
            StableswapMathVariant::Vyper01Legacy => Ok(CurveMathTemplate::StableSwapV0),
            StableswapMathVariant::Vyper02ThreePool => Ok(CurveMathTemplate::StableSwapV1),
        },
        CurveFamily::VolatileAmm => Err(
            e_pool(
                "curve_math_pool: family VolatileAmm not supported for LocalCurveMath (pool "@
                    + entry.name@ + ")"@,
            ),
        ),
    }
}

/// The view of a template result.
pub open spec fn template_view(r: Result<CurveMathTemplate, DexError>) -> Result<
    CurveMathTemplate,
    DexErr,
> {
    match r {
        Ok(t) => Ok(t),
        Err(e) => Err(e@),
    }
}

/// Finds the model of a registered pool.
pub fn curve_math_template(entry: &CurveRegistryEntry) -> (r: Result<CurveMathTemplate, DexError>)
    ensures
        template_view(r) == template_spec(*entry),
{
    match entry.family {
        CurveFamily::LsdEthPool => Ok(CurveMathTemplate::StableSwapV2),
        CurveFamily::StableSwapV2 => Ok(CurveMathTemplate::StableSwapV2),
        CurveFamily::StableSwapNg => Ok(CurveMathTemplate::StableSwapNG),
        CurveFamily::CryptoTricrypto => Ok(CurveMathTemplate::TriCryptoV1),
        CurveFamily::TwoCryptoNg => {
            if crate::text::same_text(entry.name.as_str(), "CVX_ETH") {
                Ok(CurveMathTemplate::TwoCryptoV1)
            } else {
                Ok(CurveMathTemplate::TwoCryptoNG)
            }
        },
        CurveFamily::MetaStableSwap => Ok(CurveMathTemplate::StableSwapMeta),
        CurveFamily::StableSwapN => match entry.stableswap_math_variant {
            StableswapMathVariant::Vyper01Legacy => Ok(CurveMathTemplate::StableSwapV0),
            StableswapMathVariant::Vyper02ThreePool => Ok(CurveMathTemplate::StableSwapV1),
        },
        CurveFamily::VolatileAmm => {
            let text = "curve_math_pool: family VolatileAmm not supported for LocalCurveMath (pool "
                .to_owned().concat(entry.name.as_str()).concat(")");
            Err(bad_pool(text.as_str()))
        },
    }
}

/// Parameters of a StableSwap model.
#[derive(Clone, Debug)]
pub struct StableModel {
    pub balances: Vec<U256>,
    pub rates: Vec<U256>,
    pub amp: U256,
    pub fee: U256,
}

/// Parameters of a two-coin crypto model.
#[derive(Clone, Copy, Debug)]
pub struct TwoCryptoModel {
    pub balances: [U256; 2],
    pub precisions: [U256; 2],
    pub price_scale: U256,
    pub d: U256,
    pub ann: U256,
    pub gamma: U256,
    pub mid_fee: U256,
    pub out_fee: U256,
    pub fee_gamma: U256,
}

/// Parameters of a three-coin crypto model.
#[derive(Clone, Copy, Debug)]
pub struct TriCryptoModel {
    pub balances: [U256; 3],
    pub precisions: [U256; 3],
    pub price_scale: [U256; 2],
    pub d: U256,
    pub ann: U256,
    pub gamma: U256,
    pub mid_fee: U256,
    pub out_fee: U256,
    pub fee_gamma: U256,
}

/// A pool model with its parameters.
#[derive(Clone, Debug)]
pub enum CurveMathPool {
    StableSwapV0(StableModel),
    StableSwapV1(StableModel),
    StableSwapV2(StableModel),
    StableSwapNG(StableModel, U256),
    StableSwapMeta(StableModel),
    TwoCryptoV1(TwoCryptoModel),
    TwoCryptoNG(TwoCryptoModel),
    TriCryptoV1(TriCryptoModel),
}

/// What a [`CurveMathPool`] says: its model and the numbers of it. The scalars of a StableSwap
/// model are its amplification and its fee, with the off-peg multiplier where it has one; those
/// of a crypto model are `D`, `ann`, gamma, the two fees and the fee gamma.
#[verifier::ext_equal]
pub struct ModelView {
    pub template: CurveMathTemplate,
    pub balances: Seq<nat>,
    pub factors: Seq<nat>,
    pub price_scale: Seq<nat>,
    pub scalars: Seq<nat>,
}

/// The view of a StableSwap model.
pub open spec fn stable_view(template: CurveMathTemplate, m: StableModel) -> ModelView {
    ModelView {
        template,
        balances: values(m.balances@),
        factors: values(m.rates@),
        price_scale: seq![],
        scalars: seq![m.amp@, m.fee@],
    }
}

/// The view of a StableSwap model with an off-peg fee multiplier.
pub open spec fn stable_ng_view(m: StableModel, offpeg: U256) -> ModelView {
    ModelView {
        scalars: seq![m.amp@, m.fee@, offpeg@],
        ..stable_view(CurveMathTemplate::StableSwapNG, m)
    }
}

/// The view of a two-coin crypto model.
pub open spec fn two_view(template: CurveMathTemplate, m: TwoCryptoModel) -> ModelView {
    ModelView {
        template,
        balances: seq![m.balances@[0]@, m.balances@[1]@],
        factors: seq![m.precisions@[0]@, m.precisions@[1]@],
        price_scale: seq![m.price_scale@],
        scalars: seq![m.d@, m.ann@, m.gamma@, m.mid_fee@, m.out_fee@, m.fee_gamma@],
    }
}

/// The view of a three-coin crypto model.
pub open spec fn tri_view(m: TriCryptoModel) -> ModelView {
    ModelView {
        template: CurveMathTemplate::TriCryptoV1,
        balances: seq![m.balances@[0]@, m.balances@[1]@, m.balances@[2]@],
        factors: seq![m.precisions@[0]@, m.precisions@[1]@, m.precisions@[2]@],
        price_scale: seq![m.price_scale@[0]@, m.price_scale@[1]@],
        scalars: seq![m.d@, m.ann@, m.gamma@, m.mid_fee@, m.out_fee@, m.fee_gamma@],
    }
}

impl View for CurveMathPool {
    type V = ModelView;

    open spec fn view(&self) -> ModelView {
        match *self {
            CurveMathPool::StableSwapV0(m) => stable_view(CurveMathTemplate::StableSwapV0, m),
            CurveMathPool::StableSwapV1(m) => stable_view(CurveMathTemplate::StableSwapV1, m),
            CurveMathPool::StableSwapV2(m) => stable_view(CurveMathTemplate::StableSwapV2, m),
            CurveMathPool::StableSwapNG(m, offpeg) => stable_ng_view(m, offpeg),
            CurveMathPool::StableSwapMeta(m) => stable_view(CurveMathTemplate::StableSwapMeta, m),
            CurveMathPool::TwoCryptoV1(m) => two_view(CurveMathTemplate::TwoCryptoV1, m),
            CurveMathPool::TwoCryptoNG(m) => two_view(CurveMathTemplate::TwoCryptoNG, m),
            CurveMathPool::TriCryptoV1(m) => tri_view(m),
        }
    }
}

/// The refusal of a pool state that lacks a field.
pub open spec fn missing_field(field: Seq<char>) -> DexErr {
    e_pool("Curve local math: missing enriched field "@ + field)
}

/// A field that a model needs.
fn require_aux_u256(aux: Option<U256>, field: &str) -> (r: Result<U256, DexError>)
    ensures
        dex_view(r) == match aux {
            Some(v) => Ok::<nat, DexErr>(v@),
            None => Err(missing_field(field@)),
        },
{
    match aux {
        Some(v) => Ok(v),
        None => {
            let text = "Curve local math: missing enriched field ".to_owned().concat(field);
            Err(bad_pool(text.as_str()))
        },
    }
}

/// The factor that scales a coin of so many decimals to 18 decimals.
pub open spec fn precision_spec(decimals: u8) -> Result<nat, DexErr> {
    if decimals > 18 {
        Err(
            DexErr::MathError(
                e_invalid(
                    "crypto_precision"@,
                    "decimals "@ + dec(decimals as nat) + " > 18"@,
                    "Curve cryptoswap precisions"@,
                ),
            ),
        )
    } else {
        Ok(pow(10, (18 - decimals) as nat) as nat)
    }
}

/// Calculates the factor that scales a coin to 18 decimals.
fn crypto_precision(decimals: u8) -> (r: Result<U256, DexError>)
    ensures
        dex_view(r) == precision_spec(decimals),
{
    if decimals > 18 {
        let reason = "decimals ".to_owned().concat(text_u128(decimals as u128).as_str()).concat(
            " > 18",
        );
        return Err(
            DexError::MathError(
                invalid("crypto_precision", reason.as_str(), "Curve cryptoswap precisions"),
            ),
        );
    }
    let exp: u32 = 18 - decimals as u32;
    proof {
        lemma_largest_power_of_ten();
        lemma_pow_positive(10, 77);
        lemma_pow_positive(10, exp as nat);
        lemma_pow_increases(10, exp as nat, 77);
    }
    match pow10_u256(exp) {
        Ok(v) => Ok(v),
        Err(e) => Err(DexError::MathError(e)),
    }
}

/// The rates of a model: stored ones of the right number, else those of the decimals.
pub open spec fn model_rates_spec(
    decimals: Seq<u8>,
    stored: Option<Seq<nat>>,
    coins: nat,
    mismatch: Seq<char>,
) -> Result<Seq<nat>, DexErr> {
    match stored {
        Some(rates) => if rates.len() != coins {
            Err(e_pool(mismatch))
        } else {
            Ok(rates)
        },
        None => match rates_spec(decimals, None) {
            Ok(rates) => Ok(rates),
            Err(e) => Err(DexErr::MathError(e)),
        },
    }
}

/// The view of a list of rates.
pub open spec fn rates_view(r: Result<Vec<U256>, DexError>) -> Result<Seq<nat>, DexErr> {
    match r {
        Ok(v) => Ok(values(v@)),
        Err(e) => Err(e@),
    }
}

/// Finds the rates of a model.
fn model_rates(
    decimals: &Vec<u8>,
    stored: &Option<Vec<U256>>,
    coins: usize,
    mismatch: &str,
) -> (r: Result<Vec<U256>, DexError>)
    ensures
        rates_view(r) == model_rates_spec(
            decimals@,
            opt_list(*stored),
            coins as nat,
            mismatch@,
        ),
{
    match stored {
        Some(rates) => {
            if rates.len() != coins {
                return Err(bad_pool(mismatch));
            }
            Ok(copied(rates.as_slice()))
        },
        None => match stableswap_rates_resolve(decimals.as_slice(), None) {
            Ok(v) => Ok(v),
            Err(e) => Err(DexError::MathError(e)),
        },
    }
}

/// The amplification with its precision, or the overflow.
pub open spec fn scaled_amp(amp: nat, overflow: Seq<char>) -> Result<nat, DexErr> {
    if fits(amp * 100) {
        Ok(amp * 100)
    } else {
        Err(e_pool(overflow))
    }
}

fn scale_amp(amp: U256, overflow: &str) -> (r: Result<U256, DexError>)
    ensures
        dex_view(r) == scaled_amp(amp@, overflow@),
{
    match amp.primitive_checked_mul(U256::from_u64(100)) {
        Some(v) => Ok(v),
        None => Err(bad_pool(overflow)),
    }
}

/// The model of a first- or second-generation StableSwap pool.
pub open spec fn early_stable_spec(template: CurveMathTemplate, s: CurvePoolState) -> Result<
    ModelView,
    DexErr,
> {
    let balances = values(s.balances@);
    match model_rates_spec(
        s.decimals@,
        opt_list(s.stableswap_stored_rates),
        balances.len(),
        "StableSwapV0/V1: stableswap_stored_rates length mismatch"@,
    ) {
        Err(e) => Err(e),
        Ok(rates) => if balances.len() != rates.len() {
            Err(e_pool("StableSwapV0/V1: balances/rates length mismatch"@))
        } else {
            Ok(
                ModelView {
                    template,
                    balances,
                    factors: rates,
                    price_scale: seq![],
                    scalars: seq![s.amplification@, s.fee_raw@],
                },
            )
        },
    }
}

/// The model of a plain StableSwap pool of a factory.
pub open spec fn plain_stable_spec(s: CurvePoolState) -> Result<ModelView, DexErr> {
    let balances = values(s.balances@);
    match rates_spec(s.decimals@, None) {
        Err(e) => Err(DexErr::MathError(e)),
        Ok(rates) => if balances.len() != rates.len() {
            Err(e_pool("StableSwapV2: balances/rates length mismatch"@))
        } else {
            match scaled_amp(
                s.amplification@,
                "StableSwapV2: amp * A_PRECISION overflow"@,
            ) {
                Err(e) => Err(e),
                Ok(amp) => Ok(
                    ModelView {
                        template: CurveMathTemplate::StableSwapV2,
                        balances,
                        factors: rates,
                        price_scale: seq![],
                        scalars: seq![amp, s.fee_raw@],
                    },
                ),
            }
        },
    }
}

/// The model of a meta pool, whose second rate is the virtual price of its base pool.
pub open spec fn meta_spec(s: CurvePoolState) -> Result<ModelView, DexErr> {
    match s.curve_math_aux.meta_base_virtual_price {
        None => Err(missing_field("meta_base_virtual_price"@)),
        Some(price) => if s.balances@.len() != 2 || s.decimals@.len() != 2 {
            Err(e_pool("StableSwapMeta: expected 2 coins"@))
        } else {
            match rate_spec(s.decimals@[0]) {
                Err(e) => Err(DexErr::MathError(e)),
                Ok(rate) => match scaled_amp(
                    s.amplification@,
                    "StableSwapMeta: amp * A_PRECISION overflow"@,
                ) {
                    Err(e) => Err(e),
                    Ok(amp) => Ok(
                        ModelView {
                            template: CurveMathTemplate::StableSwapMeta,
                            balances: values(s.balances@),
                            factors: seq![rate, price@],
                            price_scale: seq![],
                            scalars: seq![amp, s.fee_raw@],
                        },
                    ),
                },
            }
        },
    }
}

/// The model of a StableSwap pool with a dynamic fee.
pub open spec fn ng_spec(s: CurvePoolState) -> Result<ModelView, DexErr> {
    match s.curve_math_aux.ng_offpeg_fee_multiplier {
        None => Err(missing_field("offpeg_fee_multiplier"@)),
        Some(offpeg) => match model_rates_spec(
            s.decimals@,
            opt_list(s.curve_math_aux.ng_stored_rates),
            s.balances@.len(),
            "StableSwapNG: stored_rates length mismatch"@,
        ) {
            Err(e) => Err(e),
            Ok(rates) => match scaled_amp(
                s.amplification@,
                "StableSwapNG: amp * A_PRECISION overflow"@,
            ) {
                Err(e) => Err(e),
                Ok(amp) => Ok(
                    ModelView {
                        template: CurveMathTemplate::StableSwapNG,
                        balances: values(s.balances@),
                        factors: rates,
                        price_scale: seq![],
                        scalars: seq![amp, s.fee_raw@, offpeg@],
                    },
                ),
            },
        },
    }
}

/// The first of the fields common to all crypto models that a state lacks.
pub open spec fn crypto_missing(s: CurvePoolState) -> Option<DexErr> {
    let aux = s.curve_math_aux;
    if aux.crypto_d is None {
        Some(missing_field("D"@))
    } else if aux.crypto_gamma is None {
        Some(missing_field("gamma"@))
    } else if aux.crypto_mid_fee is None {
        Some(missing_field("mid_fee"@))
    } else if aux.crypto_out_fee is None {
        Some(missing_field("out_fee"@))
    } else if aux.crypto_fee_gamma is None {
        Some(missing_field("fee_gamma"@))
    } else {
        None
    }
}

/// The scalars of a crypto model whose fields are all there.
pub open spec fn crypto_scalars(s: CurvePoolState) -> Seq<nat> {
    let aux = s.curve_math_aux;
    seq![
        aux.crypto_d->Some_0@,
        s.amplification@,
        aux.crypto_gamma->Some_0@,
        aux.crypto_mid_fee->Some_0@,
        aux.crypto_out_fee->Some_0@,
        aux.crypto_fee_gamma->Some_0@,
    ]
}

/// The model of a two-coin crypto pool.
pub open spec fn two_crypto_spec(template: CurveMathTemplate, s: CurvePoolState) -> Result<
    ModelView,
    DexErr,
> {
    if crypto_missing(s) is Some {
        Err(crypto_missing(s)->Some_0)
    } else {
        match s.curve_math_aux.price_scale_uni {
            None => Err(missing_field("price_scale"@)),
            Some(scale) => if s.balances@.len() != 2 || s.decimals@.len() != 2 {
                Err(e_pool("TwoCrypto: expected 2 coins"@))
            } else {
                match precision_spec(s.decimals@[0]) {
                    Err(e) => Err(e),
                    Ok(p0) => match precision_spec(s.decimals@[1]) {
                        Err(e) => Err(e),
                        Ok(p1) => Ok(
                            ModelView {
                                template,
                                balances: values(s.balances@),
                                factors: seq![p0, p1],
                                price_scale: seq![scale@],
                                scalars: crypto_scalars(s),
                            },
                        ),
                    },
                }
            },
        }
    }
}

/// The model of a three-coin crypto pool.
pub open spec fn tri_crypto_spec(s: CurvePoolState) -> Result<ModelView, DexErr> {
    if crypto_missing(s) is Some {
        Err(crypto_missing(s)->Some_0)
    } else {
        match s.curve_math_aux.price_scale_0 {
            None => Err(missing_field("price_scale(0)"@)),
            Some(scale0) => match s.curve_math_aux.price_scale_1 {
                None => Err(missing_field("price_scale(1)"@)),
                Some(scale1) => if s.balances@.len() != 3 || s.decimals@.len() != 3 {
                    Err(e_pool("TriCrypto: expected 3 coins"@))
                } else {
                    match precision_spec(s.decimals@[0]) {
                        Err(e) => Err(e),
                        Ok(p0) => match precision_spec(s.decimals@[1]) {
                            Err(e) => Err(e),
                            Ok(p1) => match precision_spec(s.decimals@[2]) {
                                Err(e) => Err(e),
                                Ok(p2) => Ok(
                                    ModelView {
                                        template: CurveMathTemplate::TriCryptoV1,
                                        balances: values(s.balances@),
                                        factors: seq![p0, p1, p2],
                                        price_scale: seq![scale0@, scale1@],
                                        scalars: crypto_scalars(s),
                                    },
                                ),
                            },
                        },
                    }
                },
            },
        }
    }
}

/// The model of a registered pool, from its state.
pub open spec fn model_spec(entry: CurveRegistryEntry, s: CurvePoolState) -> Result<
    ModelView,
    DexErr,
> {
    match template_spec(entry) {
        Err(e) => Err(e),
        Ok(template) => match template {
            CurveMathTemplate::StableSwapV0 => early_stable_spec(template, s),
            CurveMathTemplate::StableSwapV1 => early_stable_spec(template, s),
            CurveMathTemplate::StableSwapV2 => plain_stable_spec(s),
            CurveMathTemplate::StableSwapMeta => meta_spec(s),
            CurveMathTemplate::StableSwapNG => ng_spec(s),
            CurveMathTemplate::TwoCryptoV1 => two_crypto_spec(template, s),
            CurveMathTemplate::TwoCryptoNG => two_crypto_spec(template, s),
            CurveMathTemplate::TriCryptoV1 => tri_crypto_spec(s),
        },
    }
}

/// The model of a pool, which has to be registered.
pub open spec fn registered_model(
    registry: Map<Address, CurveRegistryEntry>,
    s: CurvePoolState,
) -> Result<ModelView, DexErr> {
    if !registry.contains_key(s.pool_address) {
        Err(e_pool(not_registered(s.pool_address)))
    } else {
        model_spec(registry[s.pool_address], s)
    }
}

fn early_stable(state: &CurvePoolState) -> (r: Result<StableModel, DexError>)
    ensures
        match r {
            Ok(m) => forall|t: CurveMathTemplate| #[trigger]
                early_stable_spec(t, *state) == Ok::<ModelView, DexErr>(stable_view(t, m)),
            Err(e) => forall|t: CurveMathTemplate| #[trigger]
                early_stable_spec(t, *state) == Err::<ModelView, DexErr>(e@),
        },
{
    let n: usize = state.balances.len();
    let rates = match model_rates(
        &state.decimals,
        &state.stableswap_stored_rates,
        n,
        "StableSwapV0/V1: stableswap_stored_rates length mismatch",
    ) {
        Ok(v) => v,
        Err(e) => return Err(e),
    };
    if n != rates.len() {
        return Err(bad_pool("StableSwapV0/V1: balances/rates length mismatch"));
    }
    Ok(
        StableModel {
            balances: copied(state.balances.as_slice()),
            rates,
            amp: state.amplification,
            fee: state.fee_raw,
        },
    )
}

fn plain_stable(state: &CurvePoolState) -> (r: Result<CurveMathPool, DexError>)
    ensures
        dex_view(r) == plain_stable_spec(*state),
{
    let rates = match stableswap_rates_resolve(state.decimals.as_slice(), None) {
        Ok(v) => v,
        Err(e) => return Err(DexError::MathError(e)),
    };
    if state.balances.len() != rates.len() {
        return Err(bad_pool("StableSwapV2: balances/rates length mismatch"));
    }
    match scale_amp(state.amplification, "StableSwapV2: amp * A_PRECISION overflow") {
        Err(e) => Err(e),
        Ok(amp) => Ok(
            CurveMathPool::StableSwapV2(
                StableModel {
                    balances: copied(state.balances.as_slice()),
                    rates,
                    amp,
                    fee: state.fee_raw,
                },
            ),
        ),
    }
}

fn meta(state: &CurvePoolState) -> (r: Result<CurveMathPool, DexError>)
    ensures
        dex_view(r) == meta_spec(*state),
{
    let price = match require_aux_u256(
        state.curve_math_aux.meta_base_virtual_price,
        "meta_base_virtual_price",
    ) {
        Ok(v) => v,
        Err(e) => return Err(e),
    };
    if state.balances.len() != 2 || state.decimals.len() != 2 {
        return Err(bad_pool("StableSwapMeta: expected 2 coins"));
    }
    let rate = match stableswap_rate_for_decimals(state.decimals[0]) {
        Ok(v) => v,
        Err(e) => return Err(DexError::MathError(e)),
    };
    let mut rates: Vec<U256> = Vec::new();
    rates.push(rate);
    rates.push(price);
    proof {
        assert(values(rates@) =~= seq![rate@, price@]);
    }
    match scale_amp(state.amplification, "StableSwapMeta: amp * A_PRECISION overflow") {
        Err(e) => Err(e),
        Ok(amp) => Ok(
            CurveMathPool::StableSwapMeta(
                StableModel {
                    balances: copied(state.balances.as_slice()),
                    rates,
                    amp,
                    fee: state.fee_raw,
                },
            ),
        ),
    }
}

fn ng(state: &CurvePoolState) -> (r: Result<CurveMathPool, DexError>)
    ensures
        dex_view(r) == ng_spec(*state),
{
    let offpeg = match require_aux_u256(
        state.curve_math_aux.ng_offpeg_fee_multiplier,
        "offpeg_fee_multiplier",
    ) {
        Ok(v) => v,
        Err(e) => return Err(e),
    };
    let rates = match model_rates(
        &state.decimals,
        &state.curve_math_aux.ng_stored_rates,
        state.balances.len(),
        "StableSwapNG: stored_rates length mismatch",
    ) {
        Ok(v) => v,
        Err(e) => return Err(e),
    };
    match scale_amp(state.amplification, "StableSwapNG: amp * A_PRECISION overflow") {
        Err(e) => Err(e),
        Ok(amp) => Ok(
            CurveMathPool::StableSwapNG(
                StableModel {
                    balances: copied(state.balances.as_slice()),
                    rates,
                    amp,
                    fee: state.fee_raw,
                },
                offpeg,
            ),
        ),
    }
}

fn two_crypto(state: &CurvePoolState) -> (r: Result<TwoCryptoModel, DexError>)
    ensures
        match r {
            Ok(m) => forall|t: CurveMathTemplate| #[trigger]
                two_crypto_spec(t, *state) == Ok::<ModelView, DexErr>(two_view(t, m)),
            Err(e) => forall|t: CurveMathTemplate| #[trigger]
                two_crypto_spec(t, *state) == Err::<ModelView, DexErr>(e@),
        },
{
    let aux = &state.curve_math_aux;
    let d = match require_aux_u256(aux.crypto_d, "D") {
        Ok(v) => v,
        Err(e) => return Err(e),
    };
    let gamma = match require_aux_u256(aux.crypto_gamma, "gamma") {
        Ok(v) => v,
        Err(e) => return Err(e),
    };
    let mid_fee = match require_aux_u256(aux.crypto_mid_fee, "mid_fee") {
        Ok(v) => v,
        Err(e) => return Err(e),
    };
    let out_fee = match require_aux_u256(aux.crypto_out_fee, "out_fee") {
        Ok(v) => v,
        Err(e) => return Err(e),
    };
    let fee_gamma = match require_aux_u256(aux.crypto_fee_gamma, "fee_gamma") {
        Ok(v) => v,
        Err(e) => return Err(e),
    };
    let price_scale = match require_aux_u256(aux.price_scale_uni, "price_scale") {
        Ok(v) => v,
        Err(e) => return Err(e),
    };
    if state.balances.len() != 2 || state.decimals.len() != 2 {
        return Err(bad_pool("TwoCrypto: expected 2 coins"));
    }
    let precision0 = match crypto_precision(state.decimals[0]) {
        Ok(v) => v,
        Err(e) => return Err(e),
    };
    let precision1 = match crypto_precision(state.decimals[1]) {
        Ok(v) => v,
        Err(e) => return Err(e),
    };
    let balance0 = state.balances[0];
    let balance1 = state.balances[1];
    proof {
        assert(values(state.balances@) =~= seq![balance0@, balance1@]);
    }
    Ok(
        TwoCryptoModel {
            balances: [balance0, balance1],
            precisions: [precision0, precision1],
            price_scale,
            d,
            ann: state.amplification,
            gamma,
            mid_fee,
            out_fee,
            fee_gamma,
        },
    )
}

fn tri_crypto(state: &CurvePoolState) -> (r: Result<CurveMathPool, DexError>)
    ensures
        dex_view(r) == tri_crypto_spec(*state),
{
    let aux = &state.curve_math_aux;
    let d = match require_aux_u256(aux.crypto_d, "D") {
        Ok(v) => v,
        Err(e) => return Err(e),
    };
    let gamma = match require_aux_u256(aux.crypto_gamma, "gamma") {
        Ok(v) => v,
        Err(e) => return Err(e),
    };
    let mid_fee = match require_aux_u256(aux.crypto_mid_fee, "mid_fee") {
        Ok(v) => v,
        Err(e) => return Err(e),
    };
    let out_fee = match require_aux_u256(aux.crypto_out_fee, "out_fee") {
        Ok(v) => v,
        Err(e) => return Err(e),
    };
    let fee_gamma = match require_aux_u256(aux.crypto_fee_gamma, "fee_gamma") {
        Ok(v) => v,
        Err(e) => return Err(e),
    };
    let price_scale0 = match require_aux_u256(aux.price_scale_0, "price_scale(0)") {
        Ok(v) => v,
        Err(e) => return Err(e),
    };
    let price_scale1 = match require_aux_u256(aux.price_scale_1, "price_scale(1)") {
        Ok(v) => v,
        Err(e) => return Err(e),
    };
    if state.balances.len() != 3 || state.decimals.len() != 3 {
        return Err(bad_pool("TriCrypto: expected 3 coins"));
    }
    let precision0 = match crypto_precision(state.decimals[0]) {
        Ok(v) => v,
        Err(e) => return Err(e),
    };
    let precision1 = match crypto_precision(state.decimals[1]) {
        Ok(v) => v,
        Err(e) => return Err(e),
    };
    let precision2 = match crypto_precision(state.decimals[2]) {
        Ok(v) => v,
        Err(e) => return Err(e),
    };
    let balance0 = state.balances[0];
    let balance1 = state.balances[1];
    let balance2 = state.balances[2];
    proof {
        assert(values(state.balances@) =~= seq![balance0@, balance1@, balance2@]);
    }
    Ok(
        CurveMathPool::TriCryptoV1(
            TriCryptoModel {
                balances: [balance0, balance1, balance2],
                precisions: [precision0, precision1, precision2],
                price_scale: [price_scale0, price_scale1],
                d,
                ann: state.amplification,
                gamma,
                mid_fee,
                out_fee,
                fee_gamma,
            },
        ),
    )
}

/// Builds the model of a pool, which has to be registered, from its state.
pub fn curve_math_pool_from_state(registry: &CurvePoolRegistry, state: &CurvePoolState) -> (r:
    Result<CurveMathPool, DexError>)
    requires
        registry.wf(),
    ensures
        dex_view(r) == registered_model(registry@, *state),
{
    let entry = match registry.require(&state.pool_address) {
        Ok(e) => e,
        Err(text) => return Err(bad_pool(text.as_str())),
    };
    let template = match curve_math_template(entry) {
        Ok(t) => t,
        Err(e) => return Err(e),
    };
    match template {
        CurveMathTemplate::StableSwapV0 => match early_stable(state) {
            Ok(m) => Ok(CurveMathPool::StableSwapV0(m)),
            Err(e) => Err(e),
        },
        CurveMathTemplate::StableSwapV1 => match early_stable(state) {
            Ok(m) => Ok(CurveMathPool::StableSwapV1(m)),
            Err(e) => Err(e),
        },
        CurveMathTemplate::StableSwapV2 => plain_stable(state),
        CurveMathTemplate::StableSwapMeta => meta(state),
        CurveMathTemplate::StableSwapNG => ng(state),
        CurveMathTemplate::TwoCryptoV1 => match two_crypto(state) {
            Ok(m) => Ok(CurveMathPool::TwoCryptoV1(m)),
            Err(e) => Err(e),
        },
        CurveMathTemplate::TwoCryptoNG => match two_crypto(state) {
            Ok(m) => Ok(CurveMathPool::TwoCryptoNG(m)),
            Err(e) => Err(e),
        },
        CurveMathTemplate::TriCryptoV1 => tri_crypto(state),
    }
}

/// The output of a swap in a pool model, where there is one: what
/// `curve_math::Pool::get_amount_out` returns.
pub uninterp spec fn amount_out(model: ModelView, i: nat, j: nat, dx: nat) -> Option<nat>;

/// Whether a StableSwap model of so many balances and rates can be asked for a swap.
pub open spec fn stable_ready(balances: nat, rates: nat, i: nat, j: nat, dx: nat) -> bool {
    dx == 0 || (i < balances && j < balances && i < rates && j < rates)
}

/// The balance of a coin at 18 decimals and at its price, after `added` came in. The first coin
/// has no price. The numbers wrap around.
pub open spec fn coin_scaled(balance: nat, added: nat, price: Option<nat>, precision: nat) -> nat {
    match price {
        None => wrap(wrap(balance + added) * precision),
        Some(p) => wrap(wrap(balance + added) * (p * precision)) / wad(),
    }
}

/// Whether what leaves as a coin can be divided by the scale of the coin.
pub open spec fn scale_ready(price: Option<nat>, precision: nat) -> bool {
    precision > 0 && match price {
        None => true,
        Some(p) => p > 0,
    }
}

/// Whether the fee of a crypto model has a divisor.
pub open spec fn fee_ready(scalars: Seq<nat>) -> bool {
    fits(scalars[5] + wad())
}

/// What a coin of a crypto model holds, scaled, after a swap of `dx` into coin `i`.
pub open spec fn coin_of(m: ModelView, k: nat, i: nat, dx: nat) -> nat {
    coin_scaled(
        m.balances[k as int],
        if k == i {
            dx
        } else {
            0
        },
        price_of(m, k),
        m.factors[k as int],
    )
}

/// The price of a coin of a crypto model.
pub open spec fn price_of(m: ModelView, k: nat) -> Option<nat> {
    if k == 0 {
        None
    } else {
        Some(m.price_scale[k - 1])
    }
}

/// Whether a two-coin crypto model can be asked for a swap: Newton's method runs through, and the
/// scale of the coin that leaves is a number other than zero.
pub open spec fn two_ready(m: ModelView, i: nat, j: nat, dx: nat) -> bool {
    dx == 0 || {
        &&& i < 2 && j < 2
        &&& two_runs(m.scalars[0], m.scalars[1], m.scalars[2], coin_of(m, (1 - j) as nat, i, dx))
        &&& fee_ready(m.scalars)
        &&& j == 0 ==> m.factors[0] > 0
        &&& j == 1 ==> wrap(m.price_scale[0] * m.factors[1]) > 0
    }
}

/// Whether a two-coin crypto model with a closed solution can be asked for a swap. Where the pool
/// lies too far from its balance the model refuses, whatever its scales.
pub open spec fn two_ng_ready(m: ModelView, i: nat, j: nat, dx: nat) -> bool {
    dx == 0 || (i < 2 && j < 2 && {
        let x = coin_of(m, (1 - j) as nat, i, dx);
        &&& closed_answers(m.scalars[0], m.scalars[1], m.scalars[2], x)
        &&& beyond_closed(m.scalars[0], m.scalars[2], x) || (fee_ready(m.scalars) && scale_ready(
            price_of(m, j),
            m.factors[j as int],
        ))
    })
}

/// What the two coins of a three-coin crypto model that stay hold, scaled.
pub open spec fn staying_coins(m: ModelView, i: nat, j: nat, dx: nat) -> (nat, nat) {
    if j == 0 {
        (coin_of(m, 1, i, dx), coin_of(m, 2, i, dx))
    } else if j == 1 {
        (coin_of(m, 0, i, dx), coin_of(m, 2, i, dx))
    } else {
        (coin_of(m, 0, i, dx), coin_of(m, 1, i, dx))
    }
}

/// Whether a three-coin crypto model can be asked for a swap.
pub open spec fn tri_ready(m: ModelView, i: nat, j: nat, dx: nat) -> bool {
    dx == 0 || (i < 3 && j < 3 && {
        let (x, y) = staying_coins(m, i, j, dx);
        &&& newton_three_ready(m.scalars[0], m.scalars[1], m.scalars[2], x, y)
        &&& fee_ready(m.scalars)
        &&& scale_ready(price_of(m, j), m.factors[j as int])
    })
}

/// Whether a model can be asked for a swap: the coins exist, and the parameters of a crypto model
/// lie where its solver divides by no zero. Which other parameters make it do so only the steps of
/// the solver tell.
pub open spec fn ready(m: ModelView, i: nat, j: nat, dx: nat) -> bool {
    match m.template {
        CurveMathTemplate::TwoCryptoV1 => two_ready(m, i, j, dx),
        CurveMathTemplate::TwoCryptoNG => two_ng_ready(m, i, j, dx),
        CurveMathTemplate::TriCryptoV1 => tri_ready(m, i, j, dx),
        _ => stable_ready(m.balances.len(), m.factors.len(), i, j, dx),
    }
}

/// `curve_math::Pool::get_amount_out` on a `StableSwapV0` pool: claims that the result is the one named
/// [`amount_out`], that a zero input has none, and that it is never zero. The indices have to be
/// those of coins with a balance and a rate.
#[verifier::external_body]
fn stable_v0_out(m: &StableModel, i: usize, j: usize, dx: U256) -> (r: Option<U256>)
    requires
        stable_ready(m.balances@.len(), m.rates@.len(), i as nat, j as nat, dx@),
    ensures
        opt_value(r) == amount_out(stable_view(CurveMathTemplate::StableSwapV0, *m), i as nat, j as nat, dx@),
        dx@ == 0 ==> r is None,
        r is Some ==> r->Some_0@ > 0,
{
    let u = |v: &U256| alloy_primitives::U256::from_limbs([v.l0, v.l1, v.l2, v.l3]);
    let pool = curve_math::Pool::StableSwapV0 {
        balances: m.balances.iter().map(u).collect(),
        rates: m.rates.iter().map(u).collect(),
        amp: u(&m.amp),
        fee: u(&m.fee),
    };
    let w = pool.get_amount_out(i, j, u(&dx))?.into_limbs();
    Some(U256 { l3: w[3], l2: w[2], l1: w[1], l0: w[0] })
}

/// `curve_math::Pool::get_amount_out` on a `StableSwapV1` pool: claims that the result is the one named
/// [`amount_out`], that a zero input has none, and that it is never zero. The indices have to be
/// those of coins with a balance and a rate.
#[verifier::external_body]
fn stable_v1_out(m: &StableModel, i: usize, j: usize, dx: U256) -> (r: Option<U256>)
    requires
        stable_ready(m.balances@.len(), m.rates@.len(), i as nat, j as nat, dx@),
    ensures
        opt_value(r) == amount_out(stable_view(CurveMathTemplate::StableSwapV1, *m), i as nat, j as nat, dx@),
        dx@ == 0 ==> r is None,
        r is Some ==> r->Some_0@ > 0,
{
    let u = |v: &U256| alloy_primitives::U256::from_limbs([v.l0, v.l1, v.l2, v.l3]);
    let pool = curve_math::Pool::StableSwapV1 {
        balances: m.balances.iter().map(u).collect(),
        rates: m.rates.iter().map(u).collect(),
        amp: u(&m.amp),
        fee: u(&m.fee),
    };
    let w = pool.get_amount_out(i, j, u(&dx))?.into_limbs();
    Some(U256 { l3: w[3], l2: w[2], l1: w[1], l0: w[0] })
}

/// `curve_math::Pool::get_amount_out` on a `StableSwapV2` pool: claims that the result is the one named
/// [`amount_out`], that a zero input has none, and that it is never zero. The indices have to be
/// those of coins with a balance and a rate.
#[verifier::external_body]
fn stable_v2_out(m: &StableModel, i: usize, j: usize, dx: U256) -> (r: Option<U256>)
    requires
        stable_ready(m.balances@.len(), m.rates@.len(), i as nat, j as nat, dx@),
    ensures
        opt_value(r) == amount_out(stable_view(CurveMathTemplate::StableSwapV2, *m), i as nat, j as nat, dx@),
        dx@ == 0 ==> r is None,
        r is Some ==> r->Some_0@ > 0,
{
    let u = |v: &U256| alloy_primitives::U256::from_limbs([v.l0, v.l1, v.l2, v.l3]);
    let pool = curve_math::Pool::StableSwapV2 {
        balances: m.balances.iter().map(u).collect(),
        rates: m.rates.iter().map(u).collect(),
        amp: u(&m.amp),
        fee: u(&m.fee),
    };
    let w = pool.get_amount_out(i, j, u(&dx))?.into_limbs();
    Some(U256 { l3: w[3], l2: w[2], l1: w[1], l0: w[0] })
}

/// `curve_math::Pool::get_amount_out` on a `StableSwapMeta` pool: claims that the result is the one named
/// [`amount_out`], that a zero input has none, and that it is never zero. The indices have to be
/// those of coins with a balance and a rate.
#[verifier::external_body]
fn stable_meta_out(m: &StableModel, i: usize, j: usize, dx: U256) -> (r: Option<U256>)
    requires
        stable_ready(m.balances@.len(), m.rates@.len(), i as nat, j as nat, dx@),
    ensures
        opt_value(r) == amount_out(stable_view(CurveMathTemplate::StableSwapMeta, *m), i as nat, j as nat, dx@),
        dx@ == 0 ==> r is None,
        r is Some ==> r->Some_0@ > 0,
{
    let u = |v: &U256| alloy_primitives::U256::from_limbs([v.l0, v.l1, v.l2, v.l3]);
    let pool = curve_math::Pool::StableSwapMeta {
        balances: m.balances.iter().map(u).collect(),
        rates: m.rates.iter().map(u).collect(),
        amp: u(&m.amp),
        fee: u(&m.fee),
    };
    let w = pool.get_amount_out(i, j, u(&dx))?.into_limbs();
    Some(U256 { l3: w[3], l2: w[2], l1: w[1], l0: w[0] })
}

/// `curve_math::Pool::get_amount_out` on a `StableSwapNG` pool: claims that the result is the one
/// named [`amount_out`], that a zero input has none, and that it is never zero. The indices have
/// to be those of coins with a balance and a rate.
#[verifier::external_body]
fn stable_ng_out(m: &StableModel, offpeg: U256, i: usize, j: usize, dx: U256) -> (r: Option<U256>)
    requires
        stable_ready(m.balances@.len(), m.rates@.len(), i as nat, j as nat, dx@),
    ensures
        opt_value(r) == amount_out(stable_ng_view(*m, offpeg), i as nat, j as nat, dx@),
        dx@ == 0 ==> r is None,
        r is Some ==> r->Some_0@ > 0,
{
    let u = |v: &U256| alloy_primitives::U256::from_limbs([v.l0, v.l1, v.l2, v.l3]);
    let pool = curve_math::Pool::StableSwapNG {
        balances: m.balances.iter().map(u).collect(),
        rates: m.rates.iter().map(u).collect(),
        amp: u(&m.amp),
        fee: u(&m.fee),
        offpeg_fee_multiplier: u(&offpeg),
    };
    let w = pool.get_amount_out(i, j, u(&dx))?.into_limbs();
    Some(U256 { l3: w[3], l2: w[2], l1: w[1], l0: w[0] })
}

/// `curve_math::Pool::get_amount_out` on a `TwoCryptoV1` pool: claims that the result is the one
/// named [`amount_out`], that a zero input has none, and that it is never zero. The parameters have
/// to lie where its solver divides by no zero, as `law_two_coin_solver_runs` shows, and its fee by
/// none, as `law_evenness_is_at_most_one` shows; of others nothing is claimed.
#[verifier::external_body]
fn two_v1_out(m: &TwoCryptoModel, i: usize, j: usize, dx: U256) -> (r: Option<U256>)
    requires
        two_ready(two_view(CurveMathTemplate::TwoCryptoV1, *m), i as nat, j as nat, dx@),
    ensures
        opt_value(r) == amount_out(two_view(CurveMathTemplate::TwoCryptoV1, *m), i as nat, j as nat, dx@),
        dx@ == 0 ==> r is None,
        r is Some ==> r->Some_0@ > 0,
{
    let u = |v: U256| alloy_primitives::U256::from_limbs([v.l0, v.l1, v.l2, v.l3]);
    let pool = curve_math::Pool::TwoCryptoV1 {
        balances: m.balances.map(u),
        precisions: m.precisions.map(u),
        price_scale: u(m.price_scale),
        d: u(m.d),
        ann: u(m.ann),
        gamma: u(m.gamma),
        mid_fee: u(m.mid_fee),
        out_fee: u(m.out_fee),
        fee_gamma: u(m.fee_gamma),
    };
    let w = pool.get_amount_out(i, j, u(dx))?.into_limbs();
    Some(U256 { l3: w[3], l2: w[2], l1: w[1], l0: w[0] })
}

/// `curve_math::Pool::get_amount_out` on a `TwoCryptoNG` pool: claims that the result is the one
/// named [`amount_out`], that a zero input has none, and that it is never zero. The parameters have
/// to lie where it refuses at once, or where its solver divides by no zero, as
/// `law_closed_solution_starts`, `law_closed_solution_ends` and `law_two_coin_solver_runs` show; of
/// others nothing is claimed.
#[verifier::external_body]
fn two_ng_out(m: &TwoCryptoModel, i: usize, j: usize, dx: U256) -> (r: Option<U256>)
    requires
        two_ng_ready(two_view(CurveMathTemplate::TwoCryptoNG, *m), i as nat, j as nat, dx@),
    ensures
        opt_value(r) == amount_out(two_view(CurveMathTemplate::TwoCryptoNG, *m), i as nat, j as nat, dx@),
        dx@ == 0 ==> r is None,
        r is Some ==> r->Some_0@ > 0,
{
    let u = |v: U256| alloy_primitives::U256::from_limbs([v.l0, v.l1, v.l2, v.l3]);
    let pool = curve_math::Pool::TwoCryptoNG {
        balances: m.balances.map(u),
        precisions: m.precisions.map(u),
        price_scale: u(m.price_scale),
        d: u(m.d),
        ann: u(m.ann),
        gamma: u(m.gamma),
        mid_fee: u(m.mid_fee),
        out_fee: u(m.out_fee),
        fee_gamma: u(m.fee_gamma),
    };
    let w = pool.get_amount_out(i, j, u(dx))?.into_limbs();
    Some(U256 { l3: w[3], l2: w[2], l1: w[1], l0: w[0] })
}

/// `curve_math::Pool::get_amount_out` on a `TriCryptoV1` pool: claims that the result is the one
/// named [`amount_out`], that a zero input has none, and that it is never zero. The parameters have
/// to lie where its solver divides by no zero, as `law_three_coin_solver_runs` shows, and its fee by
/// none, as `law_evenness_is_at_most_one` shows; of others nothing is claimed.
#[verifier::external_body]
fn tri_v1_out(m: &TriCryptoModel, i: usize, j: usize, dx: U256) -> (r: Option<U256>)
    requires
        tri_ready(tri_view(*m), i as nat, j as nat, dx@),
    ensures
        opt_value(r) == amount_out(tri_view(*m), i as nat, j as nat, dx@),
        dx@ == 0 ==> r is None,
        r is Some ==> r->Some_0@ > 0,
{
    let u = |v: U256| alloy_primitives::U256::from_limbs([v.l0, v.l1, v.l2, v.l3]);
    let pool = curve_math::Pool::TriCryptoV1 {
        balances: m.balances.map(u),
        precisions: m.precisions.map(u),
        price_scale: m.price_scale.map(u),
        d: u(m.d),
        ann: u(m.ann),
        gamma: u(m.gamma),
        mid_fee: u(m.mid_fee),
        out_fee: u(m.out_fee),
        fee_gamma: u(m.fee_gamma),
    };
    let w = pool.get_amount_out(i, j, u(dx))?.into_limbs();
    Some(U256 { l3: w[3], l2: w[2], l1: w[1], l0: w[0] })
}

impl CurveMathPool {
    /// The output of a swap of `dx` of coin `i` for coin `j`, where there is one.
    pub fn get_amount_out(&self, i: usize, j: usize, dx: U256) -> (r: Option<U256>)
        requires
            ready(self@, i as nat, j as nat, dx@),
        ensures
            opt_value(r) == amount_out(self@, i as nat, j as nat, dx@),
            dx@ == 0 ==> r is None,
            r is Some ==> r->Some_0@ > 0,
    {
        match self {
            CurveMathPool::StableSwapV0(m) => stable_v0_out(m, i, j, dx),
            CurveMathPool::StableSwapV1(m) => stable_v1_out(m, i, j, dx),
            CurveMathPool::StableSwapV2(m) => stable_v2_out(m, i, j, dx),
            CurveMathPool::StableSwapNG(m, offpeg) => stable_ng_out(m, *offpeg, i, j, dx),
            CurveMathPool::StableSwapMeta(m) => stable_meta_out(m, i, j, dx),
            CurveMathPool::TwoCryptoV1(m) => two_v1_out(m, i, j, dx),
            CurveMathPool::TwoCryptoNG(m) => two_ng_out(m, i, j, dx),
            CurveMathPool::TriCryptoV1(m) => tri_v1_out(m, i, j, dx),
        }
    }

    /// Tests whether the model can be asked for a swap.
    pub fn can_quote(&self, i: usize, j: usize, dx: U256) -> (r: bool)
        ensures
            r == ready(self@, i as nat, j as nat, dx@),
    {
        if dx.is_zero() {
            return true;
        }
        match self {
            CurveMathPool::StableSwapV0(m) => stable_can_quote(m, i, j),
            CurveMathPool::StableSwapV1(m) => stable_can_quote(m, i, j),
            CurveMathPool::StableSwapV2(m) => stable_can_quote(m, i, j),
            CurveMathPool::StableSwapNG(m, _offpeg) => stable_can_quote(m, i, j),
            CurveMathPool::StableSwapMeta(m) => stable_can_quote(m, i, j),
            CurveMathPool::TwoCryptoV1(m) => two_can_quote(m, i, j, dx),
            CurveMathPool::TwoCryptoNG(m) => two_ng_can_quote(m, i, j, dx),
            CurveMathPool::TriCryptoV1(m) => tri_can_quote(m, i, j, dx),
        }
    }
}

fn stable_can_quote(m: &StableModel, i: usize, j: usize) -> (r: bool)
    ensures
        r == (i < m.balances@.len() && j < m.balances@.len() && i < m.rates@.len() && j
            < m.rates@.len()),
{
    i < m.balances.len() && j < m.balances.len() && i < m.rates.len() && j < m.rates.len()
}

fn scale_is_ready(price: Option<U256>, precision: U256) -> (r: bool)
    ensures
        r == scale_ready(opt_value(price), precision@),
{
    if precision.is_zero() {
        return false;
    }
    match price {
        None => true,
        Some(p) => !p.is_zero(),
    }
}

fn scale_coin(balance: U256, added: U256, price: Option<U256>, precision: U256) -> (r: U256)
    ensures
        r@ == coin_scaled(balance@, added@, opt_value(price), precision@),
{
    let held = balance.wrapping_add(added);
    match price {
        None => held.wrapping_mul(precision),
        Some(p) => {
            proof {
                lemma_mul_mod_noop_right(
                    held@ as int,
                    (p@ * precision@) as int,
                    u256_limit() as int,
                );
            }
            held.wrapping_mul(p.wrapping_mul(precision)).div(wad_value())
        },
    }
}

/// The input of a swap where it goes into coin `k`.
fn input_of(k: usize, i: usize, dx: U256) -> (r: U256)
    ensures
        r@ == if k == i {
            dx@
        } else {
            0
        },
{
    if k == i {
        dx
    } else {
        U256::zero()
    }
}

fn fee_is_ready(fee_gamma: U256) -> (r: bool)
    ensures
        r == fits(fee_gamma@ + wad()),
{
    fee_gamma.checked_add(wad_value()).is_some()
}

/// What the coin of a two-coin crypto model that stays holds, scaled.
fn staying_coin(m: &TwoCryptoModel, i: usize, j: usize, dx: U256) -> (r: U256)
    requires
        i < 2,
        j < 2,
    ensures
        forall|t: CurveMathTemplate|
            #![trigger two_view(t, *m)]
            r@ == coin_of(two_view(t, *m), (1 - j) as nat, i as nat, dx@),
{
    if j == 1 {
        scale_coin(m.balances[0], input_of(0, i, dx), None, m.precisions[0])
    } else {
        scale_coin(m.balances[1], input_of(1, i, dx), Some(m.price_scale), m.precisions[1])
    }
}

fn two_can_quote(m: &TwoCryptoModel, i: usize, j: usize, dx: U256) -> (r: bool)
    requires
        dx@ != 0,
    ensures
        r == two_ready(two_view(CurveMathTemplate::TwoCryptoV1, *m), i as nat, j as nat, dx@),
{
    if i >= 2 || j >= 2 {
        return false;
    }
    let x = staying_coin(m, i, j, dx);
    let scale = if j == 0 {
        m.precisions[0]
    } else {
        m.price_scale.wrapping_mul(m.precisions[1])
    };
    newton_two_is_ready(m.d, m.ann, m.gamma, x) && fee_is_ready(m.fee_gamma) && !scale.is_zero()
}

fn two_ng_can_quote(m: &TwoCryptoModel, i: usize, j: usize, dx: U256) -> (r: bool)
    requires
        dx@ != 0,
    ensures
        r == two_ng_ready(two_view(CurveMathTemplate::TwoCryptoNG, *m), i as nat, j as nat, dx@),
{
    if i >= 2 || j >= 2 {
        return false;
    }
    let x = staying_coin(m, i, j, dx);
    let scale = if j == 0 {
        scale_is_ready(None, m.precisions[0])
    } else {
        scale_is_ready(Some(m.price_scale), m.precisions[1])
    };
    closed_does_answer(m.d, m.ann, m.gamma, x) && (is_beyond_closed(m.d, m.gamma, x) || (
    fee_is_ready(m.fee_gamma) && scale))
}

fn tri_can_quote(m: &TriCryptoModel, i: usize, j: usize, dx: U256) -> (r: bool)
    requires
        dx@ != 0,
    ensures
        r == tri_ready(tri_view(*m), i as nat, j as nat, dx@),
{
    if i >= 3 || j >= 3 {
        return false;
    }
    let first = scale_coin(m.balances[0], input_of(0, i, dx), None, m.precisions[0]);
    let second = scale_coin(m.balances[1], input_of(1, i, dx), Some(m.price_scale[0]), m.precisions[1]);
    let third = scale_coin(m.balances[2], input_of(2, i, dx), Some(m.price_scale[1]), m.precisions[2]);
    let (x, y, scale) = if j == 0 {
        (second, third, scale_is_ready(None, m.precisions[0]))
    } else if j == 1 {
        (first, third, scale_is_ready(Some(m.price_scale[0]), m.precisions[1]))
    } else {
        (first, second, scale_is_ready(Some(m.price_scale[1]), m.precisions[2]))
    };
    newton_three_is_ready(m.d, m.ann, m.gamma, x, y) && fee_is_ready(m.fee_gamma) && scale
}

/// The quote that an output stands for.
pub open spec fn quote_of(out: Option<nat>) -> Result<nat, DexErr> {
    match out {
        Some(v) => Ok(v),
        None => Err(
            e_pool("curve-math get_amount_out returned None (zero dx or infeasible swap)"@),
        ),
    }
}

/// Turns an output into a quote.
pub fn quote_from_output(out: Option<U256>) -> (r: Result<U256, DexError>)
    ensures
        dex_view(r) == quote_of(opt_value(out)),
{
    match out {
        Some(v) => Ok(v),
        None => Err(
            bad_pool("curve-math get_amount_out returned None (zero dx or infeasible swap)"),
        ),
    }
}

/// The quote of a registered pool for a swap.
pub open spec fn quote_out_spec(
    registry: Map<Address, CurveRegistryEntry>,
    s: CurvePoolState,
    i: nat,
    j: nat,
    dx: nat,
) -> Result<nat, DexErr> {
    match registered_model(registry, s) {
        Err(e) => Err(e),
        Ok(m) => quote_of(amount_out(m, i, j, dx)),
    }
}

/// Quotes a swap of `dx` of pool coin `i` for coin `j` in a registered pool whose model can be
/// asked for it. A swap of nothing is refused.
pub fn curve_math_quote_out(
    registry: &CurvePoolRegistry,
    state: &CurvePoolState,
    i: usize,
    j: usize,
    dx: U256,
) -> (r: Result<U256, DexError>)
    requires
        registry.wf(),
        match registered_model(registry@, *state) {
            Ok(m) => ready(m, i as nat, j as nat, dx@),
            Err(_) => true,
        },
    ensures
        dex_view(r) == quote_out_spec(registry@, *state, i as nat, j as nat, dx@),
        dx@ == 0 ==> r is Err,
        r is Ok ==> r->Ok_0@ > 0,
{
    match curve_math_pool_from_state(registry, state) {
        Err(e) => Err(e),
        Ok(pool) => quote_from_output(pool.get_amount_out(i, j, dx)),
    }
}

/// Quotes a swap of `dx` of pool coin `i` for coin `j` in a registered pool, and returns `None`
/// where the model of the pool cannot be asked for it.
pub fn curve_math_try_quote_out(
    registry: &CurvePoolRegistry,
    state: &CurvePoolState,
    i: usize,
    j: usize,
    dx: U256,
) -> (r: Result<Option<U256>, DexError>)
    requires
        registry.wf(),
    ensures
        match registered_model(registry@, *state) {
            Err(e) => r is Err && r->Err_0@ == e,
            Ok(m) => if !ready(m, i as nat, j as nat, dx@) {
                r == Ok::<Option<U256>, DexError>(None)
            } else {
                match quote_out_spec(registry@, *state, i as nat, j as nat, dx@) {
                    Err(e) => r is Err && r->Err_0@ == e,
                    Ok(v) => r is Ok && opt_value(r->Ok_0) == Some(v),
                }
            },
        },
{
    let pool = match curve_math_pool_from_state(registry, state) {
        Err(e) => return Err(e),
        Ok(pool) => pool,
    };
    if !pool.can_quote(i, j, dx) {
        return Ok(None);
    }
    match curve_math_quote_out(registry, state, i, j, dx) {
        Ok(v) => Ok(Some(v)),
        Err(e) => Err(e),
    }
}

/// A model holds the balances of its pool, in their order.
pub proof fn law_model_holds_the_balances(entry: CurveRegistryEntry, s: CurvePoolState, k: int)
    requires
        model_spec(entry, s) is Ok,
        0 <= k < s.balances@.len(),
    ensures
        model_spec(entry, s)->Ok_0.balances.len() == s.balances@.len(),
        model_spec(entry, s)->Ok_0.balances[k] == s.balances@[k]@,
{
}

/// The model of a StableSwap pool has its raw fee and its amplification, in hundredths but for the
/// first two generations. Its rates are the stored ones, or else those that bring one whole token
/// to ten to the power 36; the second one of a meta pool is the virtual price of its base pool, and
/// a pool with a dynamic fee has its multiplier too.
pub proof fn law_stable_model_follows_its_pool(entry: CurveRegistryEntry, s: CurvePoolState, k: int)
    requires
        model_spec(entry, s) is Ok,
        entry.family !is CryptoTricrypto && entry.family !is TwoCryptoNg,
        0 <= k < s.balances@.len(),
        k < s.decimals@.len(),
    ensures
        ({
            let m = model_spec(entry, s)->Ok_0;
            let derived = m.factors[k] * pow(10, s.decimals@[k] as nat) == pow(10, 36);
            &&& m.scalars[1] == s.fee_raw@
            &&& m.price_scale.len() == 0
            &&& entry.family !is VolatileAmm
            &&& match entry.family {
                CurveFamily::StableSwapN => {
                    &&& m.scalars[0] == s.amplification@
                    &&& match entry.stableswap_math_variant {
                        StableswapMathVariant::Vyper01Legacy => m.template is StableSwapV0,
                        StableswapMathVariant::Vyper02ThreePool => m.template is StableSwapV1,
                    }
                    &&& match s.stableswap_stored_rates {
                        Some(rates) => m.factors == values(rates@) && rates@.len()
                            == s.balances@.len(),
                        None => derived,
                    }
                },
                CurveFamily::MetaStableSwap => {
                    &&& m.scalars[0] == s.amplification@ * 100
                    &&& m.template is StableSwapMeta
                    &&& s.balances@.len() == 2
                    &&& k == 0 ==> derived
                    &&& k == 1 ==> s.curve_math_aux.meta_base_virtual_price is Some && m.factors[k]
                        == s.curve_math_aux.meta_base_virtual_price->0@
                },
                CurveFamily::StableSwapNg => {
                    &&& m.scalars[0] == s.amplification@ * 100
                    &&& m.template is StableSwapNG
                    &&& s.curve_math_aux.ng_offpeg_fee_multiplier is Some && m.scalars[2]
                        == s.curve_math_aux.ng_offpeg_fee_multiplier->0@
                    &&& match s.curve_math_aux.ng_stored_rates {
                        Some(rates) => m.factors == values(rates@) && rates@.len()
                            == s.balances@.len(),
                        None => derived,
                    }
                },
                _ => {
                    &&& m.scalars[0] == s.amplification@ * 100
                    &&& m.template is StableSwapV2
                    &&& derived
                },
            }
        }),
{
    let m = model_spec(entry, s)->Ok_0;
    match entry.family {
        CurveFamily::MetaStableSwap => {
            law_rate_evens_out_the_decimals(s.decimals@[0]);
        },
        CurveFamily::StableSwapN => {
            if s.stableswap_stored_rates is None {
                law_each_token_has_its_own_rate(s.decimals@, None, k);
            }
        },
        CurveFamily::StableSwapNg => {
            if s.curve_math_aux.ng_stored_rates is None {
                law_each_token_has_its_own_rate(s.decimals@, None, k);
            }
        },
        _ => {
            law_each_token_has_its_own_rate(s.decimals@, None, k);
        },
    }
}

/// The model of a crypto pool has as many coins as its kind, brings one whole token of each to ten to
/// the power 18, and holds the price scales, the invariant, the amplification, gamma and the fees of
/// the pool, each in its place.
pub proof fn law_crypto_model_follows_its_pool(entry: CurveRegistryEntry, s: CurvePoolState, k: int)
    requires
        model_spec(entry, s) is Ok,
        entry.family is CryptoTricrypto || entry.family is TwoCryptoNg,
        0 <= k < s.balances@.len(),
    ensures
        ({
            let m = model_spec(entry, s)->Ok_0;
            let aux = s.curve_math_aux;
            &&& s.decimals@.len() == s.balances@.len()
            &&& m.factors[k] * pow(10, s.decimals@[k] as nat) == pow(10, 18)
            &&& aux.crypto_d is Some && m.scalars[0] == aux.crypto_d->0@
            &&& m.scalars[1] == s.amplification@
            &&& aux.crypto_gamma is Some && m.scalars[2] == aux.crypto_gamma->0@
            &&& aux.crypto_mid_fee is Some && m.scalars[3] == aux.crypto_mid_fee->0@
            &&& aux.crypto_out_fee is Some && m.scalars[4] == aux.crypto_out_fee->0@
            &&& aux.crypto_fee_gamma is Some && m.scalars[5] == aux.crypto_fee_gamma->0@
            &&& entry.family is CryptoTricrypto ==> {
                &&& s.balances@.len() == 3
                &&& m.template is TriCryptoV1
                &&& aux.price_scale_0 is Some && m.price_scale[0] == aux.price_scale_0->0@
                &&& aux.price_scale_1 is Some && m.price_scale[1] == aux.price_scale_1->0@
            }
            &&& entry.family is TwoCryptoNg ==> {
                &&& s.balances@.len() == 2
                &&& m.template is TwoCryptoV1 <==> entry.name@ == "CVX_ETH"@
                &&& m.template is TwoCryptoNG <==> entry.name@ != "CVX_ETH"@
                &&& aux.price_scale_uni is Some && m.price_scale[0] == aux.price_scale_uni->0@
            }
        }),
{
    let d = s.decimals@[k];
    let m = model_spec(entry, s)->Ok_0;
    assert(precision_spec(d) == Ok::<nat, DexErr>(m.factors[k]));
    vstd::arithmetic::power::lemma_pow_adds(10, (18 - d) as nat, d as nat);
    lemma_pow_positive(10, (18 - d) as nat);
}

} // verus!
