use crate::errors::ContractError;
use crate::killswitch::KillSwitch;
use vstd::prelude::*;

verus! {

/// Largest mantissa of a decimal: ninety-six bits, all set.
pub const MAX_MANTISSA: u128 = 0xffff_ffff_ffff_ffff_ffff_ffff;

/// Largest number of fractional digits of a decimal.
pub const MAX_SCALE: u32 = 28;

/// Number of fractional digits that an exchange rate keeps.
pub const RATE_DECIMALS: u32 = 12;

/// Fees are given in parts of this many.
pub const FEE_RESOLUTION: u128 = 100_000;

/// Ten to the power `e`.
pub open spec fn pow10(e: nat) -> nat
    decreases e,
{
    if e == 0 {
        1
    } else {
        10 * pow10((e - 1) as nat)
    }
}

/// A non-negative decimal number: `mantissa / 10^scale`. Exchange rates,
/// and the products and quotients made from them, are of this form.
#[derive(Debug, Clone, Copy, PartialEq, Eq, Structural)]
pub struct Rate {
    mantissa: u128,
    scale: u32,
}

impl Rate {
    /// The integer that holds all digits of the number.
    pub closed spec fn spec_mantissa(self) -> u128 {
        self.mantissa
    }

    /// How many of the digits are fractional.
    pub closed spec fn spec_scale(self) -> u32 {
        self.scale
    }

    /// The mantissa fits ninety-six bits and the scale is at most
    /// twenty-eight.
    pub open spec fn wf(self) -> bool {
        self.spec_mantissa() <= MAX_MANTISSA && self.spec_scale() <= MAX_SCALE
    }

    /// The whole units in the number: its value with the fraction cut off.
    pub open spec fn whole(self) -> nat {
        self.spec_mantissa() as nat / pow10(self.spec_scale() as nat)
    }

    /// Whether the number reads `mantissa / 10^scale`.
    pub open spec fn reads(self, mantissa: u128, scale: u32) -> bool {
        self.spec_mantissa() == mantissa && self.spec_scale() == scale
    }

    /// The decimal `mantissa / 10^scale`, where the mantissa fits
    /// ninety-six bits and the scale is at most twenty-eight.
    pub fn new(mantissa: u128, scale: u32) -> (rate: Option<Rate>)
        ensures
            match rate {
                Some(r) => r.wf() && r.reads(mantissa, scale),
                None => mantissa > MAX_MANTISSA || scale > MAX_SCALE,
            },
    {
        if mantissa > MAX_MANTISSA || scale > MAX_SCALE {
            None
        } else {
            Some(Rate { mantissa, scale })
        }
    }

    /// The number one.
    pub fn one() -> (rate: Rate)
        ensures
            rate.wf(),
            rate.reads(1, 0),
    {
        Rate { mantissa: 1, scale: 0 }
    }

    /// A whole number.
    pub fn from_u64(n: u64) -> (rate: Rate)
        ensures
            rate.wf(),
            rate.reads(n as u128, 0),
    {
        Rate { mantissa: n as u128, scale: 0 }
    }

    /// The integer that holds all digits of the number.
    pub fn mantissa(&self) -> (m: u128)
        ensures
            m == self.spec_mantissa(),
    {
        self.mantissa
    }

    /// How many of the digits are fractional.
    pub fn scale(&self) -> (s: u32)
        ensures
            s == self.spec_scale(),
    {
        self.scale
    }

    /// Whether the number is zero.
    pub fn is_zero(&self) -> (zero: bool)
        ensures
            zero == (self.spec_mantissa() == 0),
    {
        self.mantissa == 0
    }
}

/// What decimal multiplication makes of `m1 / 10^s1` and `m2 / 10^s2`: a
/// mantissa and a scale, or nothing where the product does not fit.
pub uninterp spec fn decimal_product(m1: u128, s1: u32, m2: u128, s2: u32) -> Option<(u128, u32)>;

/// What decimal division makes of `m1 / 10^s1` by `m2 / 10^s2`: a mantissa
/// and a scale, or nothing where the divisor is zero or the quotient does
/// not fit.
pub uninterp spec fn decimal_quotient(m1: u128, s1: u32, m2: u128, s2: u32) -> Option<(u128, u32)>;

/// Where decimal multiplication is exact: a product with a zero factor is
/// zero without a scale, and a product of two other factors whose
/// mantissas multiply within ninety-six bits and whose scales add up to at
/// most twenty-eight has that mantissa and that scale. Nothing is said of
/// other products.
pub open spec fn exact_product(m1: u128, s1: u32, m2: u128, s2: u32) -> Option<(u128, u32)> {
    if m1 == 0 || m2 == 0 {
        Some((0, 0))
    } else if s1 + s2 <= MAX_SCALE && m1 * m2 <= MAX_MANTISSA {
        Some(((m1 * m2) as u128, (s1 + s2) as u32))
    } else {
        None
    }
}

/// Where decimal division is known: there is no quotient by zero, zero
/// divided by anything else is zero without a scale, and a division by a
/// mantissa of at most thirty-two bits that leaves no remainder, with a
/// scale that does not exceed that of the dividend, has the quotient of
/// the mantissas and the difference of the scales. Nothing is said of
/// other quotients.
pub open spec fn exact_quotient(m1: u128, s1: u32, m2: u128, s2: u32) -> Option<
    Option<(u128, u32)>,
> {
    if m2 == 0 {
        Some(None)
    } else if m1 == 0 {
        Some(Some((0, 0)))
    } else if m2 <= 0xffff_ffff && m1 % m2 == 0 && s1 >= s2 {
        Some(Some((m1 / m2, (s1 - s2) as u32)))
    } else {
        None
    }
}

/// A decimal as its mantissa and scale, or nothing where there is none.
pub open spec fn pair(value: Option<Rate>) -> Option<(u128, u32)> {
    match value {
        Some(r) => Some((r.spec_mantissa(), r.spec_scale())),
        None => None,
    }
}

/// The decimal product: what is known of it where it is exact, the named
/// result of the multiplication elsewhere.
pub open spec fn product_of(m1: u128, s1: u32, m2: u128, s2: u32) -> Option<(u128, u32)> {
    match exact_product(m1, s1, m2, s2) {
        Some(p) => Some(p),
        None => decimal_product(m1, s1, m2, s2),
    }
}

/// The decimal quotient: what is known of it where it is known, the named
/// result of the division elsewhere.
pub open spec fn quotient_of(m1: u128, s1: u32, m2: u128, s2: u32) -> Option<(u128, u32)> {
    match exact_quotient(m1, s1, m2, s2) {
        Some(q) => q,
        None => decimal_quotient(m1, s1, m2, s2),
    }
}

/// The number `mantissa / 10^scale` with at most `dp` fractional digits, rounded away from zero: a
/// number with fewer digits is left as it is, and any digit that is cut
/// off and is not zero raises the last digit kept.
pub open spec fn rounded_up(mantissa: u128, scale: u32, dp: u32) -> (nat, nat) {
    if scale <= dp {
        (mantissa as nat, scale as nat)
    } else {
        let cut = pow10((scale - dp) as nat);
        let kept = mantissa as nat / cut;
        if mantissa as nat % cut == 0 {
            (kept, dp as nat)
        } else {
            (kept + 1, dp as nat)
        }
    }
}

/// Calls `rust_decimal::Decimal::checked_mul` on the two numbers. The
/// contract names the result: it is whatever that multiplication returns
/// for these mantissas and scales, a decimal of at most ninety-six bits and
/// twenty-eight fractional digits, and nothing on overflow. It also claims
/// what the multiplication does before it rescales anything: with a zero
/// factor it returns the constant zero, and where the product of the
/// mantissas fits ninety-six bits and the scales add up to at most
/// twenty-eight it returns that product with that scale.
#[verifier::external_body]
fn decimal_mul(a: Rate, b: Rate) -> (product: Option<Rate>)
    requires
        a.wf(),
        b.wf(),
    ensures
        match product {
            Some(p) => p.wf() && decimal_product(
                a.spec_mantissa(),
                a.spec_scale(),
                b.spec_mantissa(),
                b.spec_scale(),
            ) == Some((p.spec_mantissa(), p.spec_scale())),
            None => decimal_product(
                a.spec_mantissa(),
                a.spec_scale(),
                b.spec_mantissa(),
                b.spec_scale(),
            ) is None,
        },
        exact_product(a.spec_mantissa(), a.spec_scale(), b.spec_mantissa(), b.spec_scale())
            is Some ==> pair(product) == exact_product(
            a.spec_mantissa(),
            a.spec_scale(),
            b.spec_mantissa(),
            b.spec_scale(),
        ),
{
    let x = rust_decimal::Decimal::from_i128_with_scale(a.mantissa as i128, a.scale);
    let y = rust_decimal::Decimal::from_i128_with_scale(b.mantissa as i128, b.scale);
    match x.checked_mul(y) {
        Some(p) => Some(Rate { mantissa: p.mantissa() as u128, scale: p.scale() }),
        None => None,
    }
}

/// Calls `rust_decimal::Decimal::checked_div` on the two numbers. The
/// contract names the result: it is whatever that division returns for
/// these mantissas and scales, and nothing where the divisor is zero or
/// the quotient overflows. It also claims what the division does on its
/// shortest paths: it refuses a zero divisor, it returns the constant zero
/// for a zero dividend, and for a divisor of at most thirty-two bits that
/// leaves no remainder, with a scale difference that is not negative, it
/// returns the quotient of the mantissas with the difference of the
/// scales.
#[verifier::external_body]
fn decimal_div(a: Rate, b: Rate) -> (quotient: Option<Rate>)
    requires
        a.wf(),
        b.wf(),
    ensures
        match quotient {
            Some(q) => q.wf() && decimal_quotient(
                a.spec_mantissa(),
                a.spec_scale(),
                b.spec_mantissa(),
                b.spec_scale(),
            ) == Some((q.spec_mantissa(), q.spec_scale())),
            None => decimal_quotient(
                a.spec_mantissa(),
                a.spec_scale(),
                b.spec_mantissa(),
                b.spec_scale(),
            ) is None,
        },
        exact_quotient(a.spec_mantissa(), a.spec_scale(), b.spec_mantissa(), b.spec_scale())
            is Some ==> Some(pair(quotient)) == exact_quotient(
            a.spec_mantissa(),
            a.spec_scale(),
            b.spec_mantissa(),
            b.spec_scale(),
        ),
{
    let x = rust_decimal::Decimal::from_i128_with_scale(a.mantissa as i128, a.scale);
    let y = rust_decimal::Decimal::from_i128_with_scale(b.mantissa as i128, b.scale);
    match x.checked_div(y) {
        Some(q) => Some(Rate { mantissa: q.mantissa() as u128, scale: q.scale() }),
        None => None,
    }
}

/// Calls `rust_decimal::Decimal::round_dp_with_strategy` with the strategy
/// that rounds away from zero. The contract claims what the crate
/// documents: a number with no more than `dp` fractional digits comes back
/// unchanged; otherwise the digits beyond `dp` are cut off and, unless all
/// of them were zero, the last digit kept is raised by one.
#[verifier::external_body]
fn decimal_round_up(a: Rate, dp: u32) -> (rounded: Rate)
    requires
        a.wf(),
    ensures
        rounded.wf(),
        (rounded.spec_mantissa() as nat, rounded.spec_scale() as nat) == rounded_up(
            a.spec_mantissa(),
            a.spec_scale(),
            dp,
        ),
{
    let x = rust_decimal::Decimal::from_i128_with_scale(a.mantissa as i128, a.scale);
    let r = x.round_dp_with_strategy(dp, rust_decimal::RoundingStrategy::AwayFromZero);
    Rate { mantissa: r.mantissa() as u128, scale: r.scale() }
}

/// Calls `num_traits::ToPrimitive::to_u128` of `rust_decimal::Decimal`.
/// The contract claims what the crate documents for a number that is not
/// negative: the fraction is cut off without rounding and the whole part
/// is returned.
#[verifier::external_body]
fn decimal_to_u128(a: Rate) -> (whole: Option<u128>)
    requires
        a.wf(),
    ensures
        whole == Some(a.whole() as u128),
{
    let x = rust_decimal::Decimal::from_i128_with_scale(a.mantissa as i128, a.scale);
    rust_decimal::prelude::ToPrimitive::to_u128(&x)
}

/// The whole units of a product or quotient. A product or quotient that
/// the decimal arithmetic could not form is an overflow.
pub fn whole_units(value: Option<Rate>) -> (units: Result<u128, ContractError>)
    requires
        value matches Some(v) ==> v.wf(),
    ensures
        match value {
            Some(v) => units == Ok::<u128, ContractError>(v.whole() as u128),
            None => units == Err::<u128, ContractError>(ContractError::Overflow),
        },
{
    match value {
        Some(v) => {
            match decimal_to_u128(v) {
                Some(units) => Ok(units),
                None => Err(ContractError::Overflow),
            }
        },
        None => Err(ContractError::Overflow),
    }
}

/// The exchange rate that a quotient of supply by balance stands for: the
/// quotient rounded up to twelve fractional digits. A quotient that the
/// decimal arithmetic could not form is an overflow.
pub fn rate_from_quotient(quotient: Option<Rate>) -> (rate: Result<Rate, ContractError>)
    requires
        quotient matches Some(q) ==> q.wf(),
    ensures
        match quotient {
            Some(q) => rate matches Ok(r) && r.wf() && (
                r.spec_mantissa() as nat,
                r.spec_scale() as nat,
            ) == rounded_up(q.spec_mantissa(), q.spec_scale(), RATE_DECIMALS),
            None => rate == Err::<Rate, ContractError>(ContractError::Overflow),
        },
{
    match quotient {
        Some(q) => Ok(decimal_round_up(q, RATE_DECIMALS)),
        None => Err(ContractError::Overflow),
    }
}

/// A rate as its mantissa and scale, or the reason why there is none.
pub open spec fn parts(rate: Result<Rate, ContractError>) -> Result<(u128, u32), ContractError> {
    match rate {
        Ok(r) => Ok((r.spec_mantissa(), r.spec_scale())),
        Err(e) => Err(e),
    }
}

/// The exchange rate while the contract operates normally, over the named
/// quotient: one while either side is zero, otherwise the quotient of
/// supply by balance rounded up to twelve fractional digits.
pub open spec fn spec_calc_exchange_rate(total_on_chain: u128, tokens: u128) -> Result<
    (u128, u32),
    ContractError,
> {
    if total_on_chain == 0 || tokens == 0 {
        Ok((1, 0))
    } else if total_on_chain > u64::MAX || tokens > u64::MAX {
        Err(ContractError::Overflow)
    } else {
        match quotient_of(tokens, 0, total_on_chain, 0) {
            Some((m, s)) => Ok(
                (
                    rounded_up(m, s, RATE_DECIMALS).0 as u128,
                    rounded_up(m, s, RATE_DECIMALS).1 as u32,
                ),
            ),
            None => Err(ContractError::Overflow),
        }
    }
}

/// The exchange rate while the contract operates normally: derivative
/// tokens in supply per unit of native coin that the contract holds
/// delegated or as pending rewards, rounded up to twelve fractional
/// digits. While either side is zero the rate is one, so the first
/// depositor receives one token per coin. Amounts beyond sixty-four bits
/// are not converted.
pub fn calc_exchange_rate(total_on_chain: u128, tokens: u128) -> (rate: Result<
    Rate,
    ContractError,
>)
    ensures
        parts(rate) == spec_calc_exchange_rate(total_on_chain, tokens),
        rate matches Ok(r) ==> r.wf(),
{
    if total_on_chain == 0 || tokens == 0 {
        let one = Rate::one();
        let rounded = decimal_round_up(one, RATE_DECIMALS);
        return Ok(rounded);
    }
    if total_on_chain > 0xffff_ffff_ffff_ffff || tokens > 0xffff_ffff_ffff_ffff {
        return Err(ContractError::Overflow);
    }
    let scrt_balance = Rate::from_u64(total_on_chain as u64);
    let token_bal = Rate::from_u64(tokens as u64);
    let quotient = decimal_div(token_bal, scrt_balance);
    rate_from_quotient(quotient)
}

/// The rate at which the contract converts: computed from supply and
/// balance while the kill switch is closed, the frozen snapshot once it
/// is not.
pub open spec fn spec_exchange_rate(
    kill_switch: KillSwitch,
    frozen: Option<Rate>,
    total_on_chain: u128,
    tokens: u128,
) -> Result<(u128, u32), ContractError> {
    if kill_switch == KillSwitch::Closed {
        spec_calc_exchange_rate(total_on_chain, tokens)
    } else {
        match frozen {
            Some(f) => Ok((f.spec_mantissa(), f.spec_scale())),
            None => Err(ContractError::FrozenRateNotSet),
        }
    }
}

/// The rate at which the contract converts: computed from supply and
/// balance while the kill switch is closed, the frozen snapshot once it
/// is not.
pub fn exchange_rate(
    kill_switch: KillSwitch,
    frozen: Option<Rate>,
    total_on_chain: u128,
    tokens: u128,
) -> (rate: Result<Rate, ContractError>)
    requires
        frozen matches Some(f) ==> f.wf(),
    ensures
        parts(rate) == spec_exchange_rate(kill_switch, frozen, total_on_chain, tokens),
        kill_switch != KillSwitch::Closed ==> rate == match frozen {
            Some(f) => Ok::<Rate, ContractError>(f),
            None => Err::<Rate, ContractError>(ContractError::FrozenRateNotSet),
        },
        rate matches Ok(r) ==> r.wf(),
{
    match kill_switch {
        KillSwitch::Closed => calc_exchange_rate(total_on_chain, tokens),
        _ => match frozen {
            Some(f) => Ok(f),
            None => Err(ContractError::FrozenRateNotSet),
        },
    }
}

/// How many derivative tokens a deposit is worth at the rate
/// `mantissa / 10^scale`, over the named product.
pub open spec fn deposit_tokens(amount: u128, mantissa: u128, scale: u32) -> Result<
    u128,
    ContractError,
> {
    if amount > u64::MAX {
        Err(ContractError::Overflow)
    } else {
        match product_of(mantissa, scale, amount, 0) {
            Some((m, s)) => Ok((m as nat / pow10(s as nat)) as u128),
            None => Err(ContractError::Overflow),
        }
    }
}

/// How many derivative tokens a deposit of native coin is worth: the rate
/// times the amount, with the fraction cut off.
pub fn calc_deposit(amount: u128, exchange_rate: Rate) -> (tokens: Result<u128, ContractError>)
    requires
        exchange_rate.wf(),
    ensures
        tokens == deposit_tokens(amount, exchange_rate.spec_mantissa(), exchange_rate.spec_scale()),
{
    if amount > 0xffff_ffff_ffff_ffff {
        return Err(ContractError::Overflow);
    }
    let product = decimal_mul(exchange_rate, Rate::from_u64(amount as u64));
    whole_units(product)
}

/// How much native coin an amount of derivative tokens is worth at the
/// rate `mantissa / 10^scale`, over the named quotient.
pub open spec fn withdraw_coins(amount: u128, mantissa: u128, scale: u32) -> Result<
    u128,
    ContractError,
> {
    if amount > u64::MAX {
        Err(ContractError::Overflow)
    } else {
        match quotient_of(amount, 0, mantissa, scale) {
            Some((m, s)) => Ok((m as nat / pow10(s as nat)) as u128),
            None => Err(ContractError::Overflow),
        }
    }
}

/// How much native coin an amount of derivative tokens is worth: the
/// amount divided by the rate, with the fraction cut off.
pub fn calc_withdraw(amount: u128, exchange_rate: Rate) -> (coins: Result<u128, ContractError>)
    requires
        exchange_rate.wf(),
    ensures
        coins == withdraw_coins(amount, exchange_rate.spec_mantissa(), exchange_rate.spec_scale()),
{
    if amount > 0xffff_ffff_ffff_ffff {
        return Err(ContractError::Overflow);
    }
    let quotient = decimal_div(Rate::from_u64(amount as u64), exchange_rate);
    whole_units(quotient)
}

/// Ten to any power is positive.
pub proof fn lemma_pow10_positive(e: nat)
    ensures
        pow10(e) > 0,
    decreases e,
{
    if e > 0 {
        lemma_pow10_positive((e - 1) as nat);
    }
}

/// Cutting fractions off never gains: a deposit converted to tokens and
/// the tokens converted back give at most the deposit, wherever the
/// decimal product is not above the exact product of rate and amount and
/// the decimal quotient is above the exact quotient of tokens by rate by
/// less than one unit of its last digit. That the decimal arithmetic
/// keeps to these bounds is not covered here; `round_trip` tests it.
pub proof fn lemma_round_trip_never_gains(
    amount: u128,
    rate_mantissa: u128,
    rate_scale: u32,
    tokens: u128,
    back: u128,
)
    requires
        rate_mantissa > 0,
        deposit_tokens(amount, rate_mantissa, rate_scale) == Ok::<u128, ContractError>(tokens),
        withdraw_coins(tokens, rate_mantissa, rate_scale) == Ok::<u128, ContractError>(back),
        product_of(rate_mantissa, rate_scale, amount, 0) matches Some((m, s)) ==> m * pow10(
            rate_scale as nat,
        ) <= rate_mantissa * amount * pow10(s as nat),
        quotient_of(tokens, 0, rate_mantissa, rate_scale) matches Some((m, s)) ==> m
            * rate_mantissa < tokens * pow10(rate_scale as nat) * pow10(s as nat)
            + rate_mantissa,
    ensures
        back <= amount,
{
    let (pm, ps) = product_of(rate_mantissa, rate_scale, amount, 0)->0;
    let (qm, qs) = quotient_of(tokens, 0, rate_mantissa, rate_scale)->0;
    let p10 = pow10(ps as nat) as int;
    let q10 = pow10(qs as nat) as int;
    let r10 = pow10(rate_scale as nat) as int;
    lemma_pow10_positive(ps as nat);
    lemma_pow10_positive(qs as nat);
    lemma_pow10_positive(rate_scale as nat);
    let (t, b, a, r) = (tokens as int, back as int, amount as int, rate_mantissa as int);
    let (pmi, qmi) = (pm as int, qm as int);
    assert(t == pmi / p10);
    assert(b == qmi / q10);
    assert(t * p10 <= pmi) by (nonlinear_arith)
        requires
            t == pmi / p10,
            p10 > 0,
            pmi >= 0,
    ;
    assert(b * q10 <= qmi) by (nonlinear_arith)
        requires
            b == qmi / q10,
            q10 > 0,
            qmi >= 0,
    ;
    // tokens are at most rate times amount
    assert(t * r10 <= r * a) by (nonlinear_arith)
        requires
            t * p10 <= pmi,
            pmi * r10 <= r * a * p10,
            p10 > 0,
            r10 > 0,
            t >= 0,
            a >= 0,
            r > 0,
    ;
    // what comes back, in units of the last digit of the quotient, stays
    // below the deposit plus one such unit
    assert(b * q10 * r < r * (a * q10 + 1)) by (nonlinear_arith)
        requires
            b * q10 <= qmi,
            qmi * r < t * r10 * q10 + r,
            t * r10 <= r * a,
            q10 > 0,
            r > 0,
            b >= 0,
            t >= 0,
    ;
    assert(b * q10 < a * q10 + 1) by (nonlinear_arith)
        requires
            b * q10 * r < r * (a * q10 + 1),
            r > 0,
    ;
    assert(b <= a) by (nonlinear_arith)
        requires
            b * q10 <= a * q10,
            q10 > 0,
    ;
}

/// Ten to a higher power is not smaller.
pub proof fn lemma_pow10_grows(a: nat, b: nat)
    requires
        a <= b,
    ensures
        pow10(a) <= pow10(b),
    decreases b,
{
    if a < b {
        lemma_pow10_grows(a, (b - 1) as nat);
        lemma_pow10_positive((b - 1) as nat);
    }
}

/// Ten to the largest scale of a decimal.
pub proof fn lemma_pow10_max_scale()
    ensures
        pow10(MAX_SCALE as nat) == 10_000_000_000_000_000_000_000_000_000,
{
    reveal_with_fuel(pow10, 30);
}

/// Ten to the power `e`, for the scale of a decimal.
fn pow10_of_scale(e: u32) -> (power: u128)
    requires
        e <= MAX_SCALE,
    ensures
        power == pow10(e as nat),
{
    let mut power: u128 = 1;
    let mut i: u32 = 0;
    while i < e
        invariant
            i <= e <= MAX_SCALE,
            power == pow10(i as nat),
        decreases e - i,
    {
        proof {
            lemma_pow10_grows((i + 1) as nat, MAX_SCALE as nat);
            lemma_pow10_max_scale();
        }
        power = power * 10;
        i = i + 1;
    }
    power
}

/// Whether `a * b` is below `c * d * e + slack`, both within 128 bits.
pub open spec fn bounded(a: int, b: int, c: int, d: int, e: int, slack: int) -> bool {
    a * b <= u128::MAX && c * d * e + slack <= u128::MAX && a * b < c * d * e + slack
}

/// Whether `a * b` is below `c * d * e + slack`, both within 128 bits.
fn product_below(a: u128, b: u128, c: u128, d: u128, e: u128, slack: u128) -> (below: bool)
    ensures
        below == bounded(a as int, b as int, c as int, d as int, e as int, slack as int),
{
    let left = match a.checked_mul(b) {
        Some(l) => l,
        None => {
            return false;
        },
    };
    if c == 0 || d == 0 || e == 0 {
        assert(c * d * e == 0) by (nonlinear_arith)
            requires
                c == 0 || d == 0 || e == 0,
        ;
        return left < slack;
    }
    let inner = match c.checked_mul(d) {
        Some(i) => i,
        None => {
            assert(c * d * e > u128::MAX) by (nonlinear_arith)
                requires
                    c * d > u128::MAX,
                    e >= 1,
            ;
            return false;
        },
    };
    let all = match inner.checked_mul(e) {
        Some(p) => p,
        None => {
            return false;
        },
    };
    match all.checked_add(slack) {
        Some(right) => left < right,
        None => false,
    }
}

/// A deposit converted to tokens and the tokens converted back.
#[derive(Debug, Clone, Copy, PartialEq, Eq, Structural)]
pub struct RoundTrip {
    /// The tokens that the deposit is worth.
    pub tokens: u128,
    /// The native coin that those tokens are worth.
    pub back: u128,
}

/// A round trip whose decimal arithmetic was seen to keep its bounds:
/// both conversions succeed, the decimal product is not above the exact
/// product of rate and amount, and the decimal quotient is above the
/// exact quotient of tokens by rate by less than one unit of its last
/// digit, all within 128 bits.
pub open spec fn checked_round_trip(amount: u128, mantissa: u128, scale: u32) -> Option<
    RoundTrip,
> {
    if mantissa == 0 {
        None
    } else {
        match deposit_tokens(amount, mantissa, scale) {
            Err(_) => None,
            Ok(tokens) => match withdraw_coins(tokens, mantissa, scale) {
                Err(_) => None,
                Ok(back) => {
                    let (pm, ps) = product_of(mantissa, scale, amount, 0)->0;
                    let (qm, qs) = quotient_of(tokens, 0, mantissa, scale)->0;
                    if bounded(
                        pm as int,
                        pow10(scale as nat) as int,
                        mantissa as int,
                        amount as int,
                        pow10(ps as nat) as int,
                        1,
                    ) && bounded(
                        qm as int,
                        mantissa as int,
                        tokens as int,
                        pow10(scale as nat) as int,
                        pow10(qs as nat) as int,
                        mantissa as int,
                    ) {
                        Some(RoundTrip { tokens, back })
                    } else {
                        None
                    }
                },
            },
        }
    }
}

/// Converts a deposit to tokens and the tokens back, and tests on what
/// the decimal arithmetic returned that it kept its bounds. Where the
/// test holds, what comes back is never more than was deposited; where
/// it does not hold, or a conversion fails, nothing is returned.
pub fn round_trip(amount: u128, exchange_rate: Rate) -> (trip: Option<RoundTrip>)
    requires
        exchange_rate.wf(),
    ensures
        trip == checked_round_trip(
            amount,
            exchange_rate.spec_mantissa(),
            exchange_rate.spec_scale(),
        ),
        trip matches Some(t) ==> t.back <= amount,
{
    if exchange_rate.is_zero() || amount > 0xffff_ffff_ffff_ffff {
        return None;
    }
    let product = match decimal_mul(exchange_rate, Rate::from_u64(amount as u64)) {
        Some(p) => p,
        None => {
            return None;
        },
    };
    let tokens = match whole_units(Some(product)) {
        Ok(t) => t,
        Err(_) => {
            return None;
        },
    };
    if tokens > 0xffff_ffff_ffff_ffff {
        return None;
    }
    let quotient = match decimal_div(Rate::from_u64(tokens as u64), exchange_rate) {
        Some(q) => q,
        None => {
            return None;
        },
    };
    let back = match whole_units(Some(quotient)) {
        Ok(b) => b,
        Err(_) => {
            return None;
        },
    };
    let rate_power = pow10_of_scale(exchange_rate.scale);
    let product_power = pow10_of_scale(product.scale);
    let quotient_power = pow10_of_scale(quotient.scale);
    if !product_below(
        product.mantissa,
        rate_power,
        exchange_rate.mantissa,
        amount,
        product_power,
        1,
    ) {
        return None;
    }
    if !product_below(
        quotient.mantissa,
        exchange_rate.mantissa,
        tokens,
        rate_power,
        quotient_power,
        exchange_rate.mantissa,
    ) {
        return None;
    }
    proof {
        lemma_round_trip_never_gains(
            amount,
            exchange_rate.mantissa,
            exchange_rate.scale,
            tokens,
            back,
        );
    }
    Some(RoundTrip { tokens, back })
}

/// While the rate is one, a deposit is worth as many tokens as it has
/// coins and the tokens are worth as many coins again: the first
/// depositor receives one token per coin and loses nothing on the way
/// back.
pub proof fn lemma_rate_one_is_exact(amount: u128)
    requires
        amount <= u64::MAX,
    ensures
        deposit_tokens(amount, 1, 0) == Ok::<u128, ContractError>(amount),
        withdraw_coins(amount, 1, 0) == Ok::<u128, ContractError>(amount),
{
    assert(pow10(0) == 1);
    assert(1 * amount == amount);
    assert(amount as nat / 1 == amount);
    assert(0nat / 1 == 0);
    if amount > 0 {
        assert(exact_product(1, 0, amount, 0) == Some((amount, 0u32)));
        assert(amount % 1 == 0 && amount / 1 == amount);
        assert(exact_quotient(amount, 0, 1, 0) == Some(Some((amount, 0u32))));
    } else {
        assert(exact_product(1, 0, amount, 0) == Some((0u128, 0u32)));
        assert(exact_quotient(amount, 0, 1, 0) == Some(Some((0u128, 0u32))));
    }
    assert(product_of(1, 0, amount, 0) == Some((amount, 0u32)));
    assert(quotient_of(amount, 0, 1, 0) == Some((amount, 0u32)));
}

/// The rate as queries show it: native coin per derivative token, which
/// is one over the rate, and one where the rate is zero or has no inverse.
pub fn displayed_rate(ratio: Rate) -> (shown: Rate)
    requires
        ratio.wf(),
    ensures
        shown.wf(),
        ratio.spec_mantissa() == 0 ==> shown.reads(1, 0),
        ratio.spec_mantissa() != 0 ==> match quotient_of(
            1,
            0,
            ratio.spec_mantissa(),
            ratio.spec_scale(),
        ) {
            Some((m, s)) => shown.reads(m, s),
            None => shown.reads(1, 0),
        },
{
    if ratio.is_zero() {
        Rate::one()
    } else {
        match decimal_div(Rate::one(), ratio) {
            Some(inverse) => inverse,
            None => Rate::one(),
        }
    }
}

/// The product of an amount and a fee, held at the largest amount where
/// it would exceed it.
pub open spec fn saturating_product(amount: u128, fee: u128) -> u128 {
    if amount * fee > u128::MAX {
        u128::MAX
    } else {
        (amount * fee) as u128
    }
}

/// The fee on an amount, where the fee is given in parts per hundred
/// thousand.
pub open spec fn fee_of(amount: u128, fee: u64) -> u128 {
    saturating_product(amount, fee as u128) / FEE_RESOLUTION
}

/// The fee on an amount, where the fee is given in parts per hundred
/// thousand; the fraction is cut off.
pub fn calc_fee(amount: u128, fee: u64) -> (charged: u128)
    ensures
        charged == fee_of(amount, fee),
{
    let product: u128 = match amount.checked_mul(fee as u128) {
        Some(p) => p,
        None => u128::MAX,
    };
    product / FEE_RESOLUTION
}

/// How the fee is shared between the activation-fee accumulator and the
/// developer.
#[derive(Debug, Clone, Copy, PartialEq, Eq, Structural)]
pub struct FeeSplit {
    /// The part that goes to the accumulator.
    pub activation: u128,
    /// The part that stays with the developer fee.
    pub developer: u128,
}

/// The part of a fee that is skimmed for the activation-fee accumulator:
/// `activation_fee` parts per hundred thousand of the fee, but no more
/// than `max` and no more than the fee itself.
pub open spec fn activation_share(fee: u128, activation_fee: u64, max: u64) -> u128 {
    let share = fee_of(fee, activation_fee);
    let capped = if share > max {
        max as u128
    } else {
        share
    };
    if capped > fee {
        fee
    } else {
        capped
    }
}

/// Splits a fee between the accumulator that rewards whoever advances the
/// window and the developer. Nothing is skimmed while the activation fee
/// is zero.
pub fn split_fee(fee: u128, activation_fee: u64, max: u64) -> (split: FeeSplit)
    ensures
        split.activation == if activation_fee > 0 {
            activation_share(fee, activation_fee, max)
        } else {
            0
        },
        split.activation + split.developer == fee,
        split.activation <= max,
{
    if activation_fee == 0 {
        return FeeSplit { activation: 0, developer: fee };
    }
    let share = calc_fee(fee, activation_fee);
    let capped: u128 = if share > max as u128 {
        max as u128
    } else {
        share
    };
    let skimmed: u128 = if capped > fee {
        fee
    } else {
        capped
    };
    FeeSplit { activation: skimmed, developer: fee - skimmed }
}

/// What the developer is paid out of a fee: 999 parts in a thousand; the
/// rest stays in the contract to absorb rounding.
pub open spec fn developer_payout(fee: u128) -> u128 {
    (fee * 999 / 1000) as u128
}

/// What the developer is paid out of a fee.
pub fn calc_developer_payout(fee: u128) -> (paid: u128)
    ensures
        paid == developer_payout(fee),
        paid <= fee,
{
    let thousands: u128 = fee / 1000;
    let rest: u128 = fee % 1000;
    assert(fee * 999 / 1000 == thousands * 999 + rest * 999 / 1000) by {
        assert(fee * 999 == (thousands * 999) * 1000 + rest * 999);
    }
    thousands * 999 + rest * 999 / 1000
}

} // verus!
