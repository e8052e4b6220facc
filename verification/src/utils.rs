use crate::errors::ContractError;
use vstd::prelude::*;

verus! {

/// What parsing a text as an unsigned 128-bit number gives: the number,
/// or nothing where the text is not one.
pub uninterp spec fn parsed_u128(text: Seq<char>) -> Option<u128>;

/// Calls `str::parse::<u128>`. The contract names the result: it is
/// whatever the standard library makes of these characters.
#[verifier::external_body]
fn parse_u128(text: &str) -> (number: Option<u128>)
    ensures
        number == parsed_u128(text@),
{
    text.parse::<u128>().ok()
}

/// The number that a rate reported as text stands for. Only whole
/// numbers are accepted.
pub fn dec_to_uint(dec: String) -> (number: Result<u128, ContractError>)
    ensures
        number == match parsed_u128(dec@) {
            Some(n) => Ok::<u128, ContractError>(n),
            None => Err::<u128, ContractError>(ContractError::ParseError),
        },
{
    match parse_u128(dec.as_str()) {
        Some(n) => Ok(n),
        None => Err(ContractError::ParseError),
    }
}

/// The yearly rate of return that the ledger's figures give: the
/// inflation divided by the bonded ratio, both read as whole numbers.
pub open spec fn spec_interest_rate(inflation: Seq<char>, bonded_ratio: Seq<char>) -> Result<
    u128,
    ContractError,
> {
    match parsed_u128(inflation) {
        None => Err(ContractError::ParseError),
        Some(i) => match parsed_u128(bonded_ratio) {
            None => Err(ContractError::ParseError),
            Some(b) => if b == 0 {
                Err(ContractError::DivisionByZero)
            } else {
                Ok(i / b)
            },
        },
    }
}

/// The yearly rate of return: the inflation that the ledger reports
/// divided by the ratio of bonded coin that it reports.
pub fn interest_rate(inflation_rate: String, bonded_ratio: String) -> (rate: Result<
    u128,
    ContractError,
>)
    ensures
        rate == spec_interest_rate(inflation_rate@, bonded_ratio@),
{
    let inflation = match dec_to_uint(inflation_rate) {
        Ok(i) => i,
        Err(e) => {
            return Err(e);
        },
    };
    let bonded = match dec_to_uint(bonded_ratio) {
        Ok(b) => b,
        Err(e) => {
            return Err(e);
        },
    };
    if bonded == 0 {
        return Err(ContractError::DivisionByZero);
    }
    Ok(inflation / bonded)
}

/// The eight bytes of `n`, most significant first.
pub open spec fn spec_u64_to_be_bytes(n: u64) -> Seq<u8> {
    seq![
        (n >> 56) as u8,
        ((n >> 48) & 0xff) as u8,
        ((n >> 40) & 0xff) as u8,
        ((n >> 32) & 0xff) as u8,
        ((n >> 24) & 0xff) as u8,
        ((n >> 16) & 0xff) as u8,
        ((n >> 8) & 0xff) as u8,
        (n & 0xff) as u8,
    ]
}

/// The number that eight big-endian bytes stand for.
pub open spec fn spec_u64_from_be_bytes(b: Seq<u8>) -> u64
    recommends
        b.len() == 8,
{
    ((b[0] as u64) << 56) | ((b[1] as u64) << 48) | ((b[2] as u64) << 40) | ((b[3] as u64) << 32)
        | ((b[4] as u64) << 24) | ((b[5] as u64) << 16) | ((b[6] as u64) << 8) | (b[7] as u64)
}

/// Writes a window id as the fixed-width big-endian key under which its
/// records are filed.
pub fn u64_to_bytes(number: &u64) -> (bytes: [u8; 8])
    ensures
        bytes@ == spec_u64_to_be_bytes(*number),
{
    let n: u64 = *number;
    let bytes: [u8; 8] = [
        #[verifier::truncate]
        ((n >> 56) as u8),
        #[verifier::truncate]
        (((n >> 48) & 0xff) as u8),
        #[verifier::truncate]
        (((n >> 40) & 0xff) as u8),
        #[verifier::truncate]
        (((n >> 32) & 0xff) as u8),
        #[verifier::truncate]
        (((n >> 24) & 0xff) as u8),
        #[verifier::truncate]
        (((n >> 16) & 0xff) as u8),
        #[verifier::truncate]
        (((n >> 8) & 0xff) as u8),
        #[verifier::truncate]
        ((n & 0xff) as u8),
    ];
    assert(bytes@ =~= spec_u64_to_be_bytes(n));
    bytes
}

/// Reading the big-endian bytes of a number back gives the number, so two
/// different window ids never share a key.
pub proof fn lemma_u64_bytes_round_trip(n: u64)
    ensures
        spec_u64_to_be_bytes(n).len() == 8,
        spec_u64_from_be_bytes(spec_u64_to_be_bytes(n)) == n,
{
    let b = spec_u64_to_be_bytes(n);
    assert(b.len() == 8);
    assert(((((n >> 56) as u8) as u64) << 56) | (((((n >> 48) & 0xff) as u8) as u64) << 48) | (((((n
        >> 40) & 0xff) as u8) as u64) << 40) | (((((n >> 32) & 0xff) as u8) as u64) << 32) | (((((n
        >> 24) & 0xff) as u8) as u64) << 24) | (((((n >> 16) & 0xff) as u8) as u64) << 16) | (((((n
        >> 8) & 0xff) as u8) as u64) << 8) | (((n & 0xff) as u8) as u64) == n) by (bit_vector);
}

/// The bytes under which a user's records are filed: the UTF-8 encoding of
/// the address.
pub fn address_to_bytes(address: &String) -> (bytes: &[u8])
    ensures
        bytes@ == vstd::utf8::encode_utf8(address@),
{
    address.as_str().as_bytes()
}

} // verus!
