use candid::Principal;
use sha2::Digest;
use vstd::prelude::*;

pub mod accounts;
pub mod audit;
pub mod book;
pub mod diagnostics;
pub mod eventlog;
pub mod guard;
pub mod leverage;
pub mod lifecycle;
pub mod liquidity;
pub mod state;
pub mod swap;
pub mod tasks;
pub mod timer;

verus! {

/// One unit in the protocol's fixed-point convention (8 implied decimals).
pub const E8S: u64 = 100_000_000;

pub const SEC_NANOS: u64 = 1_000_000_000;

pub const ONE_HOUR_NANOS: u64 = 3_600_000_000_000;

pub const EUSD_TRANSFER_FEE: u64 = 1_000_000;

pub const ICP_TRANSFER_FEE: u64 = 10_000;

/// The wrap-around that a cast from a wide integer to `u64` performs.
pub open spec fn low_u64(x: int) -> int {
    x % 0x1_0000_0000_0000_0000
}

/// `a * b / 10^8`, truncated toward zero, over the integers.
pub open spec fn mul_e8s(a: int, b: int) -> int {
    a * b / (E8S as int)
}

/// `a * 10^8 / b`, truncated toward zero, over the integers.
pub open spec fn div_e8s(a: int, b: int) -> int {
    a * (E8S as int) / b
}

/// Fixed-point product of two e8s values, computed in 128 bits.
pub fn multiply_e8s(amount: u64, rate: u64) -> (r: u64)
    ensures
        r == low_u64(mul_e8s(amount as int, rate as int)),
        mul_e8s(amount as int, rate as int) <= u64::MAX ==> r == mul_e8s(amount as int, rate as int),
{
    let amount_u128 = amount as u128;
    let rate_u128 = rate as u128;
    assert(amount_u128 * rate_u128 <= u64::MAX as int * u64::MAX as int) by (nonlinear_arith)
        requires amount_u128 <= u64::MAX, rate_u128 <= u64::MAX;
    let result_u128 = amount_u128 * rate_u128 / 100_000_000u128;
    (result_u128 % 0x1_0000_0000_0000_0000u128) as u64
}

/// Fixed-point quotient of two e8s values, computed in 128 bits.
pub fn divide_e8s(amount: u64, divisor: u64) -> (r: u64)
    requires
        divisor != 0,
    ensures
        r == low_u64(div_e8s(amount as int, divisor as int)),
        div_e8s(amount as int, divisor as int) <= u64::MAX ==> r == div_e8s(amount as int, divisor as int),
{
    let amount_u128 = amount as u128;
    let divisor_u128 = divisor as u128;
    let result_u128 = amount_u128 * 100_000_000u128 / divisor_u128;
    (result_u128 % 0x1_0000_0000_0000_0000u128) as u64
}

/// The SHA-256 digest of `data`.
pub uninterp spec fn sha256_of(data: Seq<u8>) -> Seq<u8>;

/// The significant bytes of a principal.
pub uninterp spec fn principal_bytes(p: Principal) -> Seq<u8>;

/// Relies on sha2's `Sha256::digest`: the 32-byte SHA-256 digest of `data`.
#[verifier::external_body]
fn sha256(data: &Vec<u8>) -> (r: [u8; 32])
    ensures
        r@ == sha256_of(data@),
{
    sha2::Sha256::digest(data).into()
}

/// Relies on `candid::Principal::as_slice`: the principal's significant bytes, at most 29.
#[verifier::external_body]
fn principal_to_bytes(p: &Principal) -> (r: Vec<u8>)
    ensures
        r@ == principal_bytes(*p),
        r@.len() <= 29,
{
    p.as_slice().to_vec()
}

/// Byte `i` of `n` in big-endian order.
pub open spec fn be_byte(n: u64, i: int) -> u8 {
    ((n >> ((56 - 8 * i) as u64)) & 0xff) as u8
}

/// What a deposit subaccount hashes: the length-prefixed domain `core`, the controller's
/// bytes and the nonce in big-endian order.
pub open spec fn subaccount_preimage(controller: Principal, nonce: u64) -> Seq<u8> {
    seq![4u8, 99u8, 111u8, 114u8, 101u8] + principal_bytes(controller) + Seq::new(
        8,
        |i: int| be_byte(nonce, i),
    )
}

/// The subaccount where `controller` deposits, derived from a nonce.
pub fn compute_subaccount(controller: Principal, nonce: u64) -> (r: [u8; 32])
    ensures
        r@ == sha256_of(subaccount_preimage(controller, nonce)),
{
    let mut data: Vec<u8> = vec![4u8, 99u8, 111u8, 114u8, 101u8];
    let bytes = principal_to_bytes(&controller);
    let mut i: usize = 0;
    while i < bytes.len()
        invariant
            i <= bytes@.len(),
            bytes@ == principal_bytes(controller),
            data@ == seq![4u8, 99u8, 111u8, 114u8, 101u8] + bytes@.take(i as int),
        decreases bytes@.len() - i,
    {
        data.push(bytes[i]);
        proof {
            assert(bytes@.take(i as int + 1) =~= bytes@.take(i as int).push(bytes@[i as int]));
            assert(data@ =~= seq![4u8, 99u8, 111u8, 114u8, 101u8] + bytes@.take(i as int + 1));
        }
        i = i + 1;
    }
    proof {
        assert(bytes@.take(i as int) =~= bytes@);
    }
    let ghost head = data@;
    let mut k: u64 = 0;
    while k < 8
        invariant
            k <= 8,
            data@ == head + Seq::new(k as nat, |j: int| be_byte(nonce, j)),
        decreases 8 - k,
    {
        let byte = ((nonce >> (56 - 8 * k)) & 0xff) as u8;
        data.push(byte);
        proof {
            assert(data@ =~= head + Seq::new((k + 1) as nat, |j: int| be_byte(nonce, j)));
        }
        k = k + 1;
    }
    proof {
        assert(data@ =~= subaccount_preimage(controller, nonce));
    }
    sha256(&data)
}

} // verus!
