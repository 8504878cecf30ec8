use core_canister::liquidity::{build_distribute_fee, compute_liquidity_claimable};
use core_canister::swap::compute_margin_ratio;
use core_canister::timer::convert_to_8_decimals;
use core_canister::{divide_e8s, multiply_e8s};
use candid::Principal;

#[test]
fn test_multiply_e8s() {
    let amount: u64 = 150_000_001; // 1.5 ICP
    let rate: u64 = 520_000_000; // 5.2 $

    let multiplication_result = multiply_e8s(amount, rate);
    assert_eq!(multiplication_result, 780_000_005);
}

#[test]
fn test_divide_e8s() {
    let amount: u64 = 780_000_005; // 7.8 $
    let divisor: u64 = 520_000_000; // 5.2 $

    let division_result = divide_e8s(amount, divisor);
    assert_eq!(division_result, 150_000_000);
}

#[test]
fn multiply_e8s_wraps_like_a_64_bit_cast() {
    // u64::MAX * 2 / 10^8 fits; u64::MAX * u64::MAX / 10^8 does not and keeps its low bits.
    assert_eq!(multiply_e8s(u64::MAX, 200_000_000), u64::MAX - 1);
    let wide = (u64::MAX as u128) * (u64::MAX as u128) / 100_000_000u128;
    assert_eq!(multiply_e8s(u64::MAX, u64::MAX), wide as u64);
}

#[test]
fn test_fee_distribution() {
    let fee_to_share: u64 = 100_000;
    let user_1 =
        Principal::from_text("mffnj-4wzis-e2gtp-g2f4e-57xw4-u6k2s-wwkwq-uef2k-dnk6q-7qisk-uqe")
            .unwrap();
    let user_2 =
        Principal::from_text("rs2j3-p6zkk-hajim-ugvqg-o46i7-3w3up-apojd-h3jz2-yd4kq-cea7m-pae")
            .unwrap();
    let user_3 =
        Principal::from_text("5mezl-he62a-p3r3f-faies-3snql-td4v6-noevw-eivgc-4lgjv-3atu6-iae")
            .unwrap();
    const ONE_ICP: u64 = 100_000_000;

    let mut liquidity_provided: Vec<(Principal, u64)> = vec![];
    liquidity_provided.push((user_1, 5 * ONE_ICP));
    liquidity_provided.push((user_2, 10 * ONE_ICP));
    liquidity_provided.push((user_3, 20 * ONE_ICP));

    let fee_vec = build_distribute_fee(fee_to_share, liquidity_provided);

    assert!(fee_to_share > fee_vec.iter().map(|(_, amount)| amount).sum::<u64>());
    assert!(fee_vec[0].1 == 14285);
    assert!(fee_vec[1].1 == 28571);
    assert!(fee_vec[2].1 == 57142);
}

#[test]
fn fee_distribution_without_providers_hands_out_nothing() {
    let shares = build_distribute_fee(1_000_000, vec![]);
    assert!(shares.is_empty());
}

#[test]
fn fee_distribution_of_zero_liquidity_gives_zero_shares() {
    let p = Principal::from_slice(&[1]);
    let q = Principal::from_slice(&[2]);
    let shares = build_distribute_fee(1_000, vec![(p, 0), (q, 0)]);
    assert_eq!(shares, vec![(p, 0), (q, 0)]);
}

#[test]
fn fee_distribution_never_exceeds_the_pool() {
    let ps: Vec<(Principal, u64)> = (1u8..8).map(|k| (Principal::from_slice(&[k]), 3 * k as u64 + 1)).collect();
    let shares = build_distribute_fee(999, ps);
    let total: u64 = shares.iter().map(|(_, a)| *a).sum();
    assert!(total <= 999);
    assert_eq!(total, 994);
}

#[test]
fn test_slippage() {
    let user_wants_to_claim: u64 = 1_000_000_000; // 10 ICP
    let collateral_ratio: u64 = 100_000_000; // 100% CR
    let result = compute_liquidity_claimable(user_wants_to_claim, collateral_ratio);
    assert!(result == 833_333_330);
    let collateral_ratio: u64 = 140_000_000; // 140% CR
    let result = compute_liquidity_claimable(user_wants_to_claim, collateral_ratio);
    assert!(result == user_wants_to_claim);
    let collateral_ratio: u64 = 50_000_000; // 50% CR
    let result = compute_liquidity_claimable(user_wants_to_claim, collateral_ratio);
    assert!(result == 416_666_660); // 4,16 ICP
}

#[test]
fn slippage_at_the_threshold_and_at_zero() {
    assert_eq!(compute_liquidity_claimable(1_000_000_000, 120_000_000), 999_999_990);
    assert_eq!(compute_liquidity_claimable(1_000_000_000, 120_000_001), 1_000_000_000);
    assert_eq!(compute_liquidity_claimable(1_000_000_000, 0), 0);
}

#[test]
fn test_leverage_map() {
    let current_price = 1000_000_000;
    let entry_price = 500_000_000;
    let amount = 1_000_000_000;
    let covered_amount = 100_000_000;
    let result = compute_margin_ratio(current_price, entry_price, amount, covered_amount);
    assert_eq!(result, 120_000_000);
}

#[test]
fn rates_are_brought_to_eight_decimals() {
    assert_eq!(convert_to_8_decimals(123_456_789_012, 9), Some(12_345_678_901));
    assert_eq!(convert_to_8_decimals(5, 8), Some(5));
    assert_eq!(convert_to_8_decimals(5, 6), Some(500));
    assert_eq!(convert_to_8_decimals(7, 40), Some(0));
    assert_eq!(convert_to_8_decimals(u64::MAX, 0), None);
}
