use candid::Principal;
use core_canister::compute_subaccount;

#[test]
fn test_compute_subaccount() {
    let pid: Principal = Principal::from_text("2chl6-4hpzw-vqaaa-aaaaa-c").unwrap();
    let expected: [u8; 32] = [
        171, 1, 10, 73, 118, 128, 21, 217, 95, 129, 152, 106, 123, 123, 118, 52, 150, 160, 45,
        204, 28, 121, 247, 95, 232, 248, 125, 84, 161, 155, 192, 154,
    ];
    assert_eq!(expected, compute_subaccount(pid, 0));
}

#[test]
fn subaccounts_differ_by_nonce_and_owner() {
    let a = Principal::from_slice(&[1; 29]);
    let b = Principal::from_slice(&[2; 29]);
    assert_ne!(compute_subaccount(a, 0), compute_subaccount(a, 1));
    assert_ne!(compute_subaccount(a, 0), compute_subaccount(b, 0));
}
