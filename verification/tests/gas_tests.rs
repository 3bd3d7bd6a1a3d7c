use fvm_core::gas::{Gas, GasCharge, GasTracker, MILLIGAS_PRECISION};

#[test]
fn gas_units_and_rounding() {
    assert_eq!(MILLIGAS_PRECISION, 1000);
    assert_eq!(Gas::new(3).as_milligas(), 3000);
    assert_eq!(Gas::from_milligas(2999).round_down(), 2);
    assert!(Gas::zero().is_zero());
    assert!(!Gas::new(1).is_zero());
}

#[test]
fn gas_saturates_never_wraps() {
    let max = Gas::from_milligas(u64::MAX);
    assert_eq!(max.saturating_add(Gas::new(1)).as_milligas(), u64::MAX);
    assert_eq!(max.saturating_mul(7).as_milligas(), u64::MAX);
    assert_eq!(Gas::new(u64::MAX).as_milligas(), u64::MAX);
    assert_eq!(Gas::zero().saturating_sub(Gas::new(5)).as_milligas(), 0);
    let a = Gas::new(7);
    let b = Gas::new(9);
    assert_eq!(a.saturating_add(b), Gas::new(16));
    assert_eq!(b.saturating_sub(a), Gas::new(2));
    assert_eq!(a.saturating_mul(3), Gas::new(21));
    assert_eq!(a.max(b), b);
}

#[test]
fn charge_totals() {
    let c = GasCharge::new("OnTest", Gas::new(3), Gas::new(4));
    assert_eq!(c.total(), Gas::new(7));
    let c = GasCharge::new("OnTest", Gas::from_milligas(u64::MAX), Gas::new(1));
    assert_eq!(c.total().as_milligas(), u64::MAX);
}

#[test]
fn ledger_charges_all_or_nothing() {
    let mut t = GasTracker::new(Gas::new(100));
    assert_eq!(t.remaining_gas(), Gas::new(100));
    t.charge(GasCharge::new("OnTest", Gas::new(40), Gas::new(10))).unwrap();
    assert_eq!(t.gas_used(), Gas::new(50));
    assert_eq!(t.remaining_gas(), Gas::new(50));
    // A charge beyond the remainder exhausts the ledger and fails.
    t.charge(GasCharge::new("OnTest", Gas::new(51), Gas::zero())).unwrap_err();
    assert_eq!(t.remaining_gas(), Gas::zero());
    assert_eq!(t.gas_used(), t.gas_limit());
    // Once exhausted, only zero-total charges still fit.
    t.charge(GasCharge::new("OnTest", Gas::zero(), Gas::zero())).unwrap();
    t.charge(GasCharge::new("OnTest", Gas::from_milligas(1), Gas::zero())).unwrap_err();
}

#[test]
fn ledger_exact_boundary() {
    let mut t = GasTracker::new(Gas::new(10));
    t.charge(GasCharge::new("OnTest", Gas::new(10), Gas::zero())).unwrap();
    assert_eq!(t.remaining_gas(), Gas::zero());
}
