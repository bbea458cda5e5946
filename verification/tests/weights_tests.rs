use fixture_pipeline::weights::SubstrateWeight;
use fixture_pipeline::weights::Weight;
use fixture_pipeline::weights::WeightInfo;
use fixture_pipeline::weights::sat_add_u64;
use fixture_pipeline::weights::sat_mul_u64;

#[test]
fn heartbeat_weight_for_one_key() {
    let w = SubstrateWeight::validate_unsigned_and_then_heartbeat(1);
    assert_eq!(w.ref_time, 296_523_256 + 30_542);
    assert_eq!(w.proof_size, 321_487 + 1_761);
}

#[test]
fn heartbeat_weight_for_thousand_keys() {
    let w = SubstrateWeight::validate_unsigned_and_then_heartbeat(1_000);
    assert_eq!(w.ref_time, 296_523_256 + 30_542 * 1_000);
    assert_eq!(w.proof_size, 321_487 + 1_761 * 1_000);
}

#[test]
fn fallback_weights_match_reference_weights() {
    let reference = SubstrateWeight::validate_unsigned_and_then_heartbeat(42);
    let fallback = <() as WeightInfo>::validate_unsigned_and_then_heartbeat(42);
    assert_eq!(reference, fallback);
}

#[test]
fn saturating_arithmetic_clamps_at_max() {
    assert_eq!(sat_add_u64(u64::MAX, 1), u64::MAX);
    assert_eq!(sat_add_u64(3, 4), 7);
    assert_eq!(sat_mul_u64(u64::MAX, 2), u64::MAX);
    assert_eq!(sat_mul_u64(u64::MAX, 0), 0);
    assert_eq!(sat_mul_u64(6, 7), 42);
}

#[test]
fn weight_operations_apply_per_part() {
    let a = Weight::from_parts(10, 20);
    let b = Weight::from_parts(1, 2);
    let sum = a.saturating_add(b);
    assert_eq!(sum.ref_time, 11);
    assert_eq!(sum.proof_size, 22);
    let scaled = b.saturating_mul(3);
    assert_eq!(scaled.ref_time, 3);
    assert_eq!(scaled.proof_size, 6);
}
