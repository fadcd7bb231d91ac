use vanity_bitcoin::rng::key_material_from_attempt;
use vanity_bitcoin::rng::splitmix64;

#[test]
fn splitmix64_known_values() {
    assert_eq!(splitmix64(0), 0xE220A8397B1DCDAF);
    assert_eq!(splitmix64(42), 0xBDD732262FEB6E95);
}

#[test]
fn key_material_known_vector() {
    let km = key_material_from_attempt(42, 0);
    assert_eq!(km.len(), 32);
    assert_eq!(
        hex::encode(&km),
        "956eeb2f2632d7bd04721065bafae157467f20d804bf1063935bdcd0ec2961c1"
    );
    let km7 = key_material_from_attempt(42, 7);
    assert_eq!(
        hex::encode(&km7),
        "d64ac08cf8f3e9f70f6e58f94bd1e304f9dca238e32eb9275e1e0dba5a726b99"
    );
}

#[test]
fn key_material_deterministic() {
    // Same seed and attempt: same bytes on every call.
    for attempt in [0u64, 1, 99_999, u64::MAX] {
        let a = key_material_from_attempt(7, attempt);
        let b = key_material_from_attempt(7, attempt);
        assert_eq!(a, b);
    }
    // Different attempts give different material.
    assert_ne!(
        key_material_from_attempt(7, 0),
        key_material_from_attempt(7, 1)
    );
    assert_ne!(
        key_material_from_attempt(7, 0),
        key_material_from_attempt(8, 0)
    );
}

#[test]
fn key_material_resume_alignment() {
    // A run that starts at attempt i + n derives exactly what the
    // interrupted run would have derived there: attempt-indexed material
    // does not depend on which attempts were derived before it.
    let i: u64 = 100_000;
    for n in 0u64..16 {
        let fresh = key_material_from_attempt(42, i + n);
        let again = key_material_from_attempt(42, i + n);
        assert_eq!(fresh, again);
    }
}
