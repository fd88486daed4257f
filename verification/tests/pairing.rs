use airsend::security::{pairing_code_for_fingerprints, pairing_code_from_digest};

#[test]
fn pairing_code_is_stable_six_digits() {
    let first = pairing_code_for_fingerprints("local", "remote");
    let second = pairing_code_for_fingerprints("local", "remote");

    assert_eq!(first.code, second.code);
    assert_eq!(first.code.len(), 6);
    assert!(first
        .code
        .chars()
        .all(|character| character.is_ascii_digit()));
}

#[test]
fn pairing_code_is_the_blake3_digest_read_as_six_digits() {
    for (local, remote) in [("local", "remote"), ("a", "b"), ("", ""), ("ünï", "cödé")] {
        let hash = blake3::hash(format!("{local}:{remote}").as_bytes());
        let numeric = u32::from_le_bytes(hash.as_bytes()[0..4].try_into().unwrap());
        let expected = format!("{:06}", numeric % 1_000_000);
        assert_eq!(pairing_code_for_fingerprints(local, remote).code, expected);
    }
}

#[test]
fn pairing_code_depends_on_the_order_of_fingerprints() {
    assert_ne!(
        pairing_code_for_fingerprints("alpha", "beta").code,
        pairing_code_for_fingerprints("beta", "alpha").code
    );
}

#[test]
fn pairing_code_keeps_leading_zeros() {
    let mut digest = [0u8; 32];
    digest[0] = 7;
    assert_eq!(pairing_code_from_digest(digest).code, "000007");
    let max = [0xffu8; 32];
    // 4294967295 % 1000000 = 967295
    assert_eq!(pairing_code_from_digest(max).code, "967295");
}
