//! Tests of the byte transform: involution, nonce separation, and the
//! determinism of the substitution table.

use xr_proxy::obfuscation::ModifierStrategy;
use xr_proxy::obfuscation::Obfuscator;

#[test]
fn test_roundtrip() {
    let key = b"test-key-1234567890abcdef".to_vec();
    let obfs = Obfuscator::new(key, 0xDEADBEEF, ModifierStrategy::PositionalXorRotate);

    let original = b"Hello, World! This is a test payload.".to_vec();
    let mut data = original.clone();

    obfs.apply(&mut data, 42);
    assert_ne!(data, original, "data should be different after obfuscation");

    obfs.apply(&mut data, 42);
    assert_eq!(data, original, "data should match after deobfuscation");
}

#[test]
fn test_different_nonce_different_output() {
    let key = b"test-key".to_vec();
    let obfs = Obfuscator::new(key, 0x12345678, ModifierStrategy::RotatingSalt);

    let original = b"same data".to_vec();

    let mut data1 = original.clone();
    obfs.apply(&mut data1, 1);

    let mut data2 = original.clone();
    obfs.apply(&mut data2, 2);

    assert_ne!(data1, data2, "different nonces should produce different output");
}

#[test]
fn test_all_strategies_roundtrip() {
    let key = b"key-for-testing-all-strategies!!".to_vec();
    let original = b"Payload data for strategy test".to_vec();

    for strategy in [
        ModifierStrategy::PositionalXorRotate,
        ModifierStrategy::RotatingSalt,
        ModifierStrategy::SubstitutionTable,
    ] {
        let obfs = Obfuscator::new(key.clone(), 0xCAFEBABE, strategy);
        let mut data = original.clone();
        obfs.apply(&mut data, 100);
        assert_ne!(data, original);
        obfs.apply(&mut data, 100);
        assert_eq!(data, original, "roundtrip failed for {:?}", strategy);
    }
}

#[test]
fn test_substitution_table_deterministic() {
    // Two contexts built from the same key and salt must transform
    // identically: the derived table is a function of the two alone.
    let key = b"determinism-key-0123456789abcdef".to_vec();
    let a = Obfuscator::new(key.clone(), 0x1111_2222, ModifierStrategy::SubstitutionTable);
    let b = Obfuscator::new(key, 0x1111_2222, ModifierStrategy::SubstitutionTable);

    let original: Vec<u8> = (0u16..256).map(|x| x as u8).collect();
    let mut da = original.clone();
    let mut db = original.clone();
    a.apply(&mut da, 7);
    b.apply(&mut db, 7);
    assert_eq!(da, db);
    assert_ne!(da, original);
}

#[test]
fn test_positional_modifier_exact() {
    // With a one-byte zero key and salt 1, position j contributes
    // exactly (j % 256) under the positional strategy: byte i moved by
    // offset o is XORed with (i + o) % 256.
    let obfs = Obfuscator::new(vec![0u8], 1, ModifierStrategy::PositionalXorRotate);
    let mut data = vec![0u8, 0, 0, 0];
    obfs.apply(&mut data, 10);
    assert_eq!(data, vec![10u8, 11, 12, 13]);
}

#[test]
fn test_strategy_from_str() {
    assert!(matches!(
        ModifierStrategy::from_str("positional_xor_rotate"),
        Some(ModifierStrategy::PositionalXorRotate)
    ));
    assert!(matches!(
        ModifierStrategy::from_str("rotating_salt"),
        Some(ModifierStrategy::RotatingSalt)
    ));
    assert!(matches!(
        ModifierStrategy::from_str("substitution_table"),
        Some(ModifierStrategy::SubstitutionTable)
    ));
    assert!(ModifierStrategy::from_str("caesar").is_none());
    assert!(ModifierStrategy::from_str("").is_none());
}
