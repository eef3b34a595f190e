use signum::classes::{capital_chars, digit_chars, lower_chars, special_chars, derive_pool};
use signum::generate::{generate_password, generate_pin, sample_from_pool, sentinel};
use signum::random::RandomSource;

fn all_class_chars() -> Vec<u8> {
    let mut all = Vec::new();
    all.extend_from_slice(&capital_chars());
    all.extend_from_slice(&lower_chars());
    all.extend_from_slice(&digit_chars());
    all.extend_from_slice(&special_chars());
    all
}

#[test]
fn test_password_exact_replay() {
    // Every draw is 0: seeds a, 0, ), A; fills with A twice; the shuffle
    // with all-zero draws swaps each position down to the front.
    let mut src = RandomSource::replay(vec![0]);
    let out = generate_password(6, true, false, &None, &mut src);
    assert_eq!(out, b"0)AAAa".to_vec());
}

#[test]
fn test_pin_exact_replay() {
    let mut src = RandomSource::replay(vec![0, 4, 8, 3, 1]);
    let out = generate_pin(5, &mut src);
    assert_eq!(out, b"04831".to_vec());
}

#[test]
fn test_replay_determinism_password() {
    let draws = vec![7, 3, 9, 1, 4, 4, 2, 8, 0, 5];
    let mut a = RandomSource::replay(draws.clone());
    let mut b = RandomSource::replay(draws);
    let excl = Some(b"qz".to_vec());
    let pa = generate_password(16, true, true, &excl, &mut a);
    let pb = generate_password(16, true, true, &excl, &mut b);
    assert_eq!(pa, pb);
    // the sources are left in the same state, so the next secrets agree too
    assert_eq!(generate_pin(8, &mut a), generate_pin(8, &mut b));
}

#[test]
fn test_password_has_mandatory_classes() {
    let mut src = RandomSource::system();
    for _ in 0..50 {
        let out = generate_password(12, true, false, &None, &mut src);
        assert_eq!(out.len(), 12);
        assert!(out.iter().any(|c| lower_chars().contains(c)));
        assert!(out.iter().any(|c| digit_chars().contains(c)));
        assert!(out.iter().any(|c| special_chars().contains(c)));
        assert!(out.iter().any(|c| capital_chars().contains(c)));
    }
}

#[test]
fn test_password_avoids_ambiguous() {
    let mut src = RandomSource::system();
    for _ in 0..100 {
        let out = generate_password(50, true, true, &None, &mut src);
        assert_eq!(out.len(), 50);
        for c in &out {
            assert!(!b"O0Il1".contains(c));
        }
    }
}

#[test]
fn test_password_without_capitals() {
    let mut src = RandomSource::system();
    for _ in 0..20 {
        let out = generate_password(100, false, false, &None, &mut src);
        assert_eq!(out.len(), 100);
        for c in &out {
            assert!(!c.is_ascii_uppercase());
        }
    }
}

#[test]
fn test_password_respects_exclusion() {
    let mut src = RandomSource::system();
    let excl = Some(b"abcDEF123$#".to_vec());
    for _ in 0..20 {
        let out = generate_password(40, true, false, &excl, &mut src);
        assert_eq!(out.len(), 40);
        for c in &out {
            assert!(!b"abcDEF123$#".contains(c));
        }
    }
}

#[test]
fn test_password_all_excluded_gives_sentinel() {
    let mut src = RandomSource::system();
    let excl = Some(all_class_chars());
    let out = generate_password(100, true, false, &excl, &mut src);
    assert_eq!(out, b"!!!_POOL_EMPTY_!!!".to_vec());
}

#[test]
fn test_sentinel_value() {
    let s = sentinel();
    assert_eq!(s, b"!!!_POOL_EMPTY_!!!".to_vec());
    // the underscore marks it: no class character is an underscore
    assert!(s.contains(&b'_'));
    assert!(!all_class_chars().contains(&b'_'));
}

#[test]
fn test_pin_is_digits() {
    let mut src = RandomSource::system();
    for _ in 0..10 {
        let out = generate_pin(20, &mut src);
        assert_eq!(out.len(), 20);
        for c in &out {
            assert!(c.is_ascii_digit());
        }
    }
}

#[test]
fn test_pin_pool_with_exclusion() {
    // a digit pool derived with an exclusion string: sampling stays inside it
    let mut src = RandomSource::system();
    let digits = digit_chars();
    let pool = derive_pool(&digits, false, &Some(b"012".to_vec()));
    assert_eq!(pool, b"3456789".to_vec());
    let out = sample_from_pool(&pool, 50, &mut src).unwrap();
    assert_eq!(out.len(), 50);
    for c in &out {
        assert!((b'3'..=b'9').contains(c));
    }
}

#[test]
fn test_sample_from_empty_pool_is_none() {
    let mut src = RandomSource::system();
    let empty: Vec<u8> = Vec::new();
    assert!(sample_from_pool(&empty, 5, &mut src).is_none());
}

#[test]
fn test_derive_pool_ambiguous_exact() {
    let digits = digit_chars();
    let lower = lower_chars();
    let capitals = capital_chars();
    assert_eq!(derive_pool(&digits, true, &None), b"23456789".to_vec());
    assert_eq!(derive_pool(&lower, true, &None), b"abcdefghijkmnopqrstuvwxyz".to_vec());
    assert_eq!(derive_pool(&capitals, true, &None), b"ABCDEFGHJKLMNPQRSTUVWXYZ".to_vec());
}

#[test]
fn test_short_length_truncates() {
    // length below the number of mandatory classes: capped, not grown
    let mut src = RandomSource::system();
    for _ in 0..20 {
        let out = generate_password(2, true, false, &None, &mut src);
        assert_eq!(out.len(), 2);
    }
}

#[test]
fn test_password_chars_come_from_classes() {
    let mut src = RandomSource::system();
    let all = all_class_chars();
    let out = generate_password(30, true, false, &None, &mut src);
    assert_eq!(out.len(), 30);
    for c in &out {
        assert!(all.contains(c));
    }
}

#[test]
fn test_exclusion_tolerates_arbitrary_bytes() {
    // duplicates and characters that belong to no class are harmless
    let mut src = RandomSource::system();
    let excl = Some(vec![b'a', b'a', b'a', 0u8, 255u8, b'_', b' ']);
    let out = generate_password(25, true, false, &excl, &mut src);
    assert_eq!(out.len(), 25);
    for c in &out {
        assert_ne!(*c, b'a');
    }
}

#[test]
fn test_minimum_length() {
    let mut src = RandomSource::system();
    let out = generate_password(1, true, false, &None, &mut src);
    assert_eq!(out.len(), 1);
    let pin = generate_pin(1, &mut src);
    assert_eq!(pin.len(), 1);
}

#[test]
fn test_classes_exact() {
    assert_eq!(capital_chars(), b"ABCDEFGHIJKLMNOPQRSTUVWXYZ".to_vec());
    assert_eq!(lower_chars(), b"abcdefghijklmnopqrstuvwxyz".to_vec());
    assert_eq!(digit_chars(), b"0123456789".to_vec());
    assert_eq!(special_chars(), b")-(*&^%$#@!~".to_vec());
}
