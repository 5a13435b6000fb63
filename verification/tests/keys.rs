use kreatilas::proto::{distance, BlobHash, PublicKey};

fn filled(f: impl Fn(usize) -> u8) -> [u8; 32] {
    let mut b = [0u8; 32];
    for i in 0..32 {
        b[i] = f(i);
    }
    b
}

#[test]
fn key_holds_its_bytes_most_significant_first() {
    let b = filled(|i| i as u8);
    let key = PublicKey::from_bytes(&b);
    assert_eq!(key.hi, 0x000102030405060708090a0b0c0d0e0f);
    assert_eq!(key.lo, 0x101112131415161718191a1b1c1d1e1f);
    assert_eq!(key.as_bytes(), b);
    let hash = BlobHash::from_bytes(&b);
    assert_eq!((hash.hi, hash.lo), (key.hi, key.lo));
    assert_eq!(hash.as_bytes(), b);
}

#[test]
fn bytes_and_keys_determine_each_other() {
    let mut all = vec![filled(|_| 0), filled(|_| 255)];
    for at in [0, 15, 16, 31] {
        all.push(filled(|i| if i == at { 1 } else { 0 }));
    }
    for a in &all {
        assert_eq!(PublicKey::from_bytes(a).as_bytes(), *a);
        for b in &all {
            assert_eq!(PublicKey::from_bytes(a) == PublicKey::from_bytes(b), a == b);
        }
    }
}

#[test]
fn key_agrees_with_blake3() {
    let outside = blake3::hash(b"data");
    let hash = BlobHash::from_bytes(outside.as_bytes());
    assert_eq!(&hash.as_bytes(), outside.as_bytes());
}

#[test]
fn distance_is_taken_half_by_half() {
    let a = PublicKey { hi: 10, lo: 3 };
    let b = BlobHash { hi: 4, lo: 9 };
    assert_eq!(distance(a, b), (6, 6));
    let c = PublicKey { hi: 4, lo: 9 };
    assert_eq!(distance(c, b), (0, 0));
    let d = PublicKey { hi: u128::MAX, lo: 0 };
    let e = BlobHash { hi: 0, lo: u128::MAX };
    assert_eq!(distance(d, e), (u128::MAX, u128::MAX));
}

#[test]
fn first_halves_decide_which_is_nearer() {
    let key = BlobHash { hi: 100, lo: 100 };
    let near = PublicKey { hi: 101, lo: 0 };
    let far = PublicKey { hi: 102, lo: 100 };
    let same = PublicKey { hi: 99, lo: 99 };
    assert!(distance(near, key) < distance(far, key));
    assert!(distance(same, key) < distance(near, key));
    assert!(distance(same, key) < distance(far, key));
}
