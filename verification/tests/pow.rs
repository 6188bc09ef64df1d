use filehost::pow::{from_hex, leading_zero_bits, now, to_hex, PowSecret};

#[test]
fn issued_token_verifies_with_a_solving_nonce() {
    let secret = PowSecret::generate();
    let token = secret.issue(60).unwrap();
    // difficulty 0 means any nonce "solves" it — just exercises the plumbing
    assert!(secret.verify(&token, "anything", 0));
}

#[test]
fn rejects_tampered_token() {
    let secret = PowSecret::generate();
    let mut token = secret.issue(60).unwrap();
    let other = if token.starts_with("ff") { "00" } else { "ff" };
    token.replace_range(0..2, other);
    assert!(!secret.verify(&token, "anything", 0));
}

#[test]
fn rejects_token_from_a_different_secret() {
    let a = PowSecret::generate();
    let b = PowSecret::generate();
    let token = a.issue(60).unwrap();
    assert!(!b.verify(&token, "anything", 0));
}

#[test]
fn rejects_expired_token() {
    let secret = PowSecret::generate();
    let token = secret.issue(0).unwrap();
    let start = std::time::Instant::now();
    while start.elapsed() < std::time::Duration::from_millis(1100) {}
    assert!(!secret.verify(&token, "anything", 0));
}

#[test]
fn rejects_nonce_that_does_not_meet_difficulty() {
    let secret = PowSecret::generate();
    let token = secret.issue(60).unwrap();
    // 256 is higher than any 32-byte hash can satisfy
    assert!(!secret.verify(&token, "anything", 256));
}

#[test]
fn a_token_holds_until_its_expiry() {
    let secret = PowSecret::from_key([7; 32]);
    let token = secret.issue_at(&[1; 16], 1000, 60).unwrap();
    assert_eq!(token.len(), 112);
    assert!(token.starts_with("01010101010101010101010101010101"));
    assert_eq!(&token[32..48], "0000000000000424");
    assert!(secret.verify_at(&token, "n", 0, 1000));
    assert!(secret.verify_at(&token, "n", 0, 1060));
    assert!(!secret.verify_at(&token, "n", 0, 1061));
    assert!(!secret.verify_at(&token, "n", 256, 1000));
    assert!(!secret.verify_at(&token, "n", u32::MAX, 1000));
    assert!(secret.issue_at(&[1; 16], u64::MAX, 1).is_none());
    let mac = blake3::keyed_hash(&[7; 32], &from_hex(&token[..48]).unwrap());
    assert_eq!(&token[48..], to_hex(mac.as_bytes()));
}

#[test]
fn a_nonce_is_judged_by_its_digest() {
    let secret = PowSecret::from_key([3; 32]);
    let token = secret.issue_at(&[9; 16], 5, 5).unwrap();
    let mut solved = 0;
    for i in 0..200u32 {
        let nonce = i.to_string();
        let digest: [u8; 32] =
            <sha2::Sha256 as sha2::Digest>::digest(format!("{token}.{nonce}").as_bytes()).into();
        let bits = leading_zero_bits(&digest);
        assert!(secret.verify_at(&token, &nonce, bits, 6));
        assert!(!secret.verify_at(&token, &nonce, bits + 1, 6));
        if bits >= 4 {
            solved += 1;
        }
    }
    assert!(solved > 0);
}

#[test]
fn garbage_is_no_token() {
    let secret = PowSecret::from_key([3; 32]);
    for bad in ["", "zz", "abc", "00", "é"] {
        assert!(!secret.verify_at(bad, "n", 0, 0));
    }
}

#[test]
fn counts_zero_bits() {
    assert_eq!(leading_zero_bits(&[]), 0);
    assert_eq!(leading_zero_bits(&[0x80]), 0);
    assert_eq!(leading_zero_bits(&[0x00, 0x01]), 15);
    assert_eq!(leading_zero_bits(&[0x00, 0x00]), 16);
    assert_eq!(leading_zero_bits(&[0x1f, 0xff]), 3);
}

#[test]
fn hexadecimal() {
    assert_eq!(to_hex(&[0x00, 0xab, 0xff]), "00abff");
    assert_eq!(from_hex("00ABff"), Some(vec![0x00, 0xab, 0xff]));
    assert_eq!(from_hex("0"), None);
    assert_eq!(from_hex("0g"), None);
    assert_eq!(from_hex("éé"), None);
}

#[test]
fn the_clock_runs() {
    assert!(now().unwrap() > 1_700_000_000);
}

#[test]
fn a_token_needs_a_clock() {
    let secret = PowSecret::from_key([7; 32]);
    assert!(secret.issue_on(&[1; 16], None, 60).is_none());
    assert!(secret.issue_on(&[1; 16], Some(u64::MAX), 1).is_none());
    assert_eq!(
        secret.issue_on(&[1; 16], Some(1000), 60),
        secret.issue_at(&[1; 16], 1000, 60)
    );
    assert!(secret.issue_on(&[1; 16], Some(1000), 60).is_some());
}
