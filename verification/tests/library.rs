use cek::{
    chicken_hash, decrypt, encrypt, extended_gcd, gcd, generate_keys, is_password_protected, is_prime, mod_inverse,
    mod_pow, sign, valid_prime_pairs, verify, CipherData, KeyFile, KeyPair, KeyType,
};

#[test]
fn test_gcd() {
    assert_eq!(gcd(54, 24), 6);
    assert_eq!(gcd(17, 5), 1);
    assert_eq!(gcd(0, 9), 9);
}

#[test]
fn test_extended_gcd() {
    let (g, x, y) = extended_gcd(240, 46);
    assert_eq!(g, 2);
    assert_eq!(240 * x + 46 * y, g);
}

#[test]
fn test_mod_inverse() {
    assert_eq!(mod_inverse(5, 288), Some(173));
    assert_eq!(mod_inverse(3, 616), Some(411));
    assert_eq!(mod_inverse(2, 4), None);
}

#[test]
fn test_mod_pow() {
    assert_eq!(mod_pow(4, 13, 497), 445);
    assert_eq!(mod_pow(2, 10, 1000), 24);
    assert_eq!(mod_pow(123, 0, 7), 1);
}

#[test]
fn test_is_prime() {
    assert!(is_prime(2));
    assert!(is_prime(17));
    assert!(is_prime(31));
    assert!(!is_prime(1));
    assert!(!is_prime(0));
    assert!(!is_prime(323));
}

#[test]
fn test_valid_prime_pairs() {
    let pairs = valid_prime_pairs();
    assert!(!pairs.is_empty());
    for &(p, q) in &pairs {
        assert!(is_prime(p));
        assert!(is_prime(q));
        assert_ne!(p, q);
        let n = p * q;
        assert!((257..=1023).contains(&n));
    }
    assert!(pairs.contains(&(17, 19)));
    assert!(pairs.contains(&(23, 29)));
}

#[test]
fn test_generate_and_roundtrip() {
    let (pubk, privk) = generate_keys("cluckmaster", 256);
    assert_eq!(pubk.pairs.len(), 26);
    assert_eq!(privk.pairs.len(), 26);
    assert_eq!(pubk.owner, "cluckmaster");
    assert_eq!(pubk.key_type, KeyType::Public);
    assert_eq!(privk.key_type, KeyType::Private);

    let msg: Vec<u8> = (0u8..=255).collect();
    let cipher = encrypt(&msg, &pubk);
    let back = decrypt(&cipher, &privk).expect("decryption should succeed");
    assert_eq!(back, msg);
    assert_eq!(cipher.owner, "cluckmaster");
}

#[test]
fn test_decrypt_wrong_key() {
    let (pubk1, _privk1) = generate_keys("alice", 256);
    let (_pubk2, privk2) = generate_keys("bob", 256);

    let msg = b"hello chickens";
    let cipher = encrypt(msg, &pubk1);
    let result = decrypt(&cipher, &privk2);
    assert!(result.is_err());
}

#[test]
fn test_keyfile_chicken_format_roundtrip() {
    let kf = KeyFile {
        key_type: KeyType::Public,
        owner: "cluckmaster".to_string(),
        pairs: vec![KeyPair { exponent: 5, modulus: 323 }, KeyPair { exponent: 3, modulus: 667 }],
    };

    let std = kf.to_chicken_format(false);
    let lines: Vec<&str> = std.lines().collect();
    assert_eq!(lines[0].split_whitespace().count(), 2);
    assert_eq!(lines[1], "");
    assert_eq!(lines[13], "");
    assert_eq!(lines[14].split_whitespace().count(), 6);
    let parsed = KeyFile::from_chicken_format(&std).unwrap();
    assert_eq!(parsed, kf);

    let mini = kf.to_chicken_format(true);
    assert_eq!(mini, "2 0 100 109 118 100 108 110 98 116 117 102 115 0 6 324 4 668");
    let parsed_mini = KeyFile::from_chicken_format(&mini).unwrap();
    assert_eq!(parsed_mini, kf);
}

#[test]
fn test_keyfile_type_preserved() {
    let kf_priv = KeyFile {
        key_type: KeyType::Private,
        owner: "a".to_string(),
        pairs: vec![KeyPair { exponent: 10, modulus: 323 }],
    };
    let mini = kf_priv.to_chicken_format(true);
    assert!(mini.starts_with("3 0"));
    let parsed = KeyFile::from_chicken_format(&mini).unwrap();
    assert_eq!(parsed.key_type, KeyType::Private);
}

#[test]
fn test_cipherdata_format_roundtrip() {
    let cd = CipherData { owner: "hen".to_string(), values: vec![0, 5, 255], signature: None };
    let std = cd.to_chicken_format(false);
    let parsed = CipherData::from_chicken_format(&std).unwrap();
    assert_eq!(parsed, cd);

    let mini = cd.to_chicken_format(true);
    assert_eq!(mini, "105 102 111 0 1 6 256");
    let parsed_mini = CipherData::from_chicken_format(&mini).unwrap();
    assert_eq!(parsed_mini, cd);
}

#[test]
fn test_format_detection() {
    let mini = "112 120 111 102 115 0 1 2 3";
    let cd = CipherData::from_chicken_format(mini).unwrap();
    assert_eq!(cd.owner, "owner");
    assert_eq!(cd.values, vec![0, 1, 2]);

    let cd2 = CipherData { owner: "ox".to_string(), values: vec![1, 0], signature: None };
    let std = cd2.to_chicken_format(false);
    let parsed = CipherData::from_chicken_format(&std).unwrap();
    assert_eq!(parsed.owner, "ox");
    assert_eq!(parsed.values, vec![1, 0]);
}

#[test]
fn test_chicken_hash_deterministic() {
    let h1 = chicken_hash(b"hello chickens");
    let h2 = chicken_hash(b"hello chickens");
    assert_eq!(h1, h2);
}

#[test]
fn test_chicken_hash_different_inputs() {
    let h1 = chicken_hash(b"hello");
    let h2 = chicken_hash(b"hellp");
    assert_ne!(h1, h2);
}

#[test]
fn test_chicken_hash_empty() {
    let h = chicken_hash(b"");
    assert_eq!(h.len(), 8);
    assert_ne!(h, [0u8; 8]);
}

#[test]
fn test_chicken_hash_long_input() {
    let data: Vec<u8> = (0u8..=255).cycle().take(10_000).collect();
    let h = chicken_hash(&data);
    assert_eq!(h.len(), 8);
}

#[test]
fn test_sign_verify_roundtrip() {
    let (pubk, privk) = generate_keys("signer", 256);
    let (enc_pubk, _) = generate_keys("recipient", 256);
    let cipher = encrypt(b"secret message", &enc_pubk);
    let signed = sign(&cipher, &privk);
    assert!(signed.signature.is_some());
    assert!(verify(&signed, &pubk).is_ok());
}

#[test]
fn test_verify_wrong_key() {
    let (_, privk_a) = generate_keys("alice", 256);
    let (pubk_b, _) = generate_keys("bob", 256);
    let (enc_pubk, _) = generate_keys("recipient", 256);
    let cipher = encrypt(b"data", &enc_pubk);
    let signed = sign(&cipher, &privk_a);
    assert!(verify(&signed, &pubk_b).is_err());
}

#[test]
fn test_verify_tampered_data() {
    let (pubk, privk) = generate_keys("signer", 256);
    let (enc_pubk, _) = generate_keys("recipient", 256);
    let cipher = encrypt(b"original", &enc_pubk);
    let mut signed = sign(&cipher, &privk);
    signed.values[0] = signed.values[0].wrapping_add(1);
    assert!(verify(&signed, &pubk).is_err());
}

#[test]
fn test_verify_tampered_signature() {
    let (pubk, privk) = generate_keys("signer", 256);
    let (enc_pubk, _) = generate_keys("recipient", 256);
    let cipher = encrypt(b"data", &enc_pubk);
    let mut signed = sign(&cipher, &privk);
    if let Some(ref mut sig) = signed.signature {
        sig[0] = sig[0].wrapping_add(1);
    }
    assert!(verify(&signed, &pubk).is_err());
}

#[test]
fn test_password_protected_roundtrip() {
    let (_, privk) = generate_keys("hen", 256);
    for mini in [false, true] {
        let protected = privk.to_protected_chicken_format("s3cr3t", mini);
        assert!(is_password_protected(&protected));
        let recovered = KeyFile::from_protected_chicken_format(&protected, "s3cr3t").unwrap();
        assert_eq!(recovered.key_type, KeyType::Private);
        assert_eq!(recovered.owner, privk.owner);
        assert_eq!(recovered.pairs, privk.pairs);
    }
}

#[test]
fn test_password_protected_wrong_password() {
    let (_, privk) = generate_keys("hen", 256);
    let protected = privk.to_protected_chicken_format("correct", false);
    assert!(KeyFile::from_protected_chicken_format(&protected, "wrong").is_err());
}

#[test]
fn test_password_protected_rejected_by_from_chicken_format() {
    let (_, privk) = generate_keys("hen", 256);
    let protected = privk.to_protected_chicken_format("pw", false);
    let err = KeyFile::from_chicken_format(&protected).unwrap_err();
    assert!(err.contains("password-protected"));
}

#[test]
fn test_password_protected_encrypt_decrypt_e2e() {
    let (pubk, privk) = generate_keys("hen", 256);
    let protected = privk.to_protected_chicken_format("pw", false);
    let recovered = KeyFile::from_protected_chicken_format(&protected, "pw").unwrap();
    let cipher = encrypt(b"bock bock", &pubk);
    let plain = decrypt(&cipher, &recovered).unwrap();
    assert_eq!(plain, b"bock bock");
}

#[test]
fn test_verify_unsigned() {
    let (pubk, _) = generate_keys("signer", 256);
    let (enc_pubk, _) = generate_keys("recipient", 256);
    let cipher = encrypt(b"data", &enc_pubk);
    assert!(verify(&cipher, &pubk).is_err());
}

#[test]
fn test_cipherdata_signed_format_roundtrip() {
    let cd = CipherData { owner: "hen".to_string(), values: vec![10, 20, 30], signature: Some(vec![100, 200, 300]) };
    let std = cd.to_chicken_format(false);
    let parsed = CipherData::from_chicken_format(&std).unwrap();
    assert_eq!(parsed, cd);

    let mini = cd.to_chicken_format(true);
    let parsed_mini = CipherData::from_chicken_format(&mini).unwrap();
    assert_eq!(parsed_mini, cd);
}

#[test]
fn test_signed_format_backwards_compatible() {
    let unsigned = CipherData { owner: "ox".to_string(), values: vec![1, 2], signature: None };
    let text = unsigned.to_chicken_format(false);
    let parsed = CipherData::from_chicken_format(&text).unwrap();
    assert_eq!(parsed.signature, None);
    assert_eq!(parsed.values, vec![1, 2]);
}
