use cek::{
    chicken_hash, clear_list, extended_gcd, key_pairs_from_primes, decrypt, encrypt, generate_keys, is_minichicken_format, is_password_protected,
    is_yes_answer, key_labels, menu_step, mod_inverse, parse_selection, render_list, sign, verify, ChickenError,
    CipherData, KeyFile, KeyPair, KeyType, MenuAction, MenuKey,
};

fn small_public() -> KeyFile {
    KeyFile {
        key_type: KeyType::Public,
        owner: "hen".to_string(),
        pairs: vec![KeyPair { exponent: 5, modulus: 323 }, KeyPair { exponent: 3, modulus: 667 }],
    }
}

fn small_private() -> KeyFile {
    KeyFile {
        key_type: KeyType::Private,
        owner: "hen".to_string(),
        pairs: vec![KeyPair { exponent: 173, modulus: 323 }, KeyPair { exponent: 411, modulus: 667 }],
    }
}

#[test]
fn chicken_hash_exact_values() {
    assert_eq!(chicken_hash(b""), [103, 77, 217, 50, 132, 2, 3, 68]);
    assert_eq!(chicken_hash(b"hello chickens"), [43, 69, 186, 3, 126, 82, 135, 29]);
    assert_eq!(chicken_hash(b"abc"), [225, 222, 135, 21, 54, 107, 21, 161]);
}

#[test]
fn mod_inverse_of_generated_exponents() {
    assert_eq!(mod_inverse(5, 288), Some(173));
    assert_eq!(mod_inverse(1, 1), Some(0));
    assert_eq!(mod_inverse(6, 9), None);
    assert_eq!(mod_inverse(300, 7), Some(6));
}

#[test]
fn encrypt_exact_values_and_decrypt_back() {
    let cipher = encrypt(b"hi", &small_public());
    assert_eq!(cipher.owner, "hen");
    assert_eq!(cipher.values, vec![195, 608, 182, 302, 22]);
    assert_eq!(cipher.signature, None);
    assert_eq!(decrypt(&cipher, &small_private()).unwrap(), b"hi".to_vec());
}

#[test]
fn decrypt_without_prefix_fails() {
    let empty = CipherData { owner: "hen".to_string(), values: vec![], signature: None };
    assert_eq!(decrypt(&empty, &small_private()), Err("decryption failed: wrong key or corrupted data".to_string()));
    let wrong = encrypt(b"hi", &small_private());
    assert_eq!(decrypt(&wrong, &small_private()), Err("decryption failed: wrong key or corrupted data".to_string()));
}

#[test]
fn sign_and_verify_with_small_keys() {
    let cipher = encrypt(b"cluck", &small_public());
    let signed = sign(&cipher, &small_private());
    assert_eq!(signed.values, cipher.values);
    assert_eq!(signed.signature.as_ref().map(|s| s.len()), Some(8));
    assert_eq!(verify(&signed, &small_public()), Ok(()));
    assert_eq!(verify(&cipher, &small_public()), Err("ciphertext is not signed".to_string()));
    let mut tampered = signed.clone();
    tampered.values.push(7);
    assert_eq!(verify(&tampered, &small_public()), Err("signature verification failed: hash mismatch".to_string()));
}

#[test]
fn generated_keys_match_and_cover_bits() {
    let (pubk, privk) = generate_keys("rooster", 4096);
    assert_eq!(pubk.pairs.len(), 410);
    assert_eq!(privk.pairs.len(), 410);
    assert_eq!(privk.owner, "rooster");
    for (p, q) in pubk.pairs.iter().zip(privk.pairs.iter()) {
        assert_eq!(p.modulus, q.modulus);
        assert!((257..=1023).contains(&p.modulus));
    }
    let msg: Vec<u8> = (0u8..=255).rev().collect();
    assert_eq!(decrypt(&encrypt(&msg, &pubk), &privk).unwrap(), msg);
}

#[test]
fn key_roundtrip_both_formats() {
    for mini in [false, true] {
        let text = small_private().to_chicken_format(mini);
        assert_eq!(is_minichicken_format(&text), mini);
        assert!(!is_password_protected(&text));
        assert_eq!(KeyFile::from_chicken_format(&text), Ok(small_private()));
    }
}

#[test]
fn key_with_empty_owner_in_minichicken() {
    let kf = KeyFile { key_type: KeyType::Public, owner: String::new(), pairs: vec![] };
    let mini = kf.to_chicken_format(true);
    assert_eq!(KeyFile::from_chicken_format(&mini), Ok(kf));
}

#[test]
fn protected_key_roundtrip_and_refusals() {
    for mini in [false, true] {
        let text = small_private().to_protected_chicken_format("pw", mini);
        assert!(is_password_protected(&text));
        assert_eq!(is_minichicken_format(&text), mini);
        assert_eq!(KeyFile::from_protected_chicken_format(&text, "pw"), Ok(small_private()));
        assert_eq!(KeyFile::from_protected_chicken_format(&text, "pX"), Err("incorrect password".to_string()));
        assert_eq!(KeyFile::from_chicken_format(&text), Err("this key is password-protected; provide a password to decrypt it".to_string()));
    }
}

#[test]
fn cipher_roundtrip_with_unicode_owner() {
    let cd = CipherData { owner: "hühn".to_string(), values: vec![1, 1023], signature: Some(vec![0]) };
    for mini in [false, true] {
        let text = cd.to_chicken_format(mini);
        assert_eq!(CipherData::from_chicken_format(&text), Ok(cd.clone()));
    }
}

#[test]
fn parse_errors() {
    assert_eq!(KeyFile::from_chicken_format(""), Err("empty input".to_string()));
    assert_eq!(KeyFile::from_chicken_format(" \n\r\n"), Err("empty input".to_string()));
    assert_eq!(
        KeyFile::from_chicken_format("chicken chicken\nchicken duck"),
        Err("unexpected token in chicken line: \"duck\"".to_string())
    );
    assert_eq!(KeyFile::from_chicken_format("1 x 2"), Err("invalid number token: \"x\"".to_string()));
    assert_eq!(KeyFile::from_chicken_format("2 00 3"), Err("stored value 0 below offset".to_string()));
    assert_eq!(KeyFile::from_chicken_format("2 0 3"), Err("key file must have 3 sections (type, owner, data), got 2".to_string()));
    assert_eq!(KeyFile::from_chicken_format("5 0 100 0 6 324"), Err("invalid key type marker: [4]".to_string()));
    assert_eq!(KeyFile::from_chicken_format("2 0 300 0 6 324"), Err("owner byte value 299 out of range".to_string()));
    assert_eq!(
        KeyFile::from_chicken_format("2 0 256 0 6 324"),
        Err("invalid UTF-8 in owner: invalid utf-8 sequence of 1 bytes from index 0".to_string())
    );
    assert_eq!(KeyFile::from_chicken_format("2 0 98 0 6"), Err("key file must contain an even number of data values, got 1".to_string()));
    assert_eq!(
        KeyFile::from_protected_chicken_format("2 0 98 0 6 324", "pw"),
        Err("password-protected key file must have 4 sections, got 3".to_string())
    );
    assert_eq!(
        KeyFile::from_protected_chicken_format("2 0 98 0 1 0 6 324", "pw"),
        Err("not a password-protected key file".to_string())
    );
    assert_eq!(
        KeyFile::from_protected_chicken_format("4 0 99 0 219 173 238 123 114 173 34 195 0 6", "pw"),
        Err("decrypted key data must contain an even number of values, got 1".to_string())
    );
    assert_eq!(CipherData::from_chicken_format("5"), Err("ciphertext must have 2 or 3 sections (owner, data[, signature]), got 1".to_string()));
}

#[test]
fn error_messages() {
    assert_eq!(ChickenError::EmptyInput.message(), "empty input");
    assert_eq!(
        ChickenError::UnexpectedToken("du\"ck".to_string()).message(),
        "unexpected token in chicken line: \"du\\\"ck\""
    );
    assert_eq!(ChickenError::InvalidNumber("x".to_string()).message(), "invalid number token: \"x\"");
    assert_eq!(ChickenError::BelowOffset(0).message(), "stored value 0 below offset");
    assert_eq!(
        ChickenError::KeySectionCount(2).message(),
        "key file must have 3 sections (type, owner, data), got 2"
    );
    assert_eq!(ChickenError::InvalidKeyType(vec![4, 10, 0]).message(), "invalid key type marker: [4, 10, 0]");
    assert_eq!(ChickenError::InvalidKeyType(vec![]).message(), "invalid key type marker: []");
    assert_eq!(ChickenError::OwnerByteOutOfRange(299).message(), "owner byte value 299 out of range");
    assert_eq!(
        ChickenError::CipherSectionCount(17).message(),
        "ciphertext must have 2 or 3 sections (owner, data[, signature]), got 17"
    );
    assert_eq!(ChickenError::IncorrectPassword.message(), "incorrect password");
    assert_eq!(ChickenError::SignatureMismatch.message(), "signature verification failed: hash mismatch");
}

#[test]
fn format_detection_edges() {
    assert!(!is_minichicken_format(""));
    assert!(!is_minichicken_format("  chicken chicken"));
    assert!(is_minichicken_format("chickens"));
    assert!(is_minichicken_format("1 2"));
    assert!(!is_password_protected("not a key"));
    assert!(is_password_protected("4"));
}

#[test]
fn labels_are_file_names() {
    let keys = vec!["/home/hen/.cek/alice.pub".to_string(), "bob.cek".to_string(), "/".to_string()];
    assert_eq!(key_labels(&keys), vec!["alice.pub".to_string(), "bob.cek".to_string(), String::new()]);
}

#[test]
fn menu_text() {
    let labels = vec!["a.pub".to_string(), "b.pub".to_string()];
    assert_eq!(render_list(&labels, 1), "    a.pub\r\n  > b.pub\r\n");
    assert_eq!(clear_list(&labels), "\x1b[A\x1b[2K\x1b[A\x1b[2K\r");
    assert_eq!(clear_list(&vec![]), "\r");
}

#[test]
fn menu_moves_within_bounds() {
    assert_eq!(menu_step(0, 3, MenuKey::Up), (0, MenuAction::Redraw));
    assert_eq!(menu_step(2, 3, MenuKey::Up), (1, MenuAction::Redraw));
    assert_eq!(menu_step(1, 3, MenuKey::Down), (2, MenuAction::Redraw));
    assert_eq!(menu_step(2, 3, MenuKey::Down), (2, MenuAction::Redraw));
    assert_eq!(menu_step(1, 3, MenuKey::Enter), (1, MenuAction::Choose));
    assert_eq!(menu_step(1, 3, MenuKey::Quit), (1, MenuAction::Abort));
    assert_eq!(menu_step(1, 3, MenuKey::Other), (1, MenuAction::Redraw));
}

#[test]
fn typed_selection() {
    assert_eq!(parse_selection(" 2\n", 3), Some(1));
    assert_eq!(parse_selection("+1", 3), Some(0));
    assert_eq!(parse_selection("0", 3), None);
    assert_eq!(parse_selection("4", 3), None);
    assert_eq!(parse_selection("two", 3), None);
    assert_eq!(parse_selection("", 3), None);
}

#[test]
fn overwrite_answers() {
    assert!(is_yes_answer("y\n"));
    assert!(is_yes_answer("  Y "));
    assert!(!is_yes_answer("yes"));
    assert!(!is_yes_answer(""));
}

#[test]
fn pairs_from_chosen_primes() {
    assert_eq!(
        key_pairs_from_primes(17, 19),
        (KeyPair { exponent: 5, modulus: 323 }, KeyPair { exponent: 173, modulus: 323 })
    );
    assert_eq!(
        key_pairs_from_primes(23, 29),
        (KeyPair { exponent: 3, modulus: 667 }, KeyPair { exponent: 411, modulus: 667 })
    );
}

#[test]
fn extended_gcd_with_signs() {
    assert_eq!(extended_gcd(-240, 46), (2, 9, 47));
    assert_eq!(extended_gcd(240, -46), (-2, 9, 47));
    assert_eq!(extended_gcd(-240, -46), (-2, -9, 47));
    assert_eq!(extended_gcd(i64::MIN, 3), (1, 1, 3074457345618258603));
    assert_eq!(extended_gcd(0, 0), (0, 1, 0));
    assert_eq!(extended_gcd(-7, 0), (-7, 1, 0));
    assert_eq!(extended_gcd(i64::MIN, i64::MIN), (i64::MIN, 0, 1));
    assert_eq!(extended_gcd(5, i64::MIN), (-1, 3689348814741910323, 2));
}

#[test]
fn unused_pairs_may_have_zero_moduli() {
    let mut public = small_public();
    public.pairs.push(KeyPair { exponent: 5, modulus: 323 });
    public.pairs.push(KeyPair { exponent: 7, modulus: 0 });
    let mut private = small_private();
    private.pairs.push(KeyPair { exponent: 173, modulus: 323 });
    private.pairs.push(KeyPair { exponent: 7, modulus: 0 });
    let cipher = encrypt(b"", &public);
    assert_eq!(cipher.values, vec![195, 608, 182]);
    assert_eq!(decrypt(&cipher, &private), Ok(vec![]));
    let zero_key = KeyFile {
        key_type: KeyType::Public,
        owner: "hen".to_string(),
        pairs: vec![KeyPair { exponent: 5, modulus: 0 }],
    };
    let unsigned = CipherData { owner: "hen".to_string(), values: vec![u64::MAX], signature: None };
    assert_eq!(verify(&unsigned, &zero_key), Err("ciphertext is not signed".to_string()));
}

#[test]
fn detection_with_empty_sections() {
    let empty_key = KeyFile { key_type: KeyType::Private, owner: String::new(), pairs: vec![] };
    for mini in [false, true] {
        let plain = empty_key.to_chicken_format(mini);
        assert_eq!(is_minichicken_format(&plain), mini);
        assert!(!is_password_protected(&plain));
        let protected = empty_key.to_protected_chicken_format("pw", mini);
        assert_eq!(is_minichicken_format(&protected), mini);
        assert!(is_password_protected(&protected));
        assert_eq!(
            KeyFile::from_chicken_format(&protected),
            Err("this key is password-protected; provide a password to decrypt it".to_string())
        );
        let cd = CipherData { owner: String::new(), values: vec![], signature: Some(vec![]) };
        assert_eq!(is_minichicken_format(&cd.to_chicken_format(mini)), mini);
    }
}
