use pass_gen::config::SEED_BYTES;
use pass_gen::kdf::{
    build_core, bytes_to_password, derive_key, derive_key_argon2id, generate_password,
    try_generate_password, GenerateOptions, KdfAlgorithm, SYMBOLS,
};

fn hex(bytes: &[u8]) -> String {
    bytes.iter().map(|b| format!("{:02x}", b)).collect()
}

#[test]
fn pbkdf2_matches_published_vectors() {
    assert_eq!(
        hex(&derive_key("password", "salt", 1, 32)),
        "120fb6cffcf8b32c43e7225256c4f837a86548c92ccc35480805987cb70be17b"
    );
    assert_eq!(
        hex(&derive_key("password", "salt", 2, 32)),
        "ae4d0c95af6b46d32d0adff928f06dd02a303f8ef3c251dfd6e2d85a95474c43"
    );
}

#[test]
fn pbkdf2_output_has_requested_length() {
    assert_eq!(derive_key("a", "b", 3, 0).len(), 0);
    assert_eq!(derive_key("a", "b", 3, 100).len(), 100);
}

#[test]
fn argon2id_output_depends_on_inputs() {
    let k = derive_key_argon2id("core", "salt:passgen", 1, 8, 1, 32);
    assert_eq!(k.len(), 32);
    assert_ne!(k, vec![0u8; 32]);
    assert_ne!(derive_key_argon2id("core2", "salt:passgen", 1, 8, 1, 32), k);
    assert_ne!(derive_key_argon2id("core", "salt:passgen", 2, 8, 1, 32), k);
    assert_ne!(derive_key_argon2id("core", "salt:passgen", 1, 16, 1, 32), k);
    assert_ne!(derive_key_argon2id("core", "salt:passgen", 1, 16, 2, 32), k);
}

#[test]
fn build_core_writes_seed_in_lower_hex() {
    assert_eq!(build_core("k", &[0x00, 0xab, 0x7f]), "00ab7f:k");
    assert_eq!(build_core("", &[]), ":");
    assert_eq!(build_core("コア", &[0xff]), "ff:コア");
}

#[test]
fn build_core_keeps_core_and_seed_apart() {
    // A colon in the core cannot be mistaken for the end of the seed.
    assert_ne!(build_core("b:c", &[0xa1]), build_core("c", &[0xa1, 0xb0]));
    assert_ne!(build_core("0:k", &[]), build_core("k", &[0x00]));
    assert_ne!(build_core("k", &[1]), build_core("k", &[2]));
}

#[test]
fn password_one_character_per_chunk_then_per_byte() {
    // One 8-byte chunk of zeros gives 'A'; the remaining characters come from single bytes.
    assert_eq!(bytes_to_password(&[0u8; 8], 3, false, false, b""), "AAA");
    // Chunk value 1 selects 'B'; key bytes 0 select 'A'.
    assert_eq!(bytes_to_password(&[0, 0, 0, 0, 0, 0, 0, 1], 3, false, false, b""), "BAA");
    // Two chunks: values 26 ('a') and 0x0100 = 256, 256 % 52 = 48 ('w').
    assert_eq!(
        bytes_to_password(&[0, 0, 0, 0, 0, 0, 0, 26, 0, 0, 0, 0, 0, 0, 1, 0], 2, false, false, b""),
        "aw"
    );
    // A short last chunk is padded with zeros on the right: 1 << 56 is 48 modulo 52 ('w').
    assert_eq!(bytes_to_password(&[1], 1, false, false, b""), "w");
}

#[test]
fn password_inserts_missing_digit() {
    // All 'A' before the guarantee; the digit goes to position key[2] % 4 = 0,
    // digit key[3] % 10 = 0.
    assert_eq!(bytes_to_password(&[0u8; 8], 4, true, false, b""), "0AAA");
}

#[test]
fn password_inserts_missing_symbol() {
    // Symbol position key[3] % 4 = 0, symbol key[4] % 3 = 0 ('!').
    assert_eq!(bytes_to_password(&[0u8; 8], 4, false, true, b"!@#"), "!AAA");
}

#[test]
fn password_symbol_does_not_replace_the_only_digit() {
    // The digit goes to position 0; the symbol would go there too, so it takes position 1.
    assert_eq!(bytes_to_password(&[0u8; 5], 8, true, true, b"!"), "0!AAAAAA");
    // An all-zero 8-byte key with the default symbols keeps a digit as well.
    let p = bytes_to_password(&[0u8; 8], 8, true, true, SYMBOLS.as_bytes());
    assert_eq!(p, "0!AAAAAA");
    // With room for one character only, the symbol wins.
    assert_eq!(bytes_to_password(&[0u8; 5], 1, true, true, b"!"), "!");
    // When another digit is present the symbol goes where the key puts it.
    let mut key = [0u8; 16];
    key[15] = 52; // second chunk picks alphabet[52] = '0'
    assert_eq!(bytes_to_password(&key, 2, true, true, b"!"), "!0");
}

#[test]
fn password_keeps_classes_already_present() {
    let key: Vec<u8> = (0u8..=255).collect();
    let p = bytes_to_password(&key, 40, true, true, SYMBOLS.as_bytes());
    assert_eq!(p.chars().count(), 40);
    assert!(p.chars().any(|c| c.is_ascii_digit()));
    assert!(p.bytes().any(|c| SYMBOLS.as_bytes().contains(&c)));
}

#[test]
fn password_without_digits_or_symbols_uses_letters_only() {
    let key: Vec<u8> = (0u8..200).map(|i| i.wrapping_mul(37)).collect();
    let p = bytes_to_password(&key, 30, false, false, SYMBOLS.as_bytes());
    assert!(p.chars().all(|c| c.is_ascii_alphabetic()));
    assert_eq!(p.len(), 30);
}

#[test]
fn password_of_length_zero_is_empty() {
    assert_eq!(bytes_to_password(&[], 0, false, false, b""), "");
}

#[test]
fn generate_password_matches_its_parts() {
    let seed = vec![3u8; 4];
    let opts = GenerateOptions {
        length: 12,
        kdf: KdfAlgorithm::Pbkdf2,
        pbkdf2_iterations: 5,
        argon2_time_cost: 1,
        argon2_memory_cost: 8,
        argon2_parallelism: 1,
        use_digits: true,
        use_symbols: false,
        symbols: SYMBOLS.as_bytes(),
    };
    let p = generate_password("core", "site", &seed, &opts);
    let key = derive_key(&build_core("core", &seed), "site:passgen", 5, 96);
    assert_eq!(p, bytes_to_password(&key, 12, true, false, SYMBOLS.as_bytes()));
    assert_eq!(p, generate_password("core", "site", &seed, &opts));
}

#[test]
fn generate_password_argon2id_matches_its_parts() {
    let seed = vec![9u8; SEED_BYTES];
    let opts = GenerateOptions {
        length: 10,
        kdf: KdfAlgorithm::Argon2id,
        pbkdf2_iterations: 1,
        argon2_time_cost: 1,
        argon2_memory_cost: 16,
        argon2_parallelism: 2,
        use_digits: false,
        use_symbols: true,
        symbols: b"*",
    };
    let p = generate_password("core", "", &seed, &opts);
    let key = derive_key_argon2id(&build_core("core", &seed), ":passgen", 1, 16, 2, 80);
    assert_eq!(p, bytes_to_password(&key, 10, false, true, b"*"));
    assert!(p.contains('*'));
}

#[test]
fn kdf_names() {
    assert_eq!(KdfAlgorithm::Pbkdf2.name(), "pbkdf2");
    assert_eq!(KdfAlgorithm::Argon2id.name(), "argon2id");
    assert_eq!(KdfAlgorithm::from_name("pbkdf2"), Some(KdfAlgorithm::Pbkdf2));
    assert_eq!(KdfAlgorithm::from_name("PBKDF2"), Some(KdfAlgorithm::Pbkdf2));
    assert_eq!(KdfAlgorithm::from_name("Argon2ID"), Some(KdfAlgorithm::Argon2id));
    assert_eq!(KdfAlgorithm::from_name("argon2"), None);
    assert_eq!(KdfAlgorithm::from_name(""), None);
}

#[test]
fn try_generate_password_reports_invalid_text() {
    let seed = vec![1u8; 8];
    let mut opts = GenerateOptions {
        length: 8,
        kdf: KdfAlgorithm::Pbkdf2,
        pbkdf2_iterations: 2,
        argon2_time_cost: 1,
        argon2_memory_cost: 8,
        argon2_parallelism: 1,
        use_digits: false,
        use_symbols: true,
        symbols: &[0xC3],
    };
    // A lone 0xC3 byte is never UTF-8 text, and the symbol guarantee puts one in.
    assert_eq!(try_generate_password("k", "s", &seed, &opts), None);
    opts.symbols = SYMBOLS.as_bytes();
    assert_eq!(
        try_generate_password("k", "s", &seed, &opts),
        Some(generate_password("k", "s", &seed, &opts))
    );
}
