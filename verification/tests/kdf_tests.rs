use pass_gen::config::{
    DEFAULT_ITERATIONS, DEFAULT_LENGTH, KEY_LENGTH_MIN, KEY_LENGTH_MULTIPLIER,
    MIN_PASSWORD_LENGTH, SALT_SUFFIX, SEED_BYTES,
};
use pass_gen::kdf::{
    build_core, bytes_to_password, derive_key, derive_key_argon2id, generate_password,
    GenerateOptions, KdfAlgorithm, DIGITS, LOWERCASE, SYMBOLS, UPPERCASE,
};

fn test_key_direct(core: &str, site: &str, iterations: u32, seed: &[u8]) -> Vec<u8> {
    let key_len = (DEFAULT_LENGTH * KEY_LENGTH_MULTIPLIER).max(KEY_LENGTH_MIN);
    let combined = build_core(core, seed);
    let salt = format!("{}{}", site, SALT_SUFFIX);
    derive_key(&combined, &salt, iterations, key_len)
}

#[test]
fn test_deterministic() {
    let seed = vec![0u8; SEED_BYTES];
    let key = test_key_direct("mysecret", "example.com", DEFAULT_ITERATIONS, &seed);
    assert_eq!(
        bytes_to_password(&key, DEFAULT_LENGTH, true, true, SYMBOLS.as_bytes()),
        bytes_to_password(&key, DEFAULT_LENGTH, true, true, SYMBOLS.as_bytes())
    );
}

#[test]
fn test_default_length() {
    let seed = vec![0u8; SEED_BYTES];
    let key = test_key_direct("mysecret", "example.com", DEFAULT_ITERATIONS, &seed);
    assert_eq!(
        bytes_to_password(&key, DEFAULT_LENGTH, true, true, SYMBOLS.as_bytes())
            .chars()
            .count(),
        DEFAULT_LENGTH
    );
}

/// The password for "mysecret" at "siteB" with the all-zero seed and the default
/// settings. Deriving a key with the default iteration count is slow in unoptimised
/// builds, so the two sites are derived in separate tests.
const SITE_B_PASSWORD: &str = "{&YzD>%RvzUoM6Sk]?[zX,xsP3nKRiK|7k-SSM}yA*Do{oVv";

#[test]
fn test_different_sites() {
    let seed = vec![0u8; SEED_BYTES];
    let key1 = test_key_direct("mysecret", "siteA", DEFAULT_ITERATIONS, &seed);
    assert_ne!(
        bytes_to_password(&key1, DEFAULT_LENGTH, true, true, SYMBOLS.as_bytes()),
        SITE_B_PASSWORD
    );
}

#[test]
fn test_site_b_password() {
    let seed = vec![0u8; SEED_BYTES];
    let key2 = test_key_direct("mysecret", "siteB", DEFAULT_ITERATIONS, &seed);
    assert_eq!(
        bytes_to_password(&key2, DEFAULT_LENGTH, true, true, SYMBOLS.as_bytes()),
        SITE_B_PASSWORD
    );
}

#[test]
fn test_contains_digit_and_symbol() {
    let seed = vec![0u8; SEED_BYTES];
    let key = test_key_direct("testmaster", "testsite", 10_000, &seed);
    let p = bytes_to_password(&key, DEFAULT_LENGTH, true, true, SYMBOLS.as_bytes());
    assert!(
        p.chars().any(|c| c.is_ascii_digit()),
        "数字が含まれていない"
    );
    assert!(
        p.chars().any(|c| SYMBOLS.as_bytes().contains(&(c as u8))),
        "記号が含まれていない"
    );
}

#[test]
fn test_custom_length() {
    let seed = vec![0u8; SEED_BYTES];
    let key = test_key_direct("mysecret", "", 10_000, &seed);
    for len in [MIN_PASSWORD_LENGTH, 16, 24, 64] {
        let p = bytes_to_password(&key, len, true, true, SYMBOLS.as_bytes());
        assert_eq!(p.chars().count(), len, "長さ{}のテスト失敗", len);
    }
}

#[test]
fn test_build_core_deterministic() {
    let seed = vec![0u8; SEED_BYTES];
    assert_eq!(build_core("mykey", &seed), build_core("mykey", &seed));
}

#[test]
fn test_different_seeds() {
    let seed1 = vec![0u8; SEED_BYTES];
    let seed2 = vec![1u8; SEED_BYTES];
    let key1 = test_key_direct("mykey", "example.com", 10_000, &seed1);
    let key2 = test_key_direct("mykey", "example.com", 10_000, &seed2);
    assert_ne!(
        bytes_to_password(&key1, DEFAULT_LENGTH, true, true, SYMBOLS.as_bytes()),
        bytes_to_password(&key2, DEFAULT_LENGTH, true, true, SYMBOLS.as_bytes())
    );
}

#[test]
fn test_custom_symbols_restricts_charset() {
    let seed = vec![0u8; SEED_BYTES];
    let key = test_key_direct("mysecret", "example.com", 10_000, &seed);
    let custom: &[u8] = b"!\"#$%";
    let p = bytes_to_password(&key, DEFAULT_LENGTH, true, true, custom);
    for c in p.bytes() {
        let allowed = UPPERCASE.as_bytes().contains(&c)
            || LOWERCASE.as_bytes().contains(&c)
            || DIGITS.as_bytes().contains(&c)
            || custom.contains(&c);
        assert!(allowed, "許可されていない文字が含まれている: {}", c as char);
    }
}

#[test]
fn test_custom_symbols_single_char_boundary() {
    let seed = vec![0u8; SEED_BYTES];
    let key = test_key_direct("mysecret", "example.com", 10_000, &seed);
    let tiny: &[u8] = b"$";
    let p = bytes_to_password(&key, 12, true, true, tiny);
    assert!(p.bytes().any(|c| c == b'$'));
}

fn test_opts(kdf: KdfAlgorithm) -> GenerateOptions<'static> {
    GenerateOptions {
        length: 16,
        kdf,
        pbkdf2_iterations: 10_000,
        argon2_time_cost: 1,
        argon2_memory_cost: 8_192,
        argon2_parallelism: 1,
        use_digits: true,
        use_symbols: true,
        symbols: SYMBOLS.as_bytes(),
    }
}

#[test]
fn test_argon2id_deterministic() {
    let key1 = derive_key_argon2id("core", "salt:passgen", 1, 8_192, 1, 32);
    let key2 = derive_key_argon2id("core", "salt:passgen", 1, 8_192, 1, 32);
    assert_eq!(key1, key2);
}

#[test]
fn test_argon2id_different_sites() {
    let key1 = derive_key_argon2id("core", "siteA:passgen", 1, 8_192, 1, 32);
    let key2 = derive_key_argon2id("core", "siteB:passgen", 1, 8_192, 1, 32);
    assert_ne!(key1, key2);
}

#[test]
fn test_generate_password_kdf_dispatch() {
    let seed = vec![0u8; SEED_BYTES];
    let pbkdf2_password =
        generate_password("mysecret", "example.com", &seed, &test_opts(KdfAlgorithm::Pbkdf2));
    let argon2_password = generate_password(
        "mysecret",
        "example.com",
        &seed,
        &test_opts(KdfAlgorithm::Argon2id),
    );
    assert_ne!(pbkdf2_password, argon2_password);
    assert_eq!(pbkdf2_password.chars().count(), 16);
    assert_eq!(argon2_password.chars().count(), 16);
}
