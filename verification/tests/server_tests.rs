use pass_gen::config::SEED_BYTES;
use pass_gen::server::parse_and_generate;

#[test]
fn test_parse_and_generate_argon2id_default() {
    let seed = vec![0u8; SEED_BYTES];
    let body = r#"{"site":"example.com","master":"testkey","length":48,"time_cost":1,"memory_cost":8192,"parallelism":1}"#;
    let result = parse_and_generate(body, &seed);
    assert!(result.contains("password"));
}

#[test]
fn test_parse_and_generate_pbkdf2_explicit() {
    let seed = vec![0u8; SEED_BYTES];
    let body = r#"{"site":"example.com","master":"testkey","length":48,"kdf":"pbkdf2","iterations":10000}"#;
    let result = parse_and_generate(body, &seed);
    assert!(result.contains("password"));
}
