use pass_gen::config::SEED_BYTES;
use pass_gen::kdf::{generate_password, GenerateOptions, KdfAlgorithm, SYMBOLS};
use pass_gen::server::{
    extract_json_bool, extract_json_num, extract_json_str, parse_and_generate,
    request_is_supported, route_request, HttpMethod, Route, EMPTY_CORE_RESPONSE,
    SHORT_LENGTH_RESPONSE,
};

#[test]
fn json_strings() {
    let body = r#"{"site":"example.com", "master" :  "k e y","kdf":3}"#;
    assert_eq!(extract_json_str(body, "site"), Some("example.com".to_string()));
    assert_eq!(extract_json_str(body, "master"), Some("k e y".to_string()));
    assert_eq!(extract_json_str(body, "kdf"), None);
    assert_eq!(extract_json_str(body, "missing"), None);
    assert_eq!(extract_json_str(r#"{"site":"unterminated"#, "site"), None);
    assert_eq!(extract_json_str(r#"{"site" "x"}"#, "site"), None);
    assert_eq!(extract_json_str(r#"{"site":"サイト"}"#, "site"), Some("サイト".to_string()));
}

#[test]
fn json_booleans() {
    let body = r#"{"use_digits": true,"use_symbols":false,"x":"true"}"#;
    assert_eq!(extract_json_bool(body, "use_digits"), Some(true));
    assert_eq!(extract_json_bool(body, "use_symbols"), Some(false));
    assert_eq!(extract_json_bool(body, "x"), None);
    assert_eq!(extract_json_bool(body, "y"), None);
}

#[test]
fn json_numbers() {
    let body = r#"{"length":48,"a": 007 ,"big":18446744073709551615,"bigger":18446744073709551616,"neg":-1,"f":1.5}"#;
    assert_eq!(extract_json_num(body, "length"), Some(48));
    assert_eq!(extract_json_num(body, "a"), Some(7));
    assert_eq!(extract_json_num(body, "big"), Some(u64::MAX));
    assert_eq!(extract_json_num(body, "bigger"), None);
    assert_eq!(extract_json_num(body, "neg"), None);
    assert_eq!(extract_json_num(body, "f"), Some(1));
    assert_eq!(extract_json_num(body, "none"), None);
}

#[test]
fn json_first_occurrence_wins() {
    let body = r#"{"length":10,"length":20}"#;
    assert_eq!(extract_json_num(body, "length"), Some(10));
}

#[test]
fn request_without_core_is_refused() {
    let seed = vec![0u8; SEED_BYTES];
    assert_eq!(parse_and_generate(r#"{"site":"a"}"#, &seed), EMPTY_CORE_RESPONSE);
    assert_eq!(parse_and_generate(r#"{"master":""}"#, &seed), EMPTY_CORE_RESPONSE);
}

#[test]
fn request_with_short_length_is_refused() {
    let seed = vec![0u8; SEED_BYTES];
    assert_eq!(
        parse_and_generate(r#"{"master":"k","length":7}"#, &seed),
        SHORT_LENGTH_RESPONSE
    );
}

#[test]
fn request_answer_is_the_generated_password() {
    let seed = vec![5u8; 16];
    let body = r#"{"site":"s","master":"k","length":9,"kdf":"PBKDF2","iterations":3,"use_digits":false,"use_symbols":true}"#;
    let opts = GenerateOptions {
        length: 9,
        kdf: KdfAlgorithm::Pbkdf2,
        pbkdf2_iterations: 3,
        argon2_time_cost: 3,
        argon2_memory_cost: 65_536,
        argon2_parallelism: 4,
        use_digits: false,
        use_symbols: true,
        symbols: SYMBOLS.as_bytes(),
    };
    let expected = format!(r#"{{"password":"{}"}}"#, generate_password("k", "s", &seed, &opts));
    assert_eq!(parse_and_generate(body, &seed), expected);
}

#[test]
fn unknown_kdf_name_means_argon2id() {
    let seed = vec![5u8; 16];
    let body = r#"{"site":"s","master":"k","length":8,"kdf":"md5","time_cost":1,"memory_cost":8,"parallelism":1}"#;
    let opts = GenerateOptions {
        length: 8,
        kdf: KdfAlgorithm::Argon2id,
        pbkdf2_iterations: 600_000,
        argon2_time_cost: 1,
        argon2_memory_cost: 8,
        argon2_parallelism: 1,
        use_digits: true,
        use_symbols: true,
        symbols: SYMBOLS.as_bytes(),
    };
    let expected = format!(r#"{{"password":"{}"}}"#, generate_password("k", "s", &seed, &opts));
    assert_eq!(parse_and_generate(body, &seed), expected);
}

#[test]
fn supported_requests() {
    let seed = vec![0u8; SEED_BYTES];
    assert!(request_is_supported(r#"{"master":"k","memory_cost":1}"#, &seed) == false);
    assert!(request_is_supported(r#"{"master":"k","parallelism":0}"#, &seed) == false);
    assert!(request_is_supported(r#"{"master":"k","time_cost":0}"#, &seed) == false);
    assert!(request_is_supported(r#"{"master":"k","kdf":"pbkdf2","memory_cost":1}"#, &seed));
    assert!(request_is_supported(r#"{"master":"","memory_cost":1}"#, &seed));
    assert!(request_is_supported(r#"{"master":"k","length":3,"memory_cost":1}"#, &seed));
    assert!(request_is_supported(r#"{"master":"k"}"#, &seed));
}

#[test]
fn routes() {
    assert_eq!(route_request(HttpMethod::Get, "/"), Route::Page);
    assert_eq!(route_request(HttpMethod::Post, "/generate"), Route::Generate);
    assert_eq!(route_request(HttpMethod::Post, "/shutdown"), Route::Shutdown);
    assert_eq!(route_request(HttpMethod::Options, "/anything"), Route::Preflight);
    assert_eq!(route_request(HttpMethod::Get, "/generate"), Route::NotFound);
    assert_eq!(route_request(HttpMethod::Post, "/"), Route::NotFound);
    assert_eq!(route_request(HttpMethod::Other, "/"), Route::NotFound);
}
