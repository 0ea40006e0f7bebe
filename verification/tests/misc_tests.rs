use pass_gen::cli::{dedup, length_allowed, resolve_symbols, SymbolsError};
use pass_gen::config::{config_dir, join_path, legacy_seed_file_path, seed_file_path, PathStyle};
use pass_gen::init::{install_dir, is_same_file};
use pass_gen::input::{masked_entry_step, masked_key_action, KeyAction};
use pass_gen::kdf::SYMBOLS;
use pass_gen::winacl::{classify_aces, AceEntry, AclProblem, GET_ACE_FAILED};

#[test]
fn paths_under_home() {
    let unix = PathStyle::Unix;
    assert_eq!(config_dir(unix, "/home/u"), "/home/u/.config/passgen");
    assert_eq!(seed_file_path(unix, "/home/u"), "/home/u/.config/passgen/passgen_seed");
    assert_eq!(legacy_seed_file_path(unix, "/home/u"), "/home/u/.pass-gen-seed");
    assert_eq!(install_dir(unix, "/home/u"), "/home/u/.local/bin");
    assert_eq!(config_dir(unix, "/home/u/"), "/home/u/.config/passgen");
    assert_eq!(join_path(unix, "", "a"), "a");
    assert_eq!(join_path(unix, "a\\", "b"), "a\\/b");
}

#[test]
fn paths_under_windows_home() {
    let win = PathStyle::Windows;
    assert_eq!(config_dir(win, "C:\\Users\\u"), "C:\\Users\\u\\.config\\passgen");
    assert_eq!(
        seed_file_path(win, "C:\\Users\\u"),
        "C:\\Users\\u\\.config\\passgen\\passgen_seed"
    );
    assert_eq!(legacy_seed_file_path(win, "C:\\Users\\u\\"), "C:\\Users\\u\\.pass-gen-seed");
    assert_eq!(install_dir(win, "C:/Users/u/"), "C:/Users/u/.local\\bin");
    assert_eq!(join_path(win, "C:", "a"), "C:a");
    assert_eq!(join_path(win, "1:", "a"), "1:\\a");
}

#[test]
fn same_file_needs_both_paths() {
    assert!(is_same_file(Some(b"/a/b".to_vec()), Some(b"/a/b".to_vec())));
    assert!(!is_same_file(Some(b"/a/b".to_vec()), Some(b"/a/c".to_vec())));
    assert!(!is_same_file(None, Some(b"/a/b".to_vec())));
    assert!(!is_same_file(None, None));
}

#[test]
fn symbol_choice() {
    let c = resolve_symbols(None, false).ok().unwrap();
    assert_eq!(c.symbols, SYMBOLS.as_bytes().to_vec());
    assert!(c.use_symbols);
    assert!(!c.overrides_no_symbols);
    let c = resolve_symbols(None, true).ok().unwrap();
    assert!(!c.use_symbols);
    let c = resolve_symbols(Some("!!@a!"), true).ok().unwrap();
    assert_eq!(c.symbols, b"!@a".to_vec());
    assert!(c.use_symbols);
    assert!(c.overrides_no_symbols);
    assert_eq!(resolve_symbols(Some(""), false).err(), Some(SymbolsError::Empty));
    assert_eq!(resolve_symbols(Some("é"), false).err(), Some(SymbolsError::NotAscii));
}

#[test]
fn dedup_keeps_first_occurrences() {
    assert_eq!(dedup(b"abcabd"), b"abcd".to_vec());
    assert_eq!(dedup(b""), Vec::<u8>::new());
}

#[test]
fn minimum_length() {
    assert!(!length_allowed(7));
    assert!(length_allowed(8));
}

#[test]
fn masked_entry_keys() {
    assert_eq!(masked_key_action(b'\n', true), KeyAction::Finish);
    assert_eq!(masked_key_action(b'\r', false), KeyAction::Finish);
    assert_eq!(masked_key_action(127, false), KeyAction::Erase);
    assert_eq!(masked_key_action(8, false), KeyAction::Erase);
    assert_eq!(masked_key_action(127, true), KeyAction::Ignore);
    assert_eq!(masked_key_action(b'a', true), KeyAction::Append('a'));
    assert_eq!(masked_key_action(0xe3, false), KeyAction::Append('\u{e3}'));
    assert_eq!(masked_key_action(3, false), KeyAction::Ignore);
}

fn ace(ace_type: u8, flags: u8, sid: &[u8]) -> AceEntry {
    AceEntry { ace_type, flags, sid: sid.to_vec() }
}

#[test]
fn acl_classification() {
    let user = vec![1u8, 1];
    let admins = vec![2u8, 2];
    let system = vec![3u8, 3];
    let ok = vec![ace(0, 0, &user), ace(0, 0, &admins), ace(0, 0, &system), ace(1, 0, &[9]), ace(0, 0x08, &[9])];
    assert!(matches!(classify_aces(&ok, false, &user, &admins, &system), Ok(None)));
    let extra = vec![ace(0, 0, &user), ace(0, 0, &[9])];
    assert!(matches!(
        classify_aces(&extra, true, &user, &admins, &system),
        Ok(Some(AclProblem::ExtraAccessGranted))
    ));
    match classify_aces(&ok, true, &user, &admins, &system) {
        Err(e) => assert_eq!(e.0, GET_ACE_FAILED),
        Ok(_) => panic!("a failed read must be reported"),
    }
}

#[test]
fn masked_entry_steps() {
    let mut entry: Vec<char> = Vec::new();
    assert_eq!(masked_entry_step(&mut entry, 127), KeyAction::Ignore);
    assert!(entry.is_empty());
    for b in b"ab" {
        masked_entry_step(&mut entry, *b);
    }
    assert_eq!(entry, vec!['a', 'b']);
    assert_eq!(masked_entry_step(&mut entry, 8), KeyAction::Erase);
    assert_eq!(entry, vec!['a']);
    assert_eq!(masked_entry_step(&mut entry, 3), KeyAction::Ignore);
    assert_eq!(masked_entry_step(&mut entry, b'c'), KeyAction::Append('c'));
    assert_eq!(masked_entry_step(&mut entry, b'\r'), KeyAction::Finish);
    assert_eq!(entry, vec!['a', 'c']);
}
