use vstd::prelude::*;

use crate::server::{decimal_value, digit_end, is_ascii_digit, number_at, read_number};
use crate::text::{chars_of, find_at_or_after, find_from, lemma_find_from_bounds, matches_at};
use vstd::string::StringExecFns;

verus! {

// ============================================================
// User-facing settings
// ============================================================

/// Default password length.
pub const DEFAULT_LENGTH: usize = 48;

/// Default number of PBKDF2 iterations.
pub const DEFAULT_ITERATIONS: u32 = 600_000;

/// Shortest password the program accepts.
pub const MIN_PASSWORD_LENGTH: usize = 8;

/// Derived key bytes per password character.
pub const KEY_LENGTH_MULTIPLIER: usize = 8;

/// Smallest number of derived key bytes.
pub const KEY_LENGTH_MIN: usize = 64;

/// Appended to the site name to form the salt.
pub const SALT_SUFFIX: &'static str = ":passgen";

/// Default Argon2id time cost.
pub const DEFAULT_ARGON2_TIME_COST: u32 = 3;

/// Default Argon2id memory cost in KiB (64 MiB).
pub const DEFAULT_ARGON2_MEMORY_COST_KIB: u32 = 65_536;

/// Default Argon2id parallelism.
pub const DEFAULT_ARGON2_PARALLELISM: u32 = 4;

/// Prompt for the core password.
pub const PROMPT_CORE_PASSWORD: &'static str = "コアパスワードを入力してください: ";

/// Name of the configuration directory under `~/.config`.
pub const CONFIG_DIR_NAME: &'static str = "passgen";

/// Name of the seed file.
pub const SEED_FILE_NAME: &'static str = "passgen_seed";

/// Name of the seed file used by earlier versions, directly under the home directory.
pub const LEGACY_SEED_FILE_NAME: &'static str = ".pass-gen-seed";

/// Permission bits the seed file must have (Unix).
pub const SEED_FILE_MODE: u32 = 0o600;

/// Seed length in bytes (512 bytes = 4096 bits).
pub const SEED_BYTES: usize = 512;

/// Port of the browser UI when `.env` does not set one.
pub const DEFAULT_PORT: u16 = 11010;

/// Contents of a new `.env` file.
pub const DEFAULT_ENV_TEXT: &'static str = "PORT=11010\n";

} // verus!

verus! {

// ============================================================
// Configuration directory and file paths
// ============================================================

/// The path conventions of the platform a path is built for.
#[derive(PartialEq, Eq, Structural, Clone, Copy, Debug)]
pub enum PathStyle {
    /// `/` separates components.
    Unix,
    /// `\` separates components, and `/` is accepted as a separator too.
    Windows,
}

/// The separator that joining puts between two components.
pub open spec fn main_separator(style: PathStyle) -> char {
    match style {
        PathStyle::Unix => '/',
        PathStyle::Windows => '\\',
    }
}

/// Is `c` a path separator on the platform?
pub open spec fn is_separator(style: PathStyle, c: char) -> bool {
    c == '/' || (style == PathStyle::Windows && c == '\\')
}

/// Is `base` a bare Windows drive such as `C:`, to which a component is joined without a
/// separator (giving a drive-relative path)?
pub open spec fn is_bare_drive(style: PathStyle, base: Seq<char>) -> bool {
    &&& style == PathStyle::Windows
    &&& base.len() == 2
    &&& base[1] == ':'
    &&& (('A' <= base[0] <= 'Z') || ('a' <= base[0] <= 'z'))
}

/// `base` joined with the relative component `comp`, as `Path::join` does on the platform: a
/// separator is put between them unless `base` is empty, already ends with a separator, or
/// is a bare drive.
pub open spec fn path_join(style: PathStyle, base: Seq<char>, comp: Seq<char>) -> Seq<char> {
    if base.len() == 0 || is_separator(style, base.last()) || is_bare_drive(style, base) {
        base + comp
    } else {
        base + seq![main_separator(style)] + comp
    }
}

/// Joins the relative component `comp` to `base` by the conventions of `style`.
pub fn join_path(style: PathStyle, base: &str, comp: &str) -> (p: String)
    ensures
        p@ == path_join(style, base@, comp@),
{
    let chars = chars_of(base);
    let n = chars.len();
    let windows = match style {
        PathStyle::Windows => true,
        PathStyle::Unix => false,
    };
    let ends_with_separator = n > 0 && (chars[n - 1] == '/' || (windows && chars[n - 1] == '\\'));
    let bare_drive = windows && n == 2 && chars[1] == ':' && (('A' <= chars[0] && chars[0] <= 'Z') || (
    'a' <= chars[0] && chars[0] <= 'z'));
    let mut p = String::from_str(base);
    if n > 0 && !ends_with_separator && !bare_drive {
        if windows {
            p.append("\\");
            proof {
                reveal_strlit("\\");
            }
        } else {
            p.append("/");
            proof {
                reveal_strlit("/");
            }
        }
    }
    p.append(comp);
    assert(p@ =~= path_join(style, base@, comp@));
    p
}

/// The port set by `.env` text: the digits after the first `PORT=`, when they form a
/// number no larger than 65535; `DEFAULT_PORT` otherwise.
pub open spec fn env_port(text: Seq<char>) -> u16 {
    match find_from(text, "PORT="@, 0) {
        None => DEFAULT_PORT,
        Some(i) => match number_at(text, i + 5) {
            Some(n) => if n <= 65535 {
                n as u16
            } else {
                DEFAULT_PORT
            },
            None => DEFAULT_PORT,
        },
    }
}

/// The port of the browser UI set by the text of the `.env` file.
pub fn port_from_env(text: &str) -> (port: u16)
    ensures
        port == env_port(text@),
{
    let chars = chars_of(text);
    let key = chars_of("PORT=");
    let clen = chars.len();
    proof {
        reveal_strlit("PORT=");
        lemma_find_from_bounds(chars@, key@, 0);
        assert(key@.len() == 5);
    }
    match find_at_or_after(&chars, &key, 0) {
        None => DEFAULT_PORT,
        Some(i) => match read_number(&chars, i + 5) {
            Some(n) => if n <= 65535 {
                n as u16
            } else {
                DEFAULT_PORT
            },
            None => DEFAULT_PORT,
        },
    }
}

/// The run of digits from `i` ends at `k` when digits fill `[i, k)` and none stands at `k`.
proof fn lemma_digit_run(s: Seq<char>, i: int, k: int)
    requires
        0 <= i <= k <= s.len(),
        forall|j: int| i <= j < k ==> is_ascii_digit(#[trigger] s[j]),
        k < s.len() ==> !is_ascii_digit(s[k]),
    ensures
        digit_end(s, i) == k,
    decreases k - i,
{
    if i < k {
        lemma_digit_run(s, i + 1, k);
    }
}

/// `.env` text that starts with `PORT=`, then the decimal digits of a port number (at most
/// 65535), then anything that does not start with a digit (a line break, further settings,
/// or nothing), sets the port to that number.
pub proof fn lemma_env_port_set(digits: Seq<char>, rest: Seq<char>)
    requires
        digits.len() > 0,
        forall|i: int| 0 <= i < digits.len() ==> '0' <= #[trigger] digits[i] <= '9',
        decimal_value(digits) <= 65535,
        rest.len() > 0 ==> !('0' <= rest[0] <= '9'),
    ensures
        env_port("PORT="@ + digits + rest) == decimal_value(digits),
{
    reveal_strlit("PORT=");
    let key = "PORT="@;
    let t = key + digits + rest;
    let n = digits.len() as int;
    assert(t.subrange(0, 5) =~= key);
    assert(matches_at(t, key, 0));
    assert(find_from(t, key, 0) == Some(0int));
    assert forall|j: int| 5 <= j < 5 + n implies is_ascii_digit(#[trigger] t[j]) by {
        assert(t[j] == digits[j - 5]);
    }
    if rest.len() > 0 {
        assert(t[5 + n] == rest[0]);
    }
    lemma_digit_run(t, 5, 5 + n);
    assert(t.subrange(5, 5 + n) =~= digits);
}

/// `<home>/.config/passgen`.
pub open spec fn config_dir_path(style: PathStyle, home: Seq<char>) -> Seq<char> {
    path_join(style, path_join(style, home, ".config"@), CONFIG_DIR_NAME@)
}

/// The configuration directory (`~/.config/passgen`) for the home directory `home`.
pub fn config_dir(style: PathStyle, home: &str) -> (p: String)
    ensures
        p@ == config_dir_path(style, home@),
{
    let dot_config = join_path(style, home, ".config");
    join_path(style, dot_config.as_str(), CONFIG_DIR_NAME)
}

/// The seed file (`~/.config/passgen/passgen_seed`) for the home directory `home`.
pub fn seed_file_path(style: PathStyle, home: &str) -> (p: String)
    ensures
        p@ == path_join(style, config_dir_path(style, home@), SEED_FILE_NAME@),
{
    let dir = config_dir(style, home);
    join_path(style, dir.as_str(), SEED_FILE_NAME)
}

/// The seed file of earlier versions (`~/.pass-gen-seed`) for the home directory `home`;
/// used only to move it to the current path.
pub fn legacy_seed_file_path(style: PathStyle, home: &str) -> (p: String)
    ensures
        p@ == path_join(style, home@, LEGACY_SEED_FILE_NAME@),
{
    join_path(style, home, LEGACY_SEED_FILE_NAME)
}

} // verus!
