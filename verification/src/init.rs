use vstd::prelude::*;

use crate::config::path_join;
use crate::config::join_path;
use crate::config::PathStyle;

verus! {

broadcast use vstd::string::group_string_axioms;

/// Name of the installed program file on Unix.
pub const BIN_NAME: &'static str = "passgen";

/// Name of the installed program file on Windows.
pub const BIN_NAME_WINDOWS: &'static str = "passgen.exe";

/// `<home>/.local/bin`.
pub open spec fn install_dir_path(style: PathStyle, home: Seq<char>) -> Seq<char> {
    path_join(style, path_join(style, home, ".local"@), "bin"@)
}

/// The directory the program installs itself to (`~/.local/bin`) for the home
/// directory `home`.
pub fn install_dir(style: PathStyle, home: &str) -> (p: String)
    ensures
        p@ == install_dir_path(style, home@),
{
    let local = join_path(style, home, ".local");
    join_path(style, local.as_str(), "bin")
}

/// Given the canonical forms of two paths (`None` where a path could not be made
/// canonical), do they name the same file? Only when both are known and equal.
pub fn is_same_file(a: Option<Vec<u8>>, b: Option<Vec<u8>>) -> (same: bool)
    ensures
        same == (a is Some && b is Some && a->Some_0@ == b->Some_0@),
{
    match (a, b) {
        (Some(x), Some(y)) => bytes_equal(&x, &y),
        _ => false,
    }
}

/// Do `x` and `y` hold the same bytes?
pub fn bytes_equal(x: &Vec<u8>, y: &Vec<u8>) -> (r: bool)
    ensures
        r == (x@ == y@),
{
    if x.len() != y.len() {
        return false;
    }
    let mut i: usize = 0;
    while i < x.len()
        invariant
            x@.len() == y@.len(),
            i <= x@.len(),
            forall|k: int| 0 <= k < i ==> x@[k] == y@[k],
        decreases x.len() - i,
    {
        if x[i] != y[i] {
            return false;
        }
        i += 1;
    }
    assert(x@ =~= y@);
    true
}

} // verus!
