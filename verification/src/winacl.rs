//! The decision of the Windows seed-file ACL check: after the system calls have read the
//! DACL and the security identifiers, only the seed's owner (the user running the program,
//! who created the file), Administrators and SYSTEM may be granted access.
use vstd::prelude::*;

use crate::init::bytes_equal;
use vstd::string::StringExecFns;

verus! {

broadcast use vstd::string::group_string_axioms;

/// A problem found by the ACL check.
#[derive(Clone, Copy, Debug, PartialEq, Eq, Structural)]
pub enum AclProblem {
    /// There is no DACL (no protection: everyone has access).
    NoDacl,
    /// An account other than the owner (the user running the program), Administrators and
    /// SYSTEM is granted access.
    ExtraAccessGranted,
}

/// The ACL check could not be carried out.
pub struct AclCheckError(pub String);

/// `ACCESS_ALLOWED_ACE_TYPE`.
pub const ACCESS_ALLOWED_ACE_TYPE: u8 = 0;

/// `INHERIT_ONLY_ACE`.
pub const INHERIT_ONLY_ACE: u8 = 0x08;

/// Message when reading an access control entry fails.
pub const GET_ACE_FAILED: &'static str = "GetAce に失敗しました";

/// One access control entry of a DACL: its type, its flags and the SID it names.
pub struct AceEntry {
    pub ace_type: u8,
    pub flags: u8,
    pub sid: Vec<u8>,
}

/// Does the entry grant access to the file itself for an account other than `user` (the
/// user running the program, who owns the seed file), Administrators and SYSTEM? Entries of
/// other types, and entries that are only inherited by children, do not count.
pub open spec fn grants_outsider(ace: AceEntry, user: Seq<u8>, admins: Seq<u8>, system: Seq<u8>) -> bool {
    &&& ace.ace_type == ACCESS_ALLOWED_ACE_TYPE
    &&& ace.flags & INHERIT_ONLY_ACE == 0
    &&& ace.sid@ != user
    &&& ace.sid@ != admins
    &&& ace.sid@ != system
}

/// Does an entry among the first `n` grant access to an outsider?
pub open spec fn outsider_among(aces: Seq<AceEntry>, n: int, user: Seq<u8>, admins: Seq<u8>, system: Seq<u8>) -> bool {
    exists|i: int| 0 <= i < n && grants_outsider(#[trigger] aces[i], user, admins, system)
}

fn entry_grants_outsider(ace: &AceEntry, user: &Vec<u8>, admins: &Vec<u8>, system: &Vec<u8>) -> (r: bool)
    ensures
        r == grants_outsider(*ace, user@, admins@, system@),
{
    if ace.ace_type != ACCESS_ALLOWED_ACE_TYPE {
        return false;
    }
    if ace.flags & INHERIT_ONLY_ACE != 0 {
        return false;
    }
    !bytes_equal(&ace.sid, user) && !bytes_equal(&ace.sid, admins) && !bytes_equal(&ace.sid, system)
}

/// Classifies the entries of a DACL, read in order until the end or until reading an entry
/// failed (`read_failed`): an entry granting an outsider access gives
/// `ExtraAccessGranted`; otherwise a failed read is an error, and a complete list is fine.
pub fn classify_aces(
    aces: &Vec<AceEntry>,
    read_failed: bool,
    user_sid: &Vec<u8>,
    admins_sid: &Vec<u8>,
    system_sid: &Vec<u8>,
) -> (r: Result<Option<AclProblem>, AclCheckError>)
    ensures
        outsider_among(aces@, aces@.len() as int, user_sid@, admins_sid@, system_sid@) ==> r matches Ok(
            Some(AclProblem::ExtraAccessGranted),
        ),
        !outsider_among(aces@, aces@.len() as int, user_sid@, admins_sid@, system_sid@) && read_failed
            ==> (r matches Err(e) && e.0@ == GET_ACE_FAILED@),
        !outsider_among(aces@, aces@.len() as int, user_sid@, admins_sid@, system_sid@) && !read_failed
            ==> r matches Ok(None),
{
    let mut i: usize = 0;
    while i < aces.len()
        invariant
            i <= aces@.len(),
            !outsider_among(aces@, i as int, user_sid@, admins_sid@, system_sid@),
        decreases aces.len() - i,
    {
        if entry_grants_outsider(&aces[i], user_sid, admins_sid, system_sid) {
            assert(grants_outsider(aces@[i as int], user_sid@, admins_sid@, system_sid@));
            return Ok(Some(AclProblem::ExtraAccessGranted));
        }
        i += 1;
    }
    if read_failed {
        return Err(AclCheckError(String::from_str(GET_ACE_FAILED)));
    }
    Ok(None)
}

} // verus!
