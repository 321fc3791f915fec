//! Contact identifiers: a randomly drawn token names a new contact and
//! its file. A draw whose filename is already taken is rejected here and
//! drawn again by the caller, so a collision never reaches the user.

use vstd::prelude::*;
use vstd::string::StrSliceExecFns;
use vstd::string::StringExecFns;
use crate::strutil::contains_string;

verus! {

/// A lowercase hexadecimal digit.
pub open spec fn is_hex_lower(c: char) -> bool {
    "0123456789abcdef"@.contains(c)
}

/// Relies on uuid::Uuid::new_v4 and its simple formatter: a fresh random
/// identifier rendered as 32 lowercase hexadecimal characters. The draw is
/// random, so nothing relates two calls.
#[verifier::external_body]
fn fresh_identifier() -> (r: String)
    ensures
        r@.len() == 32,
        forall|i: int| 0 <= i < r@.len() ==> is_hex_lower(#[trigger] r@[i]),
{
    format!("{}", uuid::Uuid::new_v4().simple())
}

/// The file name carrying an identifier: `<uid>.vcf`.
pub fn vcf_filename(uid: &str) -> (r: String)
    ensures
        r@ == uid@ + ".vcf"@,
{
    let mut out = String::from_str(uid);
    out.append(".vcf");
    out
}

/// One attempt at a new contact identity: draws a random identifier and
/// accepts it only when its filename is not among the existing ones. An
/// accepted pair is the identifier and its free filename; a rejected draw
/// hands back the colliding identifier so the caller simply draws again —
/// a collision is never an error of the workflow.
pub fn try_new_contact_name(existing: &Vec<String>) -> (r: Result<(String, String), String>)
    ensures
        r matches Ok(p) ==> p.1@ == p.0@ + ".vcf"@ && p.0@.len() == 32 && forall|i: int|
            0 <= i < existing@.len() ==> (#[trigger] existing@[i])@ != p.1@,
        r matches Err(uid) ==> uid@.len() == 32 && exists|i: int|
            0 <= i < existing@.len() && (#[trigger] existing@[i])@ == uid@ + ".vcf"@,
{
    let uid = fresh_identifier();
    let fname = vcf_filename(uid.as_str());
    if contains_string(existing, &fname) {
        Err(uid)
    } else {
        Ok((uid, fname))
    }
}

} // verus!
