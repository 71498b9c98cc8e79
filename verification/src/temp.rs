//! Names for run-private temporary files: a fixed prefix and a random
//! token, so that concurrent runs never share a path. The caller joins the
//! name onto whatever directory the platform offers.

use vstd::prelude::*;
use vstd::string::*;
use crate::multipart::is_alphanum_char;
use crate::multipart::random_alphanumeric_token;

verus! {

/// A fresh temporary file name: the fixed prefix, then 32 random
/// alphanumeric characters.
pub fn temp_file_name() -> (r: String)
    ensures
        r@.len() == "discord-backup-util."@.len() + 32,
        r@.subrange(0, "discord-backup-util."@.len() as int) == "discord-backup-util."@,
        forall|i: int|
            "discord-backup-util."@.len() <= i < r@.len() ==> is_alphanum_char(#[trigger] r@[i]),
{
    let token = random_alphanumeric_token();
    let r = String::from_str("discord-backup-util.").concat(token.as_str());
    proof {
        assert(r@.subrange(0, "discord-backup-util."@.len() as int) =~= "discord-backup-util."@);
    }
    r
}

} // verus!
