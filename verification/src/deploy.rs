//! Checking deployment target directories before files are copied.
//!
//! The caller looks up on disk whether each configured directory exists
//! and hands the outcome in; this module decides whether deployment may
//! proceed and, when not, words the message that lists every missing
//! directory.

use vstd::prelude::*;

use vstd::string::StringExecFns;

verus! {

/// The line the abort message devotes to one missing directory.
pub open spec fn missing_dir_line(path: Seq<char>) -> Seq<char> {
    "   - "@ + path + "\n"@
}

/// The whole abort message for the missing directories among the targets.
pub open spec fn abort_message(
    dll_dir: Seq<char>,
    ini_dir: Seq<char>,
    dll_dir_exists: bool,
    ini_dir_exists: bool,
) -> Seq<char> {
    "DEPLOYMENT ABORTED: Missing directories:\n"@ + (if dll_dir_exists {
        Seq::<char>::empty()
    } else {
        missing_dir_line(dll_dir)
    }) + (if ini_dir_exists {
        Seq::<char>::empty()
    } else {
        missing_dir_line(ini_dir)
    }) + "\nUse '--force' to create these folders automatically."@
}

/// Decide whether deployment may proceed: fine when both target
/// directories exist, else the abort message naming each missing one.
/// `dll_dir_exists` and `ini_dir_exists` report what the caller found on
/// disk for the two configured directories.
pub fn validate_paths(
    dll_deploy_directory: &String,
    ini_deploy_directory: &String,
    dll_dir_exists: bool,
    ini_dir_exists: bool,
) -> (r: Result<(), String>)
    ensures
        r is Ok <==> dll_dir_exists && ini_dir_exists,
        r is Err ==> r->Err_0@ == abort_message(
            dll_deploy_directory@,
            ini_deploy_directory@,
            dll_dir_exists,
            ini_dir_exists,
        ),
{
    if dll_dir_exists && ini_dir_exists {
        return Ok(());
    }
    let mut msg = String::from_str("DEPLOYMENT ABORTED: Missing directories:\n");
    if !dll_dir_exists {
        msg.append("   - ");
        msg.append(dll_deploy_directory.as_str());
        msg.append("\n");
    }
    if !ini_dir_exists {
        msg.append("   - ");
        msg.append(ini_deploy_directory.as_str());
        msg.append("\n");
    }
    msg.append("\nUse '--force' to create these folders automatically.");
    proof {
        assert(msg@ =~= abort_message(
            dll_deploy_directory@,
            ini_deploy_directory@,
            dll_dir_exists,
            ini_dir_exists,
        ));
    }
    Err(msg)
}

} // verus!
