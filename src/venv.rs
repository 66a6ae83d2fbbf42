use vstd::prelude::*;

use crate::error::YenError;
use crate::text::push_str;
use crate::version::{version_text, Version};

verus! {

/// The command that creates a virtual environment at `venv`: the interpreter at
/// `interpreter`, run with `-m venv <venv>`.
pub struct VenvCommand {
    pub program: String,
    pub args: Vec<String>,
}

/// The arguments that ask an interpreter for a virtual environment at `venv`.
pub open spec fn venv_args(venv: Seq<char>) -> Seq<Seq<char>> {
    seq!["-m"@, "venv"@, venv]
}

/// What to run to create the environment at `venv_path` with the interpreter at
/// `interpreter`; when the path already exists nothing is to be run at all.
pub fn venv_command(interpreter: &str, venv_path: &str, venv_exists: bool) -> (r: Result<
    VenvCommand,
    YenError,
>)
    ensures
        venv_exists <==> r is Err,
        r matches Err(e) ==> e == YenError::AlreadyExists,
        r matches Ok(c) ==> c.program@ == interpreter@ && c.args@.map_values(|a: String| a@)
            == venv_args(venv_path@),
{
    if venv_exists {
        return Err(YenError::AlreadyExists);
    }
    let mut args: Vec<String> = Vec::new();
    args.push("-m".to_owned());
    args.push("venv".to_owned());
    args.push(venv_path.to_owned());
    let r = VenvCommand { program: interpreter.to_owned(), args };
    assert(r.args@.map_values(|a: String| a@) =~= venv_args(venv_path@));
    Ok(r)
}

/// The message that confirms an environment.
pub open spec fn created_text(venv: Seq<char>, v: Version) -> Seq<char> {
    "Created "@ + venv + " with Python "@ + version_text(v)
}

/// The outcome once the interpreter has exited: a confirmation naming the environment
/// and the version on success, else the failure to create it.
pub fn venv_outcome(success: bool, venv_path: &str, version: &Version) -> (r: Result<
    String,
    YenError,
>)
    ensures
        success <==> r is Ok,
        r matches Ok(m) ==> m@ == created_text(venv_path@, *version),
        r matches Err(e) ==> e == YenError::VenvFailed,
{
    if !success {
        return Err(YenError::VenvFailed);
    }
    let mut m = String::new();
    push_str(&mut m, "Created ");
    push_str(&mut m, venv_path);
    push_str(&mut m, " with Python ");
    let t = version.to_string();
    push_str(&mut m, t.as_str());
    assert(m@ =~= created_text(venv_path@, *version));
    Ok(m)
}

} // verus!
