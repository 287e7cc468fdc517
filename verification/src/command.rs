//! Outside tools: what is handed to the one who runs them, and what is made
//! of how they ended.

use crate::installer::{Cause, CauseModel, ErrorKind};
use crate::text::views;
use vstd::prelude::*;
use vstd::string::StringExecFns;

verus! {

/// The call of a tool, as the mathematical model has it.
pub struct CommandModel {
    pub program: Seq<u8>,
    pub args: Seq<Seq<u8>>,
}

/// The call of a tool: the program and its arguments, each as the bytes
/// that the system is handed.
#[derive(Debug)]
pub struct Command {
    pub program: Vec<u8>,
    pub args: Vec<Vec<u8>>,
}

impl View for Command {
    type V = CommandModel;

    open spec fn view(&self) -> CommandModel {
        CommandModel { program: self.program@, args: views(self.args@) }
    }
}

/// The models of the calls of `v`, in order.
pub open spec fn command_models(v: Seq<Command>) -> Seq<CommandModel> {
    Seq::new(v.len(), |i: int| v[i]@)
}

/// How a tool ended: whether it succeeded, and the words in which the
/// system reports its status.
#[derive(Debug)]
pub struct ExitStatus {
    pub success: bool,
    pub text: String,
}

/// The failure of a tool that did not succeed.
pub open spec fn tool_failure(tool: Seq<char>, status: Seq<char>) -> CauseModel {
    CauseModel { kind: ErrorKind::Other, message: tool + " failed with status: "@ + status }
}

/// What is made of how a tool ended: nothing where it succeeded, a failure
/// that names the tool and its status where it did not.
pub fn check_exit(tool: &str, status: &ExitStatus) -> (outcome: Result<(), Cause>)
    ensures
        match outcome {
            Ok(()) => status.success,
            Err(c) => !status.success && c@ == tool_failure(tool@, status.text@),
        },
{
    if status.success {
        Ok(())
    } else {
        let message = String::from_str(tool).concat(" failed with status: ").concat(
            status.text.as_str(),
        );
        Err(Cause { kind: ErrorKind::Other, message })
    }
}

/// Whether the list holds the byte string.
pub fn contains_bytes(list: &Vec<Vec<u8>>, x: &[u8]) -> (yes: bool)
    ensures
        yes == views(list@).contains(x@),
{
    let mut i: usize = 0;
    while i < list.len()
        invariant
            0 <= i <= list.len(),
            forall|k: int| 0 <= k < i ==> views(list@)[k] != x@,
        decreases list.len() - i,
    {
        if crate::text::bytes_eq(list[i].as_slice(), x) {
            assert(views(list@)[i as int] == x@);
            return true;
        }
        i += 1;
    }
    false
}

} // verus!
