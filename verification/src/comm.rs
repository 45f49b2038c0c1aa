//! Comparing two files line by line: which inputs can be taken together.

use vstd::prelude::*;
use vstd::string::{StringExecFns, StringSliceAdditionalSpecFns};

verus! {

/// Whether `name` stands for the standard input: it is a single dash.
pub open spec fn is_stdin(name: Seq<u8>) -> bool {
    name.len() == 1 && name[0] == 45
}

/// Whether `filename` stands for the standard input.
pub fn names_stdin(filename: &str) -> (stdin: bool)
    ensures
        stdin == is_stdin(filename.spec_bytes()),
{
    let bytes: &[u8] = filename.as_bytes();
    bytes.len() == 1 && bytes[0] == 45
}

/// The message for two inputs that are both the standard input.
pub open spec fn both_stdin() -> Seq<char> {
    "Both input files cannot be STDIN (\"-\")"@
}

/// Checks that the two inputs can be read together: at most one of them
/// is the standard input.
pub fn check_inputs(file1: &str, file2: &str) -> (checked: Result<(), String>)
    ensures
        checked is Err <==> (is_stdin(file1.spec_bytes()) && is_stdin(file2.spec_bytes())),
        checked matches Err(message) ==> message@ == both_stdin(),
{
    if names_stdin(file1) && names_stdin(file2) {
        Err(String::from_str("Both input files cannot be STDIN (\"-\")"))
    } else {
        Ok(())
    }
}

} // verus!
