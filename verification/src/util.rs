//! What is read from the system: trimmed text, and the output of commands.

use crate::text;
use vstd::prelude::*;

verus! {

/// What a command left: whether it succeeded, and what it printed.
#[derive(Debug)]
pub struct CommandOutput {
    pub success: bool,
    pub stdout: Vec<u8>,
}

/// The content of a file without surrounding white space, given what was read of it.
pub fn read_trimmed(content: Option<&str>) -> (r: Option<String>)
    ensures
        text::maybe(r) == (match content {
            Some(c) => Some(text::trimmed(c@)),
            None => None,
        }),
{
    match content {
        Some(c) => {
            let chars = text::chars_of(c);
            Some(text::string_of(text::trim(chars.as_slice())))
        },
        None => None,
    }
}

} // verus!
