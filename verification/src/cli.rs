//! Command-line rules.

use vstd::prelude::*;

verus! {

/// A new crontab is not read from a terminal when no file (or `-`) was given,
/// so that a stray Ctrl-D cannot install an empty crontab.
pub fn stdin_file_required(file: Option<&str>, stdin_is_terminal: bool) -> (r: bool)
    ensures
        r == (file is None && stdin_is_terminal),
{
    file.is_none() && stdin_is_terminal
}

/// A file must be named exactly if a new crontab would otherwise be read from a
/// terminal.
pub proof fn law_terminal_input(file: Option<&str>, terminal: bool, r: bool)
    requires
        call_ensures(stdin_file_required, (file, terminal), r),
    ensures
        file is Some ==> !r,
        !terminal ==> !r,
        file is None && terminal ==> r,
{
}

} // verus!
