//! Finding the program in the command line that the system registers for
//! opening a kind of file.

use crate::matcher::{captures, groups_view, pattern_captures, pattern_compiles};
use vstd::prelude::*;

verus! {

/// The pattern of a program on drive `C:`: word characters, blanks and
/// backslashes, up to `.exe`.
pub open spec fn exe_pattern() -> Seq<char> {
    "C:[\\w \\\\]+\\.exe"@
}

/// The text of the whole match, where there is a match and it has one.
pub open spec fn whole_match(found: Option<Seq<Option<Seq<char>>>>) -> Option<Seq<char>> {
    match found {
        None => None,
        Some(groups) => if groups.len() > 0 {
            groups[0]
        } else {
            None
        },
    }
}

/// The program named in `command`: what the matcher finds in it for the
/// program pattern, and nothing where the pattern is refused or matches
/// nowhere.
pub open spec fn exe_in_command_spec(command: Seq<char>) -> Option<Seq<char>> {
    if pattern_compiles(exe_pattern()) {
        whole_match(pattern_captures(exe_pattern(), command))
    } else {
        None
    }
}

/// What a result holds, as text.
pub open spec fn text_of(found: Option<String>) -> Option<Seq<char>> {
    match found {
        None => None,
        Some(text) => Some(text@),
    }
}

/// The text of the whole match.
pub fn exe_from_match(found: &Option<Vec<Option<String>>>) -> (exe: Option<String>)
    ensures
        text_of(exe) == whole_match(groups_view(*found)),
{
    match found {
        None => None,
        Some(groups) => {
            if groups.len() == 0 {
                return None;
            }
            match groups[0].as_ref() {
                None => None,
                Some(whole) => Some(whole.clone()),
            }
        },
    }
}

/// The program in a registered command line such as
/// `"C:\Program Files\Reader\reader.exe" "%1"`, without the quotes and the
/// placeholders around it.
pub fn exe_in_command(command: &str) -> (exe: Option<String>)
    ensures
        text_of(exe) == exe_in_command_spec(command@),
{
    match captures("C:[\\w \\\\]+\\.exe", command) {
        Err(_) => None,
        Ok(found) => exe_from_match(&found),
    }
}

} // verus!
