//! Sibling-relative guest discovery.
//!
//! External guest binaries ship beside the driver executable and are found
//! through its directory only: PATH is never consulted, and names cannot
//! escape the directory.

use vstd::prelude::*;

use crate::error::{CistellaError, ErrorView, Result};
use crate::path;
use crate::text;

verus! {

/// Whether a guest name is a bare file name.
pub open spec fn bare_name(name: Seq<char>) -> bool {
    name.len() > 0 && name != "."@ && name != ".."@ && !name.contains('/')
}

/// Path of a guest candidate.
pub open spec fn candidate_of(exe_dir: Seq<char>, name: Seq<char>) -> std::result::Result<
    Seq<char>,
    ErrorView,
> {
    if bare_name(name) {
        Ok(path::joined(exe_dir, name))
    } else {
        Err(ErrorView::Contract("guest name must be a bare file name: "@ + name))
    }
}

/// Names the candidate for a guest in the driver's directory; a name that
/// could escape it refuses.
pub fn candidate(exe_dir: &str, name: &str) -> (r: Result<String>)
    ensures
        crate::error::agrees(r, candidate_of(exe_dir@, name@)),
{
    if name.is_empty() || text::eq(name, ".") || text::eq(name, "..") || text::has_char(name, '/') {
        return Err(
            CistellaError::Contract(text::cat("guest name must be a bare file name: ", name)),
        );
    }
    Ok(path::join(exe_dir, name))
}

/// What stands at a candidate path.
#[derive(Debug, Clone, Copy)]
pub struct FileFacts {
    /// A regular file (links are not followed).
    pub is_file: bool,
    /// Permission bits.
    pub mode: u32,
}

/// First fault of a candidate.
pub open spec fn candidate_fault(candidate: Seq<char>, facts: Option<FileFacts>) -> Option<Seq<char>> {
    match facts {
        None => Some("guest binary absent from install directory: "@ + candidate),
        Some(f) => if !f.is_file {
            Some("guest binary is not a regular file: "@ + candidate)
        } else if f.mode & 0o111u32 == 0 {
            Some("guest binary is not executable: "@ + candidate)
        } else {
            None
        },
    }
}

/// Judges a candidate: it must exist as a regular file with at least one
/// execute bit; anything else is a typed refusal naming the path.
pub fn discover_in(candidate: &str, facts: Option<FileFacts>) -> (r: Result<()>)
    ensures
        match candidate_fault(candidate@, facts) {
            Some(m) => r matches Err(e) && e@ == ErrorView::Contract(m),
            None => r is Ok,
        },
{
    match facts {
        None => Err(
            CistellaError::Contract(
                text::cat("guest binary absent from install directory: ", candidate),
            ),
        ),
        Some(f) => {
            if !f.is_file {
                return Err(
                    CistellaError::Contract(
                        text::cat("guest binary is not a regular file: ", candidate),
                    ),
                );
            }
            if f.mode & 0o111u32 == 0 {
                return Err(
                    CistellaError::Contract(
                        text::cat("guest binary is not executable: ", candidate),
                    ),
                );
            }
            Ok(())
        },
    }
}

/// A guest binary never comes from outside the driver's directory: an
/// accepted candidate is the directory, one separator, and the bare name.
pub proof fn law_guests_are_siblings(exe_dir: Seq<char>, name: Seq<char>, candidate: Seq<char>)
    requires
        candidate_of(exe_dir, name) == Ok::<Seq<char>, ErrorView>(candidate),
    ensures
        candidate == path::joined(exe_dir, name),
        !name.contains('/'),
        name != ".."@,
{
}

/// A guest is looked for next to the program, under a bare name, and found
/// exactly when that is a regular file that someone may execute.
pub proof fn law_guests_are_executable_siblings(
    exe_dir: Seq<char>,
    name: Seq<char>,
    candidate: Seq<char>,
    f: FileFacts,
)
    requires
        exe_dir.len() > 0,
        exe_dir.last() != '/',
    ensures
        candidate_of(exe_dir, name) is Ok <==> name.len() > 0 && !name.contains('/') && name
            != "."@ && name != ".."@,
        candidate_of(exe_dir, name) matches Ok(c) ==> c == exe_dir + "/"@ + name,
        candidate_fault(candidate, Some(f)) is None <==> f.is_file && f.mode & 0o111u32 != 0,
        candidate_fault(candidate, None) is Some,
{
}

} // verus!
