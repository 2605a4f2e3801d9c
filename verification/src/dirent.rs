use vstd::prelude::*;

use crate::datetime::CivilDateTime;

verus! {

/// What the library needs to know of a FATX directory entry: its name,
/// whether it is a directory or a file, its size and its timestamps.
#[derive(Clone, Debug)]
pub struct DirEntryInfo {
    pub name: String,
    pub is_directory: bool,
    pub is_file: bool,
    pub file_size: u32,
    pub created: CivilDateTime,
    pub modified: CivilDateTime,
    pub accessed: CivilDateTime,
}

} // verus!
