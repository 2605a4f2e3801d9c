use vstd::prelude::*;

use crate::paths::{
    backslashes_to_slashes, join_remote_path, path_parent, remote_dir_chain,
    spec_backslashes_to_slashes, spec_dir_chain, spec_join_remote, std_path_parent, string_views,
};

verus! {

/// The remote path a local file is uploaded to: its path relative to the
/// uploaded folder, with backslashes turned into slashes, below `base`.
pub open spec fn spec_remote_file_path(base: Seq<char>, relative: Seq<char>) -> Seq<char> {
    spec_join_remote(base, spec_backslashes_to_slashes(relative))
}

/// The directories to create before a file goes to `remote_path`, whose
/// parent is `parent`: those leading to a non-empty parent, none otherwise.
pub open spec fn spec_parent_dirs(parent: Option<Seq<char>>) -> Seq<Seq<char>> {
    match parent {
        Some(p) => if p.len() > 0 {
            spec_dir_chain(p)
        } else {
            seq![]
        },
        None => seq![],
    }
}

/// The upload of one file: where it goes, and the directories to create
/// first, outermost first.
#[derive(Clone, Debug)]
pub struct UploadStep {
    pub remote_path: String,
    pub dirs: Vec<String>,
}

/// The upload step for a file going to `remote_path`, given the parent
/// that `std::path::Path::parent` gives for that path.
pub fn upload_step_with_parent(remote_path: String, parent: Option<String>) -> (r: UploadStep)
    ensures
        r.remote_path@ == remote_path@,
        string_views(r.dirs@) == spec_parent_dirs(
            match parent {
                Some(p) => Some(p@),
                None => None,
            },
        ),
{
    let dirs = match parent {
        Some(p) => {
            if p.as_str().is_empty() {
                Vec::new()
            } else {
                remote_dir_chain(p.as_str())
            }
        },
        None => Vec::new(),
    };
    proof {
        if dirs.len() == 0 {
            assert(string_views(dirs@) =~= Seq::<Seq<char>>::empty());
        }
    }
    UploadStep { remote_path, dirs }
}

/// The upload step for the local file at `relative` (its path relative to
/// the uploaded folder) under the remote directory `base`.
pub fn upload_step(base: &str, relative: &str) -> (r: UploadStep)
    ensures
        r.remote_path@ == spec_remote_file_path(base@, relative@),
        string_views(r.dirs@) == spec_parent_dirs(std_path_parent(r.remote_path@)),
{
    let rel = backslashes_to_slashes(relative);
    let remote = join_remote_path(base, rel.as_str());
    let parent = path_parent(remote.as_str());
    upload_step_with_parent(remote, parent)
}

/// An upload of a local folder: the directories to create for the remote
/// base first, then one step per file.
#[derive(Clone, Debug)]
pub struct UploadPlan {
    pub base_dirs: Vec<String>,
    pub files: Vec<UploadStep>,
}

/// The plan for uploading the local files at `relatives` (paths relative to
/// the uploaded folder) below the remote directory `base`. With no file to
/// upload nothing is done, not even the base directories.
pub fn plan_upload(base: &str, relatives: &Vec<String>) -> (r: UploadPlan)
    ensures
        relatives.len() == 0 ==> r.base_dirs.len() == 0,
        relatives.len() > 0 ==> string_views(r.base_dirs@) == spec_dir_chain(base@),
        r.files.len() == relatives.len(),
        forall|k: int|
            #![trigger r.files@[k]]
            0 <= k < r.files.len() ==> {
                &&& r.files@[k].remote_path@ == spec_remote_file_path(base@, relatives@[k]@)
                &&& string_views(r.files@[k].dirs@) == spec_parent_dirs(
                    std_path_parent(r.files@[k].remote_path@),
                )
            },
{
    if relatives.len() == 0 {
        return UploadPlan { base_dirs: Vec::new(), files: Vec::new() };
    }
    let base_dirs = remote_dir_chain(base);
    let mut files: Vec<UploadStep> = Vec::new();
    let mut i: usize = 0;
    while i < relatives.len()
        invariant
            i <= relatives.len(),
            files.len() == i,
            forall|k: int|
                #![trigger files@[k]]
                0 <= k < files.len() ==> {
                    &&& files@[k].remote_path@ == spec_remote_file_path(base@, relatives@[k]@)
                    &&& string_views(files@[k].dirs@) == spec_parent_dirs(
                        std_path_parent(files@[k].remote_path@),
                    )
                },
        decreases relatives.len() - i,
    {
        files.push(upload_step(base, relatives[i].as_str()));
        i = i + 1;
    }
    UploadPlan { base_dirs, files }
}

} // verus!
