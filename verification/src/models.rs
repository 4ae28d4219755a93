use vstd::prelude::*;

verus! {

/// Per-run configuration of the rewrite pipeline.
///
/// `serum_noises` drops references under the factory noise-preset subpath
/// instead of relocating them; `move_samples` selects move over copy for the
/// relocated audio files; `create_backup` asks for a backup of each container
/// before it is mutated; `folder` is the root that is scanned for project
/// files; a project file whose path contains any string of `exclude_files`
/// is skipped entirely.
pub struct CopifySettings {
    pub serum_noises: bool,
    pub move_samples: bool,
    pub create_backup: bool,
    pub folder: String,
    pub exclude_files: Vec<String>,
}

/// Configuration of the relocation variant, which moves whole projects to a
/// new base directory before rewriting them.
///
/// `move_project_files` selects moving the project folders over copying
/// them; `target` is the new base directory; the remaining fields carry the
/// same meaning as in `CopifySettings`.
pub struct MoverSettings {
    pub move_project_files: bool,
    pub serum_noises: bool,
    pub move_samples: bool,
    pub create_backup: bool,
    pub folder: String,
    pub target: String,
    pub exclude_files: Vec<String>,
}

/// One per-file progress report: the percentage of files handled so far,
/// the file's name, and whether the file failed or was skipped.
pub struct Progress {
    pub progress: usize,
    pub file_name: String,
    pub is_error: bool,
    pub is_skipped: bool,
    pub error_msg: String,
}

/// A progress report of the relocation variant; same shape as `Progress`.
pub struct MoverProgress {
    pub progress: usize,
    pub file_name: String,
    pub is_error: bool,
    pub is_skipped: bool,
    pub error_msg: String,
}

impl MoverSettings {
    /// The rewrite settings that the relocation variant runs after the
    /// projects have been moved: the same flags, with the target directory
    /// as the folder to scan.
    pub fn to_copify_settings(&self) -> (r: CopifySettings)
        ensures
            r.serum_noises == self.serum_noises,
            r.move_samples == self.move_samples,
            r.create_backup == self.create_backup,
            r.folder@ == self.target@,
            r.exclude_files@.len() == self.exclude_files@.len(),
            forall|i: int|
                0 <= i < self.exclude_files@.len() ==> r.exclude_files@[i]@
                    == self.exclude_files@[i]@,
    {
        CopifySettings {
            serum_noises: self.serum_noises,
            move_samples: self.move_samples,
            create_backup: self.create_backup,
            folder: self.target.clone(),
            exclude_files: clone_strings(&self.exclude_files),
        }
    }
}

/// Clones a vector of strings, keeping every element's characters.
pub fn clone_strings(v: &Vec<String>) -> (r: Vec<String>)
    ensures
        r@.len() == v@.len(),
        forall|i: int| 0 <= i < v@.len() ==> r@[i]@ == v@[i]@,
{
    let mut r: Vec<String> = Vec::new();
    let mut i: usize = 0;
    while i < v.len()
        invariant
            i <= v@.len(),
            r@.len() == i,
            forall|k: int| 0 <= k < i ==> r@[k]@ == v@[k]@,
        decreases v@.len() - i,
    {
        r.push(v[i].clone());
        i = i + 1;
    }
    r
}

} // verus!
