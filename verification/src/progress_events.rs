use vstd::prelude::*;
use crate::models::Progress;

verus! {

/// Builds the progress report for a file whose pipeline step succeeded.
pub fn on_success(file_name: String, progress: usize) -> (r: Progress)
    ensures
        r.progress == progress,
        r.file_name@ == file_name@,
        !r.is_error,
        !r.is_skipped,
        r.error_msg@.len() == 0,
{
    make_progress(file_name, progress, false, false, String::new())
}

/// Builds the progress report for a file whose pipeline step failed.
pub fn on_error(file_name: String, progress: usize, error_msg: String) -> (r: Progress)
    ensures
        r.progress == progress,
        r.file_name@ == file_name@,
        r.is_error,
        !r.is_skipped,
        r.error_msg@ == error_msg@,
{
    make_progress(file_name, progress, true, false, error_msg)
}

/// Builds the progress report for a file that the exclusion list skipped.
pub fn on_skip(file_name: String, progress: usize) -> (r: Progress)
    ensures
        r.progress == progress,
        r.file_name@ == file_name@,
        !r.is_error,
        r.is_skipped,
        r.error_msg@ == "Project was skipped."@,
{
    make_progress(file_name, progress, false, true, "Project was skipped.".to_owned())
}

/// Builds a progress report from its parts.
pub fn make_progress(
    file_name: String,
    progress: usize,
    is_error: bool,
    is_skipped: bool,
    error_msg: String,
) -> (r: Progress)
    ensures
        r.progress == progress,
        r.file_name@ == file_name@,
        r.is_error == is_error,
        r.is_skipped == is_skipped,
        r.error_msg@ == error_msg@,
{
    Progress { is_error, is_skipped, error_msg, progress, file_name }
}

/// The percentage reported after the file at position `index` of `count`
/// files has been handled.
pub fn progress_percent(index: usize, count: usize) -> (r: usize)
    requires
        count > 0,
        index < count,
        count <= usize::MAX / 100,
    ensures
        r == ((index + 1) * 100) / (count as int),
        r <= 100,
{
    proof {
        assert((index + 1) * 100 <= count * 100) by (nonlinear_arith)
            requires
                index + 1 <= count,
        ;
        assert(count * 100 <= (usize::MAX / 100) * 100) by (nonlinear_arith)
            requires
                count <= usize::MAX / 100,
        ;
        assert((count * 100) / (count as int) == 100) by (nonlinear_arith)
            requires
                count > 0,
        ;
        assert(((index + 1) * 100) / (count as int) <= (count * 100) / (count as int)) by (nonlinear_arith)
            requires
                (index + 1) * 100 <= count * 100,
                count > 0,
        ;
    }
    ((index + 1) * 100) / count
}

} // verus!
