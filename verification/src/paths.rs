use vstd::prelude::*;
use vstd::string::StrSliceExecFns;
use vstd::string::StringExecFns;
use crate::error::Error;
use crate::text::{
    contains_seq, contains_sub, cut_after_last_slash, get_last_segment, last_segment,
    lemma_parent_segment_from_last_sep, lemma_parent_segment_none, no_filename, parent_segment,
};

verus! {

/// The canonical destination of a relocated sample: the project root, the
/// imported-samples folder, and the sample's basename.
pub open spec fn spec_imported_dest(root: Seq<char>, sample: Seq<char>) -> Seq<char> {
    root + "/Samples/Imported/"@ + last_segment(sample, '/')
}

/// The path under which a sample is stored once relocated into the project:
/// `<project-root>/Samples/Imported/<basename>`. Fails when the sample path
/// carries no filename: its final slash-separated segment is empty, or is
/// the current- or parent-directory dot form, which would let the reference
/// escape the canonical folder.
pub fn imported_destination(sample: &str, project_root: &str) -> (r: Result<String, Error>)
    ensures
        (r is Ok) == !no_filename(last_segment(sample@, '/')),
        r is Ok ==> r->Ok_0@ == spec_imported_dest(project_root@, sample@),
        r is Err ==> r->Err_0 is CopifyFailed,
{
    let base = get_last_segment(sample);
    let n = base.unicode_len();
    let dotless = n == 0 || (n == 1 && base.get_char(0) == '.') || (n == 2 && base.get_char(0)
        == '.' && base.get_char(1) == '.');
    proof {
        if n == 1 && base@[0] == '.' {
            assert(base@ =~= seq!['.']);
        }
        if n == 2 && base@[0] == '.' && base@[1] == '.' {
            assert(base@ =~= seq!['.', '.']);
        }
        if !dotless {
            if base@ == seq!['.'] {
                assert(base@.len() == 1 && base@[0] == '.');
            }
            if base@ == seq!['.', '.'] {
                assert(base@.len() == 2 && base@[0] == '.' && base@[1] == '.');
            }
        }
    }
    if dotless {
        return Err(Error::CopifyFailed("Invalid sample path: no filename".to_owned()));
    }
    let mut out = project_root.to_owned();
    out.append("/Samples/Imported/");
    out.append(base);
    proof {
        assert(out@ =~= spec_imported_dest(project_root@, sample@));
    }
    Ok(out)
}

/// Decides the outcome of relocating one sample, given whether its source
/// file exists. On success the result is the canonical destination path;
/// a missing source is reported as `FileNotFound` rather than silently
/// producing an empty reference. The caller performs the actual copy or
/// move.
pub fn relocate_decision(source_exists: bool, sample: &str, project_root: &str) -> (r: Result<
    String,
    Error,
>)
    ensures
        (r is Ok) == (source_exists && !no_filename(last_segment(sample@, '/'))),
        r is Ok ==> r->Ok_0@ == spec_imported_dest(project_root@, sample@),
        !source_exists ==> r is Err && r->Err_0 is FileNotFound,
        r is Err ==> r->Err_0 is FileNotFound || r->Err_0 is CopifyFailed,
{
    if !source_exists {
        return Err(Error::FileNotFound("Sample file does not exist".to_owned()));
    }
    imported_destination(sample, project_root)
}

/// `s` with every non-overlapping occurrence of `pat` removed, scanning
/// left to right.
pub open spec fn remove_all(s: Seq<char>, pat: Seq<char>) -> Seq<char>
    decreases s.len(),
{
    if pat.len() == 0 {
        s
    } else if s.len() == 0 {
        Seq::empty()
    } else if s.len() >= pat.len() && s.subrange(0, pat.len() as int) == pat {
        remove_all(s.skip(pat.len() as int), pat)
    } else {
        seq![s[0]] + remove_all(s.skip(1), pat)
    }
}

/// Removes every occurrence of `pat` from `s`.
pub fn remove_all_sub(s: &str, pat: &str) -> (r: String)
    requires
        pat@.len() > 0,
    ensures
        r@ == remove_all(s@, pat@),
{
    let n = s.unicode_len();
    let m = pat.unicode_len();
    let mut out = String::new();
    let mut i: usize = 0;
    proof {
        assert(s@.skip(0) =~= s@);
        assert(out@ + remove_all(s@, pat@) =~= remove_all(s@, pat@));
    }
    while i < n
        invariant
            i <= n,
            n == s@.len(),
            m == pat@.len(),
            m > 0,
            remove_all(s@, pat@) == out@ + remove_all(s@.skip(i as int), pat@),
        decreases n - i,
    {
        let ghost rest = s@.skip(i as int);
        let mut matched = m <= n - i;
        if matched {
            let mut j: usize = 0;
            while j < m
                invariant
                    j <= m,
                    i + m <= n,
                    n == s@.len(),
                    m == pat@.len(),
                    matched == (forall|l: int| 0 <= l < j ==> s@[i + l] == pat@[l]),
                decreases m - j,
            {
                let c1 = s.get_char(i + j);
                let c2 = pat.get_char(j);
                matched = matched && c1 == c2;
                j = j + 1;
            }
        }
        if matched {
            proof {
                assert(forall|l: int| 0 <= l < m ==> rest[l] == s@[i + l]);
                assert(rest.subrange(0, m as int) =~= pat@);
            }
            i = i + m;
            proof {
                assert(rest.skip(m as int) =~= s@.skip(i as int));
                assert(remove_all(s@, pat@) =~= out@ + remove_all(s@.skip(i as int), pat@));
            }
        } else {
            proof {
                if rest.len() >= m && rest.subrange(0, m as int) == pat@ {
                    assert(i + m <= n);
                    let l = choose|l: int| 0 <= l < m && s@[i + l] != pat@[l];
                    assert(rest.subrange(0, m as int)[l] == rest[l]);
                    assert(rest[l] == s@[i + l]);
                    assert(false);
                }
            }
            let piece = s.substring_char(i, i + 1);
            out.append(piece);
            proof {
                assert(piece@ =~= seq![rest[0]]);
            }
            i = i + 1;
            proof {
                assert(rest.skip(1) =~= s@.skip(i as int));
                assert(remove_all(s@, pat@) =~= out@ + remove_all(s@.skip(i as int), pat@));
            }
        }
    }
    proof {
        assert(s@.skip(n as int) =~= Seq::<char>::empty());
        assert(remove_all(s@, pat@) =~= out@);
    }
    out
}

/// The path of the backup copy made for a container before it is mutated:
/// the same directory, the filename with its project extension removed and
/// the backup extension appended.
pub open spec fn spec_backup_path(path: Seq<char>) -> Seq<char> {
    let dir = parent_segment(path, '/');
    let name = remove_all(last_segment(path, '/'), ".als"@) + ".als.bak"@;
    if path.contains('/') {
        dir + seq!['/'] + name
    } else {
        name
    }
}

/// Where the backup of the container at `input` goes. A path that already
/// carries the backup extension is not valid to back up and is refused, so
/// backups are never backed up in turn.
pub fn backup_path_for(input: &str) -> (r: Result<String, Error>)
    ensures
        (r is Ok) == !contains_seq(input@, ".als.bak"@),
        r is Ok ==> r->Ok_0@ == spec_backup_path(input@),
        r is Err ==> r->Err_0 is CopifyFailed,
{
    proof {
        reveal_strlit(".als.bak");
        reveal_strlit(".als");
        reveal_strlit("/");
    }
    if contains_sub(input, ".als.bak") {
        return Err(Error::CopifyFailed("Input file is not valid to backup".to_owned()));
    }
    let filename = get_last_segment(input);
    let mut name = remove_all_sub(filename, ".als");
    name.append(".als.bak");
    let cut = cut_after_last_slash(input);
    if cut == 0 {
        proof {
            assert(forall|k: int| 0 <= k < input@.len() ==> input@[k] != '/');
            assert(!input@.contains('/'));
        }
        Ok(name)
    } else {
        proof {
            assert(input@[cut - 1] == '/');
            assert(input@.contains('/'));
            lemma_parent_segment_from_last_sep(input@, '/', cut - 1);
        }
        let dir = input.substring_char(0, cut - 1);
        let mut out = dir.to_owned();
        out.append("/");
        out.append(name.as_str());
        proof {
            assert(out@ =~= spec_backup_path(input@));
        }
        Ok(out)
    }
}

/// Joins a relative path onto a base folder with a slash separator.
/// Resolving the joined path against the filesystem is the caller's
/// concern.
pub fn absolute_path_from_base(base_folder: &str, relative_path: &str) -> (r: String)
    ensures
        r@ == base_folder@ + seq!['/'] + relative_path@,
{
    proof {
        reveal_strlit("/");
    }
    let mut out = base_folder.to_owned();
    out.append("/");
    out.append(relative_path);
    proof {
        assert(out@ =~= base_folder@ + seq!['/'] + relative_path@);
    }
    out
}

/// The relative path from `base` to `path`, as the path-difference
/// computation of the `pathdiff` crate yields it; a pure function of the
/// two path strings.
pub uninterp spec fn rel_path_of(path: Seq<char>, base: Seq<char>) -> Option<Seq<char>>;

/// Relies on pathdiff::diff_paths: computes the relative path from `base`
/// to `path` purely from the two path strings, with no filesystem access.
#[verifier::external_body]
fn diff_paths_str(path: &str, base: &str) -> (r: Option<String>)
    ensures
        (r is Some) == (rel_path_of(path@, base@) is Some),
        r is Some ==> r->0@ == rel_path_of(path@, base@)->0,
{
    pathdiff::diff_paths(path, base).map(|p| p.to_string_lossy().into_owned())
}

/// `s` with every backslash turned into a forward slash.
pub open spec fn normalize_separators(s: Seq<char>) -> Seq<char> {
    s.map_values(|c: char| if c == '\\' { '/' } else { c })
}

/// Turns every backslash of `s` into a forward slash.
fn normalize_separators_exec(s: &str) -> (r: String)
    ensures
        r@ == normalize_separators(s@),
{
    let n = s.unicode_len();
    let mut out = String::new();
    let mut i: usize = 0;
    proof {
        assert(out@ =~= normalize_separators(s@.subrange(0, 0)));
    }
    while i < n
        invariant
            i <= n,
            n == s@.len(),
            out@ == normalize_separators(s@.subrange(0, i as int)),
        decreases n - i,
    {
        let c = s.get_char(i);
        if c == '\\' {
            out.append("/");
            proof {
                reveal_strlit("/");
                assert("/"@ =~= seq!['/']);
            }
        } else {
            let piece = s.substring_char(i, i + 1);
            out.append(piece);
            proof {
                assert(piece@ =~= seq![s@[i as int]]);
            }
        }
        i = i + 1;
        proof {
            assert(out@ =~= normalize_separators(s@.subrange(0, i as int)));
        }
    }
    proof {
        assert(s@.subrange(0, n as int) =~= s@);
    }
    out
}

/// The relative path from `base_folder` to `absolute_path`, with path
/// separators normalized to forward slashes; the absolute path itself when
/// no relative path exists between the two.
pub fn find_relative_path(base_folder: &str, absolute_path: &str) -> (r: String)
    ensures
        r@ == match rel_path_of(absolute_path@, base_folder@) {
            Option::Some(p) => normalize_separators(p),
            Option::None => absolute_path@,
        },
{
    match diff_paths_str(absolute_path, base_folder) {
        Option::Some(rel) => normalize_separators_exec(rel.as_str()),
        Option::None => absolute_path.to_owned(),
    }
}


/// One planned project move: the folder that holds the project file, the
/// folder it becomes under the target base, and the project file's path
/// after the move.
pub struct MovePlanItem {
    pub source_folder: String,
    pub target_subfolder: String,
    pub new_file_path: String,
}

/// The mathematical content of a `MovePlanItem`.
#[verifier::ext_equal]
pub struct MovePlanView {
    pub source_folder: Seq<char>,
    pub target_subfolder: Seq<char>,
    pub new_file_path: Seq<char>,
}

impl View for MovePlanItem {
    type V = MovePlanView;

    open spec fn view(&self) -> MovePlanView {
        MovePlanView {
            source_folder: self.source_folder@,
            target_subfolder: self.target_subfolder@,
            new_file_path: self.new_file_path@,
        }
    }
}

/// The planned move for one project file, judging by the slash-separated
/// form of its path: none when the file has no parent folder or the parent
/// folder has no name; otherwise the parent folder, the equally named
/// subfolder of the target, and the file's path inside it.
pub open spec fn spec_move_plan_one(file: Seq<char>, target: Seq<char>) -> Option<MovePlanView> {
    let source_folder = parent_segment(file, '/');
    let folder_name = last_segment(source_folder, '/');
    if !file.contains('/') || folder_name.len() == 0 {
        Option::None
    } else {
        let target_subfolder = target + seq!['/'] + folder_name;
        Option::Some(
            MovePlanView {
                source_folder,
                target_subfolder,
                new_file_path: target_subfolder + seq!['/'] + last_segment(file, '/'),
            },
        )
    }
}

/// The planned moves for a list of project files, in order, with the files
/// that have no plan left out.
pub open spec fn spec_plan_moves(files: Seq<Seq<char>>, target: Seq<char>) -> Seq<MovePlanView>
    decreases files.len(),
{
    if files.len() == 0 {
        Seq::empty()
    } else {
        match spec_move_plan_one(files[0], target) {
            Option::Some(item) => seq![item] + spec_plan_moves(files.skip(1), target),
            Option::None => spec_plan_moves(files.skip(1), target),
        }
    }
}

/// Plans the move of one project file under the target base folder.
fn move_plan_one(file: &str, target: &str) -> (r: Option<MovePlanItem>)
    ensures
        (r is Some) == (spec_move_plan_one(file@, target@) is Some),
        r is Some ==> r->0@ == spec_move_plan_one(file@, target@)->0,
{
    proof {
        reveal_strlit("/");
    }
    let cut = cut_after_last_slash(file);
    if cut == 0 {
        proof {
            assert(forall|k: int| 0 <= k < file@.len() ==> file@[k] != '/');
            assert(!file@.contains('/'));
        }
        return Option::None;
    }
    proof {
        assert(file@[cut - 1] == '/');
        assert(file@.contains('/'));
        lemma_parent_segment_from_last_sep(file@, '/', cut - 1);
    }
    let source_folder = file.substring_char(0, cut - 1);
    let folder_name = get_last_segment(source_folder);
    if folder_name.unicode_len() == 0 {
        return Option::None;
    }
    let mut target_subfolder = target.to_owned();
    target_subfolder.append("/");
    target_subfolder.append(folder_name);
    let file_name = get_last_segment(file);
    let mut new_file_path = target_subfolder.clone();
    new_file_path.append("/");
    new_file_path.append(file_name);
    let item = MovePlanItem {
        source_folder: source_folder.to_owned(),
        target_subfolder,
        new_file_path,
    };
    proof {
        assert(item@ =~= spec_move_plan_one(file@, target@)->0);
    }
    Option::Some(item)
}

/// Plans, for every project file of the list, where its folder and the file
/// itself go under the target base folder; files without a parent folder
/// are left out. Carrying the plan out on the filesystem is the caller's
/// concern.
pub fn plan_moves(files: &Vec<String>, target_folder: &str) -> (r: Vec<MovePlanItem>)
    ensures
        r@.map_values(|it: MovePlanItem| it@) == spec_plan_moves(
            files@.map_values(|f: String| f@),
            target_folder@,
        ),
{
    let ghost fviews = files@.map_values(|f: String| f@);
    let ghost viewfn = |it: MovePlanItem| it@;
    let mut out: Vec<MovePlanItem> = Vec::new();
    let mut i: usize = 0;
    proof {
        assert(fviews.skip(0) =~= fviews);
        assert(out@.map_values(viewfn) + spec_plan_moves(fviews, target_folder@) =~= spec_plan_moves(
            fviews,
            target_folder@,
        ));
    }
    while i < files.len()
        invariant
            i <= files@.len(),
            fviews == files@.map_values(|f: String| f@),
            viewfn == (|it: MovePlanItem| it@),
            spec_plan_moves(fviews, target_folder@) == out@.map_values(viewfn)
                + spec_plan_moves(fviews.skip(i as int), target_folder@),
        decreases files@.len() - i,
    {
        let ghost rest = fviews.skip(i as int);
        proof {
            assert(rest[0] == fviews[i as int]);
            assert(rest.skip(1) =~= fviews.skip(i + 1));
        }
        match move_plan_one(files[i].as_str(), target_folder) {
            Option::Some(item) => {
                let ghost old_out = out@;
                out.push(item);
                proof {
                    assert(out@.map_values(viewfn) =~= old_out.map_values(viewfn) + seq![item@]);
                    assert(old_out.map_values(viewfn) + (seq![item@] + spec_plan_moves(
                        fviews.skip(i + 1),
                        target_folder@,
                    )) =~= out@.map_values(viewfn) + spec_plan_moves(fviews.skip(i + 1), target_folder@));
                }
            },
            Option::None => {},
        }
        i = i + 1;
    }
    proof {
        assert(fviews.skip(i as int) =~= Seq::<Seq<char>>::empty());
        assert(out@.map_values(viewfn) + spec_plan_moves(fviews.skip(i as int), target_folder@)
            =~= out@.map_values(viewfn));
    }
    out
}

} // verus!
