use vstd::prelude::*;
use vstd::string::StrSliceExecFns;
use vstd::string::StringExecFns;

verus! {

/// Whether `pat` occurs as a contiguous subsequence of `s`.
pub open spec fn contains_seq<T>(s: Seq<T>, pat: Seq<T>) -> bool {
    exists|i: int|
        0 <= i && i + pat.len() <= s.len() && #[trigger] s.subrange(i, i + pat.len() as int)
            == pat
}

/// The final `sep`-separated segment of `s`: everything after the last
/// `sep`, the empty sequence when `s` ends with `sep` or is empty, and all
/// of `s` when it holds no `sep`.
pub open spec fn last_segment<T>(s: Seq<T>, sep: T) -> Seq<T>
    decreases s.len(),
{
    if s.len() == 0 {
        Seq::empty()
    } else if s.last() == sep {
        Seq::empty()
    } else {
        last_segment(s.drop_last(), sep).push(s.last())
    }
}

/// Everything before the last `sep` of `s`, exclusive; the empty sequence
/// when `s` holds no `sep`.
pub open spec fn parent_segment<T>(s: Seq<T>, sep: T) -> Seq<T>
    decreases s.len(),
{
    if s.len() == 0 {
        s
    } else if s.last() == sep {
        s.drop_last()
    } else {
        parent_segment(s.drop_last(), sep)
    }
}

/// `s` with every ampersand expanded to its XML entity.
pub open spec fn encode_amp(s: Seq<char>) -> Seq<char>
    decreases s.len(),
{
    if s.len() == 0 {
        Seq::empty()
    } else if s[0] == '&' {
        seq!['&', 'a', 'm', 'p', ';'] + encode_amp(s.skip(1))
    } else {
        seq![s[0]] + encode_amp(s.skip(1))
    }
}

/// `s` with every XML ampersand entity collapsed back to an ampersand,
/// scanning left to right without overlap.
pub open spec fn decode_amp(s: Seq<char>) -> Seq<char>
    decreases s.len(),
{
    if s.len() == 0 {
        Seq::empty()
    } else if s.len() >= 5 && s.subrange(0, 5) == seq!['&', 'a', 'm', 'p', ';'] {
        seq!['&'] + decode_amp(s.skip(5))
    } else {
        seq![s[0]] + decode_amp(s.skip(1))
    }
}

/// A final path segment that names no file: the empty segment, or the
/// current- or parent-directory dot form.
pub open spec fn no_filename(seg: Seq<char>) -> bool {
    seg.len() == 0 || seg == seq!['.'] || seg == seq!['.', '.']
}

/// When no `sep` occurs at or after position `cut`, and `cut` is either the
/// start or just past a `sep`, the last segment is exactly the suffix that
/// starts at `cut`.
pub proof fn lemma_last_segment_from_cut<T>(s: Seq<T>, sep: T, cut: int)
    requires
        0 <= cut <= s.len(),
        forall|k: int| cut <= k < s.len() ==> s[k] != sep,
        cut == 0 || s[cut - 1] == sep,
    ensures
        last_segment(s, sep) == s.subrange(cut, s.len() as int),
    decreases s.len(),
{
    if s.len() == 0 {
        assert(last_segment(s, sep) =~= s.subrange(0, 0));
    } else if s.last() == sep {
        assert(cut == s.len());
        assert(last_segment(s, sep) =~= s.subrange(cut, s.len() as int));
    } else {
        assert(cut < s.len());
        lemma_last_segment_from_cut(s.drop_last(), sep, cut);
        assert(s.drop_last().subrange(cut, s.len() - 1) =~= s.subrange(cut, s.len() - 1));
        assert(last_segment(s, sep) =~= s.subrange(cut, s.len() as int));
    }
}

/// When `s[j]` is the last `sep` of `s`, the parent segment is exactly the
/// prefix that ends at `j`.
pub proof fn lemma_parent_segment_from_last_sep<T>(s: Seq<T>, sep: T, j: int)
    requires
        0 <= j < s.len(),
        s[j] == sep,
        forall|k: int| j < k < s.len() ==> s[k] != sep,
    ensures
        parent_segment(s, sep) == s.subrange(0, j),
    decreases s.len(),
{
    if s.last() == sep {
        assert(j == s.len() - 1);
        assert(parent_segment(s, sep) =~= s.subrange(0, j));
    } else {
        assert(j < s.len() - 1);
        lemma_parent_segment_from_last_sep(s.drop_last(), sep, j);
        assert(s.drop_last().subrange(0, j) =~= s.subrange(0, j));
    }
}

/// When `s` holds no `sep` at all, the parent segment is empty.
pub proof fn lemma_parent_segment_none<T>(s: Seq<T>, sep: T)
    requires
        forall|k: int| 0 <= k < s.len() ==> s[k] != sep,
    ensures
        parent_segment(s, sep) == Seq::<T>::empty(),
    decreases s.len(),
{
    if s.len() == 0 {
        assert(parent_segment(s, sep) =~= Seq::<T>::empty());
    } else {
        lemma_parent_segment_none(s.drop_last(), sep);
    }
}

/// The position just past the last slash of `path`, or zero when `path`
/// holds no slash.
pub(crate) fn cut_after_last_slash(path: &str) -> (cut: usize)
    ensures
        cut <= path@.len(),
        forall|k: int| cut <= k < path@.len() ==> path@[k] != '/',
        cut == 0 || path@[cut - 1] == '/',
{
    let n = path.unicode_len();
    let mut cut: usize = 0;
    let mut i: usize = 0;
    while i < n
        invariant
            cut <= i <= n,
            n == path@.len(),
            forall|k: int| cut <= k < i ==> path@[k] != '/',
            cut == 0 || path@[cut - 1] == '/',
        decreases n - i,
    {
        if path.get_char(i) == '/' {
            cut = i + 1;
        }
        i = i + 1;
    }
    cut
}

/// The final slash-separated segment of `path`. A path that ends with a
/// slash has an empty final segment; one without a slash is its own final
/// segment.
pub fn get_last_segment(path: &str) -> (r: &str)
    ensures
        r@ == last_segment(path@, '/'),
{
    let n = path.unicode_len();
    let cut = cut_after_last_slash(path);
    proof {
        lemma_last_segment_from_cut(path@, '/', cut as int);
    }
    path.substring_char(cut, n)
}

/// Whether the immediate parent directory of `path` is named `Backup`,
/// judging by the slash-separated form of the path.
pub fn is_backup_folder(path: &str) -> (r: bool)
    ensures
        r == (last_segment(parent_segment(path@, '/'), '/') == "Backup"@),
{
    proof {
        reveal_strlit("Backup");
    }
    let n = path.unicode_len();
    let cut = cut_after_last_slash(path);
    if cut == 0 {
        proof {
            lemma_parent_segment_none(path@, '/');
            assert(last_segment(Seq::<char>::empty(), '/') =~= Seq::<char>::empty());
        }
        return false;
    }
    // The parent is everything before the slash at cut - 1.
    let j = cut - 1;
    proof {
        lemma_parent_segment_from_last_sep(path@, '/', j as int);
    }
    let parent = path.substring_char(0, j);
    let seg = get_last_segment(parent);
    seg.to_owned() == String::from_str("Backup")
}

/// Replaces each ampersand of `value` by its XML entity, so that the value
/// can stand inside an XML attribute.
pub fn sanitize_for_xml(value: &str) -> (r: String)
    ensures
        r@ == encode_amp(value@),
{
    let n = value.unicode_len();
    let mut out = String::new();
    let mut i: usize = 0;
    proof {
        assert(value@.skip(0) =~= value@);
        assert(out@ + encode_amp(value@) =~= encode_amp(value@));
    }
    while i < n
        invariant
            i <= n,
            n == value@.len(),
            encode_amp(value@) == out@ + encode_amp(value@.skip(i as int)),
        decreases n - i,
    {
        let ghost rest = value@.skip(i as int);
        let c = value.get_char(i);
        assert(rest[0] == c);
        if c == '&' {
            out.append("&amp;");
            proof {
                reveal_strlit("&amp;");
                assert("&amp;"@ =~= seq!['&', 'a', 'm', 'p', ';']);
            }
        } else {
            let piece = value.substring_char(i, i + 1);
            out.append(piece);
            proof {
                assert(piece@ =~= seq![rest[0]]);
            }
        }
        i = i + 1;
        proof {
            assert(rest.skip(1) =~= value@.skip(i as int));
            assert(encode_amp(value@) =~= out@ + encode_amp(value@.skip(i as int)));
        }
    }
    proof {
        assert(value@.skip(n as int) =~= Seq::<char>::empty());
        assert(encode_amp(value@) =~= out@);
    }
    out
}

/// Collapses each XML ampersand entity of `value` back to an ampersand.
pub fn decode_xml_value(value: &str) -> (r: String)
    ensures
        r@ == decode_amp(value@),
{
    let n = value.unicode_len();
    let mut out = String::new();
    let mut i: usize = 0;
    proof {
        assert(value@.skip(0) =~= value@);
        assert(out@ + decode_amp(value@) =~= decode_amp(value@));
    }
    while i < n
        invariant
            i <= n,
            n == value@.len(),
            decode_amp(value@) == out@ + decode_amp(value@.skip(i as int)),
        decreases n - i,
    {
        let ghost rest = value@.skip(i as int);
        let ghost pat = seq!['&', 'a', 'm', 'p', ';'];
        let is_entity = n - i >= 5 && value.get_char(i) == '&' && value.get_char(i + 1) == 'a'
            && value.get_char(i + 2) == 'm' && value.get_char(i + 3) == 'p' && value.get_char(
            i + 4,
        ) == ';';
        if is_entity {
            proof {
                assert(rest.subrange(0, 5) =~= pat);
            }
            out.append("&");
            proof {
                reveal_strlit("&");
                assert("&"@ =~= seq!['&']);
            }
            i = i + 5;
            proof {
                assert(rest.skip(5) =~= value@.skip(i as int));
                assert(decode_amp(value@) =~= out@ + decode_amp(value@.skip(i as int)));
            }
        } else {
            proof {
                if rest.len() >= 5 && rest.subrange(0, 5) == pat {
                    assert(rest.subrange(0, 5)[0] == rest[0]);
                    assert(rest.subrange(0, 5)[1] == rest[1]);
                    assert(rest.subrange(0, 5)[2] == rest[2]);
                    assert(rest.subrange(0, 5)[3] == rest[3]);
                    assert(rest.subrange(0, 5)[4] == rest[4]);
                    assert(rest[0] == value@[i as int]);
                    assert(rest[1] == value@[i + 1]);
                    assert(rest[2] == value@[i + 2]);
                    assert(rest[3] == value@[i + 3]);
                    assert(rest[4] == value@[i + 4]);
                    assert(false);
                }
            }
            let piece = value.substring_char(i, i + 1);
            out.append(piece);
            proof {
                assert(piece@ =~= seq![rest[0]]);
            }
            i = i + 1;
            proof {
                assert(rest.skip(1) =~= value@.skip(i as int));
                assert(decode_amp(value@) =~= out@ + decode_amp(value@.skip(i as int)));
            }
        }
    }
    proof {
        assert(value@.skip(n as int) =~= Seq::<char>::empty());
        assert(decode_amp(value@) =~= out@);
    }
    out
}

/// Whether `s` contains `pat` as a contiguous run of characters.
pub fn contains_sub(s: &str, pat: &str) -> (r: bool)
    ensures
        r == contains_seq(s@, pat@),
{
    let n = s.unicode_len();
    let m = pat.unicode_len();
    if m > n {
        return false;
    }
    let mut i: usize = 0;
    while i <= n - m
        invariant
            m <= n,
            i <= n - m + 1,
            n == s@.len(),
            m == pat@.len(),
            forall|k: int| 0 <= k < i ==> #[trigger] s@.subrange(k, k + m as int) != pat@,
        decreases n - m - i + 1,
    {
        let mut j: usize = 0;
        let mut ok = true;
        while j < m
            invariant
                j <= m,
                i + m <= n,
                n == s@.len(),
                m == pat@.len(),
                ok == (forall|l: int| 0 <= l < j ==> s@[i + l] == pat@[l]),
            decreases m - j,
        {
            let c1 = s.get_char(i + j);
            let c2 = pat.get_char(j);
            ok = ok && c1 == c2;
            j = j + 1;
        }
        if ok {
            proof {
                assert(s@.subrange(i as int, i + m as int) =~= pat@);
            }
            return true;
        }
        proof {
            let l = choose|l: int| 0 <= l < m && s@[i + l] != pat@[l];
            assert(s@.subrange(i as int, i + m as int)[l] == s@[i + l]);
        }
        i = i + 1;
    }
    proof {
        assert(forall|k: int|
            0 <= k && k + pat@.len() <= s@.len() ==> #[trigger] s@.subrange(
                k,
                k + pat@.len() as int,
            ) != pat@);
    }
    false
}

/// Whether a project file is to be processed: true exactly when no entry of
/// the exclusion list occurs inside the file's path.
pub open spec fn spec_should_run(path: Seq<char>, exclude: Seq<String>) -> bool {
    forall|i: int| 0 <= i < exclude.len() ==> !contains_seq(path, exclude[i]@)
}

/// Decides whether the file at `file_path` is processed or skipped, by the
/// exclusion list of the settings.
pub fn should_run(file_path: &str, exclude_files: &Vec<String>) -> (r: bool)
    ensures
        r == spec_should_run(file_path@, exclude_files@),
{
    let mut i: usize = 0;
    while i < exclude_files.len()
        invariant
            i <= exclude_files@.len(),
            forall|k: int| 0 <= k < i ==> !contains_seq(file_path@, exclude_files@[k]@),
        decreases exclude_files@.len() - i,
    {
        if contains_sub(file_path, exclude_files[i].as_str()) {
            return false;
        }
        i = i + 1;
    }
    true
}

} // verus!
