use vstd::prelude::*;
use crate::text::{contains_seq, last_segment};

verus! {

/// Byte values of the ASCII characters the scanners recognize.
pub const LT: u8 = 60;

pub const GT: u8 = 62;

pub const SLASH: u8 = 47;

pub const QUOT: u8 = 34;

pub const APOS: u8 = 39;

pub const EQUALS: u8 = 61;

pub const AMP: u8 = 38;

pub const LETTER_A: u8 = 97;

pub const LETTER_M: u8 = 109;

pub const LETTER_P: u8 = 112;

pub const SEMI: u8 = 59;

pub const QMARK: u8 = 63;

pub const BANG: u8 = 33;

pub const DASH: u8 = 45;

pub const RBRACK: u8 = 93;

pub const DOT: u8 = 46;

/// XML whitespace: space, tab, line feed, carriage return.
pub open spec fn is_ws(b: u8) -> bool {
    b == 32 || b == 9 || b == 10 || b == 13
}

/// A byte that ends a tag name: whitespace, the closing angle bracket, or
/// the slash of a self-closing tag.
pub open spec fn is_name_delim(b: u8) -> bool {
    is_ws(b) || b == GT || b == SLASH
}

/// A final path segment, as bytes, that names no file: the empty segment,
/// or the current- or parent-directory dot form.
pub open spec fn no_filename_bytes(seg: Seq<u8>) -> bool {
    seg.len() == 0 || seg == seq![DOT] || seg == seq![DOT, DOT]
}

/// The smallest position at or after `from` where `b` stands in `s`.
pub open spec fn find_byte(s: Seq<u8>, from: int, b: u8) -> Option<int>
    decreases s.len() - from,
{
    if from < 0 || from >= s.len() {
        Option::None
    } else if s[from] == b {
        Option::Some(from)
    } else {
        find_byte(s, from + 1, b)
    }
}

/// What a `find_byte` result means: the position found carries `b` and
/// nothing before it does, from `from` on; no position means no `b` at all.
pub proof fn lemma_find_byte_props(s: Seq<u8>, from: int, b: u8)
    requires
        0 <= from,
    ensures
        match find_byte(s, from, b) {
            Option::Some(j) => from <= j < s.len() && s[j] == b && (forall|k: int|
                from <= k < j ==> s[k] != b),
            Option::None => forall|k: int| from <= k < s.len() ==> s[k] != b,
        },
    decreases s.len() - from,
{
    if from < s.len() && s[from] != b {
        lemma_find_byte_props(s, from + 1, b);
    }
}

/// The smallest position at or after `from` where `pat` starts in `s`.
pub open spec fn find_pat(s: Seq<u8>, from: int, pat: Seq<u8>) -> Option<int>
    decreases s.len() - from,
{
    if from < 0 || pat.len() == 0 || from + pat.len() > s.len() {
        Option::None
    } else if s.subrange(from, from + pat.len() as int) == pat {
        Option::Some(from)
    } else {
        find_pat(s, from + 1, pat)
    }
}

/// What a `find_pat` result means: `pat` stands at the position found.
pub proof fn lemma_find_pat_props(s: Seq<u8>, from: int, pat: Seq<u8>)
    requires
        0 <= from,
    ensures
        match find_pat(s, from, pat) {
            Option::Some(j) => from <= j && j + pat.len() <= s.len() && s.subrange(
                j,
                j + pat.len() as int,
            ) == pat,
            Option::None => true,
        },
    decreases s.len() - from,
{
    if pat.len() > 0 && from + pat.len() <= s.len() && s.subrange(from, from + pat.len() as int)
        != pat {
        lemma_find_pat_props(s, from + 1, pat);
    }
}

/// The position of the closing angle bracket of the tag that starts before
/// `from`, skipping quoted attribute values on the way.
pub open spec fn tag_end(s: Seq<u8>, from: int) -> Option<int>
    decreases s.len() - from,
{
    if from < 0 || from >= s.len() {
        Option::None
    } else if s[from] == GT {
        Option::Some(from)
    } else if s[from] == QUOT || s[from] == APOS {
        match find_byte(s, from + 1, s[from]) {
            Option::Some(j) => if from < j && j < s.len() {
                tag_end(s, j + 1)
            } else {
                Option::None
            },
            Option::None => Option::None,
        }
    } else {
        tag_end(s, from + 1)
    }
}

/// What a `tag_end` result means: the position found carries the closing
/// bracket and lies inside `s`.
pub proof fn lemma_tag_end_props(s: Seq<u8>, from: int)
    requires
        0 <= from,
    ensures
        match tag_end(s, from) {
            Option::Some(j) => from <= j < s.len() && s[j] == GT,
            Option::None => true,
        },
    decreases s.len() - from,
{
    if 0 <= from && from < s.len() && s[from] != GT {
        if s[from] == QUOT || s[from] == APOS {
            lemma_find_byte_props(s, from + 1, s[from]);
            match find_byte(s, from + 1, s[from]) {
                Option::Some(j) => {
                    if from < j && j < s.len() {
                        lemma_tag_end_props(s, j + 1);
                    }
                },
                Option::None => {},
            }
        } else {
            lemma_tag_end_props(s, from + 1);
        }
    }
}

/// The position of the first name-delimiting byte at or after `from`, or
/// the length of `s` when none follows.
pub open spec fn name_end(s: Seq<u8>, from: int) -> int
    decreases s.len() - from,
{
    if from < 0 || from >= s.len() {
        s.len() as int
    } else if is_name_delim(s[from]) {
        from
    } else {
        name_end(s, from + 1)
    }
}

/// What `name_end` yields: a position no earlier than `from` and no later
/// than the end, with no delimiter before it.
pub proof fn lemma_name_end_props(s: Seq<u8>, from: int)
    requires
        0 <= from <= s.len(),
    ensures
        from <= name_end(s, from) <= s.len(),
        forall|k: int| from <= k < name_end(s, from) ==> !is_name_delim(s[k]),
        name_end(s, from) < s.len() ==> is_name_delim(s[name_end(s, from)]),
    decreases s.len() - from,
{
    if from < s.len() && !is_name_delim(s[from]) {
        lemma_name_end_props(s, from + 1);
    }
}

/// Finds the first `b` at or after `from` in `s`.
pub fn find_byte_exec(s: &[u8], from: usize, b: u8) -> (r: Option<usize>)
    requires
        from <= s@.len(),
    ensures
        match find_byte(s@, from as int, b) {
            Option::Some(j) => r == Option::Some(j as usize),
            Option::None => r is None,
        },
{
    let n = s.len();
    let mut k = from;
    while k < n
        invariant
            from <= k <= n,
            n == s@.len(),
            find_byte(s@, from as int, b) == find_byte(s@, k as int, b),
        decreases n - k,
    {
        if s[k] == b {
            return Option::Some(k);
        }
        k = k + 1;
    }
    Option::None
}

/// Finds the closing angle bracket of the tag that starts before `from`,
/// skipping quoted attribute values.
pub fn tag_end_exec(s: &[u8], from: usize) -> (r: Option<usize>)
    requires
        from <= s@.len(),
    ensures
        match tag_end(s@, from as int) {
            Option::Some(j) => r == Option::Some(j as usize),
            Option::None => r is None,
        },
{
    let n = s.len();
    let mut k = from;
    while k < n
        invariant
            from <= k <= n,
            n == s@.len(),
            tag_end(s@, from as int) == tag_end(s@, k as int),
        decreases n - k,
    {
        let c = s[k];
        if c == GT {
            return Option::Some(k);
        } else if c == QUOT || c == APOS {
            proof {
                lemma_find_byte_props(s@, k + 1, c);
            }
            match find_byte_exec(s, k + 1, c) {
                Option::Some(j) => {
                    k = j + 1;
                },
                Option::None => {
                    return Option::None;
                },
            }
        } else {
            k = k + 1;
        }
    }
    Option::None
}

/// Finds the end of the tag name that starts at `from`.
pub fn name_end_exec(s: &[u8], from: usize) -> (r: usize)
    requires
        from <= s@.len(),
    ensures
        r == name_end(s@, from as int),
{
    let n = s.len();
    let mut k = from;
    while k < n
        invariant
            from <= k <= n,
            n == s@.len(),
            name_end(s@, from as int) == name_end(s@, k as int),
        decreases n - k,
    {
        let c = s[k];
        if c == 32 || c == 9 || c == 10 || c == 13 || c == GT || c == SLASH {
            return k;
        }
        k = k + 1;
    }
    n
}

/// Whether the bytes of `a` and `b` are equal.
pub fn bytes_eq(a: &[u8], b: &[u8]) -> (r: bool)
    ensures
        r == (a@ == b@),
{
    if a.len() != b.len() {
        return false;
    }
    let n = a.len();
    let mut i: usize = 0;
    while i < n
        invariant
            i <= n,
            n == a@.len() == b@.len(),
            forall|k: int| 0 <= k < i ==> a@[k] == b@[k],
        decreases n - i,
    {
        if a[i] != b[i] {
            return false;
        }
        i = i + 1;
    }
    proof {
        assert(a@ =~= b@);
    }
    true
}

/// Whether `pat` occurs as a contiguous run of bytes inside `s`.
pub fn contains_bytes(s: &[u8], pat: &[u8]) -> (r: bool)
    ensures
        r == contains_seq(s@, pat@),
{
    let n = s.len();
    let m = pat.len();
    if m > n {
        return false;
    }
    let mut i: usize = 0;
    while i <= n - m
        invariant
            m <= n,
            i <= n - m + 1,
            n == s@.len(),
            m == pat@.len(),
            forall|k: int| 0 <= k < i ==> #[trigger] s@.subrange(k, k + m as int) != pat@,
        decreases n - m - i + 1,
    {
        let mut j: usize = 0;
        let mut ok = true;
        while j < m
            invariant
                j <= m,
                i + m <= n,
                n == s@.len(),
                m == pat@.len(),
                ok == (forall|l: int| 0 <= l < j ==> s@[i + l] == pat@[l]),
            decreases m - j,
        {
            let c1 = s[i + j];
            let c2 = pat[j];
            ok = ok && c1 == c2;
            j = j + 1;
        }
        if ok {
            proof {
                assert(s@.subrange(i as int, i + m as int) =~= pat@);
            }
            return true;
        }
        proof {
            let l = choose|l: int| 0 <= l < m && s@[i + l] != pat@[l];
            assert(s@.subrange(i as int, i + m as int)[l] == s@[i + l]);
        }
        i = i + 1;
    }
    proof {
        assert(forall|k: int|
            0 <= k && k + pat@.len() <= s@.len() ==> #[trigger] s@.subrange(
                k,
                k + pat@.len() as int,
            ) != pat@);
    }
    false
}

/// The final slash-separated segment of a byte path.
pub fn last_segment_bytes(path: &[u8]) -> (r: Vec<u8>)
    ensures
        r@ == last_segment(path@, SLASH),
{
    let n = path.len();
    let mut cut: usize = 0;
    let mut i: usize = 0;
    while i < n
        invariant
            cut <= i <= n,
            n == path@.len(),
            forall|k: int| cut <= k < i ==> path@[k] != SLASH,
            cut == 0 || path@[cut - 1] == SLASH,
        decreases n - i,
    {
        if path[i] == SLASH {
            cut = i + 1;
        }
        i = i + 1;
    }
    proof {
        crate::text::lemma_last_segment_from_cut(path@, SLASH, cut as int);
    }
    vstd::slice::slice_to_vec(vstd::slice::slice_subrange(path, cut, n))
}

/// A byte sequence with every XML ampersand entity collapsed back to an
/// ampersand, scanning left to right without overlap.
pub open spec fn decode_amp_bytes(s: Seq<u8>) -> Seq<u8>
    decreases s.len(),
{
    if s.len() == 0 {
        Seq::empty()
    } else if s.len() >= 5 && s.subrange(0, 5) == amp_entity() {
        seq![AMP] + decode_amp_bytes(s.skip(5))
    } else {
        seq![s[0]] + decode_amp_bytes(s.skip(1))
    }
}

/// The bytes of the XML ampersand entity.
pub open spec fn amp_entity() -> Seq<u8> {
    seq![AMP, LETTER_A, LETTER_M, LETTER_P, SEMI]
}

/// Collapses each XML ampersand entity of a byte string back to an
/// ampersand.
pub fn decode_amp_bytes_exec(value: &[u8]) -> (r: Vec<u8>)
    ensures
        r@ == decode_amp_bytes(value@),
{
    let n = value.len();
    let mut out: Vec<u8> = Vec::new();
    let mut i: usize = 0;
    proof {
        assert(value@.skip(0) =~= value@);
        assert(out@ + decode_amp_bytes(value@) =~= decode_amp_bytes(value@));
    }
    while i < n
        invariant
            i <= n,
            n == value@.len(),
            decode_amp_bytes(value@) == out@ + decode_amp_bytes(value@.skip(i as int)),
        decreases n - i,
    {
        let ghost rest = value@.skip(i as int);
        let is_entity = n - i >= 5 && value[i] == AMP && value[i + 1] == LETTER_A && value[i + 2]
            == LETTER_M && value[i + 3] == LETTER_P && value[i + 4] == SEMI;
        if is_entity {
            proof {
                assert(rest.subrange(0, 5) =~= amp_entity());
            }
            out.push(AMP);
            i = i + 5;
            proof {
                assert(rest.skip(5) =~= value@.skip(i as int));
                assert(decode_amp_bytes(value@) =~= out@ + decode_amp_bytes(value@.skip(i as int)));
            }
        } else {
            proof {
                if rest.len() >= 5 && rest.subrange(0, 5) == amp_entity() {
                    assert(rest.subrange(0, 5)[0] == rest[0]);
                    assert(rest.subrange(0, 5)[1] == rest[1]);
                    assert(rest.subrange(0, 5)[2] == rest[2]);
                    assert(rest.subrange(0, 5)[3] == rest[3]);
                    assert(rest.subrange(0, 5)[4] == rest[4]);
                    assert(rest[0] == value@[i as int]);
                    assert(rest[1] == value@[i + 1]);
                    assert(rest[2] == value@[i + 2]);
                    assert(rest[3] == value@[i + 3]);
                    assert(rest[4] == value@[i + 4]);
                    assert(false);
                }
            }
            let c = value[i];
            out.push(c);
            proof {
                assert(seq![rest[0]] =~= seq![c]);
            }
            i = i + 1;
            proof {
                assert(rest.skip(1) =~= value@.skip(i as int));
                assert(decode_amp_bytes(value@) =~= out@ + decode_amp_bytes(value@.skip(i as int)));
            }
        }
    }
    proof {
        assert(value@.skip(n as int) =~= Seq::<u8>::empty());
        assert(decode_amp_bytes(value@) =~= out@);
    }
    out
}


/// Finds the first occurrence of `pat` at or after `from` in `s`.
pub fn find_pat_exec(s: &[u8], from: usize, pat: &[u8]) -> (r: Option<usize>)
    requires
        from <= s@.len(),
        pat@.len() > 0,
    ensures
        match find_pat(s@, from as int, pat@) {
            Option::Some(j) => r == Option::Some(j as usize),
            Option::None => r is None,
        },
{
    let n = s.len();
    let m = pat.len();
    let mut k = from;
    while k <= n && m <= n - k
        invariant
            from <= k <= n,
            n == s@.len(),
            m == pat@.len(),
            m > 0,
            find_pat(s@, from as int, pat@) == find_pat(s@, k as int, pat@),
        decreases n - k,
    {
        let mut j: usize = 0;
        let mut ok = true;
        while j < m
            invariant
                j <= m,
                k + m <= n,
                n == s@.len(),
                m == pat@.len(),
                ok == (forall|l: int| 0 <= l < j ==> s@[k + l] == pat@[l]),
            decreases m - j,
        {
            let c1 = s[k + j];
            let c2 = pat[j];
            ok = ok && c1 == c2;
            j = j + 1;
        }
        if ok {
            proof {
                assert(s@.subrange(k as int, k + m as int) =~= pat@);
            }
            return Option::Some(k);
        }
        proof {
            let l = choose|l: int| 0 <= l < m && s@[k + l] != pat@[l];
            assert(s@.subrange(k as int, k + m as int)[l] == s@[k + l]);
        }
        k = k + 1;
    }
    Option::None
}


/// When `b` stands at `e` and nowhere between `from` and `e`, the search
/// finds exactly `e`.
pub proof fn lemma_find_byte_exact(s: Seq<u8>, from: int, b: u8, e: int)
    requires
        0 <= from <= e < s.len(),
        s[e] == b,
        forall|k: int| from <= k < e ==> s[k] != b,
    ensures
        find_byte(s, from, b) == Option::Some(e),
    decreases e - from,
{
    if from < e {
        lemma_find_byte_exact(s, from + 1, b, e);
    }
}

} // verus!
