//! Building the catalog: the one-time ascending sort of the identifiers a
//! directory walk found, which fixes each item's index for the session. The
//! cache and scheduler never re-derive this ordering; it changes only when an
//! item is deleted and the catalog is re-indexed.

use vstd::prelude::*;
use rayon::prelude::ParallelSliceMut;

verus! {

/// Lexicographic order on character sequences, by character code. For UTF-8
/// strings this is the same order as the byte-wise comparison `str` documents.
pub open spec fn lex_le(a: Seq<char>, b: Seq<char>) -> bool
    decreases a.len(),
{
    if a.len() == 0 {
        true
    } else if b.len() == 0 {
        false
    } else if (a[0] as int) < (b[0] as int) {
        true
    } else if (a[0] as int) > (b[0] as int) {
        false
    } else {
        lex_le(a.subrange(1, a.len() as int), b.subrange(1, b.len() as int))
    }
}

/// The position of the last occurrence of `c` in `v`, or -1 when it does not
/// occur.
pub open spec fn last_index_of(v: Seq<char>, c: char) -> int
    decreases v.len(),
{
    if v.len() == 0 {
        -1
    } else if v[v.len() - 1] == c {
        v.len() - 1
    } else {
        last_index_of(v.subrange(0, v.len() - 1), c)
    }
}

/// `last_index_of` points at the last occurrence: that position holds `c` and
/// nothing after it does.
proof fn lemma_last_index_of(v: Seq<char>, c: char)
    ensures
        -1 <= last_index_of(v, c) < v.len(),
        last_index_of(v, c) >= 0 ==> v[last_index_of(v, c)] == c,
        forall|j: int| last_index_of(v, c) < j < v.len() ==> v[j] != c,
    decreases v.len(),
{
    if v.len() == 0 {
    } else if v[v.len() - 1] == c {
    } else {
        let w = v.subrange(0, v.len() - 1);
        lemma_last_index_of(w, c);
        assert forall|j: int| last_index_of(v, c) < j < v.len() implies v[j] != c by {
            if j < v.len() - 1 {
                assert(w[j] != c);
            }
        }
    }
}

/// Case-insensitive match of one ASCII letter.
pub open spec fn folds_to(c: char, lower: char, upper: char) -> bool {
    c == lower || c == upper
}

/// Whether an extension is one of the recognized JPEG spellings, ignoring
/// ASCII case.
pub open spec fn ext_matches_jpeg(e: Seq<char>) -> bool {
    ||| (e.len() == 3 && folds_to(e[0], 'j', 'J') && folds_to(e[1], 'p', 'P') && folds_to(
        e[2],
        'g',
        'G',
    ))
    ||| (e.len() == 4 && folds_to(e[0], 'j', 'J') && folds_to(e[1], 'p', 'P') && folds_to(
        e[2],
        'e',
        'E',
    ) && folds_to(e[3], 'g', 'G'))
}

/// Whether a path names a JPEG file: its final component has an extension (a
/// last dot that is neither the component's first character nor ahead of the
/// last separator) and that extension is a JPEG spelling, case-insensitively.
pub open spec fn spec_is_jpeg_identifier(v: Seq<char>) -> bool {
    let dot = last_index_of(v, '.');
    let slash = last_index_of(v, '/');
    dot > slash + 1 && ext_matches_jpeg(v.subrange(dot + 1, v.len() as int))
}

/// The position of the last occurrence of `c` in `s`, scanning backwards.
fn rfind_char(s: &str, c: char) -> (r: Option<usize>)
    ensures
        match r {
            Some(d) => d as int == last_index_of(s@, c),
            None => last_index_of(s@, c) == -1,
        },
{
    let len = s.unicode_len();
    let mut i = len;
    while i > 0
        invariant
            i <= len,
            len == s@.len(),
            forall|j: int| i <= j < s@.len() ==> s@[j] != c,
        decreases i,
    {
        i = i - 1;
        if s.get_char(i) == c {
            proof {
                lemma_last_index_of(s@, c);
                let d = last_index_of(s@, c);
                if d < i {
                    assert(s@[i as int] != c);
                }
                if d > i {
                    assert(s@[d] != c);
                }
            }
            return Some(i);
        }
    }
    proof {
        lemma_last_index_of(s@, c);
        let d = last_index_of(s@, c);
        if d >= 0 {
            assert(s@[d] != c);
        }
    }
    None
}

/// Whether a path names a JPEG file by its extension, ignoring ASCII case:
/// the test that decides which walked files enter the catalog.
pub fn is_jpeg_identifier(s: &str) -> (r: bool)
    ensures
        r == spec_is_jpeg_identifier(s@),
{
    let len = s.unicode_len();
    proof {
        lemma_last_index_of(s@, '.');
        lemma_last_index_of(s@, '/');
    }
    let d = match rfind_char(s, '.') {
        Some(d) => d,
        None => {
            return false;
        },
    };
    let boundary_ok = match rfind_char(s, '/') {
        Some(sl) => d > sl + 1,
        None => d > 0,
    };
    if !boundary_ok {
        return false;
    }
    let elen = len - (d + 1);
    if elen == 3 {
        let c0 = s.get_char(d + 1);
        let c1 = s.get_char(d + 2);
        let c2 = s.get_char(d + 3);
        (c0 == 'j' || c0 == 'J') && (c1 == 'p' || c1 == 'P') && (c2 == 'g' || c2 == 'G')
    } else if elen == 4 {
        let c0 = s.get_char(d + 1);
        let c1 = s.get_char(d + 2);
        let c2 = s.get_char(d + 3);
        let c3 = s.get_char(d + 4);
        (c0 == 'j' || c0 == 'J') && (c1 == 'p' || c1 == 'P') && (c2 == 'e' || c2 == 'E') && (c3
            == 'g' || c3 == 'G')
    } else {
        false
    }
}

/// Relies on rayon's `par_sort`, which sorts the vector in place into the
/// ascending order of `String` — lexicographic, byte-wise — leaving exactly
/// the same multiset of elements.
#[verifier::external_body]
fn par_sort_strings(v: &mut Vec<String>)
    ensures
        final(v)@.to_multiset() == old(v)@.to_multiset(),
        final(v)@.len() == old(v)@.len(),
        forall|i: int, j: int| 0 <= i < j < final(v)@.len() ==> lex_le(final(v)@[i]@, final(v)@[j]@),
{
    v.par_sort();
}

/// Orders the identifiers a directory walk produced: ascending, keeping every
/// element. The position of each identifier in the result is its catalog
/// index for the session. The order compares the whole path string byte-wise,
/// which can differ across directory boundaries from a component-wise path
/// comparison (for names with characters that order before the separator);
/// either is an acceptable one-time ordering for the catalog.
pub fn build_catalog(identifiers: Vec<String>) -> (r: Vec<String>)
    ensures
        r@.to_multiset() == identifiers@.to_multiset(),
        r@.len() == identifiers@.len(),
        forall|i: int, j: int| 0 <= i < j < r@.len() ==> lex_le(r@[i]@, r@[j]@),
{
    let mut sorted = identifiers;
    par_sort_strings(&mut sorted);
    sorted
}

} // verus!
