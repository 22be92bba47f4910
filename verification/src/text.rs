//! Splitting text at a separator: the first place where a pattern occurs,
//! and the pieces between its occurrences.

use vstd::prelude::*;
use vstd::slice::slice_subrange;
use vstd::string::*;

verus! {

/// `pat` stands in `s` from place `i` on.
pub open spec fn occurs_at(s: Seq<char>, pat: Seq<char>, i: int) -> bool {
    &&& 0 <= i
    &&& i + pat.len() <= s.len()
    &&& s.subrange(i, i + pat.len()) == pat
}

/// `i` is the first place from which `pat` stands in `s`.
pub open spec fn first_occurrence(s: Seq<char>, pat: Seq<char>, i: int) -> bool {
    &&& occurs_at(s, pat, i)
    &&& forall|j: int| 0 <= j < i ==> !occurs_at(s, pat, j)
}

/// The first place from which `pat` stands in `s`, if it stands in it.
pub open spec fn find(s: Seq<char>, pat: Seq<char>) -> Option<int> {
    if exists|i: int| first_occurrence(s, pat, i) {
        Some(choose|i: int| first_occurrence(s, pat, i))
    } else {
        None
    }
}

/// What stands before and behind the first occurrence of `pat` in `s`.
pub open spec fn split_once(s: Seq<char>, pat: Seq<char>) -> Option<(Seq<char>, Seq<char>)> {
    match find(s, pat) {
        Some(i) => Some((s.take(i), s.skip(i + pat.len()))),
        None => None,
    }
}

/// The pieces of `s` between the occurrences of `pat`, found from left to
/// right without overlap. There is always one piece at least; an empty
/// pattern splits nothing.
pub open spec fn split(s: Seq<char>, pat: Seq<char>) -> Seq<Seq<char>>
    decreases s.len(),
{
    match find(s, pat) {
        Some(i) => if pat.len() > 0 && 0 <= i && i + pat.len() <= s.len() {
            seq![s.take(i)] + split(s.skip(i + pat.len()), pat)
        } else {
            seq![s]
        },
        None => seq![s],
    }
}

/// The texts of a vector of strings.
pub open spec fn texts(strings: Seq<String>) -> Seq<Seq<char>> {
    Seq::new(strings.len(), |i: int| strings[i]@)
}

/// The first occurrence is the one that `find` names.
pub proof fn lemma_find(s: Seq<char>, pat: Seq<char>, i: int)
    requires
        first_occurrence(s, pat, i),
    ensures
        find(s, pat) == Some(i),
{
    let j = choose|j: int| first_occurrence(s, pat, j);
    assert(first_occurrence(s, pat, j));
    if j < i {
        assert(!occurs_at(s, pat, j));
    } else if i < j {
        assert(!occurs_at(s, pat, i));
    }
}

/// The characters of `text`.
pub fn chars_of(text: &str) -> (chars: Vec<char>)
    ensures
        chars@ == text@,
{
    let mut chars: Vec<char> = Vec::new();
    for c in iter: text.chars()
        invariant
            iter.seq() == text@,
            chars@ == iter.seq().take(iter.index() as int),
    {
        chars.push(c);
    }
    assert(chars@ =~= text@);
    chars
}

/// Whether `pat` stands in `s` from place `at` on.
pub fn matches_at(s: &[char], at: usize, pat: &[char]) -> (found: bool)
    ensures
        found == occurs_at(s@, pat@, at as int),
{
    let total: usize = s.len();
    let width: usize = pat.len();
    if at > total || total - at < width {
        return false;
    }
    let mut k: usize = 0;
    while k < width
        invariant
            k <= width,
            width == pat@.len(),
            total == s@.len(),
            at + width <= total,
            forall|j: int| 0 <= j < k ==> s@[at + j] == pat@[j],
        decreases width - k,
    {
        if s[at + k] != pat[k] {
            assert(s@.subrange(at as int, at + width)[k as int] != pat@[k as int]);
            return false;
        }
        k += 1;
    }
    assert(s@.subrange(at as int, at + width) =~= pat@);
    true
}

/// The first place from which `pat` stands in `s`.
pub fn find_chars(s: &[char], pat: &[char]) -> (found: Option<usize>)
    ensures
        match found {
            Some(i) => find(s@, pat@) == Some(i as int) && i + pat@.len() <= s@.len(),
            None => find(s@, pat@) is None,
        },
{
    let total: usize = s.len();
    let width: usize = pat.len();
    if width > total {
        return None;
    }
    let last: usize = total - width;
    let mut i: usize = 0;
    loop
        invariant
            i <= last,
            last + width == total,
            total == s@.len(),
            width == pat@.len(),
            forall|j: int| 0 <= j < i ==> !occurs_at(s@, pat@, j),
        decreases last - i,
    {
        if matches_at(s, i, pat) {
            proof {
                lemma_find(s@, pat@, i as int);
            }
            return Some(i);
        }
        if i == last {
            return None;
        }
        i += 1;
    }
}

/// Whether two texts are the same.
pub fn same_text(a: &str, b: &str) -> (same: bool)
    ensures
        same == (a@ == b@),
{
    let left: Vec<char> = chars_of(a);
    let right: Vec<char> = chars_of(b);
    if left.len() != right.len() {
        return false;
    }
    let mut i: usize = 0;
    while i < left.len()
        invariant
            i <= left@.len(),
            left@ == a@,
            right@ == b@,
            left@.len() == right@.len(),
            forall|j: int| 0 <= j < i ==> left@[j] == right@[j],
        decreases left@.len() - i,
    {
        if left[i] != right[i] {
            assert(left@[i as int] != right@[i as int]);
            return false;
        }
        i += 1;
    }
    assert(left@ =~= right@);
    true
}

/// Whether `text` begins with `prefix`.
pub fn starts_with(text: &str, prefix: &str) -> (found: bool)
    ensures
        found == occurs_at(text@, prefix@, 0),
{
    let chars: Vec<char> = chars_of(text);
    let pat: Vec<char> = chars_of(prefix);
    matches_at(chars.as_slice(), 0, pat.as_slice())
}

/// What stands before and behind the first occurrence of `pat` in `text`.
pub fn split_text_once(text: &str, pat: &str) -> (halves: Option<(String, String)>)
    ensures
        match split_once(text@, pat@) {
            Some((before, after)) => halves matches Some((a, b)) && a@ == before && b@ == after,
            None => halves is None,
        },
{
    let chars: Vec<char> = chars_of(text);
    let pattern: Vec<char> = chars_of(pat);
    let total: usize = chars.len();
    let width: usize = pattern.len();
    match find_chars(chars.as_slice(), pattern.as_slice()) {
        None => None,
        Some(i) => {
            let before: String = String::from_str(text.substring_char(0, i));
            let after: String = String::from_str(text.substring_char(i + width, total));
            proof {
                assert(text@.subrange(0, i as int) =~= text@.take(i as int));
                assert(text@.subrange(i + width, total as int) =~= text@.skip(i + width));
            }
            Some((before, after))
        },
    }
}

/// The pieces of `text` between the occurrences of `pat`.
pub fn split_text(text: &str, pat: &str) -> (pieces: Vec<String>)
    ensures
        texts(pieces@) == split(text@, pat@),
        pieces@.len() >= 1,
{
    let chars: Vec<char> = chars_of(text);
    let pattern: Vec<char> = chars_of(pat);
    let total: usize = chars.len();
    let width: usize = pattern.len();
    let mut pieces: Vec<String> = Vec::new();
    if width == 0 {
        pieces.push(String::from_str(text));
        assert(texts(pieces@) =~= split(text@, pat@));
        return pieces;
    }
    let mut pos: usize = 0;
    proof {
        assert(text@.skip(0) =~= text@);
        assert(texts(pieces@) + split(text@, pat@) =~= split(text@, pat@));
    }
    loop
        invariant
            pos <= total,
            total == chars@.len(),
            width == pattern@.len(),
            width > 0,
            chars@ == text@,
            pattern@ == pat@,
            texts(pieces@) + split(text@.skip(pos as int), pat@) == split(text@, pat@),
        decreases total - pos,
    {
        let rest: &[char] = slice_subrange(chars.as_slice(), pos, total);
        assert(rest@ =~= text@.skip(pos as int));
        match find_chars(rest, pattern.as_slice()) {
            None => {
                let ghost before = texts(pieces@);
                pieces.push(String::from_str(text.substring_char(pos, total)));
                proof {
                    assert(text@.subrange(pos as int, total as int) =~= text@.skip(pos as int));
                    assert(texts(pieces@) =~= before + seq![text@.skip(pos as int)]);
                }
                return pieces;
            },
            Some(i) => {
                let ghost before = texts(pieces@);
                pieces.push(String::from_str(text.substring_char(pos, pos + i)));
                proof {
                    let here = text@.skip(pos as int);
                    assert(text@.subrange(pos as int, pos + i) =~= here.take(i as int));
                    assert(here.skip(i + width) =~= text@.skip(pos + i + width));
                    assert(texts(pieces@) =~= before + seq![here.take(i as int)]);
                    assert(texts(pieces@) + split(text@.skip(pos + i + width), pat@) =~= before
                        + split(here, pat@));
                }
                pos = pos + i + width;
            },
        }
    }
}

} // verus!
