//! Substring search over character sequences.
//!
//! The template directives are fixed character patterns; everything the
//! renderer does starts with finding the leftmost occurrence of such a
//! pattern, so the notion of an occurrence is defined once here.

use vstd::prelude::*;

verus! {

/// `pat` stands in `text` at position `i`.
pub open spec fn occurs_at(text: Seq<char>, pat: Seq<char>, i: int) -> bool {
    &&& 0 <= i
    &&& i + pat.len() <= text.len()
    &&& text.subrange(i, i + pat.len()) == pat
}

/// `pat` stands in `text` somewhere at or after position `from`.
pub open spec fn occurs_from(text: Seq<char>, pat: Seq<char>, from: int) -> bool {
    exists|i: int| from <= i && occurs_at(text, pat, i)
}

/// `i` is the leftmost position at or after `from` where `pat` stands in `text`.
pub open spec fn is_first_occurrence(text: Seq<char>, pat: Seq<char>, from: int, i: int) -> bool {
    &&& from <= i
    &&& occurs_at(text, pat, i)
    &&& forall|j: int| from <= j < i ==> !occurs_at(text, pat, j)
}

/// The leftmost position at or after `from` where `pat` stands in `text`,
/// or `-1` when there is none: a recursive form of `first_occurrence` that
/// other specification functions can recurse on directly.
pub open spec fn scan_first(text: Seq<char>, pat: Seq<char>, from: int) -> int
    decreases text.len() - from,
{
    if from < 0 || from + pat.len() > text.len() {
        -1
    } else if text.subrange(from, from + pat.len()) == pat {
        from
    } else if from >= text.len() {
        -1
    } else {
        scan_first(text, pat, from + 1)
    }
}

/// `scan_first` finds exactly the first occurrence, or reports none.
pub proof fn lemma_scan_first(text: Seq<char>, pat: Seq<char>, from: int)
    requires
        0 <= from,
    ensures
        occurs_from(text, pat, from) ==> is_first_occurrence(
            text,
            pat,
            from,
            scan_first(text, pat, from),
        ),
        !occurs_from(text, pat, from) ==> scan_first(text, pat, from) == -1,
    decreases text.len() - from,
{
    if from + pat.len() > text.len() {
        assert forall|i: int| from <= i implies !occurs_at(text, pat, i) by {}
    } else if text.subrange(from, from + pat.len()) == pat {
        assert(occurs_at(text, pat, from));
    } else if from >= text.len() {
        assert(!occurs_at(text, pat, from));
        assert forall|i: int| from <= i implies !occurs_at(text, pat, i) by {}
    } else {
        lemma_scan_first(text, pat, from + 1);
        assert(!occurs_at(text, pat, from));
        if occurs_from(text, pat, from) {
            let w = choose|i: int| from <= i && occurs_at(text, pat, i);
            assert(w != from);
            assert(from + 1 <= w && occurs_at(text, pat, w));
            assert(occurs_from(text, pat, from + 1));
        }
    }
}

/// Whether `pat` stands in `text` at exactly position `i`.
fn matches_at(text: &str, text_len: usize, i: usize, pat: &Vec<char>) -> (r: bool)
    requires
        text_len == text@.len(),
        i + pat@.len() <= text_len,
    ensures
        r == occurs_at(text@, pat@, i as int),
{
    let mut k: usize = 0;
    while k < pat.len()
        invariant
            text_len == text@.len(),
            i + pat@.len() <= text_len,
            k <= pat@.len(),
            forall|m: int| 0 <= m < k ==> text@[i + m] == pat@[m],
        decreases pat@.len() - k,
    {
        if text.get_char(i + k) != pat[k] {
            assert(!occurs_at(text@, pat@, i as int)) by {
                if occurs_at(text@, pat@, i as int) {
                    assert(text@.subrange(i as int, i + pat@.len())[k as int] == pat@[k as int]);
                }
            }
            return false;
        }
        k += 1;
    }
    assert(text@.subrange(i as int, i + pat@.len()) =~= pat@);
    true
}

/// The leftmost occurrence of `pat` in `text` at or after `from`, if any.
pub fn find_from(text: &str, text_len: usize, from: usize, pat: &Vec<char>) -> (r: Option<usize>)
    requires
        text_len == text@.len(),
        pat@.len() >= 1,
    ensures
        match r {
            Some(i) => is_first_occurrence(text@, pat@, from as int, i as int)
                && i + pat@.len() <= text_len && scan_first(text@, pat@, from as int) == i,
            None => !occurs_from(text@, pat@, from as int) && scan_first(
                text@,
                pat@,
                from as int,
            ) == -1,
        },
{
    proof {
        lemma_scan_first(text@, pat@, from as int);
    }
    if pat.len() > text_len {
        assert(!occurs_from(text@, pat@, from as int));
        return None;
    }
    let last = text_len - pat.len();
    let mut i = from;
    while i <= last
        invariant
            text_len == text@.len(),
            1 <= pat@.len() <= text_len,
            last == text_len - pat@.len(),
            from <= i,
            forall|j: int| from <= j < i ==> !occurs_at(text@, pat@, j),
        decreases last + 1 - i,
    {
        if matches_at(text, text_len, i, pat) {
            proof {
                lemma_scan_first(text@, pat@, from as int);
                assert(is_first_occurrence(text@, pat@, from as int, i as int));
                assert(occurs_from(text@, pat@, from as int)) by {
                    assert(from <= i as int && occurs_at(text@, pat@, i as int));
                }
                let s = scan_first(text@, pat@, from as int);
                assert(is_first_occurrence(text@, pat@, from as int, s));
                if s < i {
                    assert(!occurs_at(text@, pat@, s));
                }
                if i < s {
                    assert(!occurs_at(text@, pat@, i as int));
                }
            }
            return Some(i);
        }
        i += 1;
    }
    assert(forall|j: int| from <= j ==> !occurs_at(text@, pat@, j));
    None
}

/// Relies on `String::push`: it appends exactly the given character.
#[verifier::external_body]
pub(crate) fn push_char(s: &mut String, c: char)
    ensures
        final(s)@ == old(s)@.push(c),
{
    s.push(c);
}

/// Whether two string slices hold the same characters.
pub fn str_eq(a: &str, b: &str) -> (r: bool)
    ensures
        r == (a@ == b@),
{
    let la = a.unicode_len();
    let lb = b.unicode_len();
    if la != lb {
        return false;
    }
    let mut k: usize = 0;
    while k < la
        invariant
            la == a@.len(),
            la == b@.len(),
            k <= la,
            forall|m: int| 0 <= m < k ==> a@[m] == b@[m],
        decreases la - k,
    {
        if a.get_char(k) != b.get_char(k) {
            return false;
        }
        k += 1;
    }
    assert(a@ =~= b@);
    true
}

} // verus!
