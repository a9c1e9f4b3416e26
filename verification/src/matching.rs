//! Matching of file names: the stem of a name (the name with its trailing
//! extension removed) and case-sensitive byte-wise substring containment.

use vstd::prelude::*;

verus! {

/// The byte that separates a file name from its extension.
pub const DOT: u8 = 46;

/// Whether the name holds a `.` anywhere.
pub open spec fn contains_dot(name: Seq<u8>) -> bool {
    exists|i: int| 0 <= i < name.len() && name[i] == DOT
}

/// The stem of a file name: everything before the final `.`; a name without
/// a `.` is its own stem.
pub open spec fn stem_spec(name: Seq<u8>) -> Seq<u8>
    decreases name.len(),
{
    if name.len() == 0 {
        name
    } else if name.last() == DOT {
        name.drop_last()
    } else if contains_dot(name) {
        stem_spec(name.drop_last())
    } else {
        name
    }
}

/// A name whose last `.` stands at index `k` has as stem its first `k` bytes,
/// and a name without a `.` is its own stem.
pub proof fn lemma_stem_characterization(name: Seq<u8>, k: int)
    requires
        0 <= k < name.len(),
        name[k] == DOT,
        forall|j: int| k < j < name.len() ==> name[j] != DOT,
    ensures
        stem_spec(name) == name.subrange(0, k),
    decreases name.len(),
{
    if name.last() == DOT {
        assert(k == name.len() - 1);
        assert(name.drop_last() =~= name.subrange(0, k));
    } else {
        assert(contains_dot(name));
        assert(k < name.len() - 1);
        let prev = name.drop_last();
        assert(prev[k] == DOT);
        lemma_stem_characterization(prev, k);
        assert(prev.subrange(0, k) =~= name.subrange(0, k));
    }
}

/// Returns the given name with its trailing extension removed: everything
/// before the final `.`, or the whole name when it holds no `.`.
pub fn stem(name: &Vec<u8>) -> (r: Vec<u8>)
    ensures
        r@ == stem_spec(name@),
{
    let mut last_dot: usize = 0;
    let mut has_dot: bool = false;
    let mut i: usize = 0;
    while i < name.len()
        invariant
            i <= name.len(),
            has_dot ==> last_dot < i && name@[last_dot as int] == DOT,
            has_dot ==> forall|j: int| last_dot < j < i ==> name@[j] != DOT,
            !has_dot ==> forall|j: int| 0 <= j < i ==> name@[j] != DOT,
        decreases name.len() - i,
    {
        if name[i] == DOT {
            last_dot = i;
            has_dot = true;
        }
        i += 1;
    }
    let end: usize = if has_dot { last_dot } else { name.len() };
    let mut r: Vec<u8> = Vec::new();
    let mut j: usize = 0;
    while j < end
        invariant
            j <= end,
            end <= name.len(),
            r@ =~= name@.subrange(0, j as int),
        decreases end - j,
    {
        r.push(name[j]);
        assert(r@ =~= name@.subrange(0, j + 1 as int));
        j += 1;
    }
    proof {
        if has_dot {
            lemma_stem_characterization(name@, last_dot as int);
        } else {
            assert(!contains_dot(name@));
            assert(name@.subrange(0, name@.len() as int) =~= name@);
        }
    }
    r
}

/// Whether `needle` occurs in `hay` as a contiguous run of bytes. The empty
/// needle occurs in every haystack.
pub open spec fn is_substring(needle: Seq<u8>, hay: Seq<u8>) -> bool {
    exists|i: int|
        0 <= i <= hay.len() - needle.len() && #[trigger] hay.subrange(i, i + needle.len())
            == needle
}

/// Whether the stem of `name` holds `term` as a contiguous run of bytes.
pub open spec fn matches_name(name: Seq<u8>, term: Seq<u8>) -> bool {
    is_substring(term, stem_spec(name))
}

/// The empty search term matches every file name.
pub proof fn lemma_empty_term_matches(name: Seq<u8>)
    ensures
        matches_name(name, Seq::<u8>::empty()),
{
    let s = stem_spec(name);
    let e = Seq::<u8>::empty();
    assert(s.subrange(0, 0 + e.len() as int) =~= e);
}

/// Returns whether `needle` occurs in `hay` as a contiguous run of bytes,
/// case-sensitively, byte for byte.
pub fn contains_bytes(hay: &Vec<u8>, needle: &Vec<u8>) -> (r: bool)
    ensures
        r == is_substring(needle@, hay@),
{
    if needle.len() == 0 {
        proof {
            assert(hay@.subrange(0, 0 + needle@.len() as int) =~= needle@);
        }
        return true;
    }
    if needle.len() > hay.len() {
        return false;
    }
    let bound: usize = hay.len() - needle.len();
    let mut i: usize = 0;
    while i <= bound
        invariant
            i <= bound + 1,
            1 <= needle@.len(),
            hay@.len() <= usize::MAX,
            bound == hay@.len() - needle@.len(),
            forall|k: int|
                0 <= k < i ==> #[trigger] hay@.subrange(k, k + needle@.len()) != needle@,
        decreases bound + 1 - i,
    {
        let mut j: usize = 0;
        let mut same: bool = true;
        while j < needle.len()
            invariant
                i <= bound,
                1 <= needle@.len(),
                hay@.len() <= usize::MAX,
                bound == hay@.len() - needle@.len(),
                j <= needle@.len(),
                same ==> forall|t: int| 0 <= t < j ==> hay@[i + t] == needle@[t],
                !same ==> hay@.subrange(i as int, i + needle@.len()) != needle@,
            decreases needle.len() - j,
        {
            if hay[i + j] != needle[j] {
                proof {
                    assert(hay@.subrange(i as int, i + needle@.len())[j as int] == hay@[i + j]);
                }
                same = false;
            }
            j += 1;
        }
        if same {
            proof {
                assert(hay@.subrange(i as int, i + needle@.len()) =~= needle@);
            }
            return true;
        }
        i += 1;
    }
    false
}

/// Returns whether the stem of `name` (the name with its trailing extension
/// removed) contains `term`, case-sensitively.
pub fn name_matches(name: &Vec<u8>, term: &Vec<u8>) -> (r: bool)
    ensures
        r == matches_name(name@, term@),
{
    let s = stem(name);
    contains_bytes(&s, term)
}

} // verus!
