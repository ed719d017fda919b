//! Substring containment over character sequences.

use vstd::prelude::*;

verus! {

/// The needle occurs in the haystack starting at position `i`.
pub open spec fn contains_at(hay: Seq<char>, i: int, needle: Seq<char>) -> bool {
    &&& 0 <= i
    &&& i + needle.len() <= hay.len()
    &&& hay.subrange(i, i + needle.len() as int) == needle
}

/// The needle occurs somewhere in the haystack. An empty needle occurs in
/// every haystack.
pub open spec fn contains_substring(hay: Seq<char>, needle: Seq<char>) -> bool {
    exists|i: int| contains_at(hay, i, needle)
}

/// An empty needle is contained in every haystack.
pub proof fn lemma_empty_needle(hay: Seq<char>)
    ensures
        contains_substring(hay, Seq::<char>::empty()),
{
    assert(hay.subrange(0, 0) =~= Seq::<char>::empty());
    assert(contains_at(hay, 0, Seq::<char>::empty()));
}

/// Does the needle occur at position `i` of the haystack?
fn matches_at(hay: &Vec<char>, needle: &Vec<char>, i: usize) -> (b: bool)
    requires
        i + needle@.len() <= hay@.len(),
    ensures
        b == contains_at(hay@, i as int, needle@),
{
    let hlen: usize = hay.len();
    let mut j: usize = 0;
    while j < needle.len()
        invariant
            hlen == hay@.len(),
            i + needle@.len() <= hay@.len(),
            j <= needle@.len(),
            forall|k: int| 0 <= k < j ==> hay@[i + k] == needle@[k],
        decreases needle@.len() - j,
    {
        if hay[i + j] != needle[j] {
            proof {
                let sub = hay@.subrange(i as int, i + needle@.len() as int);
                assert(sub[j as int] == hay@[i + j]);
                assert(sub != needle@);
            }
            return false;
        }
        j += 1;
    }
    proof {
        assert(hay@.subrange(i as int, i + needle@.len() as int) =~= needle@);
    }
    true
}

/// Does the needle occur anywhere in the haystack?
pub fn contains_chars(hay: &Vec<char>, needle: &Vec<char>) -> (b: bool)
    ensures
        b == contains_substring(hay@, needle@),
{
    if needle.len() > hay.len() {
        proof {
            assert forall|i: int| !contains_at(hay@, i, needle@) by {}
        }
        return false;
    }
    let end = hay.len() - needle.len();
    let mut i: usize = 0;
    loop
        invariant
            needle@.len() <= hay@.len(),
            end == hay@.len() - needle@.len(),
            i <= end,
            forall|k: int| 0 <= k < i ==> !contains_at(hay@, k, needle@),
        decreases end - i,
    {
        if matches_at(hay, needle, i) {
            return true;
        }
        if i == end {
            proof {
                assert forall|k: int| !contains_at(hay@, k, needle@) by {
                    if 0 <= k < i as int {
                        assert(!contains_at(hay@, k, needle@));
                    }
                }
            }
            return false;
        }
        i += 1;
    }
}

} // verus!
