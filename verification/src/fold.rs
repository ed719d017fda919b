//! Lowercase folding for case-insensitive matching.
//!
//! The folding strategy is a per-character lowercase mapping: a text is
//! folded by mapping each character to its Unicode lowercase form and
//! concatenating the results. Folding is therefore a homomorphism over
//! concatenation, which the superset law in `scan` rests on.

use vstd::prelude::*;

verus! {

/// The Unicode lowercase mapping of one character, as a sequence of
/// characters (a mapping may produce more than one).
pub uninterp spec fn char_lower(c: char) -> Seq<char>;

/// Relies on char::to_lowercase: the lowercase mapping of a character,
/// which depends on the character alone.
#[verifier::external_body]
fn char_to_lowercase(c: char) -> (r: Vec<char>)
    ensures
        r@ == char_lower(c),
{
    c.to_lowercase().collect()
}

/// The lowercase folding of a text: each character mapped to its lowercase
/// form, the results concatenated. The folding of the empty text is empty.
pub open spec fn lower_of(s: Seq<char>) -> Seq<char>
    decreases s.len(),
{
    if s.len() == 0 {
        Seq::empty()
    } else {
        char_lower(s[0]) + lower_of(s.drop_first())
    }
}

/// Lowercase folding distributes over concatenation.
pub proof fn lemma_lower_of_concat(a: Seq<char>, b: Seq<char>)
    ensures
        lower_of(a + b) == lower_of(a) + lower_of(b),
    decreases a.len(),
{
    if a.len() == 0 {
        assert(a + b =~= b);
        assert(lower_of(a) + lower_of(b) =~= lower_of(b));
    } else {
        assert((a + b).len() > 0);
        assert((a + b)[0] == a[0]);
        assert((a + b).drop_first() =~= a.drop_first() + b);
        lemma_lower_of_concat(a.drop_first(), b);
        assert(char_lower(a[0]) + (lower_of(a.drop_first()) + lower_of(b)) =~= (char_lower(a[0])
            + lower_of(a.drop_first())) + lower_of(b));
    }
}

/// Fold a text to lowercase, character by character.
pub fn lowercase_chars(s: &Vec<char>) -> (r: Vec<char>)
    ensures
        r@ == lower_of(s@),
{
    let mut r: Vec<char> = Vec::new();
    let mut i: usize = 0;
    proof {
        assert(s@.subrange(0, 0) =~= Seq::<char>::empty());
        assert(r@ =~= lower_of(s@.subrange(0, 0)));
    }
    while i < s.len()
        invariant
            i <= s@.len(),
            r@ == lower_of(s@.subrange(0, i as int)),
        decreases s@.len() - i,
    {
        let mut cs = char_to_lowercase(s[i]);
        proof {
            let pre = s@.subrange(0, i as int);
            lemma_lower_of_concat(pre, seq![s@[i as int]]);
            assert(seq![s@[i as int]].drop_first() =~= Seq::<char>::empty());
            assert(lower_of(Seq::<char>::empty()) =~= Seq::<char>::empty());
            assert(lower_of(seq![s@[i as int]]) =~= char_lower(s@[i as int]));
            assert(pre + seq![s@[i as int]] =~= s@.subrange(0, i + 1));
        }
        r.append(&mut cs);
        i += 1;
    }
    proof {
        assert(s@.subrange(0, s@.len() as int) =~= s@);
    }
    r
}

} // verus!
