//! Hamming distance between two equal-length character sequences.

use vstd::prelude::*;

verus! {

use vstd::std_specs::iter::IteratorSpec;

/// The one precondition failure the distance calculator can report:
/// its two inputs did not have the same length.
#[derive(Debug, Clone, Copy, PartialEq, Eq, Structural)]
pub enum PreconditionViolation {
    LengthMismatch,
}

/// The number of index positions at which the two sequences hold
/// different characters, counted over the common prefix.
pub open spec fn hamming_spec(a: Seq<char>, b: Seq<char>) -> nat
    recommends
        a.len() == b.len(),
    decreases a.len(),
{
    if a.len() == 0 || b.len() == 0 {
        0
    } else {
        hamming_spec(a.drop_last(), b.drop_last()) + (if a.last() == b.last() {
            0nat
        } else {
            1nat
        })
    }
}

/// Symmetry law: the distance does not depend on the order of the
/// two sequences.
pub proof fn lemma_hamming_symmetric(a: Seq<char>, b: Seq<char>)
    requires
        a.len() == b.len(),
    ensures
        hamming_spec(a, b) == hamming_spec(b, a),
    decreases a.len(),
{
    if a.len() > 0 {
        lemma_hamming_symmetric(a.drop_last(), b.drop_last());
    }
}

/// Identity law: a sequence is at distance zero from itself.
pub proof fn lemma_hamming_self_zero(a: Seq<char>)
    ensures
        hamming_spec(a, a) == 0,
    decreases a.len(),
{
    if a.len() > 0 {
        lemma_hamming_self_zero(a.drop_last());
    }
}

/// Bounds law: the distance never exceeds the common length.
pub proof fn lemma_hamming_bounded(a: Seq<char>, b: Seq<char>)
    requires
        a.len() == b.len(),
    ensures
        hamming_spec(a, b) <= a.len(),
    decreases a.len(),
{
    if a.len() > 0 {
        lemma_hamming_bounded(a.drop_last(), b.drop_last());
    }
}

/// Collects the characters of a string slice into a vector.
fn chars_of(s: &str) -> (v: Vec<char>)
    ensures
        v@ == s@,
{
    let mut v: Vec<char> = Vec::new();
    let mut it = s.chars();
    loop
        invariant
            it.obeys_prophetic_iter_laws(),
            v@ + it.remaining() == s@,
        ensures
            v@ == s@,
        decreases s@.len() - v@.len(),
    {
        match it.next() {
            Some(ch) => {
                v.push(ch);
                proof {
                    assert(v@ + it.remaining() =~= s@);
                }
            },
            None => {
                proof {
                    assert(v@ + it.remaining() =~= v@);
                }
                break ;
            },
        }
    }
    v
}

/// Reports whether the two strings hold the same number of characters.
pub fn is_equals_len(k: &String, c: &String) -> (r: bool)
    ensures
        r == (k@.len() == c@.len()),
{
    let kv = chars_of(k.as_str());
    let cv = chars_of(c.as_str());
    kv.len() == cv.len()
}

/// Counts the positions at which the two strings differ. Strings of
/// unequal length are rejected with a `LengthMismatch` violation
/// before any comparison takes place.
pub fn hamming_distance(k: String, c: String) -> (r: Result<usize, PreconditionViolation>)
    ensures
        k@.len() == c@.len() ==> r == Ok::<usize, PreconditionViolation>(
            hamming_spec(k@, c@) as usize,
        ),
        k@.len() != c@.len() ==> r == Err::<usize, PreconditionViolation>(
            PreconditionViolation::LengthMismatch,
        ),
{
    if !is_equals_len(&k, &c) {
        return Err(PreconditionViolation::LengthMismatch);
    }
    let kv = chars_of(k.as_str());
    let cv = chars_of(c.as_str());
    let mut distance: usize = 0;
    let mut i: usize = 0;
    while i < kv.len()
        invariant
            kv@ == k@,
            cv@ == c@,
            kv@.len() == cv@.len(),
            i <= kv@.len(),
            distance <= i,
            distance as nat == hamming_spec(kv@.take(i as int), cv@.take(i as int)),
        decreases kv@.len() - i,
    {
        proof {
            assert(kv@.take(i + 1).drop_last() =~= kv@.take(i as int));
            assert(cv@.take(i + 1).drop_last() =~= cv@.take(i as int));
        }
        if kv[i] != cv[i] {
            distance = distance + 1;
        }
        i = i + 1;
    }
    proof {
        assert(kv@.take(kv@.len() as int) =~= kv@);
        assert(cv@.take(cv@.len() as int) =~= cv@);
    }
    Ok(distance)
}

} // verus!
