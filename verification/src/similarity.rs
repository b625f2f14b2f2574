//! How alike two texts are. The `strsim` crate measures it.
use vstd::prelude::*;

verus! {

/// The least of three numbers.
pub open spec fn least(a: nat, b: nat, c: nat) -> nat {
    if a <= b && a <= c {
        a
    } else if b <= c {
        b
    } else {
        c
    }
}

/// The least number of insertions, deletions and substitutions of one character that turn `a`
/// into `b`.
pub open spec fn edit_distance(a: Seq<char>, b: Seq<char>) -> nat
    decreases a.len() + b.len(),
{
    if a.len() == 0 {
        b.len()
    } else if b.len() == 0 {
        a.len()
    } else {
        least(
            edit_distance(a.drop_last(), b) + 1,
            edit_distance(a, b.drop_last()) + 1,
            edit_distance(a.drop_last(), b.drop_last()) + if a.last() == b.last() {
                0nat
            } else {
                1nat
            },
        )
    }
}

/// The bits of the score that `strsim::jaro_winkler` gives two texts. The score is a double between
/// zero (nothing in common) and one (the same text), so of two scores the larger has the larger
/// bits.
pub uninterp spec fn jaro_winkler_bits(a: Seq<char>, b: Seq<char>) -> u64;

/// Calls `strsim::levenshtein`, which counts the least number of insertions, deletions and
/// substitutions of a character that turn one text into the other.
#[verifier::external_body]
pub(crate) fn levenshtein(a: &str, b: &str) -> (d: usize)
    ensures
        d == edit_distance(a@, b@),
{
    strsim::levenshtein(a, b)
}

/// Calls `strsim::jaro_winkler` and hands out the bits of the score.
#[verifier::external_body]
pub(crate) fn jaro_winkler(a: &str, b: &str) -> (bits: u64)
    ensures
        bits == jaro_winkler_bits(a@, b@),
{
    strsim::jaro_winkler(a, b).to_bits()
}

} // verus!
