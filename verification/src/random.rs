//! The random choices of the protocol: ports and the names of peers that
//! were not announced.

use rand::distributions::Alphanumeric;
use rand::Rng;
use vstd::prelude::*;

verus! {

/// A letter of the English alphabet, in either case, or a decimal digit.
pub open spec fn is_alphanumeric(c: char) -> bool {
    65 <= c as int <= 90 || 97 <= c as int <= 122 || 48 <= c as int <= 57
}

/// `Rng::gen_range` on the thread's generator gives a number that is at
/// least `low` and below `high`, and panics where `low` is not below
/// `high`.
#[verifier::external_body]
pub(crate) fn random_in_range(low: u16, high: u16) -> (n: u16)
    requires
        low < high,
    ensures
        low <= n < high,
{
    rand::thread_rng().gen_range(low, high)
}

/// `Rng::sample` with the distribution `Alphanumeric` gives one of the
/// characters `A` to `Z`, `a` to `z` and `0` to `9`.
#[verifier::external_body]
pub(crate) fn random_alphanumeric() -> (c: char)
    ensures
        is_alphanumeric(c),
{
    rand::thread_rng().sample(Alphanumeric)
}

/// A text of `count` random letters and digits.
pub fn random_suffix(count: usize) -> (v: Vec<char>)
    ensures
        v.len() == count,
        forall|i: int| 0 <= i < v.len() ==> is_alphanumeric(#[trigger] v@[i]),
{
    let mut v: Vec<char> = Vec::new();
    let mut i: usize = 0;
    while i < count
        invariant
            i <= count,
            v.len() == i,
            forall|k: int| 0 <= k < v.len() ==> is_alphanumeric(#[trigger] v@[k]),
        decreases count - i,
    {
        let c = random_alphanumeric();
        v.push(c);
        i += 1;
    }
    v
}

} // verus!
