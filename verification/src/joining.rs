//! Joining strings with a separator, as the `itertools` crate does.

use vstd::prelude::*;
use itertools::Itertools;

verus! {

/// The parts in their order, with `separator` between each two neighbours.
pub open spec fn joined(parts: Seq<Seq<char>>, separator: Seq<char>) -> Seq<char>
    decreases parts.len(),
{
    if parts.len() == 0 {
        Seq::empty()
    } else if parts.len() == 1 {
        parts[0]
    } else {
        joined(parts.drop_last(), separator) + separator + parts.last()
    }
}

/// The characters of each string.
pub open spec fn texts_of(parts: Seq<String>) -> Seq<Seq<char>> {
    parts.map_values(|part: String| part@)
}

/// `Itertools::join` on the strings of a vector: the first string, and then
/// for each later one the separator and that string. Nothing is proved here;
/// the contract states what the crate's source shows.
#[verifier::external_body]
pub(crate) fn join_strings(parts: &Vec<String>, separator: &str) -> (r: String)
    ensures
        r@ == joined(texts_of(parts@), separator@),
{
    parts.iter().join(separator)
}

} // verus!
