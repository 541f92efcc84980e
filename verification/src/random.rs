//! What the crate draws at random. Both functions need the system's source of random bytes, and
//! panic on a system that has none.

use rand::seq::IteratorRandom;
use vstd::prelude::*;

use crate::selection::Candidate;

verus! {

/// Whether `c` is a lower-case hexadecimal digit.
pub open spec fn is_lower_hex(c: char) -> bool {
    '0' <= c <= '9' || 'a' <= c <= 'f'
}

/// Whether `text` is a random (version 4) UUID in its hyphenated form.
pub open spec fn is_random_uuid(text: Seq<char>) -> bool {
    &&& text.len() == 36
    &&& forall|i: int|
        0 <= i < 36 ==> if i == 8 || i == 13 || i == 18 || i == 23 {
            #[trigger] text[i] == '-'
        } else {
            is_lower_hex(text[i])
        }
    &&& text[14] == '4'
    &&& text[19] == '8' || text[19] == '9' || text[19] == 'a' || text[19] == 'b'
}

/// Draws a peer id. Calls `uuid::Uuid::new_v4`, which fills a UUID with random bits and sets its
/// version to 4 and its variant to that of RFC 9562, and writes it out as `Display` does: 32
/// lower-case hexadecimal digits with hyphens between groups of 8, 4, 4, 4 and 12. Nothing is
/// said of the random digits; in particular it is not said that two ids differ.
#[verifier::external_body]
pub(crate) fn fresh_peer_id() -> (id: String)
    ensures
        is_random_uuid(id@),
{
    uuid::Uuid::new_v4().to_string()
}

/// Draws one of `candidates`. Calls `rand::seq::IteratorRandom::choose` with the thread's
/// generator: it returns an element of the iterator, and nothing if and only if the iterator is
/// empty. Which element it is depends on chance.
#[verifier::external_body]
pub(crate) fn choose_candidate(candidates: Vec<Candidate>) -> (chosen: Option<Candidate>)
    ensures
        chosen is None <==> candidates@.len() == 0,
        chosen matches Some(candidate) ==> candidates@.contains(candidate),
{
    candidates.into_iter().choose(&mut rand::thread_rng())
}

} // verus!
