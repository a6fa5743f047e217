//! The shortened form of a query that enters a request's signature.

use crate::decimal::{decimal, digit_count, lemma_decimal_len, to_decimal};
use vstd::prelude::*;

verus! {

/// Queries of at most this many characters are signed as they are.
pub const KEEP_WHOLE: usize = 20;

/// The number of characters kept from each end of a longer query.
pub const KEEP_EDGE: usize = 10;

/// The form of `query` that is signed: the query itself up to twenty
/// characters, else its first ten characters, its length in decimal, and its
/// last ten characters. A character is a Unicode scalar value, whatever its
/// encoded width.
pub open spec fn truncated(query: Seq<char>) -> Seq<char> {
    if query.len() <= 20 {
        query
    } else {
        query.subrange(0, 10) + decimal(query.len()) + query.subrange(
            query.len() - 10,
            query.len() as int,
        )
    }
}

/// Computes the signed form of `query`.
pub fn query_truncate(query: &str) -> (r: String)
    ensures
        r@ == truncated(query@),
        query@.len() <= 20 ==> r@ == query@,
        query@.len() > 20 ==> r@.len() == 20 + digit_count(query@.len()),
{
    let l = query.unicode_len();
    if l <= KEEP_WHOLE {
        String::from_str(query)
    } else {
        let mut r = String::from_str(query.substring_char(0, KEEP_EDGE));
        let count = to_decimal(l as u64);
        r.append(count.as_str());
        r.append(query.substring_char(l - KEEP_EDGE, l));
        proof {
            lemma_decimal_len(l as nat);
        }
        r
    }
}

} // verus!
