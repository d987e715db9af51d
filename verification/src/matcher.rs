//! The matcher: case-insensitive substring containment of a query in an
//! entry name, and the test that dispatches an entry to the archive
//! inspector.

use vstd::prelude::*;

verus! {

use vstd::string::StrSliceExecFns;
use crate::text::{contains_seq, contains_sub, lower_of, lowercase, lemma_contains_empty,
    matches_at, norm_seq};

/// A name matches an already lower-cased query iff the lower-cased name
/// contains the query as a contiguous substring.
pub open spec fn name_matches(name: Seq<char>, query_lower: Seq<char>) -> bool {
    contains_seq(lower_of(name), query_lower)
}

/// An internal archive entry matches an already lower-cased query iff its
/// separator-normalized, lower-cased name contains the query.
pub open spec fn zip_entry_matches(name: Seq<char>, query_lower: Seq<char>) -> bool {
    contains_seq(lower_of(norm_seq(name)), query_lower)
}

/// Does `name` contain `query`, comparing case-insensitively?
///
/// Both operands are lower-cased before the containment test; an empty
/// query matches every name, and an empty name matches only the empty
/// query.
pub fn is_match(name: &str, query: &str) -> (r: bool)
    ensures
        r == contains_seq(lower_of(name@), lower_of(query@)),
        query@.len() == 0 ==> r,
        name@.len() == 0 && query@.len() > 0 ==> !r,
{
    let name_lower = lowercase(name);
    let query_lower = lowercase(query);
    let r = contains_sub(name_lower.as_str(), query_lower.as_str());
    proof {
        if query@.len() == 0 {
            lemma_contains_empty(name_lower@, query_lower@);
        }
        if name@.len() == 0 && query@.len() > 0 {
            assert(forall|i: int| !matches_at(name_lower@, query_lower@, i));
        }
    }
    r
}

/// Matches a name against a query that was lower-cased beforehand.
pub fn is_match_lowered(name: &str, query_lower: &str) -> (r: bool)
    ensures
        r == name_matches(name@, query_lower@),
{
    let name_lower = lowercase(name);
    contains_sub(name_lower.as_str(), query_lower)
}

/// True iff `name` names a zip archive candidate: it ends in the
/// (case-sensitive) suffix ".zip" and has a non-empty stem before it.
pub open spec fn spec_is_zip_candidate(name: Seq<char>) -> bool {
    &&& name.len() > 4
    &&& name.subrange(name.len() - 4, name.len() as int) == seq!['.', 'z', 'i', 'p']
}

/// Decides whether an entry name denotes a zip archive to be inspected.
pub fn is_zip_candidate(name: &str) -> (r: bool)
    ensures
        r == spec_is_zip_candidate(name@),
{
    let n = name.unicode_len();
    if n <= 4 {
        return false;
    }
    let r = name.get_char(n - 4) == '.' && name.get_char(n - 3) == 'z' && name.get_char(n - 2)
        == 'i' && name.get_char(n - 1) == 'p';
    proof {
        let tail = name@.subrange(name@.len() - 4, name@.len() as int);
        if r {
            assert(tail =~= seq!['.', 'z', 'i', 'p']);
        } else {
            assert(tail != seq!['.', 'z', 'i', 'p']) by {
                if tail == seq!['.', 'z', 'i', 'p'] {
                    assert(tail[0] == '.' && tail[1] == 'z' && tail[2] == 'i' && tail[3] == 'p');
                }
            }
        }
    }
    r
}

} // verus!
