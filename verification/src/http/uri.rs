//! Splitting a request target into its path and query.
//!
//! A partial URI holds a path, optionally followed by `?` and a query,
//! optionally followed by `#` and a fragment. The server keeps the path and
//! the query and ignores the fragment. Within the query, further question
//! marks are ordinary characters.

use vstd::prelude::*;

verus! {

/// A byte allowed in the path part without percent-encoding: the URI code
/// points that need no encoding, plus the quote and brace characters of
/// bare JSON, which should be encoded but are still accepted.
pub open spec fn path_byte_ok(b: u8) -> bool {
    ||| b == 0x21
    ||| (0x24 <= b && b <= 0x3b)
    ||| b == 0x3d
    ||| (0x40 <= b && b <= 0x5f)
    ||| (0x61 <= b && b <= 0x7a)
    ||| b == 0x7c
    ||| b == 0x7e
    ||| b == 0x22
    ||| b == 0x7b
    ||| b == 0x7d
}

/// A byte allowed in the query part: most visible characters, including
/// further question marks.
pub open spec fn query_byte_ok(b: u8) -> bool {
    ||| b == 0x21
    ||| (0x24 <= b && b <= 0x3b)
    ||| b == 0x3d
    ||| (0x3f <= b && b <= 0x7e)
}

/// Where the path ends, scanning from `i`: the first `?` or `#`, or the end.
pub open spec fn path_end_from(s: Seq<u8>, i: int) -> int
    decreases s.len() - i,
{
    if i < 0 || i >= s.len() {
        s.len() as int
    } else if s[i] == 0x3f || s[i] == 0x23 {
        i
    } else {
        path_end_from(s, i + 1)
    }
}

/// Where the path of the whole target ends.
pub open spec fn path_end(s: Seq<u8>) -> int {
    path_end_from(s, 0)
}

/// Where the query ends, scanning from `i`: the first `#`, or the end.
pub open spec fn query_end_from(s: Seq<u8>, i: int) -> int
    decreases s.len() - i,
{
    if i < 0 || i >= s.len() {
        s.len() as int
    } else if s[i] == 0x23 {
        i
    } else {
        query_end_from(s, i + 1)
    }
}

/// Where the query of a whole query-and-fragment part ends.
pub open spec fn query_end(s: Seq<u8>) -> int {
    query_end_from(s, 0)
}

/// Every byte of the path is acceptable, and so is every byte of the query
/// when the path ends in `?`. A byte outside these sets is a programmer
/// error that faults the scan, so such inputs stay outside this contract.
pub open spec fn valid_partial_uri(s: Seq<u8>) -> bool {
    &&& (forall|j: int| 0 <= j < path_end(s) ==> path_byte_ok(#[trigger] s[j]))
    &&& (path_end(s) < s.len() && s[path_end(s)] == 0x3f ==> valid_query(
        s.skip(path_end(s) + 1),
    ))
}

/// Every byte of the query is acceptable.
pub open spec fn valid_query(s: Seq<u8>) -> bool {
    forall|j: int| 0 <= j < query_end(s) ==> query_byte_ok(#[trigger] s[j])
}

/// Scanning from `i` over non-stop bytes reaches the same end.
proof fn lemma_path_end_step(s: Seq<u8>, i: int)
    requires
        0 <= i <= s.len(),
        forall|j: int| 0 <= j < i ==> s[j] != 0x3f && s[j] != 0x23,
    ensures
        path_end(s) == path_end_from(s, i),
        i <= path_end(s) <= s.len(),
        path_end(s) < s.len() ==> (s[path_end(s)] == 0x3f || s[path_end(s)] == 0x23),
        forall|j: int| 0 <= j < path_end(s) ==> s[j] != 0x3f && s[j] != 0x23,
    decreases i,
{
    if i > 0 {
        lemma_path_end_step(s, i - 1);
    }
    lemma_path_end_tail(s, i);
}

/// Properties of `path_end_from` by induction on the scan.
proof fn lemma_path_end_tail(s: Seq<u8>, i: int)
    requires
        0 <= i <= s.len(),
    ensures
        i <= path_end_from(s, i) <= s.len(),
        path_end_from(s, i) < s.len() ==> (s[path_end_from(s, i)] == 0x3f || s[path_end_from(
            s,
            i,
        )] == 0x23),
        forall|j: int| i <= j < path_end_from(s, i) ==> s[j] != 0x3f && s[j] != 0x23,
    decreases s.len() - i,
{
    if i < s.len() && !(s[i] == 0x3f || s[i] == 0x23) {
        lemma_path_end_tail(s, i + 1);
    }
}

/// Scanning from `i` over non-stop bytes reaches the same query end.
proof fn lemma_query_end_step(s: Seq<u8>, i: int)
    requires
        0 <= i <= s.len(),
        forall|j: int| 0 <= j < i ==> s[j] != 0x23,
    ensures
        query_end(s) == query_end_from(s, i),
        i <= query_end(s) <= s.len(),
    decreases i,
{
    if i > 0 {
        lemma_query_end_step(s, i - 1);
    }
    lemma_query_end_tail(s, i);
}

/// Properties of `query_end_from` by induction on the scan.
proof fn lemma_query_end_tail(s: Seq<u8>, i: int)
    requires
        0 <= i <= s.len(),
    ensures
        i <= query_end_from(s, i) <= s.len(),
    decreases s.len() - i,
{
    if i < s.len() && s[i] != 0x23 {
        lemma_query_end_tail(s, i + 1);
    }
}

/// Parse the path and the query out of a partial URI (path, query and
/// fragment): the path runs to the first `?` or `#`; a query after `?` runs
/// to the first `#`; the fragment is dropped.
pub fn parse_partial_uri(uri: &[u8]) -> (r: (&[u8], &[u8]))
    requires
        valid_partial_uri(uri@),
    ensures
        r.0@ == uri@.take(path_end(uri@)),
        path_end(uri@) < uri@.len() && uri@[path_end(uri@)] == 0x3f ==> r.1@ == uri@.skip(
            path_end(uri@) + 1,
        ).take(query_end(uri@.skip(path_end(uri@) + 1))),
        !(path_end(uri@) < uri@.len() && uri@[path_end(uri@)] == 0x3f) ==> r.1@ == Seq::<
            u8,
        >::empty(),
{
    let n = uri.len();
    let mut i: usize = 0;
    while i < n
        invariant
            n == uri@.len(),
            i <= n,
            valid_partial_uri(uri@),
            forall|j: int| 0 <= j < i ==> uri@[j] != 0x3f && uri@[j] != 0x23,
        decreases n - i,
    {
        let b = vstd::slice::slice_index_get(uri, i);
        if *b == 0x3f {
            proof {
                lemma_path_end_step(uri@, i as int);
            }
            let path = vstd::slice::slice_subrange(uri, 0, i);
            let rest = vstd::slice::slice_subrange(uri, i + 1, n);
            let query = parse_query(rest);
            return (path, query);
        }
        if *b == 0x23 {
            proof {
                lemma_path_end_step(uri@, i as int);
            }
            let path = vstd::slice::slice_subrange(uri, 0, i);
            let empty = vstd::slice::slice_subrange(uri, 0, 0);
            proof {
                assert(empty@ =~= Seq::<u8>::empty());
            }
            return (path, empty);
        }
        i = i + 1;
    }
    proof {
        lemma_path_end_step(uri@, n as int);
        assert(uri@.take(path_end(uri@)) =~= uri@);
    }
    let empty = vstd::slice::slice_subrange(uri, 0, 0);
    proof {
        assert(empty@ =~= Seq::<u8>::empty());
    }
    (uri, empty)
}

/// Keep the query up to the first `#`; the fragment after it is dropped.
/// Question marks inside the query are ordinary characters.
pub fn parse_query(query: &[u8]) -> (r: &[u8])
    requires
        valid_query(query@),
    ensures
        r@ == query@.take(query_end(query@)),
{
    let n = query.len();
    let mut i: usize = 0;
    while i < n
        invariant
            n == query@.len(),
            i <= n,
            forall|j: int| 0 <= j < i ==> query@[j] != 0x23,
        decreases n - i,
    {
        let b = vstd::slice::slice_index_get(query, i);
        if *b == 0x23 {
            proof {
                lemma_query_end_step(query@, i as int);
            }
            return vstd::slice::slice_subrange(query, 0, i);
        }
        i = i + 1;
    }
    proof {
        lemma_query_end_step(query@, n as int);
        assert(query@.take(query_end(query@)) =~= query@);
    }
    query
}

} // verus!
