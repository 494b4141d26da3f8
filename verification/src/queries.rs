//! Spotting a program's cursor-position queries in its output, which comes in
//! chunks.
use vstd::prelude::*;

verus! {

/// A cursor-position query: `ESC [ 6 n`.
pub open spec fn query() -> Seq<u8> {
    seq![0x1b, 0x5b, 0x36, 0x6e]
}

/// How many queries end among the first `n` bytes.
pub open spec fn queries_in(s: Seq<u8>, n: int) -> nat
    decreases n,
{
    if n < 4 || n > s.len() {
        0
    } else {
        queries_in(s, n - 1) + if s.subrange(n - 4, n) == query() {
            1nat
        } else {
            0nat
        }
    }
}

/// How many queries some output holds.
pub open spec fn queries(s: Seq<u8>) -> nat {
    queries_in(s, s.len() as int)
}

/// The last bytes of some output, in which a query may have begun.
pub open spec fn tail_of(s: Seq<u8>) -> Seq<u8> {
    if s.len() > 3 {
        s.skip(s.len() - 3)
    } else {
        s
    }
}

/// The end of the output so far, so that a query split across chunks is still
/// spotted, and none is counted twice.
#[derive(Debug)]
pub struct QueryScanner {
    /// At most the last three bytes.
    pub carry: Vec<u8>,
}

fn stands_query(s: &Vec<u8>, end: usize) -> (r: bool)
    requires
        4 <= end <= s@.len(),
    ensures
        r == (s@.subrange(end - 4, end as int) == query()),
{
    let r = s[end - 4] == 0x1b && s[end - 3] == 0x5b && s[end - 2] == 0x36 && s[end - 1] == 0x6e;
    proof {
        let w = s@.subrange(end - 4, end as int);
        if r {
            assert(w =~= query());
        } else if w == query() {
            assert(w[0] == s@[end - 4] && w[1] == s@[end - 3]);
            assert(w[2] == s@[end - 2] && w[3] == s@[end - 1]);
        }
    }
    r
}

impl QueryScanner {
    /// Before any output.
    pub fn new() -> (r: QueryScanner)
        ensures
            r.carry@ == tail_of(Seq::empty()),
    {
        QueryScanner { carry: Vec::new() }
    }

    /// Take one chunk of output, and count the queries that end in it.
    pub fn scan(&mut self, chunk: &[u8]) -> (r: usize)
        ensures
            r == queries(old(self).carry@ + chunk@),
            final(self).carry@ == tail_of(old(self).carry@ + chunk@),
    {
        let mut all: Vec<u8> = Vec::new();
        std::mem::swap(&mut all, &mut self.carry);
        all.extend_from_slice(chunk);
        assert(all@ =~= old(self).carry@ + chunk@);
        let mut n: usize = 0;
        let mut count: usize = 0;
        while n < all.len()
            invariant
                n <= all@.len(),
                count <= n,
                count == queries_in(all@, n as int),
            decreases all@.len() - n,
        {
            n += 1;
            if n >= 4 && stands_query(&all, n) {
                count += 1;
            }
        }
        let from = if all.len() > 3 {
            all.len() - 3
        } else {
            0
        };
        self.carry = crate::keys::byte_slice(all.as_slice(), from, all.len());
        assert(self.carry@ =~= tail_of(all@));
        count
    }
}

/// However output is cut into chunks, every query is counted once: the queries
/// of what came before, and those that the scanner finds in the next chunk
/// behind its carry, are the queries of the whole; and its carry is then the
/// tail of the whole.
pub proof fn every_query_is_counted_once(before: Seq<u8>, chunk: Seq<u8>)
    ensures
        queries(before) + queries(tail_of(before) + chunk) == queries(before + chunk),
        tail_of(tail_of(before) + chunk) == tail_of(before + chunk),
{
    let skip = before.len() - tail_of(before).len();
    assert(tail_of(before) + chunk =~= (before + chunk).skip(skip as int));
    counted_from(before, chunk, skip as int, (before + chunk).len() as int);
    assert(tail_of(tail_of(before) + chunk) =~= tail_of(before + chunk));
}

proof fn counted_from(before: Seq<u8>, chunk: Seq<u8>, skip: int, n: int)
    requires
        skip == before.len() - tail_of(before).len(),
        before.len() <= n <= before.len() + chunk.len(),
    ensures
        queries_in(before + chunk, n) == queries(before) + queries_in(
            (before + chunk).skip(skip),
            n - skip,
        ),
    decreases n,
{
    let all = before + chunk;
    let rest = all.skip(skip);
    if n == before.len() {
        assert(all.take(before.len() as int) =~= before);
        same_prefix(before, all, n);
        assert(n - skip < 4);
    } else {
        counted_from(before, chunk, skip, n - 1);
        if n - skip >= 4 {
            assert(rest.subrange(n - skip - 4, n - skip) =~= all.subrange(n - 4, n));
        }
    }
}

proof fn same_prefix(a: Seq<u8>, b: Seq<u8>, n: int)
    requires
        0 <= n <= a.len() <= b.len(),
        b.take(a.len() as int) == a,
    ensures
        queries_in(a, n) == queries_in(b, n),
    decreases n,
{
    if n >= 4 {
        same_prefix(a, b, n - 1);
        assert(a.subrange(n - 4, n) =~= b.subrange(n - 4, n)) by {
            assert forall|k: int| 0 <= k < a.len() implies a[k] == b[k] by {
                assert(b.take(a.len() as int)[k] == b[k]);
            }
        }
    }
}

} // verus!
