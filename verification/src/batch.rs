//! The shared bounded-batch-retrieval machinery: deduplication of digests,
//! partition into fixed-size chunks, and the concurrency-bounded schedule of
//! the chunk calls.

use vstd::prelude::*;

verus! {

/// The views of a sequence of strings.
pub open spec fn string_views(s: Seq<String>) -> Seq<Seq<char>> {
    s.map_values(|x: String| x@)
}

/// First-occurrence deduplication: the elements of `s` in the order each
/// first appears.
pub open spec fn spec_dedup<A>(s: Seq<A>) -> Seq<A>
    decreases s.len(),
{
    if s.len() == 0 {
        Seq::empty()
    } else {
        let prefix = spec_dedup(s.drop_last());
        if prefix.contains(s.last()) {
            prefix
        } else {
            prefix.push(s.last())
        }
    }
}

pub proof fn lemma_dedup_no_duplicates<A>(s: Seq<A>)
    ensures
        spec_dedup(s).no_duplicates(),
    decreases s.len(),
{
    if s.len() == 0 {
    } else {
        let prefix = spec_dedup(s.drop_last());
        lemma_dedup_no_duplicates(s.drop_last());
        if !prefix.contains(s.last()) {
            let r = prefix.push(s.last());
            assert forall|i: int, j: int| 0 <= i < j < r.len() implies r[i] != r[j] by {
                if j < prefix.len() {
                } else {
                    assert(r[j] == s.last());
                    assert(r[i] == prefix[i]);
                    assert(!prefix.contains(s.last()));
                }
            }
        }
    }
}

pub proof fn lemma_dedup_contains<A>(s: Seq<A>, x: A)
    ensures
        spec_dedup(s).contains(x) <==> s.contains(x),
    decreases s.len(),
{
    if s.len() == 0 {
    } else {
        let d = s.drop_last();
        let prefix = spec_dedup(d);
        lemma_dedup_contains(d, x);
        assert(s.contains(x) <==> (d.contains(x) || s.last() == x)) by {
            if d.contains(x) {
                let j = choose|j: int| 0 <= j < d.len() && d[j] == x;
                assert(s[j] == x);
            }
            if s.last() == x {
                assert(s[s.len() - 1] == x);
            }
            if s.contains(x) {
                let i = choose|i: int| 0 <= i < s.len() && s[i] == x;
                if i < s.len() - 1 {
                    assert(d[i] == x);
                }
            }
        }
        assert(spec_dedup(s).contains(x) <==> (prefix.contains(x) || s.last() == x)) by {
            if prefix.contains(s.last()) {
                if s.last() == x {
                    assert(prefix.contains(x));
                }
            } else {
                let r = prefix.push(s.last());
                assert(spec_dedup(s) == r);
                if prefix.contains(x) {
                    let j = choose|j: int| 0 <= j < prefix.len() && prefix[j] == x;
                    assert(r[j] == x);
                }
                if s.last() == x {
                    assert(r[prefix.len() as int] == x);
                }
                if r.contains(x) {
                    let i = choose|i: int| 0 <= i < r.len() && r[i] == x;
                    if i < prefix.len() {
                        assert(prefix[i] == x);
                    } else {
                        assert(x == s.last());
                    }
                }
            }
        }
    }
}

/// Whether a vector of strings holds one whose characters equal `x`'s.
pub fn contains_string(v: &Vec<String>, x: &String) -> (r: bool)
    ensures
        r == string_views(v@).contains(x@),
{
    let mut j: usize = 0;
    while j < v.len()
        invariant
            j <= v.len(),
            forall|m: int| 0 <= m < j ==> string_views(v@)[m] != x@,
        decreases v.len() - j,
    {
        if v[j] == *x {
            proof {
                assert(string_views(v@)[j as int] == x@);
            }
            return true;
        }
        j += 1;
    }
    false
}

/// The distinct digests of `digests`, each in the position of its first
/// occurrence. Digest order is preserved so that batches are issued in
/// discovery order.
pub fn dedup_digests(digests: &Vec<String>) -> (r: Vec<String>)
    ensures
        string_views(r@) == spec_dedup(string_views(digests@)),
{
    let ghost inp = string_views(digests@);
    let mut r: Vec<String> = Vec::new();
    let mut i: usize = 0;
    proof {
        assert(string_views(r@) =~= spec_dedup(inp.take(0)));
    }
    while i < digests.len()
        invariant
            i <= digests.len(),
            inp == string_views(digests@),
            digests@.len() == inp.len(),
            string_views(r@) == spec_dedup(inp.take(i as int)),
        decreases digests.len() - i,
    {
        let ghost prev = string_views(r@);
        let hit = contains_string(&r, &digests[i]);
        proof {
            assert(inp.take(i + 1).drop_last() =~= inp.take(i as int));
            assert(inp.take(i + 1).last() == inp[i as int]);
            assert(inp[i as int] == digests@[i as int]@);
        }
        if !hit {
            r.push(digests[i].clone());
            proof {
                assert(string_views(r@) =~= prev.push(inp[i as int]));
                assert(string_views(r@) =~= spec_dedup(inp.take(i + 1)));
            }
        } else {
            proof {
                assert(string_views(r@) =~= spec_dedup(inp.take(i + 1)));
            }
        }
        i += 1;
    }
    proof {
        assert(inp.take(inp.len() as int) =~= inp);
    }
    r
}

/// The views of a sequence of chunks of strings.
pub open spec fn chunk_views(s: Seq<Vec<String>>) -> Seq<Seq<Seq<char>>> {
    s.map_values(|c: Vec<String>| string_views(c@))
}

/// Partitions `digests` into consecutive chunks: every chunk is non-empty
/// and holds at most `chunk_size` digests, every chunk but the last holds
/// exactly `chunk_size`, and the chunks concatenate back to the input in
/// order.
pub fn chunk_digests(digests: &Vec<String>, chunk_size: usize) -> (r: Vec<Vec<String>>)
    requires
        chunk_size >= 1,
    ensures
        chunk_views(r@).flatten() == string_views(digests@),
        forall|j: int|
            0 <= j < r@.len() ==> 1 <= #[trigger] chunk_views(r@)[j].len() <= chunk_size,
        forall|j: int| 0 <= j < r@.len() - 1 ==> #[trigger] chunk_views(r@)[j].len() == chunk_size,
{
    let ghost inp = string_views(digests@);
    let mut r: Vec<Vec<String>> = Vec::new();
    let mut i: usize = 0;
    proof {
        assert(chunk_views(r@) =~= Seq::<Seq<Seq<char>>>::empty());
        assert(chunk_views(r@).flatten() =~= inp.take(0));
    }
    while i < digests.len()
        invariant
            chunk_size >= 1,
            i <= digests.len(),
            inp == string_views(digests@),
            digests@.len() == inp.len(),
            chunk_views(r@).flatten() == inp.take(i as int),
            forall|j: int|
                0 <= j < r@.len() ==> 1 <= #[trigger] chunk_views(r@)[j].len() <= chunk_size,
            forall|j: int|
                0 <= j < r@.len() ==> (#[trigger] chunk_views(r@)[j].len() == chunk_size || (j
                    == r@.len() - 1 && i == digests@.len())),
        decreases digests.len() - i,
    {
        let ghost prev = chunk_views(r@);
        let start = i;
        let mut chunk: Vec<String> = Vec::new();
        proof {
            assert(string_views(chunk@) =~= inp.subrange(start as int, start as int));
        }
        while i < digests.len() && i - start < chunk_size
            invariant
                start <= i <= digests.len(),
                i - start <= chunk_size,
                inp == string_views(digests@),
                digests@.len() == inp.len(),
                string_views(chunk@) == inp.subrange(start as int, i as int),
                start < digests@.len(),
            decreases digests.len() - i,
        {
            let ghost prev_chunk = string_views(chunk@);
            chunk.push(digests[i].clone());
            proof {
                assert(string_views(chunk@) =~= prev_chunk.push(inp[i as int]));
                assert(string_views(chunk@) =~= inp.subrange(start as int, i + 1));
            }
            i += 1;
        }
        proof {
            assert(string_views(chunk@).len() == i - start);
            assert(chunk@.len() >= 1);
        }
        let ghost cv = string_views(chunk@);
        r.push(chunk);
        proof {
            assert(chunk_views(r@) =~= prev.push(cv));
            prev.lemma_flatten_push(cv);
            assert(inp.take(i as int) =~= inp.take(start as int) + inp.subrange(
                start as int,
                i as int,
            ));
            assert(chunk_views(r@).flatten() == inp.take(i as int));
        }
    }
    proof {
        assert(inp.take(inp.len() as int) =~= inp);
    }
    r
}

/// The batches one phase issues for a digest list: the distinct digests, in
/// first-occurrence order, partitioned into chunks of at most `chunk_size`.
/// One batch call is issued per chunk, so every distinct digest is requested
/// exactly once.
pub fn plan_batches(digests: &Vec<String>, chunk_size: usize) -> (r: Vec<Vec<String>>)
    requires
        chunk_size >= 1,
    ensures
        chunk_views(r@).flatten() == spec_dedup(string_views(digests@)),
        forall|j: int|
            0 <= j < r@.len() ==> 1 <= #[trigger] chunk_views(r@)[j].len() <= chunk_size,
        forall|j: int| 0 <= j < r@.len() - 1 ==> #[trigger] chunk_views(r@)[j].len() == chunk_size,
{
    let distinct = dedup_digests(digests);
    chunk_digests(&distinct, chunk_size)
}

/// Every digest of the input appears exactly once over all planned batches:
/// sharing a digest among many images triggers exactly one request for it,
/// and chunking never repeats or drops a digest.
pub proof fn lemma_one_request_per_digest(digests: Seq<Seq<char>>, batches: Seq<Seq<Seq<char>>>, d: Seq<char>)
    requires
        batches.flatten() == spec_dedup(digests),
        digests.contains(d),
    ensures
        batches.flatten().to_multiset().count(d) == 1,
{
    broadcast use vstd::seq_lib::group_to_multiset_ensures;
    broadcast use vstd::multiset::group_multiset_axioms;

    lemma_dedup_no_duplicates(digests);
    lemma_dedup_contains(digests, d);
    let dd = spec_dedup(digests);
    dd.lemma_multiset_has_no_duplicates();
    assert(dd.contains(d));
    assert(dd.to_multiset().count(d) > 0);
}

/// The schedule of one phase's chunk calls: chunks start in order, at most
/// `concurrency` of them are ever in flight at once, and a new chunk may
/// start only when a slot is free.
pub struct BatchScheduler {
    pub chunks: Vec<Vec<String>>,
    pub started: usize,
    pub in_flight: usize,
    pub concurrency: usize,
}

impl BatchScheduler {
    /// The scheduler's invariant: starts never pass the chunk list, and the
    /// calls in flight never exceed the concurrency bound.
    pub open spec fn wf(&self) -> bool {
        &&& self.started <= self.chunks@.len()
        &&& self.in_flight <= self.started
        &&& self.in_flight <= self.concurrency
        &&& self.concurrency >= 1
    }

    /// A scheduler over `chunks` with the given concurrency bound; nothing
    /// has started.
    pub fn new(chunks: Vec<Vec<String>>, concurrency: usize) -> (r: Self)
        requires
            concurrency >= 1,
        ensures
            r.wf(),
            r.chunks == chunks,
            r.started == 0,
            r.in_flight == 0,
            r.concurrency == concurrency,
    {
        BatchScheduler { chunks, started: 0, in_flight: 0, concurrency }
    }

    /// Starts the next chunk call if one is pending and a concurrency slot
    /// is free, and returns its digests; `None` when all chunks have started
    /// or the bound is reached. In-flight calls never exceed the bound.
    pub fn start_next(&mut self) -> (r: Option<&Vec<String>>)
        requires
            old(self).wf(),
        ensures
            final(self).wf(),
            final(self).chunks == old(self).chunks,
            final(self).concurrency == old(self).concurrency,
            final(self).in_flight <= final(self).concurrency,
            r is Some <==> (old(self).started < old(self).chunks@.len() && old(self).in_flight
                < old(self).concurrency),
            r is Some ==> {
                &&& final(self).started == old(self).started + 1
                &&& final(self).in_flight == old(self).in_flight + 1
                &&& r.unwrap()@ == old(self).chunks@[old(self).started as int]@
            },
            r is None ==> *final(self) == *old(self),
    {
        if self.started < self.chunks.len() && self.in_flight < self.concurrency {
            let idx = self.started;
            self.started = self.started + 1;
            self.in_flight = self.in_flight + 1;
            Some(&self.chunks[idx])
        } else {
            None
        }
    }

    /// Records that one in-flight chunk call completed, freeing its slot.
    pub fn complete_one(&mut self)
        requires
            old(self).wf(),
            old(self).in_flight >= 1,
        ensures
            final(self).wf(),
            final(self).chunks == old(self).chunks,
            final(self).concurrency == old(self).concurrency,
            final(self).started == old(self).started,
            final(self).in_flight == old(self).in_flight - 1,
    {
        self.in_flight = self.in_flight - 1;
    }

    /// Whether every chunk has started and completed.
    pub fn is_done(&self) -> (r: bool)
        ensures
            r == (self.started == self.chunks@.len() && self.in_flight == 0),
    {
        self.started == self.chunks.len() && self.in_flight == 0
    }
}

} // verus!
