//! What a probe of one port found, and the ordering of a scan's results.

use vstd::prelude::*;

use crate::span::TimeSpan;

verus! {

broadcast use vstd::seq_lib::group_seq_properties;

/// What a probe of one port found.
#[derive(Debug, Clone, Copy, PartialEq, Eq, Structural)]
pub enum Status {
    /// The handshake completed: something is listening.
    Open,
    /// The connection was refused: the host is up and the port is free.
    Closed,
    /// No answer before the timeout: a firewall may be dropping packets.
    Filtered,
}

impl Status {
    /// The word shown for the status.
    pub fn label(self) -> (r: &'static str)
        ensures
            r@ == match self {
                Status::Open => "open"@,
                Status::Closed => "closed"@,
                Status::Filtered => "filtered"@,
            },
    {
        match self {
            Status::Open => "open",
            Status::Closed => "closed",
            Status::Filtered => "filtered",
        }
    }

    /// The status of a probe: filtered when the connect attempt did not finish
    /// within the timeout, open when it finished connected, closed when it
    /// finished with an error.
    pub fn of_probe(finished: bool, connected: bool) -> (r: Status)
        ensures
            r == if !finished {
                Status::Filtered
            } else if connected {
                Status::Open
            } else {
                Status::Closed
            },
    {
        if !finished {
            Status::Filtered
        } else if connected {
            Status::Open
        } else {
            Status::Closed
        }
    }
}

/// How many probes may run at once: the requested number, but at least one.
pub fn permit_count(concurrency: usize) -> (r: usize)
    ensures
        r == if concurrency == 0 { 1 } else { concurrency },
{
    if concurrency == 0 {
        1
    } else {
        concurrency
    }
}

/// The outcome of probing one port.
#[derive(Debug, Clone, Copy)]
pub struct PortResult {
    pub port: u16,
    pub status: Status,
    /// How long the probe took.
    pub latency: TimeSpan,
}

/// Selects the results for port `p`.
pub open spec fn on_port(p: u16) -> spec_fn(PortResult) -> bool {
    |r: PortResult| r.port == p
}

/// Selects the results with status `s`.
pub open spec fn with_status(s: Status) -> spec_fn(PortResult) -> bool {
    |r: PortResult| r.status == s
}

/// Ports never decrease along `v`.
pub open spec fn sorted_by_port(v: Seq<PortResult>) -> bool {
    forall|i: int, j: int| 0 <= i < j < v.len() ==> v[i].port <= v[j].port
}

proof fn lemma_filter_all_on_port(v: Seq<PortResult>, q: u16, p: u16)
    requires
        forall|k: int| 0 <= k < v.len() ==> v[k].port == q,
    ensures
        v.filter(on_port(p)) == if p == q {
            v
        } else {
            Seq::<PortResult>::empty()
        },
    decreases v.len(),
{
    if v.len() > 0 {
        lemma_filter_all_on_port(v.drop_last(), q, p);
        v.drop_last().lemma_filter_push(v.last(), on_port(p));
        assert(v.drop_last().push(v.last()) =~= v);
    } else {
        reveal(Seq::filter);
    }
}

/// The results ordered by port, as a stable sort orders them: ports never
/// decrease, and the results for each port keep their order.
pub fn sort_by_port(results: Vec<PortResult>) -> (r: Vec<PortResult>)
    ensures
        sorted_by_port(r@),
        forall|p: u16| #[trigger] r@.filter(on_port(p)) == results@.filter(on_port(p)),
{
    let mut buckets: Vec<Vec<PortResult>> = Vec::new();
    let mut b: usize = 0;
    while b < 65536
        invariant
            b <= 65536,
            buckets@.len() == b,
            forall|k: int| 0 <= k < b ==> (#[trigger] buckets@[k])@ == Seq::<PortResult>::empty(),
        decreases 65536 - b,
    {
        buckets.push(Vec::new());
        b = b + 1;
    }
    let n = results.len();
    let mut i: usize = 0;
    proof {
        reveal(Seq::filter);
    }
    assert(forall|p: u16| (#[trigger] buckets@[p as int])@ == results@.take(0).filter(on_port(p)));
    while i < n
        invariant
            i <= n,
            n == results@.len(),
            buckets@.len() == 65536,
            forall|p: u16| (#[trigger] buckets@[p as int])@ == results@.take(i as int).filter(
                on_port(p),
            ),
        decreases n - i,
    {
        let x = results[i];
        let ghost before = buckets@;
        buckets[x.port as usize].push(x);
        proof {
            assert(results@.take(i + 1) =~= results@.take(i as int).push(x));
            assert forall|p: u16| (#[trigger] buckets@[p as int])@ == results@.take(i + 1).filter(
                on_port(p),
            ) by {
                results@.take(i as int).lemma_filter_push(x, on_port(p));
                if p != x.port {
                    assert(buckets@[p as int] == before[p as int]);
                }
            }
        }
        i = i + 1;
    }
    assert(results@.take(n as int) =~= results@);
    let mut out: Vec<PortResult> = Vec::new();
    let mut q: usize = 0;
    assert(forall|p: u16| #[trigger] out@.filter(on_port(p)) == Seq::<PortResult>::empty());
    while q < 65536
        invariant
            q <= 65536,
            buckets@.len() == 65536,
            forall|p: u16| (#[trigger] buckets@[p as int])@ == results@.filter(on_port(p)),
            forall|p: u16| #[trigger]
                out@.filter(on_port(p)) == if (p as int) < q {
                    results@.filter(on_port(p))
                } else {
                    Seq::<PortResult>::empty()
                },
            forall|k: int| 0 <= k < out@.len() ==> (out@[k].port as int) < q,
            sorted_by_port(out@),
        decreases 65536 - q,
    {
        let ghost start = out@;
        let bucket = &buckets[q];
        let ghost bq = bucket@;
        assert(bq == results@.filter(on_port(q as u16)));
        assert forall|k: int| 0 <= k < bq.len() implies bq[k].port == q by {
            results@.lemma_filter_pred(on_port(q as u16), k);
        }
        let m = bucket.len();
        let mut j: usize = 0;
        while j < m
            invariant
                j <= m,
                m == bq.len(),
                bucket@ == bq,
                q < 65536,
                forall|k: int| 0 <= k < bq.len() ==> bq[k].port == q,
                out@ == start + bq.take(j as int),
                forall|k: int| 0 <= k < start.len() ==> (start[k].port as int) < q,
                sorted_by_port(start),
            decreases m - j,
        {
            out.push(bucket[j]);
            j = j + 1;
            assert(out@ =~= start + bq.take(j as int));
        }
        assert(bq.take(m as int) =~= bq);
        proof {
            assert forall|p: u16| #[trigger]
                out@.filter(on_port(p)) == if (p as int) < q + 1 {
                    results@.filter(on_port(p))
                } else {
                    Seq::<PortResult>::empty()
                } by {
                Seq::filter_distributes_over_add(start, bq, on_port(p));
                lemma_filter_all_on_port(bq, q as u16, p);
            }
        }
        q = q + 1;
    }
    assert forall|p: u16| #[trigger] out@.filter(on_port(p)) == results@.filter(on_port(p)) by {
        assert((p as int) < 65536);
    }
    out
}

/// Whether any result is open.
pub fn any_open(results: &Vec<PortResult>) -> (r: bool)
    ensures
        r == exists|i: int| 0 <= i < results@.len() && results@[i].status == Status::Open,
{
    let mut i: usize = 0;
    while i < results.len()
        invariant
            i <= results@.len(),
            forall|k: int| 0 <= k < i ==> results@[k].status != Status::Open,
        decreases results@.len() - i,
    {
        if results[i].status == Status::Open {
            return true;
        }
        i = i + 1;
    }
    false
}

/// How many results have status `s`.
pub fn count_status(results: &Vec<PortResult>, s: Status) -> (r: usize)
    ensures
        r == results@.filter(with_status(s)).len(),
{
    let mut i: usize = 0;
    let mut c: usize = 0;
    proof {
        reveal(Seq::filter);
    }
    assert(results@.take(0).filter(with_status(s)).len() == 0);
    while i < results.len()
        invariant
            i <= results@.len(),
            c == results@.take(i as int).filter(with_status(s)).len(),
            c <= i,
        decreases results@.len() - i,
    {
        proof {
            assert(results@.take(i + 1) =~= results@.take(i as int).push(results@[i as int]));
            results@.take(i as int).lemma_filter_push(results@[i as int], with_status(s));
        }
        if results[i].status == s {
            c = c + 1;
        }
        i = i + 1;
    }
    assert(results@.take(results@.len() as int) =~= results@);
    c
}

proof fn lemma_filter_len_remove(s: Seq<PortResult>, i: int, f: spec_fn(PortResult) -> bool)
    requires
        0 <= i < s.len(),
    ensures
        s.filter(f).len() == s.remove(i).filter(f).len() + (if f(s[i]) { 1int } else { 0int }),
{
    let a = s.take(i);
    let x = s[i];
    let b = s.skip(i + 1);
    assert(s =~= (a + seq![x]) + b);
    assert(s.remove(i) =~= a + b);
    Seq::filter_distributes_over_add(a + seq![x], b, f);
    Seq::filter_distributes_over_add(a, seq![x], f);
    Seq::filter_distributes_over_add(a, b, f);
    assert(seq![x] =~= Seq::<PortResult>::empty().push(x));
    Seq::<PortResult>::empty().lemma_filter_push(x, f);
    reveal(Seq::filter);
}

/// Reordering results does not change how many of them a predicate selects.
pub proof fn lemma_filter_len_permutation(
    p: Seq<PortResult>,
    q: Seq<PortResult>,
    f: spec_fn(PortResult) -> bool,
)
    requires
        p.to_multiset() == q.to_multiset(),
    ensures
        p.filter(f).len() == q.filter(f).len(),
    decreases p.len(),
{
    broadcast use vstd::seq_lib::group_to_multiset_ensures;
    broadcast use vstd::multiset::group_multiset_axioms;

    if p.len() == 0 {
        assert(q.len() == q.to_multiset().len());
        reveal(Seq::filter);
    } else {
        let x = p.last();
        let p0 = p.drop_last();
        assert(p0.push(x) =~= p);
        assert(p.to_multiset() == p0.to_multiset().insert(x));
        assert(q.to_multiset().count(x) > 0);
        assert(q.contains(x));
        let i = choose|i: int| 0 <= i < q.len() && q[i] == x;
        let q0 = q.remove(i);
        assert(q0.to_multiset() == q.to_multiset().remove(x));
        assert(p0.to_multiset() =~= q0.to_multiset());
        lemma_filter_len_permutation(p0, q0, f);
        p0.lemma_filter_push(x, f);
        lemma_filter_len_remove(q, i, f);
    }
}

} // verus!
