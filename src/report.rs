//! Aggregation of the discovered ports into the final, sorted report.
use vstd::prelude::*;
use vstd::relations::{sorted_by, total_ordering};
use vstd::seq_lib::lemma_sorted_unique;

verus! {

broadcast use vstd::seq_lib::group_to_multiset_ensures;

/// The order of a report: `a` may come before `b`.
pub open spec fn port_le(a: u16, b: u16) -> bool {
    a <= b
}

/// Each port is smaller than every port after it.
pub open spec fn strictly_ascending(s: Seq<u16>) -> bool {
    forall|i: int, j: int| 0 <= i < j < s.len() ==> s[i] < s[j]
}

/// `s` holds the ports of `v` in ascending order, each as often as in `v`.
pub open spec fn sorted_ports(v: Seq<u16>, s: Seq<u16>) -> bool {
    &&& sorted_by(s, |a: u16, b: u16| port_le(a, b))
    &&& s.to_multiset() == v.to_multiset()
}

/// Inserting into a sequence adds one copy to its multiset.
proof fn lemma_insert_multiset(s: Seq<u16>, pos: int, x: u16)
    requires
        0 <= pos <= s.len(),
    ensures
        s.insert(pos, x).to_multiset() == s.to_multiset().insert(x),
{
    let t = s.insert(pos, x);
    assert(t.remove(pos) =~= s);
    assert(t[pos] == x);
    assert(t.to_multiset().remove(x) == s.to_multiset());
    assert(t.to_multiset().count(x) > 0) by {
        assert(t.contains(x));
    }
    assert(t.to_multiset() =~= s.to_multiset().insert(x));
}

/// The ports of `v`, sorted ascending.
pub fn sort_ports(v: &Vec<u16>) -> (r: Vec<u16>)
    ensures
        sorted_ports(v@, r@),
{
    let mut r: Vec<u16> = Vec::new();
    let mut i: usize = 0;
    proof {
        assert(v@.subrange(0, 0) =~= Seq::<u16>::empty());
    }
    while i < v.len()
        invariant
            i <= v.len(),
            forall|a: int, b: int| 0 <= a < b < r@.len() ==> r@[a] <= r@[b],
            r@.to_multiset() == v@.subrange(0, i as int).to_multiset(),
        decreases v.len() - i,
    {
        let x = v[i];
        let mut pos: usize = 0;
        while pos < r.len() && r[pos] <= x
            invariant
                pos <= r@.len(),
                forall|a: int| 0 <= a < pos ==> r@[a] <= x,
            decreases r@.len() - pos,
        {
            pos = pos + 1;
        }
        let ghost before = r@;
        r.insert(pos, x);
        proof {
            lemma_insert_multiset(before, pos as int, x);
            assert(v@.subrange(0, i + 1) =~= v@.subrange(0, i as int).push(x));
            assert(r@ =~= before.insert(pos as int, x));
            assert forall|a: int, b: int| 0 <= a < b < r@.len() implies r@[a] <= r@[b] by {
                if b < pos {
                } else if b == pos {
                } else if a < pos {
                    assert(r@[b] == before[b - 1]);
                    if pos < before.len() {
                        assert(before[pos as int] > x);
                    }
                } else if a == pos {
                    assert(before[pos as int] > x);
                    assert(r@[b] == before[b - 1]);
                } else {
                }
            }
        }
        i = i + 1;
    }
    proof {
        assert(v@.subrange(0, v.len() as int) =~= v@);
    }
    r
}

/// Collects the ports that probes report open, in arrival order, and hands
/// them out sorted once the scan is over.
pub struct Aggregator {
    received: Vec<u16>,
}

impl Aggregator {
    /// The ports received so far, in arrival order.
    pub closed spec fn view_received(&self) -> Seq<u16> {
        self.received@
    }

    /// An aggregator that has received nothing.
    pub fn new() -> (r: Aggregator)
        ensures
            r.view_received() == Seq::<u16>::empty(),
    {
        Aggregator { received: Vec::new() }
    }

    /// Records one port that a probe reported open.
    pub fn record(&mut self, port: u16)
        ensures
            final(self).view_received() == old(self).view_received().push(port),
    {
        self.received.push(port);
    }

    /// The ports received so far, in arrival order.
    pub fn received(&self) -> (r: &Vec<u16>)
        ensures
            r@ == self.view_received(),
    {
        &self.received
    }

    /// The final report: every received port, ascending.
    pub fn finish(self) -> (r: Vec<u16>)
        ensures
            sorted_ports(self.view_received(), r@),
    {
        sort_ports(&self.received)
    }
}

/// The report depends on which ports arrived, not on the order in which
/// they arrived: two arrival sequences with the same ports give the same
/// sorted report.
pub proof fn lemma_report_order_independent(v1: Seq<u16>, v2: Seq<u16>, s1: Seq<u16>, s2: Seq<u16>)
    requires
        v1.to_multiset() == v2.to_multiset(),
        sorted_ports(v1, s1),
        sorted_ports(v2, s2),
    ensures
        s1 == s2,
{
    let leq = |a: u16, b: u16| port_le(a, b);
    assert(total_ordering(leq));
    lemma_sorted_unique(s1, s2, leq);
}

/// When each port arrives at most once, the report is strictly ascending
/// and holds exactly the ports that arrived.
pub proof fn lemma_report_exact(v: Seq<u16>, s: Seq<u16>)
    requires
        v.no_duplicates(),
        sorted_ports(v, s),
    ensures
        strictly_ascending(s),
        s.no_duplicates(),
        forall|p: u16| s.contains(p) <==> v.contains(p),
{
    v.lemma_multiset_has_no_duplicates();
    s.lemma_multiset_has_no_duplicates_conv();
    assert forall|p: u16| s.contains(p) <==> v.contains(p) by {
        assert(s.to_multiset().count(p) == v.to_multiset().count(p));
    }
    assert forall|i: int, j: int| 0 <= i < j < s.len() implies s[i] < s[j] by {
        let leq = |a: u16, b: u16| port_le(a, b);
        assert(leq(s[i], s[j]));
        assert(s[i] != s[j]);
    }
}

/// Two strictly ascending sequences with the same ports are equal.
pub proof fn lemma_ascending_unique(a: Seq<u16>, b: Seq<u16>)
    requires
        strictly_ascending(a),
        strictly_ascending(b),
        forall|p: u16| a.contains(p) <==> b.contains(p),
    ensures
        a == b,
{
    let leq = |x: u16, y: u16| port_le(x, y);
    assert(total_ordering(leq));
    assert(a.no_duplicates());
    assert(b.no_duplicates());
    a.lemma_multiset_has_no_duplicates();
    b.lemma_multiset_has_no_duplicates();
    assert(a.to_multiset() =~= b.to_multiset()) by {
        assert forall|p: u16| a.to_multiset().count(p) == b.to_multiset().count(p) by {
            if a.contains(p) {
                assert(a.to_multiset().contains(p));
                assert(b.to_multiset().contains(p));
            }
        }
    }
    assert(sorted_by(a, leq)) by {
        assert forall|i: int, j: int| 0 <= i < j < a.len() implies leq(a[i], a[j]) by {}
    }
    assert(sorted_by(b, leq)) by {
        assert forall|i: int, j: int| 0 <= i < j < b.len() implies leq(b[i], b[j]) by {}
    }
    lemma_sorted_unique(a, b, leq);
}

} // verus!
