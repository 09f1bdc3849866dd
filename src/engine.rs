//! One scan run from start to report, over given probe outcomes and a given
//! order in which the concurrent units finish.
use vstd::prelude::*;
use crate::channel::ResultChannel;
use crate::config::ScanConfig;
use crate::partition::lemma_assignment_member;
use crate::report::{lemma_ascending_unique, lemma_report_exact, sort_ports, strictly_ascending};

verus! {

/// `r` is the report owed when `open[p]` tells whether the probe of port `p`
/// succeeds: strictly ascending, and exactly the ports of the configured
/// range whose probe succeeds.
pub open spec fn is_report(cfg: ScanConfig, open: Seq<bool>, r: Seq<u16>) -> bool {
    &&& strictly_ascending(r)
    &&& forall|p: u16|
        r.contains(p) <==> (cfg.lower_bound <= p < cfg.upper_bound && open[p as int])
}

/// `order` lists every unit of the scan exactly once.
pub open spec fn is_completion_order(cfg: ScanConfig, order: Seq<u16>) -> bool {
    &&& order.len() == cfg.units()
    &&& order.no_duplicates()
    &&& forall|i: int| 0 <= i < order.len() ==> (#[trigger] order[i]) < cfg.units()
    &&& forall|u: u16| u < cfg.units() ==> order.contains(u)
}

/// The unit that owns `p` is among the first `n` of `order` to finish.
pub open spec fn finished(cfg: ScanConfig, order: Seq<u16>, n: int, p: u16) -> bool {
    exists|j: int| 0 <= j < n && order[j] as int == #[trigger] cfg.owner(p as int)
}

/// Runs a scan whose probe of port `p` succeeds exactly when `open[p]`, and
/// whose units finish in the order `order`: every unit gets a send endpoint,
/// the starter releases its own, each unit sends its open ports and then
/// releases its endpoint, and the receiver drains the channel until it is
/// closed and sorts what it received.
pub fn run_scan(cfg: &ScanConfig, open: &Vec<bool>, order: &Vec<u16>) -> (r: Vec<u16>)
    requires
        cfg.wf(),
        cfg.upper_bound <= open.len(),
        is_completion_order(*cfg, order@),
    ensures
        is_report(*cfg, open@, r@),
{
    let mut ch = ResultChannel::new();
    let n = cfg.unit_count();
    let mut k: u16 = 0;
    while k < n
        invariant
            k <= n,
            n == cfg.units(),
            ch.live() == k + 1,
            ch.queued() == Seq::<u16>::empty(),
        decreases n - k,
    {
        ch.clone_sender();
        k = k + 1;
    }
    ch.release();
    let mut idx: usize = 0;
    while idx < order.len()
        invariant
            cfg.wf(),
            cfg.upper_bound <= open.len(),
            is_completion_order(*cfg, order@),
            n == cfg.units(),
            idx <= order.len() <= n,
            ch.live() == n - idx,
            ch.queued().no_duplicates(),
            forall|p: u16|
                ch.queued().contains(p) <==> (cfg.lower_bound <= p < cfg.upper_bound
                    && open@[p as int] && finished(*cfg, order@, idx as int, p)),
        decreases order.len() - idx,
    {
        let unit = order[idx];
        let ports = cfg.unit_ports(unit);
        let ghost start = ch.queued();
        let mut t: usize = 0;
        while t < ports.len()
            invariant
                cfg.wf(),
                cfg.upper_bound <= open.len(),
                is_completion_order(*cfg, order@),
                unit == order@[idx as int],
                idx < order.len(),
                ports@ == cfg.assignment(unit as int),
                unit < cfg.units(),
                t <= ports.len(),
                ch.live() == n - idx,
                ch.live() >= 1,
                ch.queued().no_duplicates(),
                forall|p: u16|
                    ch.queued().contains(p) <==> ((cfg.lower_bound <= p < cfg.upper_bound
                        && open@[p as int] && finished(*cfg, order@, idx as int, p)) || (
                    ports@.subrange(0, t as int).contains(p) && open@[p as int])),
            decreases ports.len() - t,
        {
            let p = ports[t];
            proof {
                lemma_assignment_member(*cfg, unit as int, p as int);
                assert(ports@.contains(p));
            }
            let ghost before = ch.queued();
            if open[p as usize] {
                proof {
                    if finished(*cfg, order@, idx as int, p) {
                        let j = choose|j: int|
                            0 <= j < idx && order@[j] as int == #[trigger] cfg.owner(p as int);
                        assert(order@[j] == order@[idx as int]);
                    }
                    if ports@.subrange(0, t as int).contains(p) {
                        let j = choose|j: int| 0 <= j < t && #[trigger] ports@.subrange(0, t as int)[j] == p;
                        assert(ports@[j] == ports@[t as int]);
                    }
                    assert(!before.contains(p));
                }
                ch.send(p);
            }
            proof {
                let q = ch.queued();
                assert(ports@.subrange(0, t + 1) =~= ports@.subrange(0, t as int).push(p));
                assert forall|i: int, j: int| 0 <= i < q.len() && 0 <= j < q.len() && i != j implies q[i]
                    != q[j] by {
                    if i < before.len() && j < before.len() {
                        assert(q[i] == before[i] && q[j] == before[j]);
                    } else if i < before.len() {
                        assert(before.contains(q[i]));
                    } else if j < before.len() {
                        assert(before.contains(q[j]));
                    }
                }
                assert forall|x: u16| q.contains(x) <==> ((cfg.lower_bound <= x < cfg.upper_bound
                    && open@[x as int] && finished(*cfg, order@, idx as int, x)) || (
                ports@.subrange(0, t + 1).contains(x) && open@[x as int])) by {
                    if q.contains(x) && !before.contains(x) {
                        let i = choose|i: int| 0 <= i < q.len() && q[i] == x;
                        assert(i == before.len());
                        assert(ports@.subrange(0, t + 1)[t as int] == x);
                    }
                    if ports@.subrange(0, t + 1).contains(x) && open@[x as int] {
                        let i = choose|i: int| 0 <= i < t + 1 && #[trigger] ports@.subrange(0, t + 1)[i] == x;
                        if i < t {
                            assert(ports@.subrange(0, t as int)[i] == x);
                        } else {
                            assert(q[q.len() - 1] == x);
                        }
                    }
                    if before.contains(x) {
                        let i = choose|i: int| 0 <= i < before.len() && before[i] == x;
                        assert(q[i] == x);
                    }
                }
            }
            t = t + 1;
        }
        ch.release();
        proof {
            assert(ports@.subrange(0, ports@.len() as int) =~= ports@);
            assert forall|p: u16| ch.queued().contains(p) <==> (cfg.lower_bound <= p
                < cfg.upper_bound && open@[p as int] && finished(*cfg, order@, idx + 1, p)) by {
                lemma_assignment_member(*cfg, unit as int, p as int);
                if finished(*cfg, order@, idx + 1, p) {
                    let j = choose|j: int|
                        0 <= j < idx + 1 && order@[j] as int == #[trigger] cfg.owner(p as int);
                    if j < idx {
                        assert(finished(*cfg, order@, idx as int, p));
                    }
                }
                if finished(*cfg, order@, idx as int, p) {
                    let j = choose|j: int|
                        0 <= j < idx && order@[j] as int == #[trigger] cfg.owner(p as int);
                    assert(finished(*cfg, order@, idx + 1, p));
                }
                if ports@.contains(p) {
                    assert(order@[idx as int] as int == cfg.owner(p as int));
                    assert(finished(*cfg, order@, idx + 1, p));
                }
            }
        }
        idx = idx + 1;
    }
    proof {
        assert forall|p: u16| cfg.lower_bound <= p < cfg.upper_bound implies finished(
            *cfg,
            order@,
            idx as int,
            p,
        ) by {
            crate::partition::lemma_partition_exact(*cfg, p as int);
            let u = cfg.owner(p as int) as u16;
            assert(order@.contains(u));
            let j = choose|j: int| 0 <= j < order@.len() && order@[j] == u;
            assert(order@[j] as int == cfg.owner(p as int));
        }
    }
    let received = ch.drain();
    let r = sort_ports(&received);
    proof {
        lemma_report_exact(received@, r@);
    }
    r
}

/// With no open port the report is empty.
pub proof fn lemma_no_open_port_empty_report(cfg: ScanConfig, open: Seq<bool>, r: Seq<u16>)
    requires
        is_report(cfg, open, r),
        forall|p: int| cfg.lower_bound <= p < cfg.upper_bound ==> !open[p],
    ensures
        r.len() == 0,
{
    if r.len() > 0 {
        assert(r.contains(r[0]));
    }
}

/// The report is determined by the probe outcomes alone: whatever order the
/// units finish in, and whatever order the ports reach the receiver in, the
/// same outcomes give the same report.
pub proof fn lemma_report_determined(cfg: ScanConfig, open: Seq<bool>, r1: Seq<u16>, r2: Seq<u16>)
    requires
        is_report(cfg, open, r1),
        is_report(cfg, open, r2),
    ensures
        r1 == r2,
{
    lemma_ascending_unique(r1, r2);
}

} // verus!
