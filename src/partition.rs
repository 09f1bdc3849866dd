//! How the port space is split over the concurrent units of a scan.
use vstd::prelude::*;
use vstd::arithmetic::div_mod::lemma_fundamental_div_mod_converse;
use crate::config::{Policy, ScanConfig};

verus! {

/// Number of ports that the worker starting at `worker` visits when it steps
/// by `threads` and stays strictly under `max`.
pub open spec fn stripe_len(worker: int, threads: int, max: int) -> int {
    if worker < max {
        (max - 1 - worker) / threads + 1
    } else {
        0
    }
}

/// The stripe of `worker`: `worker, worker + threads, worker + 2 * threads, ...`,
/// every member strictly under `max`.
pub open spec fn stripe_seq(worker: int, threads: int, max: int) -> Seq<u16> {
    Seq::new(stripe_len(worker, threads, max) as nat, |k: int| (worker + k * threads) as u16)
}

/// The ports that one striped worker probes, in the order it probes them.
/// The worker probes a port, then stops once `max - port <= threads`,
/// else advances by `threads`.
pub fn stripe(worker: u16, threads: u16, max: u16) -> (r: Vec<u16>)
    requires
        threads > 0,
    ensures
        r@ == stripe_seq(worker as int, threads as int, max as int),
{
    let mut r: Vec<u16> = Vec::new();
    if worker >= max {
        proof {
            assert(r@ =~= stripe_seq(worker as int, threads as int, max as int));
        }
        return r;
    }
    let mut port: u16 = worker;
    let ghost mut m: int = 0;
    loop
        invariant
            threads > 0,
            worker <= port < max,
            port == worker + m * threads,
            0 <= m,
            r@.len() == m,
            forall|k: int| 0 <= k < m ==> #[trigger] r@[k] == (worker + k * threads) as u16,
        decreases max - port,
    {
        r.push(port);
        if max - port <= threads {
            proof {
                lemma_fundamental_div_mod_converse(
                    max - 1 - worker,
                    threads as int,
                    m,
                    max - 1 - port,
                );
                assert(r@ =~= stripe_seq(worker as int, threads as int, max as int));
            }
            return r;
        }
        port = port + threads;
        proof {
            m = m + 1;
            assert((m - 1) * threads + threads == m * threads) by (nonlinear_arith);
        }
    }
}

} // verus!

verus! {

/// Membership in a stripe: a port below `max` belongs to the stripe of
/// `worker` exactly when it leaves the remainder `worker` modulo `threads`.
pub proof fn lemma_stripe_member(worker: int, threads: int, max: int, p: int)
    requires
        0 <= worker < threads,
        0 <= max <= u16::MAX,
        0 <= p <= u16::MAX,
    ensures
        stripe_seq(worker, threads, max).contains(p as u16) <==> (p < max && p % threads
            == worker),
{
    let s = stripe_seq(worker, threads, max);
    if worker < max {
        let q = (max - 1 - worker) / threads;
        let rem = (max - 1 - worker) % threads;
        lemma_div_mod_split(max - 1 - worker, threads);
        assert(max - 1 - worker == q * threads + rem && 0 <= rem < threads);
        if s.contains(p as u16) {
            let j = choose|j: int| 0 <= j < s.len() && s[j] == p as u16;
            assert(0 <= j <= q);
            assert(j * threads <= q * threads) by (nonlinear_arith)
                requires
                    0 <= j <= q,
                    threads > 0,
            ;
            assert(0 <= j * threads) by (nonlinear_arith)
                requires
                    0 <= j,
                    threads > 0,
            ;
            assert(s[j] == (worker + j * threads) as u16);
            assert(p == worker + j * threads);
            lemma_fundamental_div_mod_converse(p, threads, j, worker);
        }
        if p < max && p % threads == worker {
            let j = p / threads;
            lemma_div_mod_split(p, threads);
            assert(p == j * threads + worker);
            assert(0 <= j) by (nonlinear_arith)
                requires
                    p == j * threads + worker,
                    0 <= worker < threads,
                    p >= 0,
            ;
            assert(j <= q) by (nonlinear_arith)
                requires
                    p == j * threads + worker,
                    max - 1 - worker == q * threads + rem,
                    0 <= rem < threads,
                    p < max,
                    threads > 0,
            ;
            assert(s[j] == p as u16);
        }
    } else {
        lemma_div_mod_split(p, threads);
        assert(p % threads <= p) by (nonlinear_arith)
            requires
                p == (p / threads) * threads + p % threads,
                0 <= p % threads < threads,
                p >= 0,
        ;
        if s.contains(p as u16) {
            let j = choose|j: int| 0 <= j < s.len() && s[j] == p as u16;
        }
    }
}

/// `x` split by `d` into quotient and remainder.
proof fn lemma_div_mod_split(x: int, d: int)
    requires
        d > 0,
    ensures
        x == (x / d) * d + x % d,
        0 <= x % d < d,
{
    vstd::arithmetic::div_mod::lemma_fundamental_div_mod(x, d);
    vstd::arithmetic::mul::lemma_mul_is_commutative(d, x / d);
    vstd::arithmetic::div_mod::lemma_mod_bound(x, d);
}

} // verus!

verus! {

impl ScanConfig {
    /// Number of concurrent units the scan runs.
    pub open spec fn units(&self) -> int {
        self.concurrency as int
    }

    /// The ports that unit `k` probes, in order.
    pub open spec fn assignment(&self, k: int) -> Seq<u16> {
        match self.policy {
            Policy::Range => seq![(self.lower_bound + k) as u16],
            Policy::Stripe => stripe_seq(k, self.concurrency as int, self.upper_bound as int),
        }
    }

    /// The unit that a port of the configured range belongs to.
    pub open spec fn owner(&self, port: int) -> int {
        match self.policy {
            Policy::Range => port - self.lower_bound,
            Policy::Stripe => port % (self.concurrency as int),
        }
    }

    /// Number of concurrent units the scan runs.
    pub fn unit_count(&self) -> (r: u16)
        ensures
            r as int == self.units(),
    {
        self.concurrency
    }

    /// The ports that unit `k` probes, computed from `k` alone.
    pub fn unit_ports(&self, k: u16) -> (r: Vec<u16>)
        requires
            self.wf(),
            k < self.units(),
        ensures
            r@ == self.assignment(k as int),
    {
        match self.policy {
            Policy::Range => {
                let r = vec![self.lower_bound + k];
                proof {
                    assert(r@ =~= self.assignment(k as int));
                }
                r
            },
            Policy::Stripe => stripe(k, self.concurrency, self.upper_bound),
        }
    }
}

/// Unit `k` of a well-formed configuration holds exactly the ports of the
/// configured range that `owner` gives to `k`, each once.
pub proof fn lemma_assignment_member(cfg: ScanConfig, k: int, port: int)
    requires
        cfg.wf(),
        0 <= k < cfg.units(),
        0 <= port <= u16::MAX,
    ensures
        cfg.assignment(k).contains(port as u16) <==> (cfg.lower_bound <= port < cfg.upper_bound
            && cfg.owner(port) == k),
        cfg.assignment(k).no_duplicates(),
{
    match cfg.policy {
        Policy::Range => {
            if cfg.assignment(k).contains(port as u16) {
                assert(cfg.assignment(k)[0] == port as u16);
            }
            if cfg.lower_bound <= port < cfg.upper_bound && cfg.owner(port) == k {
                assert(cfg.assignment(k)[0] == port as u16);
            }
        },
        Policy::Stripe => {
            lemma_stripe_member(k, cfg.concurrency as int, cfg.upper_bound as int, port);
            let s = cfg.assignment(k);
            assert forall|i: int, j: int| 0 <= i < s.len() && 0 <= j < s.len() && i != j implies s[i]
                != s[j] by {
                let t = cfg.concurrency as int;
                if i < j {
                    assert(i * t < j * t) by (nonlinear_arith)
                        requires
                            i < j,
                            t > 0,
                    ;
                } else {
                    assert(j * t < i * t) by (nonlinear_arith)
                        requires
                            j < i,
                            t > 0,
                    ;
                }
                assert(0 <= i * t) by (nonlinear_arith)
                    requires
                        0 <= i,
                        t > 0,
                ;
                assert(0 <= j * t) by (nonlinear_arith)
                    requires
                        0 <= j,
                        t > 0,
                ;
                assert(s[i] == (k + i * t) as u16);
                assert(s[j] == (k + j * t) as u16);
                lemma_stripe_in_bounds(k, t, cfg.upper_bound as int, i);
                lemma_stripe_in_bounds(k, t, cfg.upper_bound as int, j);
            }
        },
    }
}

/// Every member of a stripe lies below the stripe's bound.
proof fn lemma_stripe_in_bounds(worker: int, threads: int, max: int, i: int)
    requires
        0 <= worker < threads,
        0 <= max <= u16::MAX,
        0 <= i < stripe_len(worker, threads, max),
    ensures
        worker + i * threads < max,
{
    let q = (max - 1 - worker) / threads;
    let rem = (max - 1 - worker) % threads;
    lemma_div_mod_split(max - 1 - worker, threads);
    assert(i * threads <= q * threads) by (nonlinear_arith)
        requires
            0 <= i <= q,
            threads > 0,
    ;
}

/// Coverage without duplication: for a well-formed configuration with a
/// nonempty range, every port of `[lower_bound, upper_bound)` is assigned to
/// exactly one unit, which probes it once, and no unit probes a port outside
/// that range.
pub proof fn lemma_partition_exact(cfg: ScanConfig, port: int)
    requires
        cfg.wf(),
        cfg.lower_bound < cfg.upper_bound,
        cfg.lower_bound <= port < cfg.upper_bound,
    ensures
        0 <= cfg.owner(port) < cfg.units(),
        cfg.assignment(cfg.owner(port)).contains(port as u16),
        forall|k: int|
            0 <= k < cfg.units() && k != cfg.owner(port) ==> !(#[trigger] cfg.assignment(
                k,
            ).contains(port as u16)),
        forall|k: int| 0 <= k < cfg.units() ==> (#[trigger] cfg.assignment(k)).no_duplicates(),
        forall|k: int, q: u16|
            0 <= k < cfg.units() && #[trigger] cfg.assignment(k).contains(q) ==> cfg.lower_bound
                <= q < cfg.upper_bound,
{
    if cfg.policy == Policy::Stripe {
        vstd::arithmetic::div_mod::lemma_mod_bound(port, cfg.concurrency as int);
    }
    lemma_assignment_member(cfg, cfg.owner(port), port);
    assert forall|k: int| 0 <= k < cfg.units() && k != cfg.owner(port) implies !(
    #[trigger] cfg.assignment(k).contains(port as u16)) by {
        lemma_assignment_member(cfg, k, port);
    }
    assert forall|k: int| 0 <= k < cfg.units() implies (
    #[trigger] cfg.assignment(k)).no_duplicates() by {
        lemma_assignment_member(cfg, k, port);
    }
    assert forall|k: int, q: u16|
        0 <= k < cfg.units() && #[trigger] cfg.assignment(k).contains(q) implies cfg.lower_bound
        <= q < cfg.upper_bound by {
        lemma_assignment_member(cfg, k, q as int);
    }
}

} // verus!
