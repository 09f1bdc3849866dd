//! The validated input of one scan.
use vstd::prelude::*;

verus! {

/// Highest exclusive end of a port range in the range policy.
pub const RANGE_CEILING: u16 = 4096;

/// Fixed exclusive upper bound on the ports of the stripe policy.
pub const STRIPE_CEILING: u16 = 2048;

/// Worker count used when none is given on the command line.
pub const DEFAULT_THREADS: u16 = 5;

/// A target host address, IPv4 or IPv6, as its numeric parts.
#[derive(Clone, Copy, Debug, PartialEq, Eq)]
pub enum IpAddress {
    V4([u8; 4]),
    V6([u16; 8]),
}

/// How the port space is split over concurrent units.
#[derive(Clone, Copy, Debug, PartialEq, Eq, Structural)]
pub enum Policy {
    /// One unit per port of `[lower_bound, upper_bound)`.
    Range,
    /// `concurrency` workers; worker `i` probes `i, i + concurrency, ...`
    /// below `upper_bound`.
    Stripe,
}

/// Why a scan configuration was refused.
#[derive(Clone, Copy, Debug, PartialEq, Eq, Structural)]
pub enum ConfigError {
    /// The range starts at port 0.
    StartIsZero,
    /// The range starts after it ends.
    StartAfterEnd,
    /// The range ends beyond `RANGE_CEILING`.
    EndTooLarge,
    /// A striped scan with no worker.
    NoThreads,
}

/// The immutable input of one scan.
#[derive(Clone, Copy, Debug, PartialEq, Eq)]
pub struct ScanConfig {
    pub address: IpAddress,
    pub lower_bound: u16,
    pub upper_bound: u16,
    pub concurrency: u16,
    pub policy: Policy,
}

impl ScanConfig {
    /// The configuration invariant of each policy.
    pub open spec fn wf(&self) -> bool {
        match self.policy {
            Policy::Range => {
                &&& 0 < self.lower_bound <= self.upper_bound <= RANGE_CEILING
                &&& self.concurrency == self.upper_bound - self.lower_bound
            },
            Policy::Stripe => {
                &&& self.lower_bound == 0
                &&& self.upper_bound == STRIPE_CEILING
                &&& self.concurrency > 0
            },
        }
    }

    /// A range-policy scan of `[start, end)`, one unit per port.
    pub fn range(address: IpAddress, start: u16, end: u16) -> (r: Result<ScanConfig, ConfigError>)
        ensures
            start == 0 ==> r == Err::<ScanConfig, ConfigError>(ConfigError::StartIsZero),
            start != 0 && start > end ==> r == Err::<ScanConfig, ConfigError>(
                ConfigError::StartAfterEnd,
            ),
            start != 0 && start <= end && end > RANGE_CEILING ==> r == Err::<
                ScanConfig,
                ConfigError,
            >(ConfigError::EndTooLarge),
            0 < start <= end <= RANGE_CEILING ==> r == Ok::<ScanConfig, ConfigError>(
                (ScanConfig {
                    address,
                    lower_bound: start,
                    upper_bound: end,
                    concurrency: (end - start) as u16,
                    policy: Policy::Range,
                }),
            ),
            r is Ok ==> r->Ok_0.wf(),
    {
        if start == 0 {
            Err(ConfigError::StartIsZero)
        } else if start > end {
            Err(ConfigError::StartAfterEnd)
        } else if end > RANGE_CEILING {
            Err(ConfigError::EndTooLarge)
        } else {
            Ok(
                ScanConfig {
                    address,
                    lower_bound: start,
                    upper_bound: end,
                    concurrency: end - start,
                    policy: Policy::Range,
                },
            )
        }
    }

    /// A stripe-policy scan of `[0, STRIPE_CEILING)` with `threads` workers.
    pub fn striped(address: IpAddress, threads: u16) -> (r: Result<ScanConfig, ConfigError>)
        ensures
            threads == 0 ==> r == Err::<ScanConfig, ConfigError>(ConfigError::NoThreads),
            threads > 0 ==> r == Ok::<ScanConfig, ConfigError>(
                (ScanConfig {
                    address,
                    lower_bound: 0,
                    upper_bound: STRIPE_CEILING,
                    concurrency: threads,
                    policy: Policy::Stripe,
                }),
            ),
            r is Ok ==> r->Ok_0.wf(),
    {
        if threads == 0 {
            Err(ConfigError::NoThreads)
        } else {
            Ok(
                ScanConfig {
                    address,
                    lower_bound: 0,
                    upper_bound: STRIPE_CEILING,
                    concurrency: threads,
                    policy: Policy::Stripe,
                },
            )
        }
    }
}

} // verus!
