//! The command-line decisions: which scan to run, or why none runs.
use vstd::prelude::*;
use crate::config::{DEFAULT_THREADS, IpAddress, ScanConfig, STRIPE_CEILING, Policy};
use crate::text::{contains_fragment, has_fragment, parse_u16, parsed_u16};

verus! {

/// The scan that the command line asks for.
#[derive(Clone, Copy, Debug, PartialEq, Eq)]
pub struct Args {
    pub ipaddr: IpAddress,
    pub threads: u16,
}

/// Why the command line starts no scan.
#[derive(Clone, Copy, Debug, PartialEq, Eq, Structural)]
pub enum ArgsError {
    /// More than three arguments after the program name.
    TooManyArguments,
    /// No argument after the program name, or `-j` without its two values.
    NotEnoughArguments,
    /// The help flag was given: the caller shows the usage and stops.
    Help,
    /// The address after `-j <threads>` is no IP address.
    InvalidAddress,
    /// The value after `-j` is no 16-bit unsigned number.
    ThreadsNotNumber,
    /// The value after `-j` is zero.
    ZeroThreads,
    /// The first argument is neither an address nor a known flag.
    InvalidArguments,
}

impl ArgsError {
    /// The message that the caller shows for this error.
    pub fn message(&self) -> (r: &'static str) {
        match self {
            ArgsError::TooManyArguments => "Too many arguments",
            ArgsError::NotEnoughArguments => "Not enough arguments",
            ArgsError::Help => "Help",
            ArgsError::InvalidAddress => "IP address is not valid",
            ArgsError::ThreadsNotNumber => "Threads must be number",
            ArgsError::ZeroThreads => "Threads must be greater than zero",
            ArgsError::InvalidArguments => "Invalid arguments",
        }
    }
}

/// The outcome of a command line `args` (program name first), where
/// `addrs[i]` is the IP address that `args[i]` spells, if any.
pub open spec fn args_outcome(args: Seq<Seq<char>>, addrs: Seq<Option<IpAddress>>) -> Result<
    Args,
    ArgsError,
> {
    if args.len() > 4 {
        Err(ArgsError::TooManyArguments)
    } else if args.len() < 2 {
        Err(ArgsError::NotEnoughArguments)
    } else if addrs[1] is Some {
        Ok(Args { ipaddr: addrs[1]->Some_0, threads: DEFAULT_THREADS })
    } else if has_fragment(args[1], seq!['-', 'h']) || has_fragment(
        args[1],
        seq!['-', '-', 'h', 'e', 'l', 'p'],
    ) {
        if has_fragment(args[1], seq!['-', 'h']) || args.len() == 2 {
            Err(ArgsError::Help)
        } else {
            Err(ArgsError::TooManyArguments)
        }
    } else if has_fragment(args[1], seq!['-', 'j']) {
        if args.len() < 4 {
            Err(ArgsError::NotEnoughArguments)
        } else if addrs[3] is None {
            Err(ArgsError::InvalidAddress)
        } else if parsed_u16(args[2]) is None {
            Err(ArgsError::ThreadsNotNumber)
        } else if parsed_u16(args[2])->Some_0 == 0 {
            Err(ArgsError::ZeroThreads)
        } else {
            Ok(Args { ipaddr: addrs[3]->Some_0, threads: parsed_u16(args[2])->Some_0 })
        }
    } else {
        Err(ArgsError::InvalidArguments)
    }
}

/// The text of each argument.
pub open spec fn texts(args: Seq<String>) -> Seq<Seq<char>> {
    args.map_values(|a: String| a@)
}

impl Args {
    /// Decides what the command line `args` asks for; `addrs[i]` is the IP
    /// address that `args[i]` spells, or `None`.
    pub fn new(args: &Vec<String>, addrs: &Vec<Option<IpAddress>>) -> (r: Result<Args, ArgsError>)
        requires
            addrs.len() == args.len(),
        ensures
            r == args_outcome(texts(args@), addrs@),
            r is Ok ==> r->Ok_0.threads > 0,
    {
        let ghost a = texts(args@);
        let len = args.len();
        if len > 4 {
            return Err(ArgsError::TooManyArguments);
        } else if len < 2 {
            return Err(ArgsError::NotEnoughArguments);
        }
        if let Some(ip) = addrs[1] {
            return Ok(Args { ipaddr: ip, threads: DEFAULT_THREADS });
        }
        let flag = args[1].as_str();
        proof {
            reveal_strlit("-h");
            reveal_strlit("--help");
            reveal_strlit("-j");
            assert("-h"@ =~= seq!['-', 'h']);
            assert("--help"@ =~= seq!['-', '-', 'h', 'e', 'l', 'p']);
            assert("-j"@ =~= seq!['-', 'j']);
            assert(a[1] == flag@);
        }
        let short_help = contains_fragment(flag, "-h");
        let long_help = contains_fragment(flag, "--help");
        if short_help || long_help {
            if short_help || len == 2 {
                return Err(ArgsError::Help);
            }
            return Err(ArgsError::TooManyArguments);
        }
        if contains_fragment(flag, "-j") {
            if len < 4 {
                return Err(ArgsError::NotEnoughArguments);
            }
            let ipaddr = match addrs[3] {
                Some(ip) => ip,
                None => return Err(ArgsError::InvalidAddress),
            };
            proof {
                assert(a[2] == args@[2]@);
            }
            let threads = match parse_u16(args[2].as_str()) {
                Some(t) => t,
                None => return Err(ArgsError::ThreadsNotNumber),
            };
            if threads == 0 {
                return Err(ArgsError::ZeroThreads);
            }
            return Ok(Args { ipaddr, threads });
        }
        Err(ArgsError::InvalidArguments)
    }

    /// The striped scan of `[0, STRIPE_CEILING)` that these arguments ask for.
    pub fn config(&self) -> (r: ScanConfig)
        requires
            self.threads > 0,
        ensures
            r.wf(),
            r == (ScanConfig {
                address: self.ipaddr,
                lower_bound: 0,
                upper_bound: STRIPE_CEILING,
                concurrency: self.threads,
                policy: Policy::Stripe,
            }),
    {
        ScanConfig {
            address: self.ipaddr,
            lower_bound: 0,
            upper_bound: STRIPE_CEILING,
            concurrency: self.threads,
            policy: Policy::Stripe,
        }
    }
}

} // verus!
