use port_scanner::args::{ArgsError, Args};
use port_scanner::config::{IpAddress, Policy, STRIPE_CEILING};

const LOCALHOST: IpAddress = IpAddress::V4([127, 0, 0, 1]);

fn line(words: &[&str]) -> (Vec<String>, Vec<Option<IpAddress>>) {
    let args: Vec<String> = words.iter().map(|w| w.to_string()).collect();
    let addrs = words
        .iter()
        .map(|w| if *w == "127.0.0.1" { Some(LOCALHOST) } else { None })
        .collect();
    (args, addrs)
}

fn decide(words: &[&str]) -> Result<Args, ArgsError> {
    let (args, addrs) = line(words);
    Args::new(&args, &addrs)
}

#[test]
fn address_alone_uses_default_threads() {
    assert_eq!(decide(&["scan", "127.0.0.1"]), Ok(Args { ipaddr: LOCALHOST, threads: 5 }));
}

#[test]
fn threads_flag() {
    assert_eq!(
        decide(&["scan", "-j", "100", "127.0.0.1"]),
        Ok(Args { ipaddr: LOCALHOST, threads: 100 })
    );
}

#[test]
fn argument_counts() {
    assert_eq!(decide(&["scan"]), Err(ArgsError::NotEnoughArguments));
    assert_eq!(decide(&["scan", "a", "b", "c", "d"]), Err(ArgsError::TooManyArguments));
}

#[test]
fn help_flag() {
    assert_eq!(decide(&["scan", "-h"]), Err(ArgsError::Help));
    assert_eq!(decide(&["scan", "--help"]), Err(ArgsError::Help));
    assert_eq!(decide(&["scan", "-h", "x"]), Err(ArgsError::Help));
    assert_eq!(ArgsError::Help.message(), "Help");
}

#[test]
fn threads_flag_errors() {
    assert_eq!(decide(&["scan", "-j", "10", "nowhere"]), Err(ArgsError::InvalidAddress));
    assert_eq!(decide(&["scan", "-j", "ten", "127.0.0.1"]), Err(ArgsError::ThreadsNotNumber));
    assert_eq!(decide(&["scan", "-j", "70000", "127.0.0.1"]), Err(ArgsError::ThreadsNotNumber));
    assert_eq!(decide(&["scan", "-j", "0", "127.0.0.1"]), Err(ArgsError::ZeroThreads));
    assert_eq!(decide(&["scan", "-j", "10"]), Err(ArgsError::NotEnoughArguments));
    assert_eq!(decide(&["scan", "-j"]), Err(ArgsError::NotEnoughArguments));
}

#[test]
fn unknown_flag() {
    assert_eq!(decide(&["scan", "-x"]), Err(ArgsError::InvalidArguments));
    assert_eq!(ArgsError::InvalidArguments.message(), "Invalid arguments");
    assert_eq!(ArgsError::TooManyArguments.message(), "Too many arguments");
}

#[test]
fn args_give_striped_config() {
    let cfg = Args { ipaddr: LOCALHOST, threads: 3 }.config();
    assert_eq!(cfg.policy, Policy::Stripe);
    assert_eq!(cfg.lower_bound, 0);
    assert_eq!(cfg.upper_bound, STRIPE_CEILING);
    assert_eq!(cfg.concurrency, 3);
}
