use port_scanner::config::{ConfigError, IpAddress, Policy, ScanConfig, STRIPE_CEILING};
use port_scanner::partition::stripe;

const LOCALHOST: IpAddress = IpAddress::V4([127, 0, 0, 1]);

#[test]
fn stripe_three_workers_below_ten() {
    assert_eq!(stripe(0, 3, 10), vec![0, 3, 6, 9]);
    assert_eq!(stripe(1, 3, 10), vec![1, 4, 7]);
    assert_eq!(stripe(2, 3, 10), vec![2, 5, 8]);
}

#[test]
fn stripe_stops_when_next_step_reaches_bound() {
    // 10 - 8 = 2 <= 2: the worker stops after 8.
    assert_eq!(stripe(0, 2, 10), vec![0, 2, 4, 6, 8]);
    assert_eq!(stripe(1, 2, 10), vec![1, 3, 5, 7, 9]);
}

#[test]
fn stripe_single_worker_covers_everything() {
    assert_eq!(stripe(0, 1, 5), vec![0, 1, 2, 3, 4]);
}

#[test]
fn stripe_worker_at_or_past_bound_is_empty() {
    assert_eq!(stripe(10, 20, 10), Vec::<u16>::new());
    assert_eq!(stripe(0, 3, 0), Vec::<u16>::new());
}

#[test]
fn striped_config_covers_each_port_once() {
    let cfg = ScanConfig::striped(LOCALHOST, 7).unwrap();
    assert_eq!(cfg.unit_count(), 7);
    let mut seen = vec![0u32; STRIPE_CEILING as usize];
    for k in 0..cfg.unit_count() {
        for p in cfg.unit_ports(k) {
            assert_eq!(p % 7, k);
            seen[p as usize] += 1;
        }
    }
    assert!(seen.iter().all(|&c| c == 1));
}

#[test]
fn striped_config_with_more_workers_than_ports() {
    let cfg = ScanConfig::striped(LOCALHOST, 3000).unwrap();
    assert_eq!(cfg.unit_ports(5), vec![5]);
    assert_eq!(cfg.unit_ports(2500), Vec::<u16>::new());
}

#[test]
fn range_config_one_unit_per_port() {
    let cfg = ScanConfig::range(LOCALHOST, 1, 5).unwrap();
    assert_eq!(cfg.policy, Policy::Range);
    assert_eq!(cfg.unit_count(), 4);
    let ports: Vec<Vec<u16>> = (0..4).map(|k| cfg.unit_ports(k)).collect();
    assert_eq!(ports, vec![vec![1], vec![2], vec![3], vec![4]]);
}

#[test]
fn range_config_empty_range() {
    let cfg = ScanConfig::range(LOCALHOST, 7, 7).unwrap();
    assert_eq!(cfg.unit_count(), 0);
}

#[test]
fn range_config_errors() {
    assert_eq!(ScanConfig::range(LOCALHOST, 0, 5), Err(ConfigError::StartIsZero));
    assert_eq!(ScanConfig::range(LOCALHOST, 6, 5), Err(ConfigError::StartAfterEnd));
    assert_eq!(ScanConfig::range(LOCALHOST, 1, 4097), Err(ConfigError::EndTooLarge));
    assert!(ScanConfig::range(LOCALHOST, 1, 4096).is_ok());
}

#[test]
fn striped_config_rejects_zero_threads() {
    assert_eq!(ScanConfig::striped(LOCALHOST, 0), Err(ConfigError::NoThreads));
}
