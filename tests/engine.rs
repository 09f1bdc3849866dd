use port_scanner::config::{IpAddress, ScanConfig};
use port_scanner::engine::run_scan;

const LOCALHOST: IpAddress = IpAddress::V4([127, 0, 0, 1]);

fn outcomes(len: usize, open: &[u16]) -> Vec<bool> {
    (0..len).map(|p| open.contains(&(p as u16))).collect()
}

#[test]
fn range_with_one_open_port() {
    let cfg = ScanConfig::range(LOCALHOST, 1, 5).unwrap();
    let open = outcomes(5, &[3]);
    assert_eq!(run_scan(&cfg, &open, &vec![0, 1, 2, 3]), vec![3]);
}

#[test]
fn empty_range_gives_empty_report() {
    let cfg = ScanConfig::range(LOCALHOST, 4, 4).unwrap();
    let open = outcomes(10, &[4]);
    assert_eq!(run_scan(&cfg, &open, &vec![]), Vec::<u16>::new());
}

#[test]
fn no_open_port_gives_empty_report() {
    let cfg = ScanConfig::striped(LOCALHOST, 5).unwrap();
    let open = outcomes(2048, &[]);
    assert_eq!(run_scan(&cfg, &open, &vec![0, 1, 2, 3, 4]), Vec::<u16>::new());
}

#[test]
fn reverse_completion_order_gives_same_report() {
    let cfg = ScanConfig::range(LOCALHOST, 1, 9).unwrap();
    let open = outcomes(9, &[2, 5, 8, 100]);
    let forward: Vec<u16> = (0..8).collect();
    let backward: Vec<u16> = (0..8).rev().collect();
    assert_eq!(run_scan(&cfg, &open, &forward), vec![2, 5, 8]);
    assert_eq!(run_scan(&cfg, &open, &backward), vec![2, 5, 8]);
}

#[test]
fn striped_scan_any_order() {
    let cfg = ScanConfig::striped(LOCALHOST, 3).unwrap();
    let open = outcomes(2048, &[0, 22, 80, 443, 2047]);
    let expected = vec![0, 22, 80, 443, 2047];
    assert_eq!(run_scan(&cfg, &open, &vec![0, 1, 2]), expected);
    assert_eq!(run_scan(&cfg, &open, &vec![2, 0, 1]), expected);
    assert_eq!(run_scan(&cfg, &open, &vec![1, 2, 0]), expected);
}

#[test]
fn ports_outside_range_are_not_reported() {
    let cfg = ScanConfig::range(LOCALHOST, 10, 12).unwrap();
    let open = outcomes(20, &[9, 10, 12, 15]);
    assert_eq!(run_scan(&cfg, &open, &vec![1, 0]), vec![10]);
}
