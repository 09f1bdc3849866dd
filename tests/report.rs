use port_scanner::report::{sort_ports, Aggregator};

#[test]
fn sorts_ascending() {
    assert_eq!(sort_ports(&vec![443, 22, 80, 8080, 1]), vec![1, 22, 80, 443, 8080]);
    assert_eq!(sort_ports(&vec![]), Vec::<u16>::new());
    assert_eq!(sort_ports(&vec![5, 5, 1]), vec![1, 5, 5]);
    assert_eq!(sort_ports(&vec![65535, 0]), vec![0, 65535]);
}

#[test]
fn aggregator_reports_sorted() {
    let mut agg = Aggregator::new();
    for p in [9u16, 3, 6, 0] {
        agg.record(p);
    }
    assert_eq!(agg.received(), &vec![9, 3, 6, 0]);
    assert_eq!(agg.finish(), vec![0, 3, 6, 9]);
}

#[test]
fn aggregator_empty() {
    assert_eq!(Aggregator::new().finish(), Vec::<u16>::new());
}
