use cbf_node::discovery::DiscoveryData;

#[test]
fn statistics_line() {
    let data = DiscoveryData::new(120, 7, 10, 0);
    assert_eq!(
        data.to_string(),
        "pending: 120, visited: 7, cbf_count: 10, non_cbf_count: 0"
    );
}

#[test]
fn statistics_line_with_extreme_counts() {
    let data = DiscoveryData::new(usize::MAX, 9, 99, 1000);
    assert_eq!(
        data.to_string(),
        format!("pending: {}, visited: 9, cbf_count: 99, non_cbf_count: 1000", usize::MAX)
    );
}
