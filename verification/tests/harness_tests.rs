#[test]
fn test_harness_loads() {
    // Minimal test to verify the test harness runs successfully.
    assert_eq!(2 + 2, 4);
}
