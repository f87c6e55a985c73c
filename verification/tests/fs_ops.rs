use bsnark::Fs;

#[test]
fn fs_test_new() {
    let x = Fs::new([1, 2, 3, 54]);
    assert!(u64::from(x) == 1);
}

#[test]
fn test_from() {
    let x = Fs::from(42);
    assert!(u64::from(x) == 42);
}
