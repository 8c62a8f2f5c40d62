use metalgear::GPUVar;

#[test]
fn test_var_mac() {
    let var = GPUVar::with_value1(1);
    assert!(*var == 1);
}

#[test]
fn test_var() {
    let mut var = GPUVar::with_value(10);
    assert!(*var == 10);

    *var = 20;
    assert!(*var == 20);
}
