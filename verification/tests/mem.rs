use metalgear::{round_up, MemAlign};

#[allow(dead_code)]
struct TestStruct {
    data: [u8; 18],
}

#[test]
fn mem_test_roundup() {
    assert!(round_up(1, 4096) == 4096);
    assert!(round_up(4095, 4096) == 4096);
    assert!(round_up(4096, 4096) == 4096);
    assert!(round_up(4097, 4096) == 2 * 4096);
    assert!(round_up(2 * 4096 + 1, 4096) == 3 * 4096);
}

#[test]
fn test_paged_alloc() {
    let element_size: usize = std::mem::size_of::<TestStruct>();
    assert!(element_size == 18);
    let count = 10;
    let _alloc = MemAlign::<TestStruct>::new(count);
}
