use ross_os::heap::{size, HEAP_SIZE};

#[test]
fn heap_is_one_mebibyte() {
    assert_eq!(size(), 1024 * 1024);
    assert_eq!(size() / 1024, 1024);
    assert_eq!(HEAP_SIZE, size());
}

