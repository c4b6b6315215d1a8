use netbricks::mbuf::{L234len, TxOffload};

#[test]
fn bindgen_test_layout_L234len() {
    assert_eq!(::std::mem::size_of::<L234len>(), 8usize, "Size of: L234len");
    assert_eq!(::std::mem::align_of::<L234len>(), 8usize, "Alignment of L234len");
}

#[test]
fn bindgen_test_layout_TxOffload() {
    assert_eq!(::std::mem::size_of::<TxOffload>(), 8usize, "Size of: TxOffload");
    assert_eq!(::std::mem::align_of::<TxOffload>(), 8usize, "Alignment of TxOffload");
}
