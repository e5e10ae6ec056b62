use vec_lib::vectori128::{horizontal_and, horizontal_or, Vec128b, Vec16c};

#[test]
fn vectori128_test_vec128b() {
    let mut arr: [u8; 16] = [0; 16];
    let mut a128 = Vec128b::new();
    a128.store(&mut arr);
    assert_eq!(false, horizontal_or(a128));

    arr[0] = 1;
    a128.load(&arr);
    assert_eq!(true, horizontal_or(a128));
    assert_eq!(false, horizontal_and(a128));

    a128 ^= a128;
    assert_eq!(false, horizontal_or(a128));
}

#[test]
fn test_veci128_test_vec128b() {
    let mut arr: [u8; 16] = [0; 16];
    let mut a128 = Vec128b::new();
    a128.store(&mut arr);
    assert_eq!(false, horizontal_or(a128));

    arr[0] = 1;
    a128.load(&arr);
    assert_eq!(true, horizontal_or(a128));
    assert_eq!(false, horizontal_and(a128));

    a128 ^= a128;
    assert_eq!(false, horizontal_or(a128));
}

#[test]
fn test_vec16c() {
    let mut a16 = Vec16c::new();
    let arr1: [i8; 16] = [3, 49, 0, 17, 25, 8, 42, 1, 36, 11, 29, 5, 48, 20, 14, 33];
    let b16 = Vec16c::set_values(arr1);
    a16.load(&arr1);
    assert!(a16 == b16);
    assert!((a16 & b16) == (a16 & b16));
}
