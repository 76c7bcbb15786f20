use secondary_market::hashing::{order_id, same_order_id};

#[test]
fn order_id_is_blake2b_of_scale_encoding() {
    let expected: [u8; 32] = [
        138, 51, 160, 166, 108, 14, 108, 242, 19, 133, 116, 190, 179, 120, 92, 123, 139, 55, 83,
        13, 202, 182, 217, 212, 199, 52, 102, 15, 142, 116, 246, 66,
    ];
    assert_eq!(order_id([0u8; 32], 10, 0), expected);
}

#[test]
fn order_id_depends_on_seed_sender_and_nonce() {
    let mut seed = [0u8; 32];
    for (i, b) in seed.iter_mut().enumerate() {
        *b = i as u8;
    }
    let expected: [u8; 32] = [
        82, 138, 79, 129, 239, 5, 154, 63, 210, 88, 92, 118, 8, 186, 92, 78, 39, 128, 194, 177,
        239, 163, 233, 191, 223, 68, 119, 30, 161, 160, 184, 117,
    ];
    assert_eq!(order_id(seed, 20, 1), expected);
    assert_ne!(order_id(seed, 20, 1), order_id(seed, 20, 2));
    assert_ne!(order_id(seed, 20, 1), order_id(seed, 21, 1));
    assert_ne!(order_id(seed, 20, 1), order_id([0u8; 32], 20, 1));
}

#[test]
fn same_order_id_compares_all_bytes() {
    let a = [7u8; 32];
    let mut b = [7u8; 32];
    assert!(same_order_id(&a, &b));
    b[31] = 8;
    assert!(!same_order_id(&a, &b));
    b[31] = 7;
    b[0] = 0;
    assert!(!same_order_id(&a, &b));
}
