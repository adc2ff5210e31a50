use billard::key::{key_bits, order_key};

#[test]
fn keys_follow_float_order() {
    let values = [
        f32::NEG_INFINITY,
        -1.0e30,
        -2.5,
        -1.0e-40,
        0.0,
        1.0e-40,
        0.1,
        1.0,
        99.9,
        f32::MAX,
        f32::INFINITY,
    ];
    for w in values.windows(2) {
        assert!(order_key(w[0].to_bits()) < order_key(w[1].to_bits()), "{} {}", w[0], w[1]);
    }
}

#[test]
fn both_zeros_share_a_key() {
    assert_eq!(order_key((-0.0f32).to_bits()), order_key(0.0f32.to_bits()));
    assert_eq!(order_key(0.0f32.to_bits()), 0x8000_0000);
}

#[test]
fn exact_keys() {
    assert_eq!(order_key(1), 0x8000_0001);
    assert_eq!(order_key(0x8000_0001), 0x7fff_ffff);
    assert_eq!(order_key(0xffff_ffff), 1);
    assert_eq!(order_key(0x7fff_ffff), u32::MAX);
}

#[test]
fn key_bits_inverts_order_key() {
    for x in [0.0f32, -0.0, 1.5, -1.5, 99.9, f32::INFINITY, f32::NEG_INFINITY] {
        let back = f32::from_bits(key_bits(order_key(x.to_bits())));
        assert_eq!(back, x);
    }
    assert_eq!(key_bits(order_key((-0.0f32).to_bits())), 0);
}
