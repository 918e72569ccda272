use dyon_core::num::{
    bits_to_int, bits_trunc_u64, channel_to_bits, int_to_bits, less_bits, nan_bits, unit_to_bits,
};

#[test]
fn integer_bits_round_trip() {
    let samples: Vec<i64> = vec![
        0,
        1,
        -1,
        2,
        5,
        -5,
        255,
        1024,
        -4096,
        123456789,
        -987654321,
        9007199254740992,
        -9007199254740992,
        9007199254740991,
    ];
    for &n in &samples {
        let b = int_to_bits(n);
        assert_eq!(b, (n as f64).to_bits(), "encoding {}", n);
        assert_eq!(bits_to_int(b), Some(n), "decoding {}", n);
    }
    assert_eq!(bits_to_int((0.5f64).to_bits()), None);
    assert_eq!(bits_to_int(f64::NAN.to_bits()), None);
    assert_eq!(bits_to_int(f64::INFINITY.to_bits()), None);
    assert_eq!(bits_to_int((-0.0f64).to_bits()), Some(0));
}

#[test]
fn channel_normalization_is_exact() {
    for c in 0u16..=255 {
        let c = c as u8;
        let expected = (c as f64 / 255.0).to_bits();
        assert_eq!(channel_to_bits(c), expected, "channel {}", c);
    }
}

#[test]
fn unit_interval_bits_are_exact() {
    let two53: u64 = 1 << 53;
    for &k in &[0u64, 1, 2, 12345, (1 << 52) + 7, (1 << 53) - 1] {
        let expected = (k as f64 / two53 as f64).to_bits();
        assert_eq!(unit_to_bits(k), expected, "unit {}", k);
    }
}

#[test]
fn ordering_matches_ieee() {
    let vals: Vec<f64> = vec![
        f64::NEG_INFINITY,
        -3.5,
        -1.0,
        -0.0,
        0.0,
        0.25,
        1.0,
        3.5,
        f64::INFINITY,
        f64::NAN,
    ];
    for &a in &vals {
        for &b in &vals {
            assert_eq!(
                less_bits(a.to_bits(), b.to_bits()),
                a < b,
                "comparing {} and {}",
                a,
                b
            );
        }
    }
    assert!(nan_bits(f64::NAN.to_bits()));
    assert!(!nan_bits(f64::INFINITY.to_bits()));
}

#[test]
fn truncating_cast_matches_as() {
    let vals: Vec<f64> = vec![
        0.0, 0.9, 1.0, 3.99, 4.0, 255.4, 1e18, -1.0, -0.4, f64::NAN, f64::INFINITY,
        f64::NEG_INFINITY, 1e300,
    ];
    for &v in &vals {
        assert_eq!(bits_trunc_u64(v.to_bits()), v as u64, "casting {}", v);
    }
}
