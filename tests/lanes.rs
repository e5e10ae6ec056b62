use vec_lib::vectori128::{
    abs, abs_saturated, add_saturated, andnot, horizontal_add, horizontal_add_x, horizontal_and,
    horizontal_or, if_add, if_mul, if_sub, max, min, mul_elementwise, rotate_left, select,
    sub_saturated, Vec128b, Vec16bc, Vec16c,
};

fn lanes(v: Vec16c) -> [i8; 16] {
    let mut out = [0i8; 16];
    v.store(&mut out);
    out
}

fn sample_a() -> [i8; 16] {
    [0, 1, -1, 127, -128, 5, -7, 64, -64, 100, -100, 33, -33, 2, -2, 90]
}

fn sample_b() -> [i8; 16] {
    [3, 127, -128, 1, -1, -5, 9, 2, -3, 28, -29, 4, 4, 0, 77, -90]
}

fn mask_from_bits(bits: u32) -> Vec16bc {
    let b = |i: u32| bits & (1 << i) != 0;
    Vec16bc::set_values(
        b(0), b(1), b(2), b(3), b(4), b(5), b(6), b(7), b(8), b(9), b(10), b(11), b(12), b(13),
        b(14), b(15),
    )
}

/// A small deterministic generator of signed bytes.
fn pseudo_random(n: usize, seed: u32) -> Vec<i8> {
    let mut state = seed;
    let mut out = Vec::new();
    for _ in 0..n {
        state = state.wrapping_mul(1103515245).wrapping_add(12345);
        out.push((state >> 16) as u8 as i8);
    }
    out
}

#[test]
fn chunked_multiply_matches_scalar() {
    for len in [0usize, 1, 5, 15, 16, 17, 31, 32, 37, 100, 1000] {
        let a = pseudo_random(len, 7 + len as u32);
        let b = pseudo_random(len, 1000 + len as u32);
        let mut c = vec![55i8; len + 3];
        mul_elementwise(&a, &b, &mut c);
        for i in 0..len {
            assert_eq!(c[i], a[i].wrapping_mul(b[i]));
        }
        assert_eq!(&c[len..], &[55i8, 55, 55]);
    }
}

#[test]
fn chunked_multiply_large_buffer() {
    let len = 1_000_000usize;
    let a = pseudo_random(len, 3);
    let b = pseudo_random(len, 4);
    let mut c = vec![0i8; len];
    mul_elementwise(&a, &b, &mut c);
    for i in 0..len {
        assert_eq!(c[i], a[i].wrapping_mul(b[i]));
    }
}

#[test]
fn cutoff_zeroes_upper_lanes() {
    let a = sample_a();
    for n in 0..=16usize {
        let mut v = Vec16c::set_values(a);
        v.cutoff(n);
        let got = lanes(v);
        for i in 0..16 {
            assert_eq!(got[i], if i < n { a[i] } else { 0 });
        }
    }
    let mut v = Vec16c::set_values(a);
    v.cutoff(100);
    assert_eq!(lanes(v), a);
}

#[test]
fn partial_round_trip() {
    let x: Vec<i8> = (1..=16).map(|i| i as i8 * 3).collect();
    for n in 0..=16usize {
        let mut v = Vec16c::set_value(9);
        v.load_partial(n, &x[..n]);
        let loaded = lanes(v);
        for i in 0..16 {
            assert_eq!(loaded[i], if i < n { x[i] } else { 0 });
        }
        let mut y = vec![-5i8; 20];
        v.store_partial(n, &mut y);
        for i in 0..20 {
            assert_eq!(y[i], if i < n { x[i] } else { -5 });
        }
    }
}

#[test]
fn partial_access_beyond_sixteen() {
    let x: Vec<i8> = (0..20).map(|i| i as i8 - 10).collect();
    let mut v = Vec16c::new();
    v.load_partial(40, &x);
    assert_eq!(&lanes(v)[..], &x[..16]);
    let mut y = vec![1i8; 18];
    v.store_partial(40, &mut y);
    assert_eq!(&y[..16], &x[..16]);
    assert_eq!(&y[16..], &[1i8, 1]);
}

#[test]
fn horizontal_sums_of_broadcast() {
    for v in -128i32..=127 {
        let vec = Vec16c::set_value(v as i8);
        assert_eq!(horizontal_add(vec), (16 * v).rem_euclid(256));
        assert_eq!(horizontal_add_x(vec), 16 * v);
    }
}

#[test]
fn horizontal_sums_of_mixed_lanes() {
    let a = sample_a();
    let exact: i32 = a.iter().map(|&x| x as i32).sum();
    let v = Vec16c::set_values(a);
    assert_eq!(horizontal_add_x(v), exact);
    assert_eq!(horizontal_add(v), exact.rem_euclid(256));
    assert_eq!(horizontal_add(Vec16c::set_value(-1)), 240);
    assert_eq!(horizontal_add_x(Vec16c::set_value(-128)), -2048);
}

#[test]
fn saturation_boundaries() {
    let r = add_saturated(Vec16c::set_value(127), Vec16c::set_value(1));
    assert_eq!(lanes(r), [127i8; 16]);
    let r = sub_saturated(Vec16c::set_value(-128), Vec16c::set_value(1));
    assert_eq!(lanes(r), [-128i8; 16]);
    let a = sample_a();
    let b = sample_b();
    let add = lanes(add_saturated(Vec16c::set_values(a), Vec16c::set_values(b)));
    let sub = lanes(sub_saturated(Vec16c::set_values(a), Vec16c::set_values(b)));
    for i in 0..16 {
        assert_eq!(add[i], a[i].saturating_add(b[i]));
        assert_eq!(sub[i], a[i].saturating_sub(b[i]));
    }
}

#[test]
fn select_every_mask() {
    let a = Vec16c::set_values(sample_a());
    let b = Vec16c::set_values(sample_b());
    let (la, lb) = (sample_a(), sample_b());
    for bits in 0u32..(1 << 16) {
        let got = lanes(select(mask_from_bits(bits), a, b));
        for i in 0..16 {
            let want = if bits & (1 << i) != 0 { la[i] } else { lb[i] };
            assert_eq!(got[i], want);
        }
    }
}

#[test]
fn min_plus_max_is_sum() {
    let xs = pseudo_random(16 * 64, 11);
    let ys = pseudo_random(16 * 64, 12);
    for k in 0..64 {
        let mut a = [0i8; 16];
        let mut b = [0i8; 16];
        a.copy_from_slice(&xs[16 * k..16 * k + 16]);
        b.copy_from_slice(&ys[16 * k..16 * k + 16]);
        let va = Vec16c::set_values(a);
        let vb = Vec16c::set_values(b);
        let lo = lanes(min(va, vb));
        let hi = lanes(max(va, vb));
        let sum = lanes(min(va, vb) + max(va, vb));
        for i in 0..16 {
            assert_eq!(lo[i], a[i].min(b[i]));
            assert_eq!(hi[i], a[i].max(b[i]));
            assert_eq!(sum[i], a[i].wrapping_add(b[i]));
        }
    }
}

#[test]
fn rotate_identities() {
    let v = Vec16c::set_values(sample_a());
    assert_eq!(lanes(rotate_left(v, 0)), sample_a());
    for k in 0..=8 {
        let back = rotate_left(rotate_left(v, k), 8 - k);
        assert_eq!(lanes(back), sample_a());
    }
    let r = lanes(rotate_left(Vec16c::set_value(0b0100_0001u8 as i8), 1));
    assert_eq!(r, [0b1000_0010u8 as i8; 16]);
    let r = lanes(rotate_left(Vec16c::set_value(0b0000_0011), -1));
    assert_eq!(r, [0b1000_0001u8 as i8; 16]);
    let a = sample_a();
    for b in [-9, -3, 2, 5, 7, 13] {
        let got = lanes(rotate_left(v, b));
        for i in 0..16 {
            assert_eq!(got[i], (a[i] as u8).rotate_left(b.rem_euclid(8) as u32) as i8);
        }
    }
}

#[test]
fn wrapping_arithmetic() {
    let a = sample_a();
    let b = sample_b();
    let (va, vb) = (Vec16c::set_values(a), Vec16c::set_values(b));
    let sum = lanes(va + vb);
    let diff = lanes(va - vb);
    let prod = lanes(va * vb);
    let neg = lanes(-va);
    for i in 0..16 {
        assert_eq!(sum[i], a[i].wrapping_add(b[i]));
        assert_eq!(diff[i], a[i].wrapping_sub(b[i]));
        assert_eq!(prod[i], a[i].wrapping_mul(b[i]));
        assert_eq!(neg[i], a[i].wrapping_neg());
    }
    assert_eq!(lanes(Vec16c::set_value(16) * Vec16c::set_value(16)), [0i8; 16]);
    assert_eq!(lanes(Vec16c::set_value(-128) * Vec16c::set_value(-1)), [-128i8; 16]);

    let mut acc = va;
    acc += vb;
    acc -= vb;
    assert_eq!(lanes(acc), a);
    acc *= Vec16c::set_value(2);
    assert_eq!(lanes(acc)[3], -2);
}

#[test]
fn bitwise_and_is_logical() {
    let a = sample_a();
    let b = sample_b();
    let got = lanes(Vec16c::set_values(a) & Vec16c::set_values(b));
    for i in 0..16 {
        assert_eq!(got[i], a[i] & b[i]);
    }
    let mut v = Vec16c::set_value(0b0110);
    v &= Vec16c::set_value(0b0011);
    assert_eq!(lanes(v), [0b0010i8; 16]);
}

#[test]
fn shifts_stay_in_lane() {
    let a = sample_a();
    let v = Vec16c::set_values(a);
    for k in 0..8 {
        let l = lanes(v << k);
        let r = lanes(v >> k);
        for i in 0..16 {
            assert_eq!(l[i], ((a[i] as u8) << k) as i8);
            assert_eq!(r[i], a[i] >> k);
        }
    }
    assert_eq!(lanes(Vec16c::set_value(-1) << 7), [-128i8; 16]);
    assert_eq!(lanes(Vec16c::set_value(-128) >> 7), [-1i8; 16]);
    assert_eq!(lanes(Vec16c::set_value(127) >> 3), [15i8; 16]);
}

#[test]
fn absolute_values() {
    let a = sample_a();
    let v = Vec16c::set_values(a);
    let plain = lanes(abs(v));
    let sat = lanes(abs_saturated(v));
    for i in 0..16 {
        assert_eq!(plain[i], a[i].wrapping_abs());
        assert_eq!(sat[i], a[i].saturating_abs());
    }
    assert_eq!(lanes(abs(Vec16c::set_value(-128))), [-128i8; 16]);
    assert_eq!(lanes(abs_saturated(Vec16c::set_value(-128))), [127i8; 16]);
}

#[test]
fn insert_and_extract() {
    let a = sample_a();
    let mut v = Vec16c::set_values(a);
    v.insert(3, 42);
    v.insert(-1, -9);
    v.insert(18, 7);
    let got = lanes(v);
    for i in 0..16 {
        let want = match i {
            2 => 7,
            3 => 42,
            15 => -9,
            _ => a[i],
        };
        assert_eq!(got[i], want);
    }
    assert_eq!(v.extract(3), 42);
    assert_eq!(v.extract(15), -9);
    assert_eq!(v.extract(19), 42);
    assert_eq!(v.extract(0), a[0]);
}

#[test]
fn conditional_operations() {
    let a = sample_a();
    let b = sample_b();
    let (va, vb) = (Vec16c::set_values(a), Vec16c::set_values(b));
    let bits: u32 = 0b1010_0110_1100_0011;
    let f = mask_from_bits(bits);
    let added = lanes(if_add(f, va, vb));
    let subbed = lanes(if_sub(f, va, vb));
    let multiplied = lanes(if_mul(f, va, vb));
    for i in 0..16 {
        let on = bits & (1 << i) != 0;
        assert_eq!(added[i], if on { a[i].wrapping_add(b[i]) } else { a[i] });
        assert_eq!(subbed[i], if on { a[i].wrapping_sub(b[i]) } else { a[i] });
        assert_eq!(multiplied[i], if on { a[i].wrapping_mul(b[i]) } else { a[i] });
    }
    let as_bytes = lanes(Vec16c::from(f));
    for i in 0..16 {
        assert_eq!(as_bytes[i], if bits & (1 << i) != 0 { -1 } else { 0 });
    }
    let raw = Vec16bc::set_value(Vec16c::set_values([0, -1, 0, -1, 0, 0, 0, 0, -1, -1, 0, 0, 0, 0, 0, -1]));
    let picked = lanes(select(raw, va, vb));
    assert_eq!(picked[1], a[1]);
    assert_eq!(picked[0], b[0]);
    assert_eq!(picked[15], a[15]);
}

#[test]
fn equality_compares_all_lanes() {
    let a = Vec16c::set_values(sample_a());
    let mut b = a;
    assert!(a == b);
    b.insert(9, 0);
    assert!(a != b);
}

#[test]
fn register_bit_operations() {
    let mut x = [0u8; 16];
    let mut y = [0u8; 16];
    for i in 0..16 {
        x[i] = (i as u8).wrapping_mul(37);
        y[i] = 0xF0 ^ i as u8;
    }
    let mut a = Vec128b::new();
    let mut b = Vec128b::default();
    a.load(&x);
    b.load_aligned(&y);
    let mut out = [0u8; 18];
    andnot(a, b).store(&mut out);
    for i in 0..16 {
        assert_eq!(out[i], x[i] & !y[i]);
    }
    (a & b).store_aligned(&mut out);
    assert_eq!(out[5], x[5] & y[5]);
    (a | b).store(&mut out);
    assert_eq!(out[6], x[6] | y[6]);
    (!a).store(&mut out);
    assert_eq!(out[7], !x[7]);
    assert_eq!(&out[16..], &[0u8, 0]);

    let ones = !Vec128b::new();
    assert!(horizontal_and(ones));
    assert!(horizontal_or(ones));
    let mut almost = [0xFFu8; 16];
    almost[12] = 0xFE;
    let mut c = Vec128b::new();
    c.load(&almost);
    assert!(!horizontal_and(c));
    let mut d = Vec128b::new();
    d |= c;
    d &= ones;
    assert!(horizontal_or(d));
}
