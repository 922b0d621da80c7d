use bitsliced::u8x512;

fn bytes_of(v: &u8x512) -> [u8; 512] {
    let cols: Box<[u8; 512]> = v.into();
    *cols
}

fn ramp(step: usize, offset: usize) -> [u8; 512] {
    let mut x = [0u8; 512];
    for i in 0..512 {
        x[i] = ((i * step + offset) % 256) as u8;
    }
    x
}

#[test]
fn wraps_around_at_256() {
    let a = u8x512::from(&[0xFFu8; 512]);
    let b = u8x512::from(&[0x01u8; 512]);
    assert_eq!(bytes_of(&(a + b)), [0x00u8; 512]);
}

#[test]
fn zero_is_neutral() {
    let x = ramp(7, 3);
    let a = u8x512::from(&x);
    let zero = u8x512::from(&[0u8; 512]);
    assert_eq!(bytes_of(&(a + zero)), x);
    assert_eq!(bytes_of(&(zero + a)), x);
}

#[test]
fn mixed_overflow_and_plain_sums() {
    let mut x = [0u8; 512];
    x[0] = 250;
    x[1] = 10;
    let mut y = [0u8; 512];
    y[0] = 10;
    y[1] = 250;
    y[2] = 1;
    let sum = bytes_of(&(u8x512::from(&x) + u8x512::from(&y)));
    let mut expected = [0u8; 512];
    expected[0] = 4;
    expected[1] = 4;
    expected[2] = 1;
    assert_eq!(sum, expected);
}

#[test]
fn sums_match_wrapping_add_for_every_pair_of_bytes() {
    for a in 0..=255u8 {
        let x = [a; 512];
        let y = ramp(1, 0);
        let sum = bytes_of(&(u8x512::from(&x) + u8x512::from(&y)));
        for i in 0..512 {
            assert_eq!(sum[i], a.wrapping_add(y[i]));
        }
    }
}

#[test]
fn carry_runs_through_all_eight_planes() {
    let sum = bytes_of(&(u8x512::from(&[0x7Fu8; 512]) + u8x512::from(&[0x01u8; 512])));
    assert_eq!(sum, [0x80u8; 512]);
    let sum = bytes_of(&(u8x512::from(&[0xFFu8; 512]) + u8x512::from(&[0xFFu8; 512])));
    assert_eq!(sum, [0xFEu8; 512]);
    let sum = bytes_of(&(u8x512::from(&[0x80u8; 512]) + u8x512::from(&[0x80u8; 512])));
    assert_eq!(sum, [0x00u8; 512]);
}

#[test]
fn addition_commutes() {
    let a = u8x512::from(&ramp(13, 5));
    let b = u8x512::from(&ramp(31, 200));
    assert_eq!(bytes_of(&(a + b)), bytes_of(&(b + a)));
}

#[test]
fn in_place_sum_equals_the_returned_sum() {
    let a = u8x512::from(&ramp(3, 250));
    let b = u8x512::from(&ramp(5, 17));
    let returned = a + b;
    let mut in_place = a;
    in_place += b;
    assert_eq!(bytes_of(&in_place), bytes_of(&returned));
}

#[test]
fn by_reference_forms_agree_with_by_value_forms() {
    let x = ramp(9, 1);
    let y = ramp(11, 99);
    let a = u8x512::from(&x);
    let b = u8x512::from(&y);
    let by_ref = &a + &b;
    let by_value = a + b;
    assert_eq!(bytes_of(&by_ref), bytes_of(&by_value));
    let mut c = a;
    c += &b;
    assert_eq!(bytes_of(&c), bytes_of(&by_value));
    assert_eq!(bytes_of(&a), x);
    assert_eq!(bytes_of(&b), y);
}

#[test]
fn sums_can_be_added_again() {
    let one = u8x512::from(&[1u8; 512]);
    let mut total = u8x512::from(&[0u8; 512]);
    for _ in 0..300 {
        total += one;
    }
    assert_eq!(bytes_of(&total), [44u8; 512]);
    let x = ramp(1, 0);
    let a = u8x512::from(&x);
    let twice = a + a;
    let four_times = twice + twice;
    let out = bytes_of(&four_times);
    for i in 0..512 {
        assert_eq!(out[i], x[i].wrapping_mul(4));
    }
}

#[test]
fn elements_do_not_leak_into_their_neighbours() {
    for &i in &[0usize, 63, 64, 255, 256, 511] {
        let mut x = [0u8; 512];
        x[i] = 0xFF;
        let mut y = [0u8; 512];
        y[i] = 0xFF;
        let out = bytes_of(&(u8x512::from(&x) + u8x512::from(&y)));
        for k in 0..512 {
            assert_eq!(out[k], if k == i { 0xFE } else { 0 });
        }
    }
}
