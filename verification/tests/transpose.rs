use bitsliced::u8x512;

fn decode(v: &u8x512) -> [u8; 512] {
    let cols: Box<[u8; 512]> = v.into();
    *cols
}

fn counting_bytes() -> [u8; 512] {
    let mut x = [0u8; 512];
    for i in 0..512 {
        x[i] = (i % 256) as u8;
    }
    x
}

#[test]
fn round_trip_of_zeros() {
    let x = [0u8; 512];
    assert_eq!(decode(&u8x512::from(&x)), x);
}

#[test]
fn round_trip_of_all_ones() {
    let x = [0xFFu8; 512];
    assert_eq!(decode(&u8x512::from(&x)), x);
}

#[test]
fn round_trip_of_every_byte_value() {
    let x = counting_bytes();
    assert_eq!(decode(&u8x512::from(&x)), x);
}

#[test]
fn round_trip_of_each_single_bit() {
    for b in 0..8 {
        let mut x = [0u8; 512];
        for i in 0..512 {
            if i % 8 == b {
                x[i] = 1u8 << b;
            }
        }
        assert_eq!(decode(&u8x512::from(&x)), x);
    }
}

#[test]
fn round_trip_at_word_boundaries() {
    for &i in &[0usize, 1, 62, 63, 64, 65, 127, 128, 255, 256, 447, 448, 510, 511] {
        let mut x = [0u8; 512];
        x[i] = 0xA5;
        let back = decode(&u8x512::from(&x));
        for k in 0..512 {
            assert_eq!(back[k], if k == i { 0xA5 } else { 0 });
        }
    }
}

#[test]
fn encoding_leaves_its_input_alone() {
    let x = counting_bytes();
    let copy = x;
    let _ = u8x512::from(&x);
    assert_eq!(x, copy);
}

#[test]
fn decoding_leaves_the_vector_alone() {
    let x = counting_bytes();
    let v = u8x512::from(&x);
    let first = decode(&v);
    let second = decode(&v);
    assert_eq!(first, second);
    assert_eq!(second, x);
}

#[test]
fn copies_are_independent() {
    let x = counting_bytes();
    let v = u8x512::from(&x);
    let mut w = v;
    w += u8x512::from(&[1u8; 512]);
    assert_eq!(decode(&v), x);
    assert_ne!(decode(&w), x);
}
