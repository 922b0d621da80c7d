use bitsliced::u8x512;

#[test]
fn renders_zeros_as_a_bracketed_list() {
    let text = u8x512::from(&[0u8; 512]).debug_render();
    let mut expected = String::from("[");
    for i in 0..512 {
        if i > 0 {
            expected.push_str(", ");
        }
        expected.push('0');
    }
    expected.push(']');
    assert_eq!(text, expected);
    assert_eq!(text.len(), 2 + 512 + 2 * 511);
}

#[test]
fn renders_one_two_and_three_digit_bytes() {
    let mut x = [0u8; 512];
    x[0] = 250;
    x[1] = 10;
    x[2] = 7;
    x[3] = 99;
    x[4] = 100;
    x[5] = 255;
    x[6] = 109;
    x[511] = 200;
    let text = u8x512::from(&x).debug_render();
    assert!(text.starts_with("[250, 10, 7, 99, 100, 255, 109, 0, 0, "));
    assert!(text.ends_with(", 0, 0, 200]"));
}

#[test]
fn renders_like_a_vector_of_the_decoded_bytes() {
    let mut x = [0u8; 512];
    for i in 0..512 {
        x[i] = ((i * 37 + 11) % 256) as u8;
    }
    let v = u8x512::from(&x);
    assert_eq!(v.debug_render(), format!("{:?}", x.to_vec()));
    let cols: Box<[u8; 512]> = (&v).into();
    assert_eq!(v.debug_render(), format!("{:?}", cols.to_vec()));
}

#[test]
fn renders_every_byte_value() {
    let mut x = [0u8; 512];
    for i in 0..512 {
        x[i] = (i % 256) as u8;
    }
    let text = u8x512::from(&x).debug_render();
    let items: Vec<&str> = text[1..text.len() - 1].split(", ").collect();
    assert_eq!(items.len(), 512);
    for i in 0..512 {
        assert_eq!(items[i], (i % 256).to_string());
    }
}

#[test]
fn renders_a_sum() {
    let a = u8x512::from(&[0xFFu8; 512]);
    let b = u8x512::from(&[0x02u8; 512]);
    let text = (a + b).debug_render();
    assert!(text.starts_with("[1, 1, 1, "));
    assert!(text.ends_with(", 1, 1]"));
}
