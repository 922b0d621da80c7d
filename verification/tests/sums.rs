use bitsliced::u8x512;

/// The seed that the pseudo-random test arrays start from.
const SEED: u32 = 123;

fn xorshift32(state: &mut u32) -> u32 {
    let mut x = *state;
    x ^= x.wrapping_shl(13);
    x ^= x.wrapping_shr(17);
    x ^= x.wrapping_shl(5);
    *state = x;
    x
}

/// Fills an array of 512 bytes with pseudo-random values (xorshift32).
fn init_array(state: &mut u32) -> [u8; 512] {
    let mut res = [0; 512];

    for i in 0..512 {
        res[i] = (xorshift32(state) & 0xFF) as u8;
    }

    res
}

#[test]
fn add() {
    let mut state = SEED;
    let a1 = init_array(&mut state);
    let a2 = init_array(&mut state);

    let a1_ssimd = u8x512::from(&a1);
    let a2_ssimd = u8x512::from(&a2);

    let res_ssimd = a1_ssimd + a2_ssimd;
    let res: Box<[u8; 512]> = (&res_ssimd).into();

    for i in 0..512 {
        assert_eq!(res[i], a1[i].wrapping_add(a2[i]));
    }
}

#[test]
fn add_assign() {
    let mut state = SEED;
    let a1 = init_array(&mut state);
    let a2 = init_array(&mut state);

    let mut a1_ssimd = u8x512::from(&a1);
    let a2_ssimd = u8x512::from(&a2);

    a1_ssimd += a2_ssimd;

    let res: Box<[u8; 512]> = (&a1_ssimd).into();

    for i in 0..512 {
        assert_eq!(res[i], a1[i].wrapping_add(a2[i]));
    }
}
