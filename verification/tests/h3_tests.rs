use sir::h3::{
    as_bits, as_bool, bits_from_bools, bool_inputs, int_arg_width, int_patterns, wrap, xorshift64,
    Row, Value,
};

fn row(elem: &str, scalar: &str, extent: usize) -> Row {
    Row {
        id: "r".to_string(),
        class: "c".to_string(),
        kind: "pred".to_string(),
        elem: elem.to_string(),
        op: "eq".to_string(),
        scalar: scalar.to_string(),
        extent,
        acc_slot: 0,
        identity: 0,
        consumer: "field".to_string(),
        deviation: "-".to_string(),
    }
}

#[test]
fn wrap_truncates_to_width() {
    assert_eq!(wrap(0x1ff, 8), 0xff);
    assert_eq!(wrap(0x1_0000_0001, 32), 1);
    assert_eq!(wrap(u128::MAX, 128), u128::MAX);
    assert_eq!(wrap(5, 0), 0);
}

#[test]
fn value_views() {
    assert!(as_bool(Value::Bool(true)));
    assert_eq!(as_bits(Value::Int { bits: (7u128 << 64) | 3, signed: false, width: 128 }), vec![3, 7]);
    assert_eq!(as_bits(Value::Int { bits: 9, signed: true, width: 0 }), vec![9]);
    assert_eq!(as_bits(Value::Bits(vec![1, 2, 3])), vec![1, 2, 3]);
    assert_eq!(bits_from_bools(&[true, false, true]), Value::Bits(vec![5]));
}

#[test]
fn widths_of_element_names() {
    assert_eq!(int_arg_width("u8"), 8);
    assert_eq!(int_arg_width("i16"), 16);
    assert_eq!(int_arg_width("u32"), 32);
    assert_eq!(int_arg_width("usize"), 64);
}

#[test]
fn bool_inputs_small_extent_is_exhaustive() {
    let cases = bool_inputs(3);
    assert_eq!(cases.len(), 8);
    assert_eq!(cases[5], vec![true, false, true]);
    let big = bool_inputs(20);
    assert_eq!(big.len(), 14);
    assert!(big[0].iter().all(|b| !b));
    assert!(big[1].iter().all(|b| *b));
}

#[test]
fn int_patterns_unsigned_default_scalars() {
    let cases = int_patterns(&row("u8", "-", 3));
    assert_eq!(cases.len(), 24);
    let scalars: Vec<u128> = cases.iter().map(|c| c.scalar.unwrap()).collect();
    assert_eq!(&scalars[0..6], &[0; 6]);
    assert_eq!(&scalars[6..12], &[1; 6]);
    assert_eq!(&scalars[12..18], &[127; 6]);
    assert_eq!(&scalars[18..24], &[255; 6]);
    assert_eq!(cases[0].array, vec![0, 0, 0]);
    assert_eq!(cases[1].array, vec![255, 255, 255]);
    assert_eq!(cases[2].array, vec![255, 0, 0]);
    assert_eq!(cases[3].array, vec![0, 0, 255]);
    assert_eq!(cases[4].array, vec![255, 0, 255]);
    assert!(cases.iter().all(|c| c.flag.is_none()));
    // The pseudo-random array of the scalar 1.
    let mut seed = 0xABAD1DEAu64 ^ 1 ^ 8;
    let expected: Vec<u128> = (0..3).map(|_| (xorshift64(&mut seed) as u128) & 255).collect();
    assert_eq!(cases[11].array, expected);
}

#[test]
fn int_patterns_signed_repeats_minus_one() {
    let cases = int_patterns(&row("i16", "param", 2));
    assert_eq!(cases.len(), 30);
    assert_eq!(cases[24].scalar, Some(65535));
    assert_eq!(cases[18].scalar, Some(65535));
    assert_eq!(cases[25].array, vec![65535, 65535]);
}

#[test]
fn int_patterns_constant_scalar() {
    let neg = int_patterns(&row("i8", "const:-1", 1));
    assert_eq!(neg.len(), 6);
    assert!(neg.iter().all(|c| c.scalar == Some(255)));
    let big = int_patterns(&row("u8", "const:300", 0));
    assert!(big.iter().all(|c| c.scalar == Some(300) && c.array.is_empty()));
    let wrapped = int_patterns(&row("u8", "const:-256", 1));
    assert_eq!(wrapped[0].scalar, Some(0));
    let wide = int_patterns(&row("u64", "const:-2", 1));
    assert_eq!(wide[0].scalar, Some(u64::MAX as u128 - 1));
    assert_eq!(wide[1].array, vec![u64::MAX as u128]);
}
