use sir::h3::{
    args_for_row, compare_int, compare_vals, elem_type, int_of_ty, parse_rows, CmpOperator, ElemType, Inputs, Row,
    Value,
};

fn int_value(bits: u128, signed: bool, width: u32) -> Value {
    Value::Int { bits, signed, width }
}

fn row(kind: &str, elem: &str, scalar: &str, consumer: &str, deviation: &str) -> Row {
    Row {
        id: "r1".to_string(),
        class: "c".to_string(),
        kind: kind.to_string(),
        elem: elem.to_string(),
        op: "eq".to_string(),
        scalar: scalar.to_string(),
        extent: 4,
        acc_slot: 0,
        identity: 0,
        consumer: consumer.to_string(),
        deviation: deviation.to_string(),
    }
}

#[test]
fn unsigned_comparison_at_the_left_width() {
    assert!(compare_int(&int_value(3, false, 8), &int_value(5, false, 8), CmpOperator::Lt));
    // The right operand is truncated to the left width: 0x105 reads as 5.
    assert!(compare_int(&int_value(5, false, 8), &int_value(0x105, false, 8), CmpOperator::Eq));
    assert!(compare_int(&int_value(200, false, 8), &int_value(100, false, 8), CmpOperator::Gt));
    assert!(!compare_int(&int_value(200, false, 8), &int_value(100, false, 8), CmpOperator::Le));
}

#[test]
fn signed_comparison_sign_extends() {
    // 0xff is -1 as an 8-bit signed value, below 1.
    assert!(compare_int(&int_value(0xff, true, 8), &int_value(1, true, 8), CmpOperator::Lt));
    assert!(compare_int(&int_value(0x80, true, 8), &int_value(0x7f, true, 8), CmpOperator::Lt));
    assert!(compare_int(&int_value(0x7f, true, 8), &int_value(0x80, true, 8), CmpOperator::Ge));
    assert!(compare_int(&int_value(u128::MAX, true, 128), &int_value(0, true, 128), CmpOperator::Lt));
    assert!(compare_int(&int_value(1u128 << 127, true, 128), &int_value(u128::MAX, true, 128), CmpOperator::Lt));
    assert!(compare_int(&int_value(0x1ff, true, 8), &int_value(0xff, true, 8), CmpOperator::Eq));
    assert!(compare_int(&int_value(2, true, 8), &int_value(3, true, 8), CmpOperator::Ne));
}

#[test]
fn comparing_booleans_and_bit_vectors() {
    assert!(compare_vals(Value::Bool(true), Value::Bool(true), CmpOperator::Eq));
    assert!(compare_vals(Value::Bool(true), Value::Bool(false), CmpOperator::Ne));
    assert!(compare_vals(Value::Bits(vec![5]), Value::Bits(vec![5, 0]), CmpOperator::Eq));
    assert!(compare_vals(Value::Bits(vec![5]), Value::Bits(vec![5, 1]), CmpOperator::Ne));
    assert!(compare_vals(Value::Bits(vec![7]), int_value(7, false, 8), CmpOperator::Eq));
    assert!(compare_vals(int_value(7, false, 8), int_value(9, false, 8), CmpOperator::Lt));
}

#[test]
fn element_types_by_name() {
    assert_eq!(elem_type("bool"), Some(ElemType::Bool));
    assert_eq!(elem_type("u16"), Some(ElemType::Integer { bits: 16, signed: false }));
    assert_eq!(elem_type("i64"), Some(ElemType::Integer { bits: 64, signed: true }));
    assert_eq!(elem_type("f32"), None);
    assert_eq!(int_of_ty(0x1234, ElemType::Integer { bits: 8, signed: true }), int_value(0x34, true, 8));
}

#[test]
fn arguments_of_a_predicate_row() {
    let r = row("pred", "i16", "param", "select", "-");
    let inp = Inputs { array: vec![1, 2, 3], scalar: Some(9), flag: None };
    let args = args_for_row(&r, &inp);
    assert_eq!(
        args,
        vec![Value::IntArray(vec![1, 2, 3]), int_value(9, true, 16), Value::Bool(false)]
    );
}

#[test]
fn arguments_of_a_boolean_row() {
    let r = row("bool", "bool", "param", "field", "-");
    let inp = Inputs { array: vec![1, 0, 1], scalar: None, flag: Some(true) };
    assert_eq!(args_for_row(&r, &inp), vec![Value::BoolArray(vec![true, false, true])]);
    let unstable = row("pred", "u8", "param", "field", "unstable_scalar");
    let inp2 = Inputs { array: vec![4], scalar: None, flag: None };
    assert_eq!(args_for_row(&unstable, &inp2), vec![Value::IntArray(vec![4])]);
}

#[test]
fn parsing_the_corpus_table() {
    let text = "# tier A\nid\tclass\tkind\telem\top\tscalar\textent\tacc\tidentity\tconsumer\tdeviation\n\
                \n  a1\tany\tbool\tbool\tor\t-\t64\t0\t0\tfield\t-\r\n\
                b2\tcnt\tpred\tu8\teq\tconst:7\t+32\t1\t1\tselect\tnone\textra\n";
    let rows = parse_rows(text).unwrap();
    assert_eq!(rows.len(), 2);
    assert_eq!(rows[0].id, "a1");
    assert_eq!(rows[0].kind, "bool");
    assert_eq!(rows[0].extent, 64);
    assert_eq!(rows[0].deviation, "-");
    assert_eq!(rows[1].scalar, "const:7");
    assert_eq!(rows[1].extent, 32);
    assert_eq!(rows[1].acc_slot, 1);
    assert_eq!(rows[1].identity, 1);
    assert_eq!(rows[1].consumer, "select");
}

#[test]
fn malformed_rows_are_refused() {
    assert!(parse_rows("a\tb\tc\n").is_none());
    assert!(parse_rows("a1\tany\tbool\tbool\tor\t-\tx\t0\t0\tfield\t-\n").is_none());
    assert!(parse_rows("a1\tany\tbool\tbool\tor\t-\t1\t0\t256\tfield\t-\n").is_none());
    assert_eq!(parse_rows("").unwrap().len(), 0);
}
