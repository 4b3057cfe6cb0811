use opsearch::{node_to_string, Operation};

#[test]
fn operation_labels() {
    assert_eq!(node_to_string(&Operation::Add(5)), "Add(5)");
    assert_eq!(node_to_string(&Operation::Mul(-3)), "Multiply(-3)");
    assert_eq!(node_to_string(&Operation::Div(20)), "Divide(20)");
    assert_eq!(node_to_string(&Operation::Insert(7)), "Insert(7)");
    assert_eq!(node_to_string(&Operation::Rem), "Remove");
}

#[test]
fn extreme_labels() {
    assert_eq!(node_to_string(&Operation::Add(i64::MIN)), "Add(-9223372036854775808)");
    assert_eq!(node_to_string(&Operation::Mul(0)), "Multiply(0)");
    assert_eq!(node_to_string(&Operation::Insert(u64::MAX)), "Insert(18446744073709551615)");
}
