use opsearch::{calculate, calculate_recursive, digits_of, transform, Operation};

fn apply_all(ops: &[Operation], start: i64) -> i64 {
    let mut n = start;
    for op in ops {
        n = transform(op, n);
    }
    n
}

#[test]
fn add_one_three_times() {
    let r = calculate(&[Operation::Add(1)], 0, 3, 5);
    assert_eq!(r, Some(vec![Operation::Add(1), Operation::Add(1), Operation::Add(1)]));
}

#[test]
fn add_one_ceiling_too_low() {
    assert_eq!(calculate(&[Operation::Add(1)], 0, 3, 2), None);
}

#[test]
fn ceiling_equal_to_path_length_finds_nothing() {
    assert_eq!(calculate(&[Operation::Add(1)], 0, 3, 3), None);
    assert_eq!(calculate(&[Operation::Add(1)], 0, 3, 4).map(|v| v.len()), Some(3));
}

#[test]
fn insert_appends_digit() {
    assert_eq!(calculate(&[Operation::Insert(7)], 3, 37, 3), Some(vec![Operation::Insert(7)]));
}

#[test]
fn remove_twice() {
    assert_eq!(
        calculate(&[Operation::Rem], 123, 1, 5),
        Some(vec![Operation::Rem, Operation::Rem])
    );
}

#[test]
fn equal_ends_need_no_steps() {
    let ops = [Operation::Add(2), Operation::Mul(3)];
    assert_eq!(calculate(&ops, 1, 1, 0), Some(vec![]));
    assert_eq!(calculate(&ops, 1, 1, 7), Some(vec![]));
    assert_eq!(calculate(&[], -5, -5, 0), Some(vec![]));
}

#[test]
fn empty_palette_finds_nothing() {
    assert_eq!(calculate(&[], 1, 2, 10), None);
}

#[test]
fn unreachable_target() {
    // Multiplying by two from 1 never reaches an odd number above 1.
    assert_eq!(calculate(&[Operation::Mul(2)], 1, 7, 12), None);
}

#[test]
fn solution_reaches_end_within_ceiling() {
    let ops = [Operation::Add(3), Operation::Mul(2), Operation::Rem];
    let r = calculate(&ops, 5, 26, 8).unwrap();
    assert!(r.len() <= 8);
    assert_eq!(apply_all(&r, 5), 26);
    assert!(r.iter().all(|o| ops.contains(o)));
}

#[test]
fn shortest_beats_first_found() {
    // Depth-first, adding one seven times is met first; three steps suffice.
    let ops = [Operation::Add(1), Operation::Mul(2)];
    let r = calculate(&ops, 1, 8, 10);
    assert_eq!(r, Some(vec![Operation::Add(1), Operation::Mul(2), Operation::Mul(2)]));
}

#[test]
fn ties_go_to_palette_order() {
    let ops = [Operation::Mul(2), Operation::Add(2)];
    // Both 2*2 and 2+2 give 4; the first operation of the palette wins.
    assert_eq!(calculate(&ops, 2, 4, 5), Some(vec![Operation::Mul(2)]));
    let swapped = [Operation::Add(2), Operation::Mul(2)];
    assert_eq!(calculate(&swapped, 2, 4, 5), Some(vec![Operation::Add(2)]));
}

#[test]
fn raising_the_ceiling_keeps_the_answer() {
    let ops = [Operation::Add(1), Operation::Mul(2)];
    assert_eq!(calculate(&ops, 1, 8, 3), None);
    let first = calculate(&ops, 1, 8, 4);
    assert_eq!(first.as_ref().map(|v| v.len()), Some(3));
    for m in 5..12 {
        assert_eq!(calculate(&ops, 1, 8, m), first);
    }
}

#[test]
fn repeated_runs_agree() {
    let ops = [Operation::Add(3), Operation::Mul(2), Operation::Rem, Operation::Insert(1)];
    let a = calculate(&ops, 4, 91, 6);
    let b = calculate(&ops, 4, 91, 6);
    assert!(a.is_some());
    assert_eq!(a, b);
}

#[test]
fn duplicates_in_palette() {
    let ops = [Operation::Add(1), Operation::Add(1)];
    assert_eq!(calculate(&ops, 0, 2, 5), Some(vec![Operation::Add(1), Operation::Add(1)]));
}

#[test]
fn recursive_search_leaves_path_unchanged() {
    let ops = [Operation::Add(1)];
    let mut used = vec![Operation::Mul(5)];
    let r = calculate_recursive(&ops, &mut used, 0, 2, 4);
    assert_eq!(used, vec![Operation::Mul(5)]);
    assert_eq!(r, vec![Operation::Mul(5), Operation::Add(1), Operation::Add(1)]);
    let none = calculate_recursive(&ops, &mut used, 0, 2, 3);
    assert!(none.is_empty());
}

#[test]
fn transform_each_variant() {
    assert_eq!(transform(&Operation::Add(5), -2), 3);
    assert_eq!(transform(&Operation::Mul(-3), 7), -21);
    assert_eq!(transform(&Operation::Div(2), -7), -3);
    assert_eq!(transform(&Operation::Div(-2), 7), -3);
    assert_eq!(transform(&Operation::Div(-2), -7), 3);
    assert_eq!(transform(&Operation::Insert(7), 3), 37);
    assert_eq!(transform(&Operation::Insert(0), 5), 50);
    assert_eq!(transform(&Operation::Insert(123), -4), -3877);
    assert_eq!(transform(&Operation::Rem, 123), 12);
    assert_eq!(transform(&Operation::Rem, -123), -12);
    assert_eq!(transform(&Operation::Rem, 7), 0);
}

#[test]
fn transform_wraps_on_overflow() {
    assert_eq!(transform(&Operation::Add(1), i64::MAX), i64::MIN);
    assert_eq!(transform(&Operation::Add(-1), i64::MIN), i64::MAX);
    assert_eq!(transform(&Operation::Mul(2), i64::MAX), -2);
    assert_eq!(transform(&Operation::Div(-1), i64::MIN), i64::MIN);
    assert_eq!(transform(&Operation::Insert(u64::MAX), 0), -1);
    assert_eq!(transform(&Operation::Insert(1), i64::MAX), i64::MAX.wrapping_mul(10).wrapping_add(1));
    assert_eq!(
        transform(&Operation::Insert(1234567890123456789), 3),
        3i64.wrapping_mul(10i64.pow(18)).wrapping_mul(10).wrapping_add(1234567890123456789)
    );
}

#[test]
fn digit_counts() {
    assert_eq!(digits_of(0), 1);
    assert_eq!(digits_of(9), 1);
    assert_eq!(digits_of(10), 2);
    assert_eq!(digits_of(999), 3);
    assert_eq!(digits_of(u64::MAX), 20);
}
