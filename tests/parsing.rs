use opsearch::{
    char_to_operation, chars_of, parse_arguments, parse_classified, parse_i64, parse_operations,
    parse_usize, Operation,
};

fn cs(s: &str) -> Vec<char> {
    s.chars().collect()
}

#[test]
fn parses_palette() {
    assert_eq!(
        parse_operations("a5m2r"),
        Some(vec![Operation::Add(5), Operation::Mul(2), Operation::Rem])
    );
    assert_eq!(
        parse_operations("d-3i42a+1"),
        Some(vec![Operation::Div(-3), Operation::Insert(42), Operation::Add(1)])
    );
    assert_eq!(parse_operations(""), Some(vec![]));
}

#[test]
fn rejects_bad_palettes() {
    assert_eq!(parse_operations("d0"), None);
    assert_eq!(parse_operations("i-3"), None);
    assert_eq!(parse_operations("x5"), None);
    assert_eq!(parse_operations("a"), None);
    assert_eq!(parse_operations("a5m"), None);
    assert_eq!(parse_operations("a1.5"), None);
    assert_eq!(parse_operations("a99999999999999999999"), None);
}

#[test]
fn remove_ignores_its_text() {
    assert_eq!(parse_operations("r12a1"), Some(vec![Operation::Rem, Operation::Add(1)]));
}

#[test]
fn leading_text_joins_first_tag() {
    assert_eq!(parse_operations("5a3"), Some(vec![Operation::Add(53)]));
}

#[test]
fn classified_input() {
    let chars = cs("a5q7");
    // 'q' marked as no letter: its text joins the first tag.
    assert_eq!(
        parse_classified(&chars, &vec![true, false, false, false]),
        None
    );
    assert_eq!(
        parse_classified(&cs("a57"), &vec![true, false, false]),
        Some(vec![Operation::Add(57)])
    );
    assert_eq!(
        parse_classified(&cs("a5m7"), &vec![true, false, true, false]),
        Some(vec![Operation::Add(5), Operation::Mul(7)])
    );
    assert_eq!(parse_classified(&cs("12"), &vec![false, false]), Some(vec![]));
}

#[test]
fn non_ascii_letters_are_tags() {
    assert_eq!(parse_operations("a1é2"), None);
}

#[test]
fn tag_to_operation() {
    assert_eq!(char_to_operation('a', &cs("-4")), Some(Operation::Add(-4)));
    assert_eq!(char_to_operation('m', &cs("3")), Some(Operation::Mul(3)));
    assert_eq!(char_to_operation('d', &cs("0")), None);
    assert_eq!(char_to_operation('i', &cs("0")), Some(Operation::Insert(0)));
    assert_eq!(char_to_operation('r', &cs("junk")), Some(Operation::Rem));
    assert_eq!(char_to_operation('z', &cs("1")), None);
}

#[test]
fn signed_integers() {
    assert_eq!(parse_i64(&cs("9223372036854775807")), Some(i64::MAX));
    assert_eq!(parse_i64(&cs("-9223372036854775808")), Some(i64::MIN));
    assert_eq!(parse_i64(&cs("9223372036854775808")), None);
    assert_eq!(parse_i64(&cs("+12")), Some(12));
    assert_eq!(parse_i64(&cs("-0")), Some(0));
    assert_eq!(parse_i64(&cs("+")), None);
    assert_eq!(parse_i64(&cs("-")), None);
    assert_eq!(parse_i64(&cs("")), None);
    assert_eq!(parse_i64(&cs("1 2")), None);
    assert_eq!(parse_i64(&cs("+-1")), None);
}

#[test]
fn unsigned_integers() {
    assert_eq!(parse_usize(&cs("+7")), Some(7));
    assert_eq!(parse_usize(&cs("0")), Some(0));
    assert_eq!(parse_usize(&cs("-0")), None);
    assert_eq!(parse_usize(&cs("18446744073709551616")), None);
}

#[test]
fn argument_list() {
    let args: Vec<String> = vec!["prog", "a1", "0", "3", "5"].into_iter().map(String::from).collect();
    assert_eq!(parse_arguments(args), Some((vec![Operation::Add(1)], 0, 3, 5)));
    let bad: Vec<String> = vec!["prog", "a1", "0", "x", "5"].into_iter().map(String::from).collect();
    assert_eq!(parse_arguments(bad), None);
    let neg: Vec<String> = vec!["prog", "a1", "0", "3", "-5"].into_iter().map(String::from).collect();
    assert_eq!(parse_arguments(neg), None);
}

#[test]
fn characters_of_text() {
    assert_eq!(chars_of("héllo"), vec!['h', 'é', 'l', 'l', 'o']);
    assert_eq!(chars_of(""), Vec::<char>::new());
}
