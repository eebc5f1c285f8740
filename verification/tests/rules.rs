use libslide::evaluator_rules::variables::VariablePattern::{Any, Const, Empty, Variable};
use libslide::evaluator_rules::variables::{is_var_char, VariablePattern};

#[test]
fn from_name() {
    let cases = vec![
        ("$a", Variable),
        ("a", Variable),
        ("#a", Const),
        ("_a", Any),
    ];
    for (name, variant) in cases.into_iter() {
        assert_eq!(VariablePattern::from_name(&name.to_string()), variant);
    }
}

#[test]
fn bitxor() {
    let cases = vec![
        (Const, Const, Const),
        (Const, Variable, Empty),
        (Const, Any, Const),
        (Variable, Const, Empty),
        (Variable, Variable, Variable),
        (Variable, Any, Variable),
        (Any, Const, Const),
        (Any, Variable, Variable),
        (Any, Any, Any),
    ];
    for (l, r, res) in cases.into_iter() {
        assert!(l & r == res)
    }
}

#[test]
fn var_chars() {
    assert!(is_var_char('a'));
    assert!(is_var_char('Z'));
    assert!(is_var_char('é'));
    assert!(is_var_char('$'));
    assert!(is_var_char('#'));
    assert!(is_var_char('_'));
    assert!(!is_var_char('1'));
    assert!(!is_var_char('+'));
    assert!(!is_var_char(' '));
}

#[test]
fn pattern_bits_round_trip() {
    for n in 0u8..4 {
        assert_eq!(VariablePattern::from_bits(n).bits(), n);
    }
    assert_eq!(VariablePattern::Empty & VariablePattern::Any, VariablePattern::Empty);
}
