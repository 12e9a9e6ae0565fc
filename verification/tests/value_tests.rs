use castagne_rs::parser::{CastagneParser, ParsedVariable, VariableMutability, VariableType};
use castagne_rs::values::ParsedValue;

fn value(s: &str, t: VariableType, float_ok: bool) -> ParsedValue {
    CastagneParser::parse_value_to_variant(s, &t, float_ok)
}

#[test]
fn value_ints() {
    assert_eq!(value(" 42 ", VariableType::Int, false), ParsedValue::Int(42));
    assert_eq!(value("-7", VariableType::Int, false), ParsedValue::Int(-7));
    assert_eq!(value("+7", VariableType::Int, false), ParsedValue::Int(7));
    assert_eq!(value("4.5", VariableType::Int, true), ParsedValue::Nil);
    assert_eq!(value("2147483648", VariableType::Int, true), ParsedValue::Nil);
}

#[test]
fn value_bools() {
    assert_eq!(value("TRUE", VariableType::Bool, false), ParsedValue::Bool(true));
    assert_eq!(value("1", VariableType::Bool, true), ParsedValue::Bool(true));
    assert_eq!(value("False", VariableType::Bool, false), ParsedValue::Bool(false));
    assert_eq!(value("yes", VariableType::Bool, false), ParsedValue::Bool(false));
}

#[test]
fn value_strings_lose_their_quotes() {
    assert_eq!(value(" \"Hello\" ", VariableType::Str, false), ParsedValue::Str("Hello".to_string()));
    assert_eq!(value("'x'", VariableType::Str, false), ParsedValue::Str("x".to_string()));
    assert_eq!(value("\"mixed'", VariableType::Str, false), ParsedValue::Str("\"mixed'".to_string()));
    assert_eq!(value("\"\"", VariableType::Str, false), ParsedValue::Str(String::new()));
}

#[test]
fn value_vectors_as_components() {
    assert_eq!(
        value("(10, 20)", VariableType::Vec2, false),
        ParsedValue::Vec2("10".to_string(), "20".to_string())
    );
    assert_eq!(
        value("5.5, 7.5, 9.5", VariableType::Vec3, false),
        ParsedValue::Vec3("5.5".to_string(), "7.5".to_string(), "9.5".to_string())
    );
    assert_eq!(value("10, 20", VariableType::Vec3, false), ParsedValue::Nil);
    assert_eq!(value("invalid", VariableType::Vec2, false), ParsedValue::Nil);
    assert_eq!(
        value("((1,2))", VariableType::Vec2, false),
        ParsedValue::Vec2("1".to_string(), "2".to_string())
    );
}

#[test]
fn value_inferred_for_var() {
    assert_eq!(value("100", VariableType::Var, true), ParsedValue::Int(100));
    assert_eq!(value("2.5", VariableType::Var, true), ParsedValue::Float("2.5".to_string()));
    assert_eq!(value("True", VariableType::Box, false), ParsedValue::Bool(true));
    assert_eq!(value("false", VariableType::Var, false), ParsedValue::Bool(false));
    assert_eq!(value(" name ", VariableType::Var, false), ParsedValue::Str("name".to_string()));
}

#[test]
fn value_of_a_variable() {
    let v = ParsedVariable {
        name: "Pos".to_string(),
        mutability: VariableMutability::Variable,
        var_type: VariableType::Vec2,
        subtype: String::new(),
        value: "0, 0".to_string(),
    };
    assert_eq!(v.to_variant(false), ParsedValue::Vec2("0".to_string(), "0".to_string()));
    let n = ParsedVariable { var_type: VariableType::Int, value: " 12".to_string(), ..v.clone() };
    assert_eq!(n.as_int(), Some(12));
    assert_eq!(n.as_bool(), None);
    let b = ParsedVariable { value: "0".to_string(), ..v };
    assert_eq!(b.as_bool(), Some(false));
}
