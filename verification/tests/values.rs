use rlox::chunk::{Chunk, OpCode};
use rlox::object::Object;
use rlox::table::Table;
use rlox::value::{Value, ValueArray};
use rlox::vm::{is_falsey, values_equal};

#[test]
fn object_values_equal_compares_text() {
    let a = Object::String("abc".to_string());
    let b = Object::String("abc".to_string());
    let c = Object::String("abd".to_string());
    assert!(Object::values_equal(&a, &b));
    assert!(!Object::values_equal(&a, &c));
    assert!(a.is_string());
}

#[test]
fn falsiness() {
    assert!(is_falsey(Value::Nil));
    assert!(is_falsey(Value::Boolean(false)));
    assert!(!is_falsey(Value::Boolean(true)));
    assert!(!is_falsey(Value::Number(0)));
    assert!(!is_falsey(Value::Str(0)));
}

#[test]
fn values_equal_by_tag_and_payload() {
    assert!(values_equal(Value::Nil, Value::Nil));
    assert!(values_equal(Value::Boolean(true), Value::Boolean(true)));
    assert!(!values_equal(Value::Boolean(true), Value::Boolean(false)));
    assert!(!values_equal(Value::Nil, Value::Boolean(false)));
    assert!(values_equal(Value::Str(3), Value::Str(3)));
    assert!(!values_equal(Value::Str(3), Value::Str(4)));
    let one = 1.0f64.to_bits();
    let two = 2.0f64.to_bits();
    assert!(values_equal(Value::Number(one), Value::Number(one)));
    assert!(!values_equal(Value::Number(one), Value::Number(two)));
    let nan = f64::NAN.to_bits();
    assert!(!values_equal(Value::Number(nan), Value::Number(nan)));
    let neg_zero = (-0.0f64).to_bits();
    let zero = 0.0f64.to_bits();
    assert!(values_equal(Value::Number(neg_zero), Value::Number(zero)));
}

#[test]
fn chunk_records_code_lines_and_constants() {
    let mut c = Chunk::new();
    assert_eq!(c.code.len(), 0);
    let idx = c.add_constant(Value::Number(7));
    assert_eq!(idx, 0);
    c.write_chunk(OpCode::Constant(0), 1);
    c.write_chunk(OpCode::Return, 2);
    assert_eq!(c.code.len(), 2);
    assert_eq!(c.lines, vec![1, 2]);
    assert_eq!(c.code[1], OpCode::Return);
    assert_eq!(c.constants.len(), 1);
}

#[test]
fn value_array_appends() {
    let mut a = ValueArray::new();
    assert_eq!(a.len(), 0);
    a.write_value_array(Value::Nil);
    a.write_value_array(Value::Boolean(true));
    assert_eq!(a.len(), 2);
    assert_eq!(a.values[1], Value::Boolean(true));
}

#[test]
fn table_interns_each_text_once() {
    let mut t = Table::new();
    assert_eq!(t.len(), 0);
    let i = t.intern("abc".to_string());
    let j = t.intern("xyz".to_string());
    let k = t.intern("abc".to_string());
    assert_eq!(i, k);
    assert_ne!(i, j);
    assert_eq!(t.len(), 2);
    assert!(Object::values_equal(t.get(i), &Object::String("abc".to_string())));
}
