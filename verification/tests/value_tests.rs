use knodiq_mixer::value::{Value, ValueTag};

#[test]
fn each_value_has_its_tag() {
    assert_eq!(Value::Float(0x3f80_0000).tag(), ValueTag::Float);
    assert_eq!(Value::Int(-3).tag(), ValueTag::Int);
    assert_eq!(Value::Bool(true).tag(), ValueTag::Bool);
    assert_eq!(Value::Text("x".to_string()).tag(), ValueTag::Text);
    assert_eq!(Value::Buffer(1).tag(), ValueTag::Buffer);
    assert_eq!(Value::Notes(1).tag(), ValueTag::Notes);
    assert_eq!(Value::Empty.tag(), ValueTag::Empty);
}

#[test]
fn each_tag_has_its_default() {
    assert!(matches!(Value::default_for(ValueTag::Float), Value::Float(0)));
    assert!(matches!(Value::default_for(ValueTag::Int), Value::Int(0)));
    assert!(matches!(Value::default_for(ValueTag::Bool), Value::Bool(false)));
    assert!(matches!(Value::default_for(ValueTag::Buffer), Value::Buffer(0)));
    assert!(matches!(Value::default_for(ValueTag::Notes), Value::Notes(0)));
    assert!(matches!(Value::default_for(ValueTag::Empty), Value::Empty));
    match Value::default_for(ValueTag::Text) {
        Value::Text(t) => assert_eq!(t, ""),
        _ => panic!("the default text is a text"),
    }
    assert_eq!(f32::from_bits(0), 0.0);
}

#[test]
fn coercion_keeps_a_value_of_the_tag_and_replaces_any_other() {
    assert!(matches!(Value::Int(7).coerced(ValueTag::Int), Value::Int(7)));
    assert!(matches!(Value::Int(7).coerced(ValueTag::Bool), Value::Bool(false)));
    assert!(matches!(Value::Bool(true).coerced(ValueTag::Int), Value::Int(0)));
    assert!(matches!(Value::Empty.coerced(ValueTag::Buffer), Value::Buffer(0)));
    match Value::Text("hi".to_string()).coerced(ValueTag::Text) {
        Value::Text(t) => assert_eq!(t, "hi"),
        _ => panic!("a text stays a text"),
    }
    let bits = 0.5f32.to_bits();
    match Value::Float(bits).coerced(ValueTag::Float) {
        Value::Float(b) => assert_eq!(f32::from_bits(b), 0.5),
        _ => panic!("a float stays a float"),
    }
}

#[test]
fn copies_of_values_are_equal_to_them() {
    match Value::Text("abc".to_string()).clone() {
        Value::Text(t) => assert_eq!(t, "abc"),
        _ => panic!("a copy has the tag of what it copies"),
    }
    assert!(matches!(Value::Notes(9).clone(), Value::Notes(9)));
    assert!(matches!(Value::Float(123).clone(), Value::Float(123)));
}
