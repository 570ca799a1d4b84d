use se_lang::errors::RegistryError;
use se_lang::registry::{ExecutionContext, StateValue, Value};

#[test]
fn allocate_returns_successive_indices_and_free_shifts_down() {
    let mut context = ExecutionContext::new_empty();
    assert_eq!(context.memory_len(), 0);
    assert_eq!(context.malloc(Value::Uint8(10)), 0);
    assert_eq!(context.malloc(Value::Uint128(20)), 1);
    assert_eq!(context.malloc(Value::Bool(true)), 2);
    assert_eq!(context.delloc(0), Ok(()));
    assert_eq!(context.memory_len(), 2);
    assert_eq!(context.get_memory(0), Ok(&Value::Uint128(20)));
    assert_eq!(context.get_memory(1), Ok(&Value::Bool(true)));
    assert_eq!(context.get_memory(2), Err(RegistryError::OutOfBounds(2, 2)));
    assert_eq!(context.malloc(Value::String("s")), 2);
}

#[test]
fn free_out_of_bounds_changes_nothing() {
    let mut context = ExecutionContext::new_empty();
    assert_eq!(context.delloc(0), Err(RegistryError::OutOfBounds(0, 0)));
    context.malloc(Value::Uint8(1));
    assert_eq!(context.delloc(1), Err(RegistryError::OutOfBounds(1, 1)));
    assert_eq!(context.delloc(7), Err(RegistryError::OutOfBounds(7, 1)));
    assert_eq!(context.get_memory(0), Ok(&Value::Uint8(1)));
}

#[test]
fn free_in_the_middle_keeps_what_is_before() {
    let mut context = ExecutionContext::new_empty();
    for n in 0..5u8 {
        context.malloc(Value::Uint8(n));
    }
    assert_eq!(context.delloc(2), Ok(()));
    assert_eq!(context.get_memory(0), Ok(&Value::Uint8(0)));
    assert_eq!(context.get_memory(1), Ok(&Value::Uint8(1)));
    assert_eq!(context.get_memory(2), Ok(&Value::Uint8(3)));
    assert_eq!(context.get_memory(3), Ok(&Value::Uint8(4)));
    assert_eq!(context.memory_len(), 4);
}

#[test]
fn clear_memory_leaves_state() {
    let mut context = ExecutionContext::new_empty();
    context.set_state("x", StateValue::Uint8(1)).unwrap();
    context.malloc(Value::Uint8(1));
    context.malloc(Value::Uint8(2));
    context.clear_memory();
    assert_eq!(context.memory_len(), 0);
    assert_eq!(context.get_state("x"), Ok(&StateValue::Uint8(1)));
    assert_eq!(context.malloc(Value::Uint8(3)), 0);
}

#[test]
fn last_write_wins_and_missing_key_fails() {
    let mut context = ExecutionContext::new_empty();
    assert_eq!(context.set_state("x", StateValue::Uint8(1)), Ok(()));
    assert_eq!(context.set_state("x", StateValue::String("two")), Ok(()));
    assert_eq!(context.get_state("x"), Ok(&StateValue::String("two")));
    assert_eq!(
        context.get_state("missing"),
        Err(RegistryError::InvalidStateRegister("missing".to_string()))
    );
    assert_eq!(context.set_state("y", StateValue::Bool(false)), Ok(()));
    assert_eq!(context.get_state("x"), Ok(&StateValue::String("two")));
    assert_eq!(context.get_state("y"), Ok(&StateValue::Bool(false)));
}

#[test]
fn new_with_state_keeps_the_later_of_two_entries() {
    let context = ExecutionContext::new_with_state(vec![
        ("a".to_string(), StateValue::Uint8(1)),
        ("b".to_string(), StateValue::ByteArray(vec![1, 2])),
        ("a".to_string(), StateValue::Uint128(3)),
    ]);
    assert_eq!(context.get_state("a"), Ok(&StateValue::Uint128(3)));
    assert_eq!(context.get_state("b"), Ok(&StateValue::ByteArray(vec![1, 2])));
    assert!(context.get_state("c").is_err());
    assert_eq!(context.memory_len(), 0);
}

#[test]
fn value_accessors_pick_their_own_variant() {
    let bytes = vec![1u8, 2, 3];
    let values = [
        Value::Uint8(7),
        Value::Uint128(1u128 << 100),
        Value::String("text"),
        Value::Bool(true),
        Value::ByteArray(bytes.clone()),
    ];
    assert_eq!(values[0].as_uint8(), Some(7));
    assert_eq!(values[1].as_uint128(), Some(1u128 << 100));
    assert_eq!(values[2].as_string(), Some("text"));
    assert_eq!(values[3].as_bool(), Some(true));
    assert_eq!(values[4].as_byte_array(), Some(&bytes));
    for (i, value) in values.iter().enumerate() {
        assert_eq!(value.as_uint8().is_some(), i == 0);
        assert_eq!(value.as_uint128().is_some(), i == 1);
        assert_eq!(value.as_string().is_some(), i == 2);
        assert_eq!(value.as_bool().is_some(), i == 3);
        assert_eq!(value.as_byte_array().is_some(), i == 4);
    }
}

#[test]
fn registry_error_messages() {
    assert_eq!(
        RegistryError::InvalidStateRegister("x".to_string()).message(),
        "Invalid state register: x"
    );
    assert_eq!(
        RegistryError::InvalidLocalRegister("r1".to_string()).message(),
        "Invalid local register: r1"
    );
    assert_eq!(
        RegistryError::TypeMismatch("r".to_string(), "u8".to_string(), "bool".to_string())
            .message(),
        "Type mismatch in register r: expected u8, got bool"
    );
    assert_eq!(
        RegistryError::OutOfBounds(12, 3).message(),
        "Index out of bounds: 12 (size: 3)"
    );
}
