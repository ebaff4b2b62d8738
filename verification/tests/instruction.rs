use todo_program::{TodoError, TodoInstruction};

fn payload(tag: u8, name: &str) -> Vec<u8> {
    let mut data = vec![tag];
    data.extend_from_slice(&borsh::to_vec(&name.to_string()).unwrap());
    data
}

#[test]
fn unpack_tag_zero_is_new_todo() {
    assert_eq!(
        TodoInstruction::unpack(&[0, 1, 0, 0, 0, b'X']),
        Ok(TodoInstruction::NewTodo { todo: "X".to_string() })
    );
}

#[test]
fn unpack_tag_one_is_mark_done() {
    assert_eq!(
        TodoInstruction::unpack(&[1, 1, 0, 0, 0, b'X']),
        Ok(TodoInstruction::MarkDone { todo: "X".to_string() })
    );
}

#[test]
fn unpack_matches_borsh_string_encoding() {
    let name = "Buy groceries";
    assert_eq!(
        TodoInstruction::unpack(&payload(0, name)),
        Ok(TodoInstruction::NewTodo { todo: name.to_string() })
    );
    assert_eq!(
        TodoInstruction::unpack(&payload(1, name)),
        Ok(TodoInstruction::MarkDone { todo: name.to_string() })
    );
}

#[test]
fn unpack_empty_name() {
    assert_eq!(
        TodoInstruction::unpack(&[0, 0, 0, 0, 0]),
        Ok(TodoInstruction::NewTodo { todo: String::new() })
    );
}

#[test]
fn unpack_multi_byte_name() {
    let name = "caf\u{e9} \u{2713} \u{1F600}";
    assert_eq!(
        TodoInstruction::unpack(&payload(1, name)),
        Ok(TodoInstruction::MarkDone { todo: name.to_string() })
    );
}

#[test]
fn unpack_ignores_bytes_after_the_name() {
    let mut data = payload(0, "abc");
    data.extend_from_slice(&[0xff, 0xfe, 7]);
    assert_eq!(
        TodoInstruction::unpack(&data),
        Ok(TodoInstruction::NewTodo { todo: "abc".to_string() })
    );
}

#[test]
fn unpack_empty_input_is_malformed() {
    assert_eq!(TodoInstruction::unpack(&[]), Err(TodoError::MalformedInstruction));
}

#[test]
fn unpack_unknown_tag_is_malformed() {
    for tag in 2u8..=255 {
        assert_eq!(
            TodoInstruction::unpack(&payload(tag, "X")),
            Err(TodoError::MalformedInstruction)
        );
    }
}

#[test]
fn unpack_truncated_is_malformed() {
    for tag in [0u8, 1] {
        let whole = payload(tag, "Buy groceries");
        for kept in 0..whole.len() {
            assert_eq!(
                TodoInstruction::unpack(&whole[..kept]),
                Err(TodoError::MalformedInstruction)
            );
        }
        assert!(TodoInstruction::unpack(&whole).is_ok());
    }
}

#[test]
fn unpack_length_beyond_input_is_malformed() {
    assert_eq!(
        TodoInstruction::unpack(&[0, 0xff, 0xff, 0xff, 0xff, b'a', b'b']),
        Err(TodoError::MalformedInstruction)
    );
}

#[test]
fn unpack_invalid_utf8_is_malformed() {
    assert_eq!(
        TodoInstruction::unpack(&[0, 2, 0, 0, 0, 0xc3, 0x28]),
        Err(TodoError::MalformedInstruction)
    );
    assert_eq!(
        TodoInstruction::unpack(&[1, 1, 0, 0, 0, 0x80]),
        Err(TodoError::MalformedInstruction)
    );
    // a surrogate, encoded as three bytes
    assert_eq!(
        TodoInstruction::unpack(&[1, 3, 0, 0, 0, 0xed, 0xa0, 0x80]),
        Err(TodoError::MalformedInstruction)
    );
}

#[test]
fn unpack_uses_all_four_length_bytes() {
    let name = "x".repeat(0x0102);
    let mut data = vec![0u8, 0x02, 0x01, 0, 0];
    data.extend_from_slice(name.as_bytes());
    assert_eq!(TodoInstruction::unpack(&data), Ok(TodoInstruction::NewTodo { todo: name }));
}
