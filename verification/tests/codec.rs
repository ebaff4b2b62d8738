use todo_program::wire::{
    put_bool, put_string, put_u32, put_u64, take_bool, take_string, take_u32, take_u64,
};
use todo_program::{Todo, TodoAccount, TodoError};

fn todo(name: &str, done: bool, publish_date: u64) -> Todo {
    Todo { name: name.to_string(), done, publish_date }
}

fn as_tuples(account: &TodoAccount) -> Vec<(String, bool, u64)> {
    account.todos.iter().map(|t| (t.name.clone(), t.done, t.publish_date)).collect()
}

#[test]
fn encode_exact_bytes() {
    let account = TodoAccount { todos: vec![todo("X", false, 0x0102030405060708)] };
    assert_eq!(
        account.encode(1024),
        Ok(vec![1, 0, 0, 0, 1, 0, 0, 0, b'X', 0, 8, 7, 6, 5, 4, 3, 2, 1])
    );
    let account = TodoAccount { todos: vec![todo("hi", true, 1), todo("", false, u64::MAX)] };
    assert_eq!(
        account.encode(1024),
        Ok(vec![
            2, 0, 0, 0, 2, 0, 0, 0, b'h', b'i', 1, 1, 0, 0, 0, 0, 0, 0, 0, 0, 0, 0, 0, 0, 0xff,
            0xff, 0xff, 0xff, 0xff, 0xff, 0xff, 0xff
        ])
    );
}

#[test]
fn encode_empty_list_is_four_zero_bytes() {
    assert_eq!(TodoAccount::new().encode(4), Ok(vec![0, 0, 0, 0]));
    assert_eq!(TodoAccount::new().todos.len(), 0);
}

#[test]
fn encode_agrees_with_borsh() {
    let account = TodoAccount {
        todos: vec![
            todo("Buy groceries", false, 1_700_000_000),
            todo("caf\u{e9} \u{2713}", true, 0),
            todo("", false, u64::MAX),
        ],
    };
    let expected = borsh::to_vec(&as_tuples(&account)).unwrap();
    assert_eq!(account.encode(expected.len()), Ok(expected));
}

#[test]
fn decode_agrees_with_borsh() {
    let items = vec![
        ("Buy groceries".to_string(), false, 1_700_000_000u64),
        ("\u{1F600}".to_string(), true, 42),
    ];
    let bytes = borsh::to_vec(&items).unwrap();
    let account = TodoAccount::decode(&bytes).unwrap();
    assert_eq!(as_tuples(&account), items);
    let back: Vec<(String, bool, u64)> = borsh::from_slice(&account.encode(1024).unwrap()).unwrap();
    assert_eq!(back, items);
}

#[test]
fn decode_of_encode_is_identity() {
    let account = TodoAccount {
        todos: vec![todo("a", false, 1), todo("a", true, 2), todo("\u{df}\u{4e2d}", false, 3)],
    };
    let bytes = account.encode(1024).unwrap();
    assert_eq!(TodoAccount::decode(&bytes), Ok(account.clone()));
    // what lies behind the list is not part of it
    let mut padded = bytes.clone();
    padded.extend_from_slice(&[0, 0, 0, 0xff, 3, 1]);
    assert_eq!(TodoAccount::decode(&padded), Ok(account));
}

#[test]
fn encode_of_decode_reproduces_the_front() {
    let mut region = vec![2u8, 0, 0, 0];
    region.extend_from_slice(&[1, 0, 0, 0, b'a', 1, 9, 0, 0, 0, 0, 0, 0, 0]);
    region.extend_from_slice(&[0, 0, 0, 0, 0, 1, 2, 3, 4, 5, 6, 7, 8]);
    let used = region.len();
    region.extend_from_slice(&[0xaa; 20]);
    let account = TodoAccount::decode(&region).unwrap();
    assert_eq!(account.todos, vec![todo("a", true, 9), todo("", false, 0x0807060504030201)]);
    assert_eq!(account.encode(region.len()).unwrap(), region[..used].to_vec());
}

#[test]
fn decode_blank_region_is_empty_list() {
    assert_eq!(TodoAccount::decode(&[0u8; 1024]), Ok(TodoAccount { todos: vec![] }));
}

#[test]
fn decode_rejects_short_count() {
    for len in 0..4 {
        assert_eq!(TodoAccount::decode(&vec![0u8; len]), Err(TodoError::CorruptState));
    }
}

#[test]
fn decode_rejects_missing_items() {
    assert_eq!(TodoAccount::decode(&[1, 0, 0, 0]), Err(TodoError::CorruptState));
    assert_eq!(TodoAccount::decode(&[0xff, 0xff, 0xff, 0xff]), Err(TodoError::CorruptState));
    let whole = TodoAccount { todos: vec![todo("ab", false, 5), todo("c", true, 6)] }
        .encode(1024)
        .unwrap();
    for kept in 0..whole.len() {
        assert_eq!(TodoAccount::decode(&whole[..kept]), Err(TodoError::CorruptState));
    }
    assert!(TodoAccount::decode(&whole).is_ok());
}

#[test]
fn decode_rejects_bad_flag() {
    let mut bytes = TodoAccount { todos: vec![todo("ab", false, 5)] }.encode(1024).unwrap();
    assert_eq!(bytes[10], 0);
    bytes[10] = 2;
    assert_eq!(TodoAccount::decode(&bytes), Err(TodoError::CorruptState));
    bytes[10] = 0xff;
    assert_eq!(TodoAccount::decode(&bytes), Err(TodoError::CorruptState));
    bytes[10] = 1;
    assert_eq!(TodoAccount::decode(&bytes), Ok(TodoAccount { todos: vec![todo("ab", true, 5)] }));
}

#[test]
fn decode_rejects_invalid_utf8_name() {
    let mut bytes = TodoAccount { todos: vec![todo("ab", false, 5)] }.encode(1024).unwrap();
    bytes[8] = 0xff;
    assert_eq!(TodoAccount::decode(&bytes), Err(TodoError::CorruptState));
}

#[test]
fn encode_respects_capacity() {
    let account = TodoAccount { todos: vec![todo("abc", false, 5)] };
    // 4 for the count, 4 + 3 for the name, 1 for the flag, 8 for the time
    assert_eq!(account.encode(20).unwrap().len(), 20);
    for capacity in 0..20 {
        assert_eq!(account.encode(capacity), Err(TodoError::CapacityExceeded));
    }
    for capacity in 0..4 {
        assert_eq!(TodoAccount::new().encode(capacity), Err(TodoError::CapacityExceeded));
    }
}

#[test]
fn append_adds_pending_item_at_the_end() {
    let mut account = TodoAccount { todos: vec![todo("a", true, 1)] };
    account.append("b".to_string(), 77);
    assert_eq!(account.todos, vec![todo("a", true, 1), todo("b", false, 77)]);
}

#[test]
fn mark_done_marks_only_the_first_match() {
    let mut account =
        TodoAccount { todos: vec![todo("a", false, 1), todo("X", false, 2), todo("X", false, 3)] };
    assert_eq!(account.mark_done(&"X".to_string()), Ok(()));
    assert_eq!(
        account.todos,
        vec![todo("a", false, 1), todo("X", true, 2), todo("X", false, 3)]
    );
    // the first match is done now, and hides the later one
    assert_eq!(account.mark_done(&"X".to_string()), Err(TodoError::AlreadyDone));
    assert_eq!(
        account.todos,
        vec![todo("a", false, 1), todo("X", true, 2), todo("X", false, 3)]
    );
}

#[test]
fn mark_done_absent_name_is_not_found() {
    let mut account = TodoAccount { todos: vec![todo("a", false, 1)] };
    assert_eq!(account.mark_done(&"A".to_string()), Err(TodoError::ItemNotFound));
    assert_eq!(account.todos, vec![todo("a", false, 1)]);
    let mut empty = TodoAccount::new();
    assert_eq!(empty.mark_done(&"a".to_string()), Err(TodoError::ItemNotFound));
}

#[test]
fn wire_integers_are_little_endian() {
    let mut out = vec![0xeeu8];
    put_u32(&mut out, 0x0a0b0c0d);
    put_u64(&mut out, 0x0102030405060708);
    put_u32(&mut out, u32::MAX);
    put_u64(&mut out, 0);
    assert_eq!(
        out,
        vec![
            0xee, 0x0d, 0x0c, 0x0b, 0x0a, 8, 7, 6, 5, 4, 3, 2, 1, 0xff, 0xff, 0xff, 0xff, 0, 0, 0,
            0, 0, 0, 0, 0
        ]
    );
    assert_eq!(take_u32(&out[1..]), Some((0x0a0b0c0d, &out[5..])));
    assert_eq!(take_u64(&out[5..]), Some((0x0102030405060708, &out[13..])));
    assert_eq!(take_u64(&[0xff; 8]), Some((u64::MAX, &[][..])));
    assert_eq!(take_u32(&[1, 2, 3]), None);
    assert_eq!(take_u64(&[1, 2, 3, 4, 5, 6, 7]), None);
    for value in [0u32, 1, 255, 256, 65535, 65536, 0x7fff_ffff, u32::MAX] {
        let mut bytes = Vec::new();
        put_u32(&mut bytes, value);
        assert_eq!(bytes, value.to_le_bytes().to_vec());
        assert_eq!(take_u32(&bytes), Some((value, &[][..])));
    }
    for value in [0u64, 255, 256, 1 << 32, (1 << 56) + 3, u64::MAX - 1, u64::MAX] {
        let mut bytes = Vec::new();
        put_u64(&mut bytes, value);
        assert_eq!(bytes, value.to_le_bytes().to_vec());
        assert_eq!(take_u64(&bytes), Some((value, &[][..])));
    }
}

#[test]
fn wire_flags_are_zero_or_one() {
    let mut out = Vec::new();
    put_bool(&mut out, true);
    put_bool(&mut out, false);
    assert_eq!(out, vec![1, 0]);
    assert_eq!(take_bool(&out), Some((true, &out[1..])));
    assert_eq!(take_bool(&out[1..]), Some((false, &[][..])));
    assert_eq!(take_bool(&[]), None);
    assert_eq!(take_bool(&[2, 0]), None);
}

#[test]
fn wire_strings_agree_with_borsh() {
    for s in ["", "X", "Buy groceries", "\u{e9}\u{4e2d}\u{1F600}"] {
        let mut out = Vec::new();
        assert!(put_string(&mut out, s));
        assert_eq!(out, borsh::to_vec(&s.to_string()).unwrap());
        out.push(0x55);
        assert_eq!(take_string(&out), Some((s.to_string(), &[0x55u8][..])));
    }
    assert_eq!(take_string(&[3, 0, 0, 0, b'a', b'b']), None);
    assert_eq!(take_string(&[1, 0, 0]), None);
    assert_eq!(take_string(&[1, 0, 0, 0, 0xff]), None);
    assert_eq!(take_string(&[4, 0, 0, 0, 0xf0, 0x9f, 0x98, 0x80]), Some(("\u{1F600}".to_string(), &[][..])));
}
