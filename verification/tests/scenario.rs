use todo_program::{
    process_instruction, Pubkey, StorageAction, StorageRegion, TodoAccount, TodoError,
    ACCOUNT_SPACE,
};

fn instruction_data(tag: u8, name: &str) -> Vec<u8> {
    let mut data = vec![tag];
    data.extend_from_slice(&borsh::to_vec(&name.to_string()).expect("Failed to serialize todo name"));
    data
}

#[test]
fn test_todo_program() {
    let program_id = Pubkey::new_from_array([7u8; 32]);
    let payer = Pubkey::new_from_array([9u8; 32]);
    let system = Pubkey::new_from_array([0u8; 32]);
    let t0: u64 = 1_700_000_000;

    // The to-do account does not exist yet.
    let mut todo_account = StorageRegion { owner: system, data: Vec::new() };
    let todo_name = "Buy groceries".to_string();

    println!("Testing new to-do creation...");
    let new_todo_data = instruction_data(0, &todo_name);
    let action =
        process_instruction(&program_id, &payer, &mut todo_account, &new_todo_data, t0).unwrap();
    assert_eq!(
        action,
        StorageAction::Create { payer, owner: program_id, space: ACCOUNT_SPACE }
    );
    assert_eq!(todo_account.data.len(), 1024);
    assert_eq!(todo_account.owner, program_id);

    let account =
        TodoAccount::decode(&todo_account.data).expect("Failed to deserialize todo account");
    assert_eq!(account.todos.len(), 1);
    assert_eq!(account.todos[0].name, todo_name);
    assert_eq!(account.todos[0].done, false);
    assert_eq!(account.todos[0].publish_date, t0);
    println!("New to-do added: {}", account.todos[0].name);

    println!("Testing mark to-do as done...");
    let mark_done_data = instruction_data(1, &todo_name);
    let action =
        process_instruction(&program_id, &payer, &mut todo_account, &mark_done_data, t0 + 50)
            .unwrap();
    assert_eq!(action, StorageAction::Keep);
    assert_eq!(todo_account.data.len(), 1024);

    let account =
        TodoAccount::decode(&todo_account.data).expect("Failed to deserialize todo account");
    assert_eq!(account.todos.len(), 1);
    assert_eq!(account.todos[0].name, todo_name);
    assert_eq!(account.todos[0].done, true);
    assert_eq!(account.todos[0].publish_date, t0);
    println!("To-do marked as done: {}", account.todos[0].name);
}

#[test]
fn scenario_malformed_payload_changes_nothing() {
    let program_id = Pubkey::new_from_array([7u8; 32]);
    let payer = Pubkey::new_from_array([9u8; 32]);
    let mut region = StorageRegion { owner: program_id, data: vec![0u8; 64] };
    let before = region.clone();
    for payload in [vec![], vec![2u8, 0, 0, 0, 0], vec![0u8, 5, 0, 0, 0, b'a'], vec![1u8]] {
        assert_eq!(
            process_instruction(&program_id, &payer, &mut region, &payload, 1),
            Err(TodoError::MalformedInstruction)
        );
        assert_eq!(region, before);
    }
}

#[test]
fn scenario_mark_done_through_dispatch_reports_errors() {
    let program_id = Pubkey::new_from_array([7u8; 32]);
    let payer = Pubkey::new_from_array([9u8; 32]);
    let mut region = StorageRegion { owner: program_id, data: Vec::new() };
    process_instruction(&program_id, &payer, &mut region, &instruction_data(0, "a"), 5).unwrap();
    let before = region.clone();
    assert_eq!(
        process_instruction(&program_id, &payer, &mut region, &instruction_data(1, "b"), 6),
        Err(TodoError::ItemNotFound)
    );
    assert_eq!(region, before);
    assert_eq!(
        process_instruction(&program_id, &payer, &mut region, &instruction_data(1, "a"), 6),
        Ok(StorageAction::Keep)
    );
    let marked = region.clone();
    assert_eq!(
        process_instruction(&program_id, &payer, &mut region, &instruction_data(1, "a"), 7),
        Err(TodoError::AlreadyDone)
    );
    assert_eq!(region, marked);
}
