//! Carrying out an instruction on a storage region.
//!
//! A region is a byte buffer of fixed size with an owner. The item list sits
//! at its front. An instruction reads the list, changes it, and writes it
//! back over the front of the region; the size of the region never changes
//! once it exists. A region that does not exist yet is an empty buffer: the
//! first add lays it out, and tells the host to create and fund it.
//!
//! Every function here either succeeds and leaves the region as its outcome
//! function says, or fails and leaves the region untouched.

use crate::error::TodoError;
use crate::instruction::{parse_instruction, TodoInstruction, TodoInstructionView};
use crate::pubkey::Pubkey;
use crate::state::{
    decode_collection, encodable, encode_collection, first_named, fits, has_named,
    is_first_named, lemma_decode_of_encode, lemma_encode_of_decode, lemma_first_named_exists,
    lemma_marked_same_size, mark_done_result, marked, pending, TodoAccount, TodoView,
};
use vstd::prelude::*;

verus! {

/// The size in bytes of a region that the first add creates.
pub const ACCOUNT_SPACE: usize = 1024;

/// A storage region: who owns it, and its bytes. An empty `data` stands for
/// a region that has not been created yet.
#[derive(Debug, Clone, PartialEq, Eq)]
pub struct StorageRegion {
    pub owner: Pubkey,
    pub data: Vec<u8>,
}

/// A storage region as a mathematical value.
pub struct StorageRegionView {
    pub owner: Seq<u8>,
    pub data: Seq<u8>,
}

impl View for StorageRegion {
    type V = StorageRegionView;

    open spec fn view(&self) -> StorageRegionView {
        StorageRegionView { owner: self.owner@, data: self.data@ }
    }
}

/// What the host has to do for the region after an instruction succeeded.
#[derive(Debug, Clone, Copy, PartialEq, Eq)]
pub enum StorageAction {
    /// The region existed; its new bytes are all there is to persist.
    Keep,
    /// The region is new: create it with `space` bytes, owned by `owner`,
    /// and charge `payer` what the host asks for that much storage.
    Create { payer: Pubkey, owner: Pubkey, space: usize },
}

/// `space` zero bytes: what a region holds when it is created.
pub open spec fn blank(space: nat) -> Seq<u8> {
    Seq::new(space, |i: int| 0u8)
}

/// A region's bytes after `bytes` were written over its front.
pub open spec fn stored(bytes: Seq<u8>, data: Seq<u8>) -> Seq<u8> {
    bytes + data.skip(bytes.len() as int)
}

/// The region that an add works on: the given one, or, where that does not
/// exist yet, a blank one of `ACCOUNT_SPACE` bytes owned by the program.
pub open spec fn provisioned(program_id: Pubkey, region: StorageRegionView) -> StorageRegionView {
    if region.data.len() == 0 {
        StorageRegionView { owner: program_id@, data: blank(ACCOUNT_SPACE as nat) }
    } else {
        region
    }
}

/// The list that an add starts from: empty for a region that does not exist
/// yet, else what the region decodes to.
pub open spec fn loaded(region: StorageRegionView) -> Option<Seq<TodoView>> {
    if region.data.len() == 0 {
        Some(Seq::empty())
    } else {
        decode_collection(region.data)
    }
}

/// What the host is asked to do after an add.
pub open spec fn provisioning(
    program_id: Pubkey,
    payer: Pubkey,
    region: StorageRegionView,
) -> StorageAction {
    if region.data.len() == 0 {
        StorageAction::Create { payer, owner: program_id, space: ACCOUNT_SPACE }
    } else {
        StorageAction::Keep
    }
}

/// What an add makes of a region.
///
/// An existing region must decode, else `CorruptState`; its owner must be
/// the program, else `PermissionDenied`. The list with the new pending item
/// at its end must fit the region, else `CapacityExceeded`. Then it is
/// written over the front of the region.
pub open spec fn new_todo_outcome(
    program_id: Pubkey,
    payer: Pubkey,
    region: StorageRegionView,
    name: Seq<char>,
    now: u64,
) -> Result<(StorageRegionView, StorageAction), TodoError> {
    let start = provisioned(program_id, region);
    match loaded(region) {
        None => Err(TodoError::CorruptState),
        Some(items) => {
            let updated = items.push(pending(name, now));
            if start.owner != program_id@ {
                Err(TodoError::PermissionDenied)
            } else if !fits(updated, start.data.len()) {
                Err(TodoError::CapacityExceeded)
            } else {
                Ok(
                    (
                        StorageRegionView {
                            owner: start.owner,
                            data: stored(encode_collection(updated), start.data),
                        },
                        provisioning(program_id, payer, region),
                    ),
                )
            }
        },
    }
}

/// What a mark-done makes of a region.
///
/// The region's owner must be the program, else `PermissionDenied`; only
/// then is the region read. It must decode, else `CorruptState`. The list
/// changes as `mark_done_result` says, and is written over the front of the
/// region.
pub open spec fn mark_done_outcome(
    program_id: Pubkey,
    region: StorageRegionView,
    name: Seq<char>,
) -> Result<StorageRegionView, TodoError> {
    if region.owner != program_id@ {
        Err(TodoError::PermissionDenied)
    } else {
        match decode_collection(region.data) {
            None => Err(TodoError::CorruptState),
            Some(items) => match mark_done_result(items, name) {
                Err(e) => Err(e),
                Ok(updated) => Ok(
                    StorageRegionView {
                        owner: region.owner,
                        data: stored(encode_collection(updated), region.data),
                    },
                ),
            },
        }
    }
}

/// What an instruction payload makes of a region: a payload that is no
/// instruction is `MalformedInstruction`, an add does what
/// `new_todo_outcome` says and a mark-done what `mark_done_outcome` says.
pub open spec fn instruction_outcome(
    program_id: Pubkey,
    payer: Pubkey,
    region: StorageRegionView,
    input: Seq<u8>,
    now: u64,
) -> Result<(StorageRegionView, StorageAction), TodoError> {
    match parse_instruction(input) {
        None => Err(TodoError::MalformedInstruction),
        Some(TodoInstructionView::NewTodo { todo }) => new_todo_outcome(
            program_id,
            payer,
            region,
            todo,
            now,
        ),
        Some(TodoInstructionView::MarkDone { todo }) => match mark_done_outcome(
            program_id,
            region,
            todo,
        ) {
            Ok(after) => Ok((after, StorageAction::Keep)),
            Err(e) => Err(e),
        },
    }
}

/// A list written over the front of a region is what the region then decodes
/// to, and the region keeps its size.
pub proof fn lemma_decode_of_stored(items: Seq<TodoView>, data: Seq<u8>)
    requires
        fits(items, data.len()),
    ensures
        decode_collection(stored(encode_collection(items), data)) == Some(items),
        stored(encode_collection(items), data).len() == data.len(),
{
    lemma_decode_of_encode(items, data.skip(encode_collection(items).len() as int));
}

/// After a successful add the region decodes to the list it held before with
/// the new item at its end, pending and stamped with the given time. The
/// region belongs to the program and has the size it had, or
/// `ACCOUNT_SPACE` bytes if it is new.
pub proof fn lemma_new_todo_appends(
    program_id: Pubkey,
    payer: Pubkey,
    region: StorageRegionView,
    name: Seq<char>,
    now: u64,
)
    ensures
        new_todo_outcome(program_id, payer, region, name, now) matches Ok((after, action)) ==> {
            &&& loaded(region) matches Some(items)
            &&& decode_collection(after.data) == Some(items.push(pending(name, now)))
            &&& after.owner == program_id@
            &&& after.data.len() == provisioned(program_id, region).data.len()
            &&& action == provisioning(program_id, payer, region)
        },
{
    if let Ok((after, action)) = new_todo_outcome(program_id, payer, region, name, now) {
        let items = loaded(region).unwrap();
        lemma_decode_of_stored(
            items.push(pending(name, now)),
            provisioned(program_id, region).data,
        );
    }
}

/// After a successful mark-done the region decodes to the list it held
/// before with the first item of that name marked, and nothing else about
/// the list or the region's size and owner has changed.
pub proof fn lemma_mark_done_marks(program_id: Pubkey, region: StorageRegionView, name: Seq<char>)
    ensures
        mark_done_outcome(program_id, region, name) matches Ok(after) ==> {
            &&& decode_collection(region.data) matches Some(items)
            &&& is_first_named(items, name, first_named(items, name))
            &&& !items[first_named(items, name)].done
            &&& decode_collection(after.data) == Some(
                items.update(first_named(items, name), marked(items[first_named(items, name)])),
            )
            &&& after.owner == region.owner
            &&& after.data.len() == region.data.len()
        },
{
    if let Ok(after) = mark_done_outcome(program_id, region, name) {
        let items = decode_collection(region.data).unwrap();
        let i = first_named(items, name);
        lemma_first_named_exists(items, name);
        lemma_encode_of_decode(region.data);
        lemma_marked_same_size(items, i);
        lemma_decode_of_stored(items.update(i, marked(items[i])), region.data);
    }
}

/// A region that the program does not own is refused. A mark-done refuses it
/// whatever it holds. An add refuses it once the region has been found to
/// exist and to decode.
pub proof fn lemma_foreign_region_is_denied(
    program_id: Pubkey,
    payer: Pubkey,
    region: StorageRegionView,
    name: Seq<char>,
    now: u64,
)
    requires
        region.owner != program_id@,
    ensures
        mark_done_outcome(program_id, region, name) == Err::<StorageRegionView, TodoError>(
            TodoError::PermissionDenied,
        ),
        region.data.len() > 0 && decode_collection(region.data) is Some ==> new_todo_outcome(
            program_id,
            payer,
            region,
            name,
            now,
        ) == Err::<(StorageRegionView, StorageAction), TodoError>(TodoError::PermissionDenied),
{
}

/// A fresh buffer of `space` zero bytes.
fn blank_bytes(space: usize) -> (data: Vec<u8>)
    ensures
        data@ == blank(space as nat),
{
    let mut data: Vec<u8> = Vec::new();
    let mut i: usize = 0;
    while i < space
        invariant
            i <= space,
            data@ == blank(i as nat),
        decreases space - i,
    {
        data.push(0u8);
        proof {
            assert(data@ =~= blank((i + 1) as nat));
        }
        i = i + 1;
    }
    data
}

/// Writes `bytes` over the front of `data`.
fn store(data: &mut Vec<u8>, bytes: &Vec<u8>)
    requires
        bytes@.len() <= old(data)@.len(),
    ensures
        final(data)@ == stored(bytes@, old(data)@),
{
    let n: usize = bytes.len();
    let mut i: usize = 0;
    while i < n
        invariant
            i <= n,
            n == bytes@.len(),
            data@.len() == old(data)@.len(),
            n <= data@.len(),
            data@ == bytes@.take(i as int) + old(data)@.skip(i as int),
        decreases n - i,
    {
        let b: u8 = bytes[i];
        data[i] = b;
        proof {
            assert(data@ =~= bytes@.take(i + 1) + old(data)@.skip(i + 1));
        }
        i = i + 1;
    }
    proof {
        assert(bytes@.take(n as int) =~= bytes@);
    }
}

/// Appends an item named `todo_name`, pending and stamped with `now`, to the
/// list in `region`.
///
/// The result and the region afterwards are what `new_todo_outcome` says. On
/// an error the region is untouched.
pub fn process_new_todo(
    program_id: &Pubkey,
    payer: &Pubkey,
    region: &mut StorageRegion,
    todo_name: String,
    now: u64,
) -> (r: Result<StorageAction, TodoError>)
    ensures
        match r {
            Ok(action) => new_todo_outcome(*program_id, *payer, old(region)@, todo_name@, now)
                == Ok::<(StorageRegionView, StorageAction), TodoError>((final(region)@, action)),
            Err(e) => new_todo_outcome(*program_id, *payer, old(region)@, todo_name@, now)
                == Err::<(StorageRegionView, StorageAction), TodoError>(e) && final(region)@ == old(
                region,
            )@,
        },
{
    let fresh: bool = region.data.len() == 0;
    let mut account = if fresh {
        TodoAccount::new()
    } else {
        match TodoAccount::decode(region.data.as_slice()) {
            Ok(account) => account,
            Err(_) => {
                return Err(TodoError::CorruptState);
            },
        }
    };
    if !fresh && region.owner != *program_id {
        return Err(TodoError::PermissionDenied);
    }
    account.append(todo_name, now);
    let capacity: usize = if fresh {
        ACCOUNT_SPACE
    } else {
        region.data.len()
    };
    let bytes = match account.encode(capacity) {
        Ok(bytes) => bytes,
        Err(_) => {
            return Err(TodoError::CapacityExceeded);
        },
    };
    if fresh {
        region.owner = *program_id;
        region.data = blank_bytes(ACCOUNT_SPACE);
        store(&mut region.data, &bytes);
        Ok(StorageAction::Create { payer: *payer, owner: *program_id, space: ACCOUNT_SPACE })
    } else {
        store(&mut region.data, &bytes);
        Ok(StorageAction::Keep)
    }
}

/// Marks the first item named `todo_name` in `region` as done.
///
/// The result and the region afterwards are what `mark_done_outcome` says.
/// On an error the region is untouched.
pub fn process_mark_done(program_id: &Pubkey, region: &mut StorageRegion, todo_name: String) -> (r:
    Result<(), TodoError>)
    ensures
        match r {
            Ok(()) => mark_done_outcome(*program_id, old(region)@, todo_name@) == Ok::<
                StorageRegionView,
                TodoError,
            >(final(region)@),
            Err(e) => mark_done_outcome(*program_id, old(region)@, todo_name@) == Err::<
                StorageRegionView,
                TodoError,
            >(e) && final(region)@ == old(region)@,
        },
{
    if region.owner != *program_id {
        return Err(TodoError::PermissionDenied);
    }
    let mut account = match TodoAccount::decode(region.data.as_slice()) {
        Ok(account) => account,
        Err(_) => {
            return Err(TodoError::CorruptState);
        },
    };
    let ghost items = account@;
    match account.mark_done(&todo_name) {
        Ok(()) => {},
        Err(e) => {
            return Err(e);
        },
    }
    proof {
        lemma_first_named_exists(items, todo_name@);
        lemma_encode_of_decode(region.data@);
        lemma_marked_same_size(items, first_named(items, todo_name@));
    }
    match account.encode(region.data.len()) {
        Ok(bytes) => {
            store(&mut region.data, &bytes);
            Ok(())
        },
        Err(_) => {
            proof {
                assert(false);
            }
            Err(TodoError::CapacityExceeded)
        },
    }
}

/// Decodes an instruction payload and carries the instruction out on
/// `region`.
///
/// The result and the region afterwards are what `instruction_outcome` says.
/// On an error the region is untouched.
pub fn process_instruction(
    program_id: &Pubkey,
    payer: &Pubkey,
    region: &mut StorageRegion,
    instruction_data: &[u8],
    now: u64,
) -> (r: Result<StorageAction, TodoError>)
    ensures
        match r {
            Ok(action) => instruction_outcome(
                *program_id,
                *payer,
                old(region)@,
                instruction_data@,
                now,
            ) == Ok::<(StorageRegionView, StorageAction), TodoError>((final(region)@, action)),
            Err(e) => instruction_outcome(
                *program_id,
                *payer,
                old(region)@,
                instruction_data@,
                now,
            ) == Err::<(StorageRegionView, StorageAction), TodoError>(e) && final(region)@ == old(
                region,
            )@,
        },
{
    let instruction = match TodoInstruction::unpack(instruction_data) {
        Ok(instruction) => instruction,
        Err(_) => {
            return Err(TodoError::MalformedInstruction);
        },
    };
    match instruction {
        TodoInstruction::NewTodo { todo } => process_new_todo(program_id, payer, region, todo, now),
        TodoInstruction::MarkDone { todo } => match process_mark_done(program_id, region, todo) {
            Ok(()) => Ok(StorageAction::Keep),
            Err(e) => Err(e),
        },
    }
}

} // verus!
