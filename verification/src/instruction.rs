//! The instruction payload: one tag byte, then the encoded name of an item.

use crate::error::TodoError;
use crate::wire::{
    le_bytes, lemma_le_bytes_len, lemma_le_fits_word, lemma_le_value_of_bytes,
    lemma_parse_string_of_bytes, parse_string, string_bytes, string_fits, take_string,
};
use vstd::prelude::*;
use vstd::slice::slice_subrange;

verus! {

/// What a caller can ask for.
#[derive(Debug, Clone, PartialEq, Eq)]
pub enum TodoInstruction {
    /// Tag 0: append a new item with this name.
    NewTodo { todo: String },
    /// Tag 1: mark the first item with this name as done.
    MarkDone { todo: String },
}

/// An instruction as a mathematical value.
pub enum TodoInstructionView {
    NewTodo { todo: Seq<char> },
    MarkDone { todo: Seq<char> },
}

impl View for TodoInstruction {
    type V = TodoInstructionView;

    open spec fn view(&self) -> TodoInstructionView {
        match self {
            TodoInstruction::NewTodo { todo } => TodoInstructionView::NewTodo { todo: todo@ },
            TodoInstruction::MarkDone { todo } => TodoInstructionView::MarkDone { todo: todo@ },
        }
    }
}

/// The tag byte of an add.
pub const TAG_NEW_TODO: u8 = 0;

/// The tag byte of a mark-done.
pub const TAG_MARK_DONE: u8 = 1;

/// The instruction that a payload spells, if it spells one: a known tag
/// followed by an encoded name. Bytes after the name are not looked at.
pub open spec fn parse_instruction(input: Seq<u8>) -> Option<TodoInstructionView> {
    if input.len() == 0 {
        None
    } else {
        match parse_string(input.skip(1)) {
            Some((todo, _)) => if input[0] == TAG_NEW_TODO {
                Some(TodoInstructionView::NewTodo { todo })
            } else if input[0] == TAG_MARK_DONE {
                Some(TodoInstructionView::MarkDone { todo })
            } else {
                None
            },
            None => None,
        }
    }
}

/// A tag followed by the encoding of a name is the instruction of that tag
/// and name, whatever bytes follow; with a tag other than 0 and 1 it is no
/// instruction.
pub proof fn lemma_parse_instruction_of_payload(tag: u8, todo: Seq<char>, trailing: Seq<u8>)
    requires
        string_fits(todo),
    ensures
        parse_instruction(seq![tag] + string_bytes(todo) + trailing) == if tag == TAG_NEW_TODO {
            Some(TodoInstructionView::NewTodo { todo })
        } else if tag == TAG_MARK_DONE {
            Some(TodoInstructionView::MarkDone { todo })
        } else {
            None
        },
{
    let input = seq![tag] + string_bytes(todo) + trailing;
    assert(input.skip(1) =~= string_bytes(todo) + trailing);
    lemma_parse_string_of_bytes(todo, trailing);
}

/// A payload cut short anywhere before the end of the name is no
/// instruction.
pub proof fn lemma_parse_instruction_truncated(tag: u8, todo: Seq<char>, kept: int)
    requires
        string_fits(todo),
        0 <= kept < 1 + string_bytes(todo).len(),
    ensures
        parse_instruction((seq![tag] + string_bytes(todo)).take(kept)) is None,
{
    let whole = seq![tag] + string_bytes(todo);
    let input = whole.take(kept);
    let payload = vstd::utf8::encode_utf8(todo);
    lemma_le_bytes_len(payload.len(), 4);
    if kept >= 5 {
        let body = input.skip(1);
        assert(body.take(4) =~= le_bytes(payload.len(), 4));
        lemma_le_fits_word(payload.len());
        lemma_le_value_of_bytes(payload.len(), 4);
    }
}

impl TodoInstruction {
    /// Decodes an instruction payload.
    ///
    /// Succeeds exactly on the payloads that spell an instruction, with that
    /// instruction; every other payload is `MalformedInstruction`.
    pub fn unpack(input: &[u8]) -> (r: Result<TodoInstruction, TodoError>)
        ensures
            match r {
                Ok(instruction) => parse_instruction(input@) == Some(instruction@),
                Err(e) => e == TodoError::MalformedInstruction && parse_instruction(input@) is None,
            },
    {
        if input.len() == 0 {
            return Err(TodoError::MalformedInstruction);
        }
        let variant: u8 = input[0];
        let rest = slice_subrange(input, 1, input.len());
        if variant == TAG_NEW_TODO {
            match take_string(rest) {
                Some((todo, _)) => Ok(TodoInstruction::NewTodo { todo }),
                None => Err(TodoError::MalformedInstruction),
            }
        } else if variant == TAG_MARK_DONE {
            match take_string(rest) {
                Some((todo, _)) => Ok(TodoInstruction::MarkDone { todo }),
                None => Err(TodoError::MalformedInstruction),
            }
        } else {
            Err(TodoError::MalformedInstruction)
        }
    }
}

} // verus!
