//! A to-do list kept in a fixed-capacity storage region.
//!
//! The list is a sequence of named items, each with a completion flag and the
//! time it was added. It is stored at the start of a byte region in a compact
//! little-endian layout. Two instructions change it: one appends an item, one
//! marks the first item of a given name as done.
//!
//! Everything here works on plain values. The host that owns the storage
//! hands over the region's bytes and owner, the instruction payload and the
//! current time, and carries out what the result asks of it.

pub mod error;
pub mod instruction;
pub mod processor;
pub mod pubkey;
pub mod state;
pub mod wire;

pub use error::TodoError;
pub use instruction::TodoInstruction;
pub use processor::{
    process_instruction, process_mark_done, process_new_todo, StorageAction, StorageRegion,
    ACCOUNT_SPACE,
};
pub use pubkey::Pubkey;
pub use state::{Todo, TodoAccount};
