//! The error taxonomy of the decoder. Every error is fatal for the decode
//! call and carries the byte offset of the instruction at which it arose.

use vstd::prelude::*;

verus! {

/// Why a decode call failed.
#[derive(Clone, Copy, Debug, PartialEq, Eq, Structural)]
pub enum DecodeError {
    /// The first byte fell on an unassigned dispatch entry, or a family
    /// decoder matched none of its sub-forms.
    UnknownOpcode { offset: usize },
    /// The group-dispatch row could not be determined from the first byte.
    UnknownGroupRow { offset: usize },
    /// The selected group-dispatch cell has no decoder assigned.
    UnknownGroupMember { offset: usize },
    /// A displacement or immediate would have to be read past the end of
    /// the byte stream.
    Truncated { offset: usize },
    /// The conditional-jump decoder received a first byte outside its
    /// mnemonic table.
    InvalidJumpOpcode { offset: usize },
}

impl DecodeError {
    /// The byte offset at which the error arose.
    pub open spec fn spec_offset(self) -> usize {
        match self {
            DecodeError::UnknownOpcode { offset } => offset,
            DecodeError::UnknownGroupRow { offset } => offset,
            DecodeError::UnknownGroupMember { offset } => offset,
            DecodeError::Truncated { offset } => offset,
            DecodeError::InvalidJumpOpcode { offset } => offset,
        }
    }

    /// The byte offset at which the error arose.
    pub fn offset(&self) -> (r: usize)
        ensures
            r == self.spec_offset(),
    {
        match self {
            DecodeError::UnknownOpcode { offset } => *offset,
            DecodeError::UnknownGroupRow { offset } => *offset,
            DecodeError::UnknownGroupMember { offset } => *offset,
            DecodeError::Truncated { offset } => *offset,
            DecodeError::InvalidJumpOpcode { offset } => *offset,
        }
    }
}

} // verus!
