use vstd::prelude::*;

verus! {

/// One instruction of a patch body; each length is at least one.
#[derive(Debug, Clone, Copy, PartialEq, Eq, Structural)]
pub enum Action {
    /// Copy bytes from the source at the current write position.
    SourceRead(u64),
    /// Copy literal bytes that follow the instruction in the patch.
    TargetRead(u64),
    /// Copy bytes from the source at the source-relative cursor.
    SourceCopy(u64),
    /// Copy bytes, one at a time, from the target at the target-relative cursor.
    TargetCopy(u64),
}

/// The instruction that a decoded instruction word stands for: the low two
/// bits pick the command, the rest hold the length minus one.
pub open spec fn action_of(word: u64) -> Action {
    let len = (word / 4 + 1) as u64;
    if word % 4 == 0 {
        Action::SourceRead(len)
    } else if word % 4 == 1 {
        Action::TargetRead(len)
    } else if word % 4 == 2 {
        Action::SourceCopy(len)
    } else {
        Action::TargetCopy(len)
    }
}

impl Action {
    /// The length that the instruction carries.
    pub open spec fn len_spec(self) -> u64 {
        match self {
            Action::SourceRead(n) => n,
            Action::TargetRead(n) => n,
            Action::SourceCopy(n) => n,
            Action::TargetCopy(n) => n,
        }
    }
}

impl From<u64> for Action {
    fn from(instruction: u64) -> (r: Self)
        ensures
            r == action_of(instruction),
            r.len_spec() >= 1,
    {
        assert(instruction >> 2 == instruction / 4) by (bit_vector);
        assert(instruction & 3 == instruction % 4) by (bit_vector);
        let len: u64 = (instruction >> 2) + 1;
        let command: u64 = instruction & 3;
        if command == 0 {
            Action::SourceRead(len)
        } else if command == 1 {
            Action::TargetRead(len)
        } else if command == 2 {
            Action::SourceCopy(len)
        } else {
            Action::TargetCopy(len)
        }
    }
}

impl vstd::std_specs::convert::FromSpecImpl<u64> for Action {
    open spec fn obeys_from_spec() -> bool {
        true
    }

    open spec fn from_spec(instruction: u64) -> Action {
        action_of(instruction)
    }
}

} // verus!
