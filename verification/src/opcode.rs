//! The operation codes that open a packet.

use vstd::prelude::*;

verus! {

/// The operation of a packet.
#[derive(Debug, Clone, Copy, PartialEq, Eq, Hash, Structural)]
pub enum Opcode {
    Rrq,
    Wrq,
    Data,
    Ack,
    Error,
    Oack,
}

/// The number that stands for an operation on the wire.
pub open spec fn opcode_number(op: Opcode) -> u16 {
    match op {
        Opcode::Rrq => 1,
        Opcode::Wrq => 2,
        Opcode::Data => 3,
        Opcode::Ack => 4,
        Opcode::Error => 5,
        Opcode::Oack => 6,
    }
}

/// The operation with the number `v`, if there is one.
pub open spec fn numbered_opcode(v: u16) -> Option<Opcode> {
    match v {
        1 => Some(Opcode::Rrq),
        2 => Some(Opcode::Wrq),
        3 => Some(Opcode::Data),
        4 => Some(Opcode::Ack),
        5 => Some(Opcode::Error),
        6 => Some(Opcode::Oack),
        _ => None,
    }
}

impl Opcode {
    /// The operation with the number `v`, if there is one.
    pub fn from_u16(v: u16) -> (r: Option<Self>)
        ensures
            r == numbered_opcode(v),
    {
        match v {
            1 => Some(Self::Rrq),
            2 => Some(Self::Wrq),
            3 => Some(Self::Data),
            4 => Some(Self::Ack),
            5 => Some(Self::Error),
            6 => Some(Self::Oack),
            _ => None,
        }
    }

    /// The number of the operation.
    pub fn as_u16(self) -> (v: u16)
        ensures
            v == opcode_number(self),
    {
        match self {
            Self::Rrq => 1,
            Self::Wrq => 2,
            Self::Data => 3,
            Self::Ack => 4,
            Self::Error => 5,
            Self::Oack => 6,
        }
    }
}

/// The number of an operation leads back to it, and every number that stands
/// for an operation is the number of that operation.
pub proof fn opcode_numbers_lead_back(op: Opcode, v: u16)
    ensures
        numbered_opcode(opcode_number(op)) == Some(op),
        numbered_opcode(v) matches Some(o) ==> opcode_number(o) == v,
{
}

} // verus!
