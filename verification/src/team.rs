//! The two team colors.

use vstd::prelude::*;

verus! {

/// One of the two sides playing on the board.
#[derive(Debug, Clone, Copy, PartialEq, Eq, Structural)]
pub enum Team {
    Blue,
    Red,
}

impl Team {
    /// The other side.
    pub fn opposite(&self) -> (r: Team)
        ensures
            r == self.spec_opposite(),
    {
        match self {
            Team::Blue => Team::Red,
            Team::Red => Team::Blue,
        }
    }

    pub open spec fn spec_opposite(self) -> Team {
        match self {
            Team::Blue => Team::Red,
            Team::Red => Team::Blue,
        }
    }

    /// The lowercase color word used on the wire.
    pub open spec fn spec_name_bytes(self) -> Seq<u8> {
        match self {
            Team::Blue => seq!['b' as u8, 'l' as u8, 'u' as u8, 'e' as u8],
            Team::Red => seq!['r' as u8, 'e' as u8, 'd' as u8],
        }
    }

    pub fn name_bytes(&self) -> (r: Vec<u8>)
        ensures
            r@ == self.spec_name_bytes(),
    {
        match self {
            Team::Blue => crate::bytes::copy_bytes(['b' as u8, 'l' as u8, 'u' as u8, 'e' as u8].as_slice()),
            Team::Red => crate::bytes::copy_bytes(['r' as u8, 'e' as u8, 'd' as u8].as_slice()),
        }
    }
}

} // verus!
