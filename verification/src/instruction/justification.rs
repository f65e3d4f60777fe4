use vstd::prelude::*;

verus! {

/// Alignment for text printing
#[derive(Clone, Copy, Debug, PartialEq, Eq, Hash, Structural)]
pub enum Justification {
    Left,
    Center,
    Right,
}

impl Justification {
    /// The argument `n` of `ESC a n` that selects this alignment.
    pub open spec fn code(self) -> u8 {
        match self {
            Justification::Left => 0x00,
            Justification::Center => 0x01,
            Justification::Right => 0x02,
        }
    }

    /// Computes [`Justification::code`].
    pub fn select_code(self) -> (n: u8)
        ensures
            n == self.code(),
    {
        match self {
            Justification::Left => 0x00,
            Justification::Center => 0x01,
            Justification::Right => 0x02,
        }
    }
}

} // verus!
