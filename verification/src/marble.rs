use vstd::prelude::*;

verus! {

/// The kind of payload a marble carries.
#[derive(Clone, Copy, Debug, PartialEq, Eq, Structural)]
pub enum MarbleType {
    /// A single boolean bit, stored as 0 or 1.
    Bit,
    /// A small number.
    Num,
}

/// A discrete token routed between modules.
///
/// A marble is a pure value: it is copied as it moves through the system and
/// never mutated in place.  One is created when a module behaviour emits it
/// and destroyed when an input consumes it or the physics layer reclaims it.
#[derive(Clone, Copy, Debug, PartialEq, Eq, Structural)]
pub struct Marble {
    pub ty: MarbleType,
    pub val: i32,
}

impl Marble {
    pub fn new(ty: MarbleType, val: i32) -> (r: Self)
        ensures
            r == (Marble { ty, val }),
    {
        Self { ty, val }
    }

    pub fn get_type(&self) -> (r: MarbleType)
        ensures
            r == self.ty,
    {
        self.ty
    }

    pub fn get_val(&self) -> (r: i32)
        ensures
            r == self.val,
    {
        self.val
    }

    /// A bit marble: `true` is stored as 1, `false` as 0.
    pub fn bit(val: bool) -> (r: Self)
        ensures
            r.ty == MarbleType::Bit,
            r.val == (if val { 1i32 } else { 0i32 }),
    {
        Self { ty: MarbleType::Bit, val: if val { 1 } else { 0 } }
    }
}

/// The number of ticks an entity has left before the host reclaims it.
///
/// Fired marbles get a bounded lifetime so that a token that never reaches
/// another input is still collected eventually.
#[derive(Clone, Copy, Debug, PartialEq, Eq, Structural)]
pub struct Lifetime(pub usize);

/// The lifetime given to a freshly fired marble, in ticks.
pub const MARBLE_LIFETIME_TICKS: usize = 1200;

} // verus!
