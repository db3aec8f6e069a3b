use vstd::prelude::*;
use crate::types::{Pos, ResourceKind};

verus! {

/// What a robot reports to the base.
#[derive(Clone, Copy, Debug)]
pub enum Message {
    /// A scout saw a deposit the base did not know of.
    ResourceDiscovered { pos: Pos, kind: ResourceKind, quantity: u32 },
    /// A collector unloaded `amount` units taken from the deposit at `pos`.
    ResourceCollected { pos: Pos, kind: ResourceKind, amount: u32 },
    /// A collector found the deposit at `pos` exhausted.
    ResourceDepleted { pos: Pos },
}

} // verus!
