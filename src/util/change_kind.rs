use vstd::prelude::*;

verus! {

/// Whether a registration added an entry or replaced one.
#[derive(Debug, Clone, Copy, PartialEq, Eq, Structural)]
pub enum ChangeKind {
    Inserted,
    Updated,
}

} // verus!
