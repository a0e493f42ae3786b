//! Bindable input actions.
use vstd::prelude::*;

verus! {

/// All bindable actions.
#[derive(Debug, PartialEq, Eq, Hash, Copy, Clone, Structural)]
pub enum Action {
    Brush,
    Move,
}

} // verus!
