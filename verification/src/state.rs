//! Changes to state, as the state layer consumes them.

use vstd::prelude::*;

verus! {

/// A change to be applied to state: the setting of a key to a value, or the
/// deletion of a key.
#[derive(Debug, Clone, PartialEq, Eq, Hash)]
pub enum StateChange {
    SetValue { key: String, value: Vec<u8> },
    Delete { key: String },
}

/// The mathematical value of a [`StateChange`].
pub enum StateChangeView {
    SetValue { key: Seq<char>, value: Seq<u8> },
    Delete { key: Seq<char> },
}

impl View for StateChange {
    type V = StateChangeView;

    open spec fn view(&self) -> StateChangeView {
        match self {
            StateChange::SetValue { key, value } => StateChangeView::SetValue { key: key@, value: value@ },
            StateChange::Delete { key } => StateChangeView::Delete { key: key@ },
        }
    }
}

} // verus!
