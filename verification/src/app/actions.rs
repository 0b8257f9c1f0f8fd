//! What the user can ask of a workspace.
use vstd::prelude::*;

verus! {

/// Selects the tab at a place.
#[derive(Clone, Copy, Debug, PartialEq, Eq, Structural)]
pub struct SelectTab {
    pub index: usize,
}

/// An action on the tabs.
#[derive(Clone, Copy, Debug, PartialEq, Eq, Structural)]
pub enum TabAction {
    NewTab,
    CloseActiveTab,
    SelectNextTab,
    SelectPreviousTab,
    Select(SelectTab),
}

/// The action of a digit key: the keys 1 to 9 select the first nine tabs.
pub fn action_of_digit(digit: u8) -> (action: Option<TabAction>)
    ensures
        action == if 1 <= digit <= 9 {
            Some(TabAction::Select(SelectTab { index: (digit - 1) as usize }))
        } else {
            None
        },
{
    if digit >= 1 && digit <= 9 {
        Some(TabAction::Select(SelectTab { index: (digit - 1) as usize }))
    } else {
        None
    }
}

} // verus!
