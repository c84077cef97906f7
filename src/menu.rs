use vstd::prelude::*;

verus! {

/// A click on a menu entry.
#[derive(Clone, Copy, Debug, PartialEq, Eq, Structural)]
pub struct ClickMenuEvent;

/// Tells listeners whether the dropdown is now open.
#[derive(Clone, Copy, Debug, PartialEq, Eq, Structural)]
pub struct DropdownEvent {
    pub is_open: bool,
}

/// The menu bar's state: whether its dropdown is open.
#[derive(Clone, Copy, Debug, PartialEq, Eq, Structural)]
pub struct MenuBar {
    is_dropdown_open: bool,
}

impl MenuBar {
    pub closed spec fn spec_is_dropdown_open(&self) -> bool {
        self.is_dropdown_open
    }

    pub fn new() -> (r: MenuBar)
        ensures
            !r.spec_is_dropdown_open(),
    {
        MenuBar { is_dropdown_open: false }
    }

    pub fn is_dropdown_open(&self) -> (r: bool)
        ensures
            r == self.spec_is_dropdown_open(),
    {
        self.is_dropdown_open
    }

    /// Opens a closed dropdown or closes an open one; the event to send tells which.
    pub fn toggle_dropdown(&mut self) -> (r: DropdownEvent)
        ensures
            final(self).spec_is_dropdown_open() == !old(self).spec_is_dropdown_open(),
            r == (DropdownEvent { is_open: final(self).spec_is_dropdown_open() }),
    {
        self.is_dropdown_open = !self.is_dropdown_open;
        DropdownEvent { is_open: self.is_dropdown_open }
    }

    /// Closes the dropdown; an event is to be sent only when it was open.
    pub fn close_dropdown(&mut self) -> (r: Option<DropdownEvent>)
        ensures
            !final(self).spec_is_dropdown_open(),
            r == if old(self).spec_is_dropdown_open() {
                Some(DropdownEvent { is_open: false })
            } else {
                None
            },
    {
        if self.is_dropdown_open {
            self.is_dropdown_open = false;
            Some(DropdownEvent { is_open: false })
        } else {
            None
        }
    }
}

} // verus!
