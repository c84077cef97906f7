use vstd::prelude::*;

verus! {

/// The quit control of the title bar was clicked.
#[derive(Clone, Copy, Debug, PartialEq, Eq, Structural)]
pub struct QuitClicked;

/// Something happened in the title bar.
#[derive(Clone, Copy, Debug, PartialEq, Eq, Structural)]
pub struct Event;

/// The title bar's state: the title it shows.
#[derive(Debug, Clone)]
pub struct TitleBar {
    title: String,
}

impl TitleBar {
    pub closed spec fn spec_title(&self) -> Seq<char> {
        self.title@
    }

    pub fn new(title: String) -> (r: TitleBar)
        ensures
            r.spec_title() == title@,
    {
        TitleBar { title }
    }

    pub fn set_title(&mut self, title: String)
        ensures
            final(self).spec_title() == title@,
    {
        self.title = title;
    }

    pub fn title(&self) -> (r: &str)
        ensures
            r@ == self.spec_title(),
    {
        self.title.as_str()
    }
}

} // verus!
