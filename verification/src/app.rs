//! The application's page model: which top-level page is shown, which
//! context page the context drawer holds, and the actions its menu offers.

use vstd::prelude::*;

verus! {

/// The page to display in the application.
#[derive(PartialEq, Eq, Structural, Clone, Copy, Debug)]
pub enum Page {
    FigureDrawing,
    ReferenceBoard,
    ReferenceStore,
}

/// The context page to display in the context drawer.
#[derive(PartialEq, Eq, Structural, Clone, Copy, Debug)]
pub enum ContextPage {
    About,
}

impl Default for ContextPage {
    fn default() -> (r: Self)
        ensures
            r == ContextPage::About,
    {
        ContextPage::About
    }
}

impl ContextPage {
    /// The context drawer's title for this page.
    pub fn title(&self) -> (r: String)
        ensures
            r@ == "About"@,
    {
        match self {
            ContextPage::About => "About".to_owned(),
        }
    }
}

/// What toggling a context page does to the drawer: requesting the page
/// already shown flips the drawer, requesting another page shows it.
pub fn toggle_context_page(current: ContextPage, requested: ContextPage, showing: bool) -> (r: (
    ContextPage,
    bool,
))
    ensures
        r == (if current == requested {
            (current, !showing)
        } else {
            (requested, true)
        }),
{
    if current == requested {
        (current, !showing)
    } else {
        (requested, true)
    }
}

/// The actions the menu bar offers.
#[derive(PartialEq, Eq, Structural, Clone, Copy, Debug)]
pub enum MenuAction {
    About,
}

impl MenuAction {
    /// The context page a menu action toggles.
    pub fn context_page(&self) -> (r: ContextPage)
        ensures
            r == ContextPage::About,
    {
        match self {
            MenuAction::About => ContextPage::About,
        }
    }
}

} // verus!
