use vstd::prelude::*;

verus! {

#[derive(Clone, Copy, PartialEq, Eq, Structural, Debug)]
pub enum MenuSelection {
    NewGame,
    LoadGame,
    Quit,
    Continue,
    SaveGame,
}

/// A vertical menu with a highlighted entry and, once chosen, the chosen entry.
pub struct Menu {
    pub selections: Vec<MenuSelection>,
    pub current_selection: usize,
    pub processed_selection: Option<MenuSelection>,
}

impl Menu {
    /// The entries, top to bottom.
    pub open spec fn entries(&self) -> Seq<MenuSelection> {
        self.selections@
    }

    /// At least one entry, and the highlight is on one of them.
    pub open spec fn wf(&self) -> bool {
        self.entries().len() > 0 && self.current_selection < self.entries().len()
    }

    pub fn main_menu() -> (r: Menu)
        ensures
            r.wf(),
            r.entries() == seq![MenuSelection::NewGame, MenuSelection::LoadGame, MenuSelection::Quit],
            r.current_selection == 0,
            r.processed_selection is None,
    {
        let r = Menu {
            selections: vec![MenuSelection::NewGame, MenuSelection::LoadGame, MenuSelection::Quit],
            current_selection: 0,
            processed_selection: None,
        };
        assert(r.selections@ =~= seq![MenuSelection::NewGame, MenuSelection::LoadGame, MenuSelection::Quit]);
        r
    }

    pub fn pause_menu() -> (r: Menu)
        ensures
            r.wf(),
            r.entries() == seq![
                MenuSelection::Continue,
                MenuSelection::SaveGame,
                MenuSelection::LoadGame,
                MenuSelection::Quit,
            ],
            r.current_selection == 0,
            r.processed_selection is None,
    {
        let r = Menu {
            selections: vec![
                MenuSelection::Continue,
                MenuSelection::SaveGame,
                MenuSelection::LoadGame,
                MenuSelection::Quit,
            ],
            current_selection: 0,
            processed_selection: None,
        };
        assert(r.selections@ =~= seq![
            MenuSelection::Continue,
            MenuSelection::SaveGame,
            MenuSelection::LoadGame,
            MenuSelection::Quit,
        ]);
        r
    }

    /// Moves the highlight down one entry, wrapping from the last to the first.
    pub fn cycle_selection_down(&mut self)
        requires
            old(self).wf(),
        ensures
            final(self).wf(),
            final(self).entries() == old(self).entries(),
            final(self).processed_selection == old(self).processed_selection,
            final(self).current_selection == if old(self).current_selection + 1 == old(self).entries().len() {
                0
            } else {
                old(self).current_selection + 1
            },
    {
        if self.current_selection != self.selections.len() - 1 {
            self.current_selection = self.current_selection + 1;
        } else {
            self.current_selection = 0;
        }
    }

    /// Moves the highlight up one entry, wrapping from the first to the last.
    pub fn cycle_selection_up(&mut self)
        requires
            old(self).wf(),
        ensures
            final(self).wf(),
            final(self).entries() == old(self).entries(),
            final(self).processed_selection == old(self).processed_selection,
            final(self).current_selection == if old(self).current_selection == 0 {
                old(self).entries().len() - 1
            } else {
                old(self).current_selection - 1
            },
    {
        if self.current_selection != 0 {
            self.current_selection = self.current_selection - 1;
        } else {
            self.current_selection = self.selections.len() - 1;
        }
    }

    /// Chooses the highlighted entry.
    pub fn process_selection(&mut self)
        requires
            old(self).wf(),
        ensures
            final(self).wf(),
            final(self).entries() == old(self).entries(),
            final(self).current_selection == old(self).current_selection,
            final(self).processed_selection == Some(old(self).entries()[old(self).current_selection as int]),
    {
        self.processed_selection = Some(self.selections[self.current_selection]);
    }
}

} // verus!
