//! The decisions of the viewer: what each user action or finished load
//! does to the state shown, and which outside work comes next.

use std::path::PathBuf;

use vstd::prelude::*;

use crate::model::UserMeasurements;
use crate::pairing::TanitaValidationError;

verus! {

/// What happens to the viewer.
#[derive(Debug)]
pub enum Message {
    /// The user asked to choose an export folder.
    PickFileOrFolder,
    /// The folder dialog closed, with the chosen folder or without one.
    PathPicked(Option<PathBuf>),
    /// The user chose the tab at this position.
    TabSelected(usize),
    /// The load with this ticket finished.
    Loaded(u64, Result<Vec<UserMeasurements>, TanitaValidationError>),
}

/// The outside work that the viewer asks for after a message.
#[derive(Debug)]
pub enum Effect {
    Nothing,
    /// Open the folder dialog.
    PickFolder,
    /// Load the export in this folder, under this ticket.
    Load(u64, PathBuf),
    /// Tell the user that the load failed; what was shown stays.
    Report(TanitaValidationError),
}

/// The state of the viewer: the users of the last load, the tab shown, and
/// the ticket of the load that is awaited.
pub struct Application {
    pub measurements: Vec<UserMeasurements>,
    pub selected_tab: usize,
    pub load_ticket: u64,
}

/// The ticket after `t`.
pub open spec fn next_ticket(t: u64) -> u64 {
    if t == u64::MAX {
        0
    } else {
        (t + 1) as u64
    }
}

impl Application {
    /// Nothing loaded, the first tab chosen.
    pub fn new() -> (r: Application)
        ensures
            r.measurements@.len() == 0,
            r.selected_tab == 0,
            r.load_ticket == 0,
    {
        Application { measurements: Vec::new(), selected_tab: 0, load_ticket: 0 }
    }

    /// The user whose tab is chosen, if there is one at that position.
    pub fn selected(&self) -> (r: Option<&UserMeasurements>)
        ensures
            self.selected_tab < self.measurements@.len() ==> r == Some(
                &self.measurements@[self.selected_tab as int],
            ),
            self.selected_tab >= self.measurements@.len() ==> r is None,
    {
        if self.selected_tab < self.measurements.len() {
            Some(&self.measurements[self.selected_tab])
        } else {
            None
        }
    }

    /// Takes a message and says what to do next. Choosing a folder starts
    /// a load under a new ticket, which supersedes any load still running;
    /// a finished load counts only if its ticket is the latest, and then
    /// replaces all users shown (and shows the first) or, if it failed, is
    /// reported while what was shown stays. Choosing a tab moves only the
    /// cursor.
    pub fn update(&mut self, message: Message) -> (e: Effect)
        ensures
            match message {
                Message::PickFileOrFolder => e is PickFolder && *final(self) == *old(self),
                Message::PathPicked(None) => e is Nothing && *final(self) == *old(self),
                Message::PathPicked(Some(p)) => e == Effect::Load(
                    next_ticket(old(self).load_ticket),
                    p,
                ) && final(self).load_ticket == next_ticket(old(self).load_ticket)
                    && final(self).measurements == old(self).measurements
                    && final(self).selected_tab == old(self).selected_tab,
                Message::TabSelected(i) => e is Nothing && final(self).selected_tab == i
                    && final(self).measurements == old(self).measurements
                    && final(self).load_ticket == old(self).load_ticket,
                Message::Loaded(t, res) => if t != old(self).load_ticket {
                    e is Nothing && *final(self) == *old(self)
                } else {
                    match res {
                        Ok(users) => e is Nothing && final(self).measurements == users
                            && final(self).selected_tab == 0 && final(self).load_ticket
                            == old(self).load_ticket,
                        Err(err) => e == Effect::Report(err) && *final(self) == *old(self),
                    }
                },
            },
    {
        match message {
            Message::PickFileOrFolder => Effect::PickFolder,
            Message::PathPicked(None) => Effect::Nothing,
            Message::PathPicked(Some(p)) => {
                self.load_ticket = if self.load_ticket == u64::MAX {
                    0
                } else {
                    self.load_ticket + 1
                };
                Effect::Load(self.load_ticket, p)
            },
            Message::TabSelected(i) => {
                self.selected_tab = i;
                Effect::Nothing
            },
            Message::Loaded(t, res) => {
                if t != self.load_ticket {
                    return Effect::Nothing;
                }
                match res {
                    Ok(users) => {
                        self.measurements = users;
                        self.selected_tab = 0;
                        Effect::Nothing
                    },
                    Err(err) => Effect::Report(err),
                }
            },
        }
    }
}

} // verus!
