//! The active-journal selection: an explicit context value holding the
//! global journal path, the optional project journal path, and which of the
//! two is active.  Callers construct it once and pass it into every storage
//! call; switching the active slot never touches the paths.

use vstd::prelude::*;

verus! {

/// Which journal a context points at.
#[derive(Debug, Clone, Copy, PartialEq, Eq, Structural)]
pub enum JournalSlot {
    Global,
    Project,
}

/// The journal selection: both candidate paths and the active slot.
#[derive(Debug, Clone)]
pub struct JournalContext {
    pub global_path: String,
    pub project_path: Option<String>,
    pub active: JournalSlot,
}

/// Builds the journal selection from its parts.
pub fn set_journal_context(global: String, project: Option<String>, active: JournalSlot) -> (r:
    JournalContext)
    ensures
        r.global_path@ == global@,
        r.project_path is Some <==> project is Some,
        project is Some ==> r.project_path->0@ == project->0@,
        r.active == active,
{
    JournalContext { global_path: global, project_path: project, active }
}

impl JournalContext {
    /// The currently active slot.
    pub fn get_active_slot(&self) -> (r: JournalSlot)
        ensures
            r == self.active,
    {
        self.active
    }

    /// Switches the active slot; the paths stay as they were.
    pub fn set_active_slot(&mut self, slot: JournalSlot)
        ensures
            final(self).active == slot,
            final(self).global_path == old(self).global_path,
            final(self).project_path == old(self).project_path,
    {
        self.active = slot;
    }

    /// The project journal path, when one is known.
    pub fn get_project_path(&self) -> (r: Option<String>)
        ensures
            r is Some <==> self.project_path is Some,
            r is Some ==> r->0@ == self.project_path->0@,
    {
        match &self.project_path {
            Some(p) => Some(p.clone()),
            None => None,
        }
    }

    /// Records the project journal path; the active slot stays as it was.
    pub fn set_project_path(&mut self, path: String)
        ensures
            final(self).project_path == Some(path),
            final(self).global_path == old(self).global_path,
            final(self).active == old(self).active,
    {
        self.project_path = Some(path);
    }

    /// The path of the active journal: the project path when the project
    /// slot is active and a project path is known, the global path
    /// otherwise.
    pub fn get_active_journal_path(&self) -> (r: String)
        ensures
            r@ == match self.active {
                JournalSlot::Global => self.global_path@,
                JournalSlot::Project => match self.project_path {
                    Some(p) => p@,
                    None => self.global_path@,
                },
            },
    {
        match self.active {
            JournalSlot::Global => self.global_path.clone(),
            JournalSlot::Project => match &self.project_path {
                Some(p) => p.clone(),
                None => self.global_path.clone(),
            },
        }
    }
}

} // verus!
