//! The reconciler's decision logic.  Every few seconds the surrounding
//! program reads the OS auto-config URL and hands the observation here; the
//! step function decides whether the foreign PAC must be absorbed and our
//! URL restored.  Performing the absorption and the OS write is plumbing
//! outside the library.

use vstd::prelude::*;

verus! {

/// The reconciler's memory between ticks: the auto-config URL last seen on
/// the OS, if any tick could read one yet.
pub struct ReconcileState {
    pub last_observed: Option<String>,
}

/// What a tick asks the surrounding program to do.
#[derive(Debug)]
pub enum ReconcileAction {
    /// Nothing to do this tick.
    Wait,
    /// Fetch the named foreign PAC, ingest it into the document, persist, and
    /// write the master PAC URL back to the OS.
    AbsorbAndRestore(String),
}

impl ReconcileState {
    /// The state before the first tick: nothing observed yet.
    pub fn initial() -> (r: ReconcileState)
        ensures
            r.last_observed is None,
    {
        ReconcileState { last_observed: None }
    }

    /// One reconciler tick.  `observed` is the OS auto-config URL, `None`
    /// when the read failed; `master_url` is ours.  A failed read changes
    /// nothing.  An observation equal to our URL, or equal to the last one
    /// seen, is only recorded.  Anything else is drift: the foreign URL is
    /// absorbed and our URL restored.
    pub fn tick(&mut self, observed: Option<String>, master_url: &String) -> (r: ReconcileAction)
        ensures
            match observed {
                None => final(self).last_observed == old(self).last_observed && r is Wait,
                Some(current) => {
                    &&& final(self).last_observed matches Some(l) && l@ == current@
                    &&& if current@ != master_url@ && !(old(self).last_observed matches Some(prev)
                        && prev@ == current@) {
                        r matches ReconcileAction::AbsorbAndRestore(u) && u@ == current@
                    } else {
                        r is Wait
                    }
                },
            },
    {
        match observed {
            None => ReconcileAction::Wait,
            Some(current) => {
                let drifted = if current == *master_url {
                    false
                } else {
                    match &self.last_observed {
                        Some(prev) => !(*prev == current),
                        None => true,
                    }
                };
                let action = if drifted {
                    ReconcileAction::AbsorbAndRestore(current.clone())
                } else {
                    ReconcileAction::Wait
                };
                self.last_observed = Some(current);
                action
            },
        }
    }
}

} // verus!
