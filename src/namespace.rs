use vstd::prelude::*;
use crate::error::Error;

verus! {

/// How many times deletion of a namespace is checked, a second apart, before it is forced.
pub const DELETION_POLLS: u8 = 10;

/// Where the deletion of a namespace stands.
#[derive(Clone, Copy, Debug, PartialEq, Eq, Structural)]
pub enum DeletionPhase {
    /// The first delete request is out.
    Deleting,
    /// Checking whether the namespace is gone; this many checks are left.
    Waiting(u8),
    /// The request clearing its finalizers is out.
    ClearingFinalizers,
    /// The delete request without grace period is out.
    ForceDeleting,
    /// Checking after the forced delete; this many checks are left.
    WaitingAfterForce(u8),
    Done,
}

/// What the cluster answered to the last request.
#[derive(Debug)]
pub enum NamespaceEvent {
    /// The request succeeded; for a delete, the namespace is gone already.
    Gone,
    /// The request succeeded and the namespace is still there (a delete in progress,
    /// or a namespace found by a check).
    Present,
    /// The namespace does not exist (404).
    NotFound,
    /// The request failed otherwise.
    Failed(String),
}

/// What to do next to delete a namespace.
#[derive(Debug)]
pub enum NamespaceAction {
    /// Check whether the namespace still exists; sleep a second after finding it.
    Check,
    /// Clear the namespace's finalizers with a merge patch.
    ClearFinalizers,
    /// Delete the namespace with grace period zero.
    ForceDelete,
    /// The deletion is over.
    Finished(Result<(), Error>),
}

/// Kinds of event, as the transition function reads them.
pub enum EventKind {
    Gone,
    Present,
    NotFound,
    Failed,
}

pub open spec fn event_kind(e: NamespaceEvent) -> EventKind {
    match e {
        NamespaceEvent::Gone => EventKind::Gone,
        NamespaceEvent::Present => EventKind::Present,
        NamespaceEvent::NotFound => EventKind::NotFound,
        NamespaceEvent::Failed(_) => EventKind::Failed,
    }
}

/// Kinds of action: `Finished(true)` for success.
pub enum ActionKind {
    Check,
    ClearFinalizers,
    ForceDelete,
    Finished(bool),
}

pub open spec fn action_kind(a: NamespaceAction) -> ActionKind {
    match a {
        NamespaceAction::Check => ActionKind::Check,
        NamespaceAction::ClearFinalizers => ActionKind::ClearFinalizers,
        NamespaceAction::ForceDelete => ActionKind::ForceDelete,
        NamespaceAction::Finished(r) => ActionKind::Finished(r is Ok),
    }
}

/// The next phase and action after `e` answered the request of phase `p`. A graceful delete
/// that leaves the namespace in place is checked up to ten times; if it is still there, its
/// finalizers are cleared and it is deleted without grace, then checked again. A namespace
/// that is already gone is fine; a failed request ends the deletion with its error.
pub open spec fn deletion_step(p: DeletionPhase, e: EventKind) -> (DeletionPhase, ActionKind) {
    match p {
        DeletionPhase::Deleting => match e {
            EventKind::Gone | EventKind::NotFound => (DeletionPhase::Done, ActionKind::Finished(true)),
            EventKind::Present => (DeletionPhase::Waiting(DELETION_POLLS), ActionKind::Check),
            EventKind::Failed => (DeletionPhase::Done, ActionKind::Finished(false)),
        },
        DeletionPhase::Waiting(k) => match e {
            EventKind::NotFound => (DeletionPhase::Done, ActionKind::Finished(true)),
            EventKind::Failed => (DeletionPhase::Done, ActionKind::Finished(false)),
            _ => if k > 1 {
                (DeletionPhase::Waiting((k - 1) as u8), ActionKind::Check)
            } else {
                (DeletionPhase::ClearingFinalizers, ActionKind::ClearFinalizers)
            },
        },
        DeletionPhase::ClearingFinalizers => match e {
            EventKind::Failed => (DeletionPhase::Done, ActionKind::Finished(false)),
            _ => (DeletionPhase::ForceDeleting, ActionKind::ForceDelete),
        },
        DeletionPhase::ForceDeleting => match e {
            EventKind::Gone | EventKind::Present => (
                DeletionPhase::WaitingAfterForce(DELETION_POLLS),
                ActionKind::Check,
            ),
            _ => (DeletionPhase::Done, ActionKind::Finished(false)),
        },
        DeletionPhase::WaitingAfterForce(k) => match e {
            EventKind::NotFound => (DeletionPhase::Done, ActionKind::Finished(true)),
            EventKind::Failed => (DeletionPhase::Done, ActionKind::Finished(false)),
            _ => if k > 1 {
                (DeletionPhase::WaitingAfterForce((k - 1) as u8), ActionKind::Check)
            } else {
                (DeletionPhase::Done, ActionKind::Finished(true))
            },
        },
        DeletionPhase::Done => (DeletionPhase::Done, ActionKind::Finished(true)),
    }
}

/// The deletion of a namespace, driven by the answers of the cluster. It begins with a
/// graceful delete request.
pub struct NamespaceDeletion {
    pub phase: DeletionPhase,
}

impl NamespaceDeletion {
    /// A deletion whose first (graceful) delete request is to be sent now.
    pub fn new() -> (r: NamespaceDeletion)
        ensures
            r.phase == DeletionPhase::Deleting,
    {
        NamespaceDeletion { phase: DeletionPhase::Deleting }
    }

    /// Takes the answer to the last request; see `deletion_step`.
    pub fn step(&mut self, event: NamespaceEvent) -> (r: NamespaceAction)
        ensures
            (final(self).phase, action_kind(r)) == deletion_step(old(self).phase, event_kind(event)),
            event matches NamespaceEvent::Failed(m) ==> (r matches NamespaceAction::Finished(Err(e))
                ==> (e matches Error::KubeError(x) && x == m)),
    {
        let (phase, action) = match self.phase {
            DeletionPhase::Deleting => match event {
                NamespaceEvent::Gone | NamespaceEvent::NotFound => (
                    DeletionPhase::Done,
                    NamespaceAction::Finished(Ok(())),
                ),
                NamespaceEvent::Present => (DeletionPhase::Waiting(DELETION_POLLS), NamespaceAction::Check),
                NamespaceEvent::Failed(m) => (
                    DeletionPhase::Done,
                    NamespaceAction::Finished(Err(Error::KubeError(m))),
                ),
            },
            DeletionPhase::Waiting(k) => match event {
                NamespaceEvent::NotFound => (DeletionPhase::Done, NamespaceAction::Finished(Ok(()))),
                NamespaceEvent::Failed(m) => (
                    DeletionPhase::Done,
                    NamespaceAction::Finished(Err(Error::KubeError(m))),
                ),
                _ => if k > 1 {
                    (DeletionPhase::Waiting(k - 1), NamespaceAction::Check)
                } else {
                    (DeletionPhase::ClearingFinalizers, NamespaceAction::ClearFinalizers)
                },
            },
            DeletionPhase::ClearingFinalizers => match event {
                NamespaceEvent::Failed(m) => (
                    DeletionPhase::Done,
                    NamespaceAction::Finished(Err(Error::KubeError(m))),
                ),
                _ => (DeletionPhase::ForceDeleting, NamespaceAction::ForceDelete),
            },
            DeletionPhase::ForceDeleting => match event {
                NamespaceEvent::Gone | NamespaceEvent::Present => (
                    DeletionPhase::WaitingAfterForce(DELETION_POLLS),
                    NamespaceAction::Check,
                ),
                NamespaceEvent::Failed(m) => (
                    DeletionPhase::Done,
                    NamespaceAction::Finished(Err(Error::KubeError(m))),
                ),
                NamespaceEvent::NotFound => (
                    DeletionPhase::Done,
                    NamespaceAction::Finished(Err(Error::KubeError(String::from_str("404 Not Found")))),
                ),
            },
            DeletionPhase::WaitingAfterForce(k) => match event {
                NamespaceEvent::NotFound => (DeletionPhase::Done, NamespaceAction::Finished(Ok(()))),
                NamespaceEvent::Failed(m) => (
                    DeletionPhase::Done,
                    NamespaceAction::Finished(Err(Error::KubeError(m))),
                ),
                _ => if k > 1 {
                    (DeletionPhase::WaitingAfterForce(k - 1), NamespaceAction::Check)
                } else {
                    (DeletionPhase::Done, NamespaceAction::Finished(Ok(())))
                },
            },
            DeletionPhase::Done => (DeletionPhase::Done, NamespaceAction::Finished(Ok(()))),
        };
        self.phase = phase;
        action
    }
}

} // verus!
