//! The refresh policy of a mailbox view as a state machine.

use vstd::prelude::*;
use crate::model::Email;

verus! {

/// Where the refresh of one mailbox view stands.
#[derive(Clone, Copy, Debug, PartialEq, Eq, Structural)]
pub enum SyncPhase {
    /// Nothing has happened yet.
    ColdStart,
    /// The cached messages are being read.
    LoadingCache,
    /// The server is being asked for messages.
    Fetching,
    /// Fetched messages are being written to the cache.
    Saving,
    /// The whole cached set is being read back after a save.
    Reloading,
    /// Waiting for the timer or a manual refresh.
    Idle,
}

/// What the host reports to the orchestrator.
pub enum SyncEvent {
    /// The view is opened.
    Open,
    /// The cache was read.
    CacheLoaded(Vec<Email>),
    /// The cache could not be read.
    CacheFailed(String),
    /// The server returned these new messages.
    Fetched(Vec<Email>),
    /// The connection, login or search failed.
    FetchFailed(String),
    /// The fetched messages and the index were written.
    Saved,
    /// Writing to the cache failed.
    SaveFailed(String),
    /// The cache was read back after a save.
    Reloaded(Vec<Email>),
    /// Reading the cache back failed.
    ReloadFailed(String),
    /// The periodic timer fired.
    TimerTick,
    /// The user asked for a refresh.
    ManualRefresh,
}

/// What the host is to do next.
pub enum SyncAction {
    /// Read the cached messages.
    LoadCache,
    /// Show these cached messages, then fetch what is new since the last
    /// synchronisation, leaving out the stored ids.
    ShowAndRefresh(Vec<Email>),
    /// Fetch the most recent messages of the mailbox: the cache is empty.
    FetchAll,
    /// Fetch what is new since the last synchronisation, leaving out the
    /// stored ids.
    FetchNew,
    /// Store these messages and the index.
    Save(Vec<Email>),
    /// Read the whole cached set back.
    Reload,
    /// Show these messages, read back from the cache.
    Show(Vec<Email>),
    /// Report this error: there is no cached view to fall back on, or a
    /// save failed.
    Fail(String),
    /// Nothing to do.
    Nothing,
}

/// The refresh policy of one mailbox view. It is the single writer of the
/// cache: a timer tick or a manual refresh that arrives while a refresh is
/// under way is absorbed by that refresh instead of racing it.
pub struct SyncOrchestrator {
    pub phase: SyncPhase,
    /// A view (cached or merged) has been shown.
    pub showing: bool,
}

/// The phase, the showing flag and the action that follow `event` in
/// `phase`; events that do not fit the phase change nothing.
pub open spec fn transition(phase: SyncPhase, showing: bool, event: SyncEvent) -> (SyncPhase, bool, SyncAction) {
    match (phase, event) {
        (SyncPhase::ColdStart, SyncEvent::Open) => (SyncPhase::LoadingCache, showing, SyncAction::LoadCache),
        (SyncPhase::LoadingCache, SyncEvent::CacheLoaded(v)) => if v@.len() > 0 {
            (SyncPhase::Fetching, true, SyncAction::ShowAndRefresh(v))
        } else {
            (SyncPhase::Fetching, showing, SyncAction::FetchAll)
        },
        (SyncPhase::LoadingCache, SyncEvent::CacheFailed(_)) => (SyncPhase::Fetching, showing, SyncAction::FetchAll),
        (SyncPhase::Fetching, SyncEvent::Fetched(v)) => (SyncPhase::Saving, showing, SyncAction::Save(v)),
        (SyncPhase::Fetching, SyncEvent::FetchFailed(e)) => if showing {
            (SyncPhase::Idle, showing, SyncAction::Nothing)
        } else {
            (SyncPhase::Idle, showing, SyncAction::Fail(e))
        },
        (SyncPhase::Saving, SyncEvent::Saved) => (SyncPhase::Reloading, showing, SyncAction::Reload),
        (SyncPhase::Saving, SyncEvent::SaveFailed(e)) => (SyncPhase::Idle, showing, SyncAction::Fail(e)),
        (SyncPhase::Reloading, SyncEvent::Reloaded(v)) => (SyncPhase::Idle, true, SyncAction::Show(v)),
        (SyncPhase::Reloading, SyncEvent::ReloadFailed(e)) => if showing {
            (SyncPhase::Idle, showing, SyncAction::Nothing)
        } else {
            (SyncPhase::Idle, showing, SyncAction::Fail(e))
        },
        (SyncPhase::Idle, SyncEvent::TimerTick) => (SyncPhase::Fetching, showing, SyncAction::FetchNew),
        (SyncPhase::Idle, SyncEvent::ManualRefresh) => (SyncPhase::Fetching, showing, SyncAction::FetchNew),
        (p, _) => (p, showing, SyncAction::Nothing),
    }
}

impl SyncOrchestrator {
    /// An orchestrator before the view is opened.
    pub fn new() -> (r: SyncOrchestrator)
        ensures
            r.phase == SyncPhase::ColdStart,
            !r.showing,
    {
        SyncOrchestrator { phase: SyncPhase::ColdStart, showing: false }
    }

    /// Whether a refresh is under way, so that the cache is being written or
    /// about to be.
    pub fn is_busy(&self) -> (r: bool)
        ensures
            r == (self.phase == SyncPhase::Fetching || self.phase == SyncPhase::Saving || self.phase
                == SyncPhase::Reloading),
    {
        match self.phase {
            SyncPhase::Fetching | SyncPhase::Saving | SyncPhase::Reloading => true,
            _ => false,
        }
    }

    /// Takes in one event and says what to do next.
    pub fn on_event(&mut self, event: SyncEvent) -> (r: SyncAction)
        ensures
            (final(self).phase, final(self).showing, r) == transition(old(self).phase, old(self).showing, event),
    {
        let showing = self.showing;
        match (self.phase, event) {
            (SyncPhase::ColdStart, SyncEvent::Open) => {
                self.phase = SyncPhase::LoadingCache;
                SyncAction::LoadCache
            },
            (SyncPhase::LoadingCache, SyncEvent::CacheLoaded(v)) => {
                self.phase = SyncPhase::Fetching;
                if v.len() > 0 {
                    self.showing = true;
                    SyncAction::ShowAndRefresh(v)
                } else {
                    SyncAction::FetchAll
                }
            },
            (SyncPhase::LoadingCache, SyncEvent::CacheFailed(_)) => {
                self.phase = SyncPhase::Fetching;
                SyncAction::FetchAll
            },
            (SyncPhase::Fetching, SyncEvent::Fetched(v)) => {
                self.phase = SyncPhase::Saving;
                SyncAction::Save(v)
            },
            (SyncPhase::Fetching, SyncEvent::FetchFailed(e)) => {
                self.phase = SyncPhase::Idle;
                if showing {
                    SyncAction::Nothing
                } else {
                    SyncAction::Fail(e)
                }
            },
            (SyncPhase::Saving, SyncEvent::Saved) => {
                self.phase = SyncPhase::Reloading;
                SyncAction::Reload
            },
            (SyncPhase::Saving, SyncEvent::SaveFailed(e)) => {
                self.phase = SyncPhase::Idle;
                SyncAction::Fail(e)
            },
            (SyncPhase::Reloading, SyncEvent::Reloaded(v)) => {
                self.phase = SyncPhase::Idle;
                self.showing = true;
                SyncAction::Show(v)
            },
            (SyncPhase::Reloading, SyncEvent::ReloadFailed(e)) => {
                self.phase = SyncPhase::Idle;
                if showing {
                    SyncAction::Nothing
                } else {
                    SyncAction::Fail(e)
                }
            },
            (SyncPhase::Idle, SyncEvent::TimerTick) => {
                self.phase = SyncPhase::Fetching;
                SyncAction::FetchNew
            },
            (SyncPhase::Idle, SyncEvent::ManualRefresh) => {
                self.phase = SyncPhase::Fetching;
                SyncAction::FetchNew
            },
            (_, _) => SyncAction::Nothing,
        }
    }
}

/// Refreshes never overlap: a timer tick or a manual refresh starts a fetch
/// only from the idle phase, and any other event leaves the idle phase only
/// through such a trigger.
pub proof fn lemma_single_writer(phase: SyncPhase, showing: bool, event: SyncEvent)
    ensures
        transition(phase, showing, event).2 is FetchNew ==> phase == SyncPhase::Idle,
        phase == SyncPhase::Idle && transition(phase, showing, event).0 != SyncPhase::Idle ==> (event is TimerTick
            || event is ManualRefresh),
        phase != SyncPhase::Idle && phase != SyncPhase::ColdStart && phase != SyncPhase::LoadingCache && (
        event is TimerTick || event is ManualRefresh) ==> transition(phase, showing, event).0 == phase,
{
}

/// A failed fetch surfaces its error only when no view has been shown; a
/// shown view is kept.
pub proof fn lemma_fetch_failure_keeps_view(showing: bool, e: String)
    ensures
        showing ==> transition(SyncPhase::Fetching, showing, SyncEvent::FetchFailed(e)).2 is Nothing,
        !showing ==> transition(SyncPhase::Fetching, showing, SyncEvent::FetchFailed(e)).2 == SyncAction::Fail(e),
        transition(SyncPhase::Fetching, showing, SyncEvent::FetchFailed(e)).1 == showing,
{
}

} // verus!
