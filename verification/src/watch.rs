//! How the watchers of the configuration file and of the templates react to
//! what the file system reports.
use vstd::prelude::*;

verus! {

/// What the file watcher reported.
pub enum WatchEvent {
    /// A file was created or modified.
    Modified,
    /// Some other change (access, removal, ...).
    Other,
    /// The watcher reported an error.
    Failed,
}

/// What a watcher does about an event.
pub enum WatchStep {
    /// Wait a moment, drop the events that follow, then reload.
    Reload,
    /// Nothing.
    Ignore,
    /// Report the watcher's error and go on waiting.
    ReportError,
}

/// How reloading the configuration went.
pub enum ReloadOutcome {
    /// A new configuration, different from the old one, took its place.
    Replaced,
    /// The file held the configuration already in use.
    Unchanged,
    /// The file could not be read or parsed.
    Failed,
}

/// What a watcher does about `event`: a creation or modification is reloaded,
/// an error reported, anything else ignored.
pub open spec fn step_of(event: WatchEvent) -> WatchStep {
    match event {
        WatchEvent::Modified => WatchStep::Reload,
        WatchEvent::Other => WatchStep::Ignore,
        WatchEvent::Failed => WatchStep::ReportError,
    }
}

/// The outcome of reloading: failed where the new configuration could not
/// be loaded, else replaced or unchanged as the configuration changed or not.
pub open spec fn outcome_of(loaded: bool, changed: bool) -> ReloadOutcome {
    if !loaded {
        ReloadOutcome::Failed
    } else if changed {
        ReloadOutcome::Replaced
    } else {
        ReloadOutcome::Unchanged
    }
}

/// Whether the configuration watcher goes on waiting after a reload with
/// outcome `o`.
pub open spec fn keeps_after(o: ReloadOutcome) -> bool {
    !(o is Replaced)
}

/// Whether the configuration watcher goes on waiting after `event`, where
/// reloading (done only when the event calls for it) would report `loaded`
/// and `changed`.
pub open spec fn config_watch_continues(event: WatchEvent, loaded: bool, changed: bool) -> bool {
    step_of(event) is Reload ==> keeps_after(outcome_of(loaded, changed))
}

/// The configuration watcher stops waiting (so that the server restarts)
/// exactly after a creation or modification of the file whose reload loaded
/// a configuration different from the one in use; every other event, a
/// failed reload and an unchanged configuration keep it waiting. The
/// templates watcher reloads the changed files exactly on a creation or
/// modification.
pub proof fn lemma_watchers_react_only_to_changes(event: WatchEvent, loaded: bool, changed: bool)
    ensures
        !config_watch_continues(event, loaded, changed) <==> (event is Modified && loaded
            && changed),
        step_of(event) is Reload <==> event is Modified,
{
}

/// An event after which the configuration watcher stops: a creation or
/// modification whose reload loaded a configuration different from the one in
/// use (the event, whether the reload loaded one, whether it changed).
pub open spec fn stops_watch(e: (WatchEvent, bool, bool)) -> bool {
    e.0 is Modified && e.1 && e.2
}

/// Where a run of the configuration watcher over `events` stops: the index of
/// the first event after which it does not go on waiting, if there is one.
pub open spec fn config_watch_stop(events: Seq<(WatchEvent, bool, bool)>) -> Option<int>
    decreases events.len(),
{
    if events.len() == 0 {
        None
    } else if !config_watch_continues(events[0].0, events[0].1, events[0].2) {
        Some(0)
    } else {
        match config_watch_stop(events.drop_first()) {
            Some(i) => Some(i + 1),
            None => None,
        }
    }
}

/// Over a whole run of events, the configuration watcher stops at the first
/// creation or modification whose reload loaded a changed configuration, and
/// keeps waiting through every event where there is none.
pub proof fn lemma_config_watch_run(events: Seq<(WatchEvent, bool, bool)>)
    ensures
        match config_watch_stop(events) {
            Some(i) => 0 <= i < events.len() && stops_watch(events[i]) && forall|j: int|
                0 <= j < i ==> !stops_watch(#[trigger] events[j]),
            None => forall|j: int| 0 <= j < events.len() ==> !stops_watch(#[trigger] events[j]),
        },
    decreases events.len(),
{
    if events.len() > 0 {
        lemma_watchers_react_only_to_changes(events[0].0, events[0].1, events[0].2);
        if config_watch_continues(events[0].0, events[0].1, events[0].2) {
            let rest = events.drop_first();
            lemma_config_watch_run(rest);
            assert forall|j: int| 1 <= j < events.len() implies events[j] == rest[j - 1] by {}
        }
    }
}

/// What a watcher does about `event`.
pub fn step_for(event: &WatchEvent) -> (r: WatchStep)
    ensures
        r == step_of(*event),
        event is Modified <==> r is Reload,
        event is Failed <==> r is ReportError,
        event is Other <==> r is Ignore,
{
    match event {
        WatchEvent::Modified => WatchStep::Reload,
        WatchEvent::Other => WatchStep::Ignore,
        WatchEvent::Failed => WatchStep::ReportError,
    }
}

/// Whether the configuration watcher goes on waiting after a reload: it stops,
/// so that the server restarts, only once a changed configuration is in place.
pub fn keep_watching(outcome: &ReloadOutcome) -> (r: bool)
    ensures
        r == keeps_after(*outcome),
        r <==> !(outcome is Replaced),
{
    match outcome {
        ReloadOutcome::Replaced => false,
        ReloadOutcome::Unchanged => true,
        ReloadOutcome::Failed => true,
    }
}

/// How reloading went, from whether it loaded a configuration and whether
/// that differed from the one in use.
pub fn reload_outcome(loaded: bool, changed: bool) -> (r: ReloadOutcome)
    ensures
        r == outcome_of(loaded, changed),
        !loaded ==> r is Failed,
        loaded && changed ==> r is Replaced,
        loaded && !changed ==> r is Unchanged,
{
    if !loaded {
        ReloadOutcome::Failed
    } else if changed {
        ReloadOutcome::Replaced
    } else {
        ReloadOutcome::Unchanged
    }
}

} // verus!
